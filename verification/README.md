# wingman_core

The verified core of Wingman, a terminal for Windows. At a validated PowerShell prompt its
runner ("Familiar") claims lines that start with `pwd`, `clear`, `which`, `ls`/`ll`, `find`,
`cat`, `head`, `tail`, `wc`, `grep`, `sort`, `uniq`, `mkdir`, `touch`, `cp`, `mv` or `rm`, and
either runs them or refuses them with a diagnostic; other lines, and every line in `cmd.exe`,
go to the shell unchanged.

## Layout

- `src/` — the library, written in Verus. Every function has a contract that Verus proves:
  - `lexer`, `parser` and `catalog` turn a submitted line into a plan; `interpreter` validates plans and
    prepared requests; `submission` decides which lines the runner takes and prepares requests.
  - `terminal_session`, `shell_adapter`, `transport`, `bridge` and `session_runtime` follow the shell's
    prompt, the line being edited and the frames exchanged with the shell integration.
  - `text_stream`, `ordered_pipeline`, `ordered_stage`, `sort_support`, `pipeline` and
    `runner_readonly` frame records and run the read-only pipelines (`cat`, `head`, `tail`, `wc`,
    `grep`, `sort`, `uniq`).
  - `runner`, `runner_mkdir`, `runner_touch`, `runner_copy`, `runner_walk`, `runner_ls`,
    `runner_which`, `runner_search`, `runner_follow` and `runner_mutation` hold the decisions of the
    command runners: what they write, which diagnostics, which exit codes.
  - Public `law_*` proof functions state properties that span several calls.
- `app/` — the runner program: it reads a prepared request, does the file-system and console I/O,
  and carries out what the library decides.
- `tests/` — tests of the library on concrete values.

The library uses the `regex` and `uuid` crates through small trusted wrappers whose contracts
say what those crates document.
