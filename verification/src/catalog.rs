//! The catalog of read-only Familiar commands: options, operands and pipeline shape.

use vstd::prelude::*;
use crate::grep_pattern::{grep_compile_outcome, GrepPatternV1};
use crate::interpreter::{
    opt_path_view, paths_view, spec_validate_plan, validate_execution_plan, ExecutionPlanV1,
    RedirectModeV1, RunnerRequestValidationErrorV1, SpecPlan, SpecRedirectPlan, SpecStage,
    StagePlanV1, ValidatedRedirectPlanV1, stages_view,
};
use crate::parser::{ParsedCommandV1, ParsedLineV1, ParsedRedirectModeV1, SpecCommand, SpecParsedLine};
use crate::text::{all_digits, chars_of, contains_char, has_char, eq_ignore_case, eq_ignore_case_str, eq_str, is_digit, strings_view, suffix_eq_str};
use crate::windows_path::{spec_validate_path, validate_path_value, PathValidationErrorV1, SpecPath, ValidatedPathSpecV1};

verus! {

#[derive(Clone, Debug, Eq, PartialEq)]
pub enum CatalogErrorV1 {
    UnsupportedCommand,
    UnsupportedOption,
    MissingOperand,
    InvalidCount,
    InvalidSourceShape,
    InvalidPattern,
    ResourceLimit,
    Path(PathValidationErrorV1),
}

/// Validates a path operand and appends it.
pub open spec fn add_operand(paths: Seq<SpecPath>, a: Seq<char>) -> Result<Seq<SpecPath>, CatalogErrorV1> {
    match spec_validate_path(a) {
        Ok(p) => Ok(paths.push(p)),
        Err(e) => Err(CatalogErrorV1::Path(e)),
    }
}

/// The input of a stage: exactly one path for the first stage, none after a pipe.
pub open spec fn source_shape(has_pipeline_input: bool, paths: Seq<SpecPath>) -> Result<Option<SpecPath>, CatalogErrorV1> {
    if has_pipeline_input {
        if paths.len() != 0 { Err(CatalogErrorV1::InvalidSourceShape) } else { Ok(None) }
    } else if paths.len() != 1 {
        Err(CatalogErrorV1::InvalidSourceShape)
    } else {
        Ok(Some(paths[0]))
    }
}

pub open spec fn dashdash() -> Seq<char> {
    seq!['-', '-']
}

pub open spec fn is_long(a: Seq<char>) -> bool {
    a.len() >= 2 && a[0] == '-' && a[1] == '-'
}

/// Three switches given by long names or single letters.
pub struct FlagNames {
    pub longs: (Seq<char>, Seq<char>, Seq<char>),
    pub shorts: (char, char, char),
}

pub open spec fn is_one_of(c: char, shorts: (char, char, char)) -> bool {
    c == shorts.0 || c == shorts.1 || c == shorts.2
}

pub open spec fn short_flags_ok(s: Seq<char>, shorts: (char, char, char)) -> bool {
    forall|k: int| 0 <= k < s.len() ==> is_one_of(#[trigger] s[k], shorts)
}

/// Parses `args[i..]` as switches and path operands, as `sort` and `uniq` do.
pub open spec fn flag_args_from(
    args: Seq<Seq<char>>,
    i: int,
    parse_options: bool,
    flags: (bool, bool, bool),
    paths: Seq<SpecPath>,
    names: FlagNames,
) -> Result<((bool, bool, bool), Seq<SpecPath>), CatalogErrorV1>
    decreases args.len() - i,
{
    if i < 0 || i >= args.len() {
        Ok((flags, paths))
    } else {
        let a = args[i];
        if parse_options && a == dashdash() {
            flag_args_from(args, i + 1, false, flags, paths, names)
        } else if parse_options && is_long(a) {
            let long = a.skip(2);
            if long == names.longs.0 {
                flag_args_from(args, i + 1, parse_options, (true, flags.1, flags.2), paths, names)
            } else if long == names.longs.1 {
                flag_args_from(args, i + 1, parse_options, (flags.0, true, flags.2), paths, names)
            } else if long == names.longs.2 {
                flag_args_from(args, i + 1, parse_options, (flags.0, flags.1, true), paths, names)
            } else {
                Err(CatalogErrorV1::UnsupportedOption)
            }
        } else if parse_options && a.len() > 1 && a[0] == '-' {
            let shorts = a.skip(1);
            if !short_flags_ok(shorts, names.shorts) {
                Err(CatalogErrorV1::UnsupportedOption)
            } else {
                flag_args_from(args, i + 1, parse_options, (
                    flags.0 || has_char(shorts, names.shorts.0),
                    flags.1 || has_char(shorts, names.shorts.1),
                    flags.2 || has_char(shorts, names.shorts.2),
                ), paths, names)
            }
        } else {
            match add_operand(paths, a) {
                Ok(ps) => flag_args_from(args, i + 1, parse_options, flags, ps, names),
                Err(e) => Err(e),
            }
        }
    }
}

pub open spec fn sort_names() -> FlagNames {
    FlagNames {
        longs: (seq!['r', 'e', 'v', 'e', 'r', 's', 'e'], seq!['n', 'u', 'm', 'e', 'r', 'i', 'c', '-', 's', 'o', 'r', 't'], seq!['u', 'n', 'i', 'q', 'u', 'e']),
        shorts: ('r', 'n', 'u'),
    }
}

pub open spec fn uniq_names() -> FlagNames {
    FlagNames {
        longs: (seq!['c', 'o', 'u', 'n', 't'], seq!['r', 'e', 'p', 'e', 'a', 't', 'e', 'd'], seq!['u', 'n', 'i', 'q', 'u', 'e']),
        shorts: ('c', 'd', 'u'),
    }
}

/// What `sort` makes of its arguments.
pub open spec fn spec_build_sort(cmd: SpecCommand, has_pipeline_input: bool) -> Result<SpecStage, CatalogErrorV1> {
    match flag_args_from(cmd.arguments, 0, true, (false, false, false), seq![], sort_names()) {
        Err(e) => Err(e),
        Ok((f, paths)) => match source_shape(has_pipeline_input, paths) {
            Err(e) => Err(e),
            Ok(path) => Ok(SpecStage::SortLines { path, reverse: f.0, numeric: f.1, unique: f.2 }),
        },
    }
}

/// What `uniq` makes of its arguments.
pub open spec fn spec_build_uniq(cmd: SpecCommand, has_pipeline_input: bool) -> Result<SpecStage, CatalogErrorV1> {
    match flag_args_from(cmd.arguments, 0, true, (false, false, false), seq![], uniq_names()) {
        Err(e) => Err(e),
        Ok((f, paths)) => if f.1 && f.2 {
            Err(CatalogErrorV1::UnsupportedOption)
        } else {
            match source_shape(has_pipeline_input, paths) {
                Err(e) => Err(e),
                Ok(path) => Ok(SpecStage::UniqueLines { path, count: f.0, repeated_only: f.1, unique_only: f.2 }),
            }
        },
    }
}

/// Parses a string as `str::parse::<usize>` does: an optional `+` then decimal digits.
pub open spec fn spec_parse_usize(s: Seq<char>) -> Option<usize> {
    let digits = unsigned_digits(s);
    if digits.len() == 0 || !all_digits(digits) {
        None
    } else if decimal_value(digits) > usize::MAX {
        None
    } else {
        Some(decimal_value(digits) as usize)
    }
}

/// A number's text without its optional leading `+`.
pub open spec fn unsigned_digits(s: Seq<char>) -> Seq<char> {
    if s.len() > 0 && s[0] == '+' { s.skip(1) } else { s }
}

/// The value of a string of decimal digits.
pub open spec fn decimal_value(s: Seq<char>) -> nat
    decreases s.len(),
{
    if s.len() == 0 {
        0
    } else {
        decimal_value(s.drop_last()) * 10 + ((s.last() as u32) - ('0' as u32)) as nat
    }
}

/// Parses `args[i..]` for `head` and `tail`: `-n COUNT` and path operands.
pub open spec fn count_args_from(args: Seq<Seq<char>>, i: int, parse_options: bool, count: usize, paths: Seq<SpecPath>) -> Result<(usize, Seq<SpecPath>), CatalogErrorV1>
    decreases args.len() - i,
{
    if i < 0 || i >= args.len() {
        Ok((count, paths))
    } else {
        let a = args[i];
        if parse_options && a == dashdash() {
            count_args_from(args, i + 1, false, count, paths)
        } else if parse_options && a == seq!['-', 'n'] {
            if i + 1 >= args.len() {
                Err(CatalogErrorV1::InvalidCount)
            } else {
                match spec_parse_usize(args[i + 1]) {
                    None => Err(CatalogErrorV1::InvalidCount),
                    Some(c) => count_args_from(args, i + 2, parse_options, c, paths),
                }
            }
        } else if parse_options && a.len() > 0 && a[0] == '-' {
            Err(CatalogErrorV1::UnsupportedOption)
        } else {
            match add_operand(paths, a) {
                Ok(ps) => count_args_from(args, i + 1, parse_options, count, ps),
                Err(e) => Err(e),
            }
        }
    }
}

pub open spec fn spec_build_head(cmd: SpecCommand, has_pipeline_input: bool) -> Result<SpecStage, CatalogErrorV1> {
    match count_args_from(cmd.arguments, 0, true, 10, seq![]) {
        Err(e) => Err(e),
        Ok((count, paths)) => match source_shape(has_pipeline_input, paths) {
            Err(e) => Err(e),
            Ok(path) => Ok(SpecStage::HeadLines { count, path }),
        },
    }
}

pub open spec fn spec_build_tail(cmd: SpecCommand, has_pipeline_input: bool) -> Result<SpecStage, CatalogErrorV1> {
    match count_args_from(cmd.arguments, 0, true, 10, seq![]) {
        Err(e) => Err(e),
        Ok((count, paths)) => match source_shape(has_pipeline_input, paths) {
            Err(e) => Err(e),
            Ok(path) => Ok(SpecStage::TailLines { count, path }),
        },
    }
}

/// Parses `args[i..]` for `cat` (`-n`, `--number`) and `wc` (`-l`, `--lines`): one switch and paths.
pub open spec fn switch_args_from(args: Seq<Seq<char>>, i: int, parse_options: bool, on: bool, paths: Seq<SpecPath>, short: Seq<char>, long: Seq<char>) -> Result<(bool, Seq<SpecPath>), CatalogErrorV1>
    decreases args.len() - i,
{
    if i < 0 || i >= args.len() {
        Ok((on, paths))
    } else {
        let a = args[i];
        if parse_options && a == dashdash() {
            switch_args_from(args, i + 1, false, on, paths, short, long)
        } else if parse_options && (a == short || a == long) {
            switch_args_from(args, i + 1, parse_options, true, paths, short, long)
        } else if parse_options && a.len() > 0 && a[0] == '-' {
            Err(CatalogErrorV1::UnsupportedOption)
        } else {
            match add_operand(paths, a) {
                Ok(ps) => switch_args_from(args, i + 1, parse_options, on, ps, short, long),
                Err(e) => Err(e),
            }
        }
    }
}

pub open spec fn spec_build_cat(cmd: SpecCommand) -> Result<SpecStage, CatalogErrorV1> {
    match switch_args_from(cmd.arguments, 0, true, false, seq![], seq!['-', 'n'], seq!['-', '-', 'n', 'u', 'm', 'b', 'e', 'r']) {
        Err(e) => Err(e),
        Ok((number_lines, paths)) => if paths.len() == 0 {
            Err(CatalogErrorV1::MissingOperand)
        } else {
            Ok(SpecStage::ReadTextFiles { paths, number_lines })
        },
    }
}

pub open spec fn spec_build_wc(cmd: SpecCommand, has_pipeline_input: bool) -> Result<SpecStage, CatalogErrorV1> {
    match switch_args_from(cmd.arguments, 0, true, false, seq![], seq!['-', 'l'], seq!['-', '-', 'l', 'i', 'n', 'e', 's']) {
        Err(e) => Err(e),
        Ok((lines, paths)) => if !lines {
            Err(CatalogErrorV1::UnsupportedOption)
        } else {
            match source_shape(has_pipeline_input, paths) {
                Err(e) => Err(e),
                Ok(path) => Ok(SpecStage::CountLines { path }),
            }
        },
    }
}


/// The options of `grep` from `args[i..]`: switches, and where the pattern operand is.
pub open spec fn grep_options_from(args: Seq<Seq<char>>, i: int, f: (bool, bool, bool, bool, bool)) -> Result<((bool, bool, bool, bool, bool), int), CatalogErrorV1>
    decreases args.len() - i,
{
    if i < 0 || i >= args.len() {
        Ok((f, i))
    } else {
        let a = args[i];
        if a == dashdash() {
            Ok((f, i + 1))
        } else if is_long(a) {
            let long = a.skip(2);
            if long == seq!['i', 'g', 'n', 'o', 'r', 'e', '-', 'c', 'a', 's', 'e'] {
                grep_options_from(args, i + 1, (true, f.1, f.2, f.3, f.4))
            } else if long == seq!['l', 'i', 'n', 'e', '-', 'n', 'u', 'm', 'b', 'e', 'r'] {
                grep_options_from(args, i + 1, (f.0, true, f.2, f.3, f.4))
            } else if long == seq!['i', 'n', 'v', 'e', 'r', 't', '-', 'm', 'a', 't', 'c', 'h'] {
                grep_options_from(args, i + 1, (f.0, f.1, true, f.3, f.4))
            } else if long == seq!['f', 'i', 'x', 'e', 'd', '-', 's', 't', 'r', 'i', 'n', 'g', 's'] {
                grep_options_from(args, i + 1, (f.0, f.1, f.2, true, f.4))
            } else if long == seq!['r', 'e', 'c', 'u', 'r', 's', 'i', 'v', 'e'] {
                grep_options_from(args, i + 1, (f.0, f.1, f.2, f.3, true))
            } else {
                Err(CatalogErrorV1::UnsupportedOption)
            }
        } else if a.len() > 0 && a[0] == '-' {
            let shorts = a.skip(1);
            if shorts.len() == 0 {
                Ok((f, i))
            } else if !(forall|k: int| 0 <= k < shorts.len() ==> grep_short(#[trigger] shorts[k])) {
                Err(CatalogErrorV1::UnsupportedOption)
            } else {
                grep_options_from(args, i + 1, (
                    f.0 || has_char(shorts, 'i'),
                    f.1 || has_char(shorts, 'n'),
                    f.2 || has_char(shorts, 'v'),
                    f.3 || has_char(shorts, 'F'),
                    f.4 || has_char(shorts, 'r'),
                ))
            }
        } else {
            Ok((f, i))
        }
    }
}

pub open spec fn grep_short(c: char) -> bool {
    c == 'i' || c == 'n' || c == 'v' || c == 'F' || c == 'r'
}

/// Validates every path operand of `args[i..]`.
pub open spec fn operands_from(args: Seq<Seq<char>>, i: int, paths: Seq<SpecPath>) -> Result<Seq<SpecPath>, CatalogErrorV1>
    decreases args.len() - i,
{
    if i < 0 || i >= args.len() {
        Ok(paths)
    } else {
        match add_operand(paths, args[i]) {
            Ok(ps) => operands_from(args, i + 1, ps),
            Err(e) => Err(e),
        }
    }
}

/// What `grep` makes of its arguments.
pub open spec fn spec_build_grep(cmd: SpecCommand, has_pipeline_input: bool) -> Result<SpecStage, CatalogErrorV1> {
    match grep_options_from(cmd.arguments, 0, (false, false, false, false, false)) {
        Err(e) => Err(e),
        Ok((f, index)) => if index >= cmd.arguments.len() {
            Err(CatalogErrorV1::MissingOperand)
        } else {
            let pattern = cmd.arguments[index];
            if grep_compile_outcome(pattern, f.3, f.0) is Err {
                Err(CatalogErrorV1::InvalidPattern)
            } else {
                match operands_from(cmd.arguments, index + 1, seq![]) {
                    Err(e) => Err(e),
                    Ok(paths) => if has_pipeline_input && (paths.len() != 0 || f.4) {
                        Err(CatalogErrorV1::InvalidSourceShape)
                    } else if !has_pipeline_input && paths.len() == 0 {
                        Err(CatalogErrorV1::InvalidSourceShape)
                    } else {
                        Ok(SpecStage::SearchText {
                            pattern,
                            paths,
                            ignore_case: f.0,
                            line_numbers: f.1,
                            invert_match: f.2,
                            fixed_strings: f.3,
                            recursive: f.4,
                        })
                    },
                }
            }
        },
    }
}

/// The stage a command becomes at position `index` of a pipeline.
pub open spec fn spec_build_stage(cmd: SpecCommand, index: int) -> Result<SpecStage, CatalogErrorV1> {
    let n = cmd.name;
    if eq_ignore_case(n, seq!['c', 'a', 't']) {
        if index != 0 { Err(CatalogErrorV1::InvalidSourceShape) } else { spec_build_cat(cmd) }
    } else if eq_ignore_case(n, seq!['h', 'e', 'a', 'd']) {
        spec_build_head(cmd, index > 0)
    } else if eq_ignore_case(n, seq!['t', 'a', 'i', 'l']) {
        spec_build_tail(cmd, index > 0)
    } else if eq_ignore_case(n, seq!['w', 'c']) {
        spec_build_wc(cmd, index > 0)
    } else if eq_ignore_case(n, seq!['g', 'r', 'e', 'p']) {
        spec_build_grep(cmd, index > 0)
    } else if eq_ignore_case(n, seq!['u', 'n', 'i', 'q']) {
        spec_build_uniq(cmd, index > 0)
    } else if eq_ignore_case(n, seq!['s', 'o', 'r', 't']) {
        spec_build_sort(cmd, index > 0)
    } else {
        Err(CatalogErrorV1::UnsupportedCommand)
    }
}

/// The stages of `cmds[i..]`, appended to `stages`.
pub open spec fn build_stages_from(cmds: Seq<SpecCommand>, i: int, stages: Seq<SpecStage>) -> Result<Seq<SpecStage>, CatalogErrorV1>
    decreases cmds.len() - i,
{
    if i < 0 || i >= cmds.len() {
        Ok(stages)
    } else {
        match spec_build_stage(cmds[i], i) {
            Ok(s) => build_stages_from(cmds, i + 1, stages.push(s)),
            Err(e) => Err(e),
        }
    }
}

/// How a plan's validation error reads as a catalog error.
pub open spec fn catalog_error_of(e: RunnerRequestValidationErrorV1) -> CatalogErrorV1 {
    match e {
        RunnerRequestValidationErrorV1::InvalidRange => CatalogErrorV1::InvalidCount,
        RunnerRequestValidationErrorV1::InvalidStageCount | RunnerRequestValidationErrorV1::InvalidPathCount => CatalogErrorV1::ResourceLimit,
        _ => CatalogErrorV1::InvalidSourceShape,
    }
}

/// The plan that a parsed line becomes, or why it is refused.
pub open spec fn spec_build_plan(line: SpecParsedLine) -> Result<SpecPlan, CatalogErrorV1> {
    match build_stages_from(line.stages, 0, seq![]) {
        Err(e) => Err(e),
        Ok(stages) => {
            let redirect: Result<Option<SpecRedirectPlan>, CatalogErrorV1> = match line.redirect {
                None => Ok(None),
                Some(r) => match spec_validate_path(r.path) {
                    Err(e) => Err(CatalogErrorV1::Path(e)),
                    Ok(p) => Ok(Some(SpecRedirectPlan {
                        mode: match r.mode {
                            ParsedRedirectModeV1::Overwrite => RedirectModeV1::Overwrite,
                            ParsedRedirectModeV1::Append => RedirectModeV1::Append,
                        },
                        path: p,
                    })),
                },
            };
            match redirect {
                Err(e) => Err(e),
                Ok(redirect) => {
                    let plan = SpecPlan { stages, redirect };
                    match spec_validate_plan(plan) {
                        Ok(()) => Ok(plan),
                        Err(e) => Err(catalog_error_of(e)),
                    }
                },
            }
        },
    }
}

// ---- executable side ----

/// Validates a path operand and appends it.
fn push_operand(paths: &mut Vec<ValidatedPathSpecV1>, a: &str) -> (r: Result<(), CatalogErrorV1>)
    ensures
        match add_operand(paths_view(old(paths)@), a@) {
            Ok(ps) => r is Ok && paths_view(final(paths)@) == ps,
            Err(e) => r == Err::<(), _>(e),
        },
{
    match validate_path_value(a) {
        Ok(p) => {
            let ghost before = paths@;
            paths.push(p);
            assert(paths_view(paths@) =~= paths_view(before).push(p@));
            Ok(())
        },
        Err(e) => Err(CatalogErrorV1::Path(e)),
    }
}

/// The input of a stage: exactly one path for the first stage, none after a pipe.
fn take_source(has_pipeline_input: bool, paths: Vec<ValidatedPathSpecV1>) -> (r: Result<Option<ValidatedPathSpecV1>, CatalogErrorV1>)
    ensures
        match source_shape(has_pipeline_input, paths_view(paths@)) {
            Ok(p) => r is Ok && opt_path_view(r.unwrap()) == p,
            Err(e) => r == Err::<Option<ValidatedPathSpecV1>, _>(e),
        },
{
    let mut paths = paths;
    if has_pipeline_input {
        if paths.len() != 0 {
            return Err(CatalogErrorV1::InvalidSourceShape);
        }
        Ok(None)
    } else {
        if paths.len() != 1 {
            return Err(CatalogErrorV1::InvalidSourceShape);
        }
        assert(paths_view(paths@)[0] == paths@[0]@);
        Ok(paths.pop())
    }
}

/// Parses decimal text as `str::parse::<usize>` does.
pub fn parse_usize(s: &[char]) -> (r: Option<usize>)
    ensures
        r == spec_parse_usize(s@),
{
    let start: usize = if s.len() > 0 && s[0] == '+' { 1 } else { 0 };
    let ghost digits = unsigned_digits(s@);
    assert(digits =~= s@.skip(start as int));
    if start >= s.len() {
        return None;
    }
    let mut value: usize = 0;
    let mut i = start;
    while i < s.len()
        invariant
            start <= i <= s@.len(),
            start == (if s@.len() > 0 && s@[0] == '+' { 1usize } else { 0usize }),
            digits == unsigned_digits(s@),
            digits == s@.skip(start as int),
            forall|k: int| 0 <= k < i - start ==> is_digit(#[trigger] digits[k]),
            value == decimal_value(digits.take(i - start)),
        decreases s.len() - i,
    {
        let c = s[i];
        assert(digits[i - start] == c);
        if !('0' <= c && c <= '9') {
            assert(!is_digit(digits[i - start]));
            assert(!all_digits(digits));
            assert(spec_parse_usize(s@) is None);
            return None;
        }
        let d: usize = ((c as u32) - ('0' as u32)) as usize;
        assert(digits.take(i + 1 - start).drop_last() =~= digits.take(i - start));
        assert(decimal_value(digits.take(i + 1 - start)) == value * 10 + d);
        if value > (usize::MAX - d) / 10 {
            assert(value * 10 + d > usize::MAX) by (nonlinear_arith)
                requires value > (usize::MAX - d) / 10, d <= 9;
            proof {
                if all_digits(digits) {
                    lemma_decimal_prefix_monotone(digits, i + 1 - start);
                    assert(decimal_value(digits) > usize::MAX);
                }
                assert(spec_parse_usize(s@) is None);
            }
            return None;
        }
        assert(value * 10 + d <= usize::MAX) by (nonlinear_arith)
            requires value <= (usize::MAX - d) / 10, d <= 9;
        value = value * 10 + d;
        i += 1;
    }
    assert(digits.take(i - start) =~= digits);
    Some(value)
}

pub proof fn lemma_decimal_prefix_monotone(s: Seq<char>, k: int)
    requires
        0 <= k <= s.len(),
        forall|j: int| 0 <= j < s.len() ==> is_digit(#[trigger] s[j]),
    ensures
        decimal_value(s.take(k)) <= decimal_value(s),
    decreases s.len() - k,
{
    if k < s.len() {
        lemma_decimal_prefix_monotone(s, k + 1);
        assert(s.take(k + 1).drop_last() =~= s.take(k));
    } else {
        assert(s.take(k) =~= s);
    }
}

/// What a stage builder returns, by value.
pub open spec fn stage_outcome(r: Result<StagePlanV1, CatalogErrorV1>) -> Result<SpecStage, CatalogErrorV1> {
    match r {
        Ok(s) => Ok(s@),
        Err(e) => Err(e),
    }
}

/// Reads the cluster of single-letter switches `s[start..]`; `None` when a letter is not one of them.
fn scan_short_flags(s: &[char], start: usize, shorts: (char, char, char)) -> (r: Option<(bool, bool, bool)>)
    requires
        start <= s@.len(),
    ensures
        r is Some <==> short_flags_ok(s@.skip(start as int), shorts),
        r is Some ==> r.unwrap() == (
            has_char(s@.skip(start as int), shorts.0),
            has_char(s@.skip(start as int), shorts.1),
            has_char(s@.skip(start as int), shorts.2),
        ),
{
    let ghost t = s@.skip(start as int);
    let mut f0 = false;
    let mut f1 = false;
    let mut f2 = false;
    let mut i: usize = start;
    while i < s.len()
        invariant
            start <= i <= s@.len(),
            t == s@.skip(start as int),
            forall|k: int| 0 <= k < i - start ==> is_one_of(#[trigger] t[k], shorts),
            f0 == has_char(t.take(i - start), shorts.0),
            f1 == has_char(t.take(i - start), shorts.1),
            f2 == has_char(t.take(i - start), shorts.2),
        decreases s.len() - i,
    {
        let c = s[i];
        assert(t[i - start] == c);
        if !(c == shorts.0 || c == shorts.1 || c == shorts.2) {
            assert(!is_one_of(t[i - start], shorts));
            return None;
        }
        let ghost before = t.take(i - start);
        let ghost after = t.take(i + 1 - start);
        assert(after =~= before.push(c));
        proof {
            assert(has_char(after, shorts.0) == (has_char(before, shorts.0) || c == shorts.0)) by {
                if c == shorts.0 { assert(after[i - start] == c); }
                if has_char(before, shorts.0) { let k = choose|k: int| 0 <= k < before.len() && before[k] == shorts.0; assert(after[k] == before[k]); }
            }
            assert(has_char(after, shorts.1) == (has_char(before, shorts.1) || c == shorts.1)) by {
                if c == shorts.1 { assert(after[i - start] == c); }
                if has_char(before, shorts.1) { let k = choose|k: int| 0 <= k < before.len() && before[k] == shorts.1; assert(after[k] == before[k]); }
            }
            assert(has_char(after, shorts.2) == (has_char(before, shorts.2) || c == shorts.2)) by {
                if c == shorts.2 { assert(after[i - start] == c); }
                if has_char(before, shorts.2) { let k = choose|k: int| 0 <= k < before.len() && before[k] == shorts.2; assert(after[k] == before[k]); }
            }
        }
        f0 = f0 || c == shorts.0;
        f1 = f1 || c == shorts.1;
        f2 = f2 || c == shorts.2;
        i += 1;
    }
    assert(t.take(i - start) =~= t);
    Some((f0, f1, f2))
}

/// Parses switches and path operands as `sort` and `uniq` do.
fn parse_flag_arguments(args: &Vec<String>, longs: (&str, &str, &str), shorts: (char, char, char))
    -> (r: Result<((bool, bool, bool), Vec<ValidatedPathSpecV1>), CatalogErrorV1>)
    ensures
        match flag_args_from(
            strings_view(args@),
            0,
            true,
            (false, false, false),
            seq![],
            FlagNames { longs: (longs.0@, longs.1@, longs.2@), shorts },
        ) {
            Ok((f, ps)) => r is Ok && r.unwrap().0 == f && paths_view(r.unwrap().1@) == ps,
            Err(e) => r == Err::<((bool, bool, bool), Vec<ValidatedPathSpecV1>), _>(e),
        },
{
    let ghost names = FlagNames { longs: (longs.0@, longs.1@, longs.2@), shorts };
    let ghost sargs = strings_view(args@);
    let mut f0 = false;
    let mut f1 = false;
    let mut f2 = false;
    let mut parse_options = true;
    let mut paths: Vec<ValidatedPathSpecV1> = Vec::new();
    let mut i: usize = 0;
    proof {
        reveal_strlit("--");
        assert("--"@ =~= dashdash());
        assert(paths_view(paths@) =~= seq![]);
    }
    while i < args.len()
        invariant
            i <= args@.len(),
            sargs == strings_view(args@),
            names == (FlagNames { longs: (longs.0@, longs.1@, longs.2@), shorts }),
            "--"@ == dashdash(),
            flag_args_from(sargs, 0, true, (false, false, false), seq![], names)
                == flag_args_from(sargs, i as int, parse_options, (f0, f1, f2), paths_view(paths@), names),
        decreases args.len() - i,
    {
        let a = chars_of(args[i].as_str());
        assert(sargs[i as int] == a@);
        if parse_options && eq_str(a.as_slice(), "--") {
            parse_options = false;
        } else if parse_options && a.len() >= 2 && a[0] == '-' && a[1] == '-' {
            if suffix_eq_str(a.as_slice(), 2, longs.0) {
                f0 = true;
            } else if suffix_eq_str(a.as_slice(), 2, longs.1) {
                f1 = true;
            } else if suffix_eq_str(a.as_slice(), 2, longs.2) {
                f2 = true;
            } else {
                return Err(CatalogErrorV1::UnsupportedOption);
            }
        } else if parse_options && a.len() > 1 && a[0] == '-' {
            match scan_short_flags(a.as_slice(), 1, shorts) {
                None => {
                    return Err(CatalogErrorV1::UnsupportedOption);
                },
                Some((s0, s1, s2)) => {
                    f0 = f0 || s0;
                    f1 = f1 || s1;
                    f2 = f2 || s2;
                },
            }
        } else {
            match push_operand(&mut paths, args[i].as_str()) {
                Err(e) => {
                    return Err(e);
                },
                Ok(()) => {},
            }
        }
        i += 1;
    }
    Ok(((f0, f1, f2), paths))
}

/// What `sort` makes of its arguments.
fn build_sort(command: &ParsedCommandV1, has_pipeline_input: bool) -> (r: Result<StagePlanV1, CatalogErrorV1>)
    ensures
        stage_outcome(r) == spec_build_sort(command@, has_pipeline_input),
{
    let parsed = parse_flag_arguments(&command.arguments, ("reverse", "numeric-sort", "unique"), ('r', 'n', 'u'));
    proof {
        reveal_strlit("reverse");
        reveal_strlit("numeric-sort");
        reveal_strlit("unique");
        assert("reverse"@ =~= sort_names().longs.0);
        assert("numeric-sort"@ =~= sort_names().longs.1);
        assert("unique"@ =~= sort_names().longs.2);
    }
    match parsed {
        Err(e) => Err(e),
        Ok((f, paths)) => match take_source(has_pipeline_input, paths) {
            Err(e) => Err(e),
            Ok(path) => Ok(StagePlanV1::SortLines { path, reverse: f.0, numeric: f.1, unique: f.2 }),
        },
    }
}

/// What `uniq` makes of its arguments.
fn build_uniq(command: &ParsedCommandV1, has_pipeline_input: bool) -> (r: Result<StagePlanV1, CatalogErrorV1>)
    ensures
        stage_outcome(r) == spec_build_uniq(command@, has_pipeline_input),
{
    let parsed = parse_flag_arguments(&command.arguments, ("count", "repeated", "unique"), ('c', 'd', 'u'));
    proof {
        reveal_strlit("count");
        reveal_strlit("repeated");
        reveal_strlit("unique");
        assert("count"@ =~= uniq_names().longs.0);
        assert("repeated"@ =~= uniq_names().longs.1);
        assert("unique"@ =~= uniq_names().longs.2);
    }
    match parsed {
        Err(e) => Err(e),
        Ok((f, paths)) => {
            if f.1 && f.2 {
                return Err(CatalogErrorV1::UnsupportedOption);
            }
            match take_source(has_pipeline_input, paths) {
                Err(e) => Err(e),
                Ok(path) => Ok(StagePlanV1::UniqueLines { path, count: f.0, repeated_only: f.1, unique_only: f.2 }),
            }
        },
    }
}

/// Parses `-n COUNT` and path operands as `head` and `tail` do.
fn parse_count_arguments(args: &Vec<String>) -> (r: Result<(usize, Vec<ValidatedPathSpecV1>), CatalogErrorV1>)
    ensures
        match count_args_from(strings_view(args@), 0, true, 10, seq![]) {
            Ok((c, ps)) => r is Ok && r.unwrap().0 == c && paths_view(r.unwrap().1@) == ps,
            Err(e) => r == Err::<(usize, Vec<ValidatedPathSpecV1>), _>(e),
        },
{
    let ghost sargs = strings_view(args@);
    let mut count: usize = 10;
    let mut parse_options = true;
    let mut paths: Vec<ValidatedPathSpecV1> = Vec::new();
    let mut i: usize = 0;
    proof {
        reveal_strlit("--");
        reveal_strlit("-n");
        assert("--"@ =~= dashdash());
        assert("-n"@ =~= seq!['-', 'n']);
        assert(paths_view(paths@) =~= seq![]);
    }
    while i < args.len()
        invariant
            i <= args@.len(),
            sargs == strings_view(args@),
            "--"@ == dashdash(),
            "-n"@ == seq!['-', 'n'],
            count_args_from(sargs, 0, true, 10, seq![])
                == count_args_from(sargs, i as int, parse_options, count, paths_view(paths@)),
        decreases args.len() - i,
    {
        let a = chars_of(args[i].as_str());
        assert(sargs[i as int] == a@);
        if parse_options && eq_str(a.as_slice(), "--") {
            parse_options = false;
            i += 1;
        } else if parse_options && eq_str(a.as_slice(), "-n") {
            if i + 1 >= args.len() {
                return Err(CatalogErrorV1::InvalidCount);
            }
            let v = chars_of(args[i + 1].as_str());
            assert(sargs[i + 1] == v@);
            match parse_usize(v.as_slice()) {
                None => {
                    return Err(CatalogErrorV1::InvalidCount);
                },
                Some(c) => {
                    count = c;
                },
            }
            i += 2;
        } else if parse_options && a.len() > 0 && a[0] == '-' {
            return Err(CatalogErrorV1::UnsupportedOption);
        } else {
            match push_operand(&mut paths, args[i].as_str()) {
                Err(e) => {
                    return Err(e);
                },
                Ok(()) => {},
            }
            i += 1;
        }
    }
    Ok((count, paths))
}

/// What `head` makes of its arguments.
fn build_head(command: &ParsedCommandV1, has_pipeline_input: bool) -> (r: Result<StagePlanV1, CatalogErrorV1>)
    ensures
        stage_outcome(r) == spec_build_head(command@, has_pipeline_input),
{
    match parse_count_arguments(&command.arguments) {
        Err(e) => Err(e),
        Ok((count, paths)) => match take_source(has_pipeline_input, paths) {
            Err(e) => Err(e),
            Ok(path) => Ok(StagePlanV1::HeadLines { count, path }),
        },
    }
}

/// What `tail` makes of its arguments.
fn build_tail(command: &ParsedCommandV1, has_pipeline_input: bool) -> (r: Result<StagePlanV1, CatalogErrorV1>)
    ensures
        stage_outcome(r) == spec_build_tail(command@, has_pipeline_input),
{
    match parse_count_arguments(&command.arguments) {
        Err(e) => Err(e),
        Ok((count, paths)) => match take_source(has_pipeline_input, paths) {
            Err(e) => Err(e),
            Ok(path) => Ok(StagePlanV1::TailLines { count, path }),
        },
    }
}

/// Parses one switch, given by its short or long spelling, and path operands.
fn parse_switch_arguments(args: &Vec<String>, short: &str, long: &str)
    -> (r: Result<(bool, Vec<ValidatedPathSpecV1>), CatalogErrorV1>)
    ensures
        match switch_args_from(strings_view(args@), 0, true, false, seq![], short@, long@) {
            Ok((on, ps)) => r is Ok && r.unwrap().0 == on && paths_view(r.unwrap().1@) == ps,
            Err(e) => r == Err::<(bool, Vec<ValidatedPathSpecV1>), _>(e),
        },
{
    let ghost sargs = strings_view(args@);
    let mut on = false;
    let mut parse_options = true;
    let mut paths: Vec<ValidatedPathSpecV1> = Vec::new();
    let mut i: usize = 0;
    proof {
        reveal_strlit("--");
        assert("--"@ =~= dashdash());
        assert(paths_view(paths@) =~= seq![]);
    }
    while i < args.len()
        invariant
            i <= args@.len(),
            sargs == strings_view(args@),
            "--"@ == dashdash(),
            switch_args_from(sargs, 0, true, false, seq![], short@, long@)
                == switch_args_from(sargs, i as int, parse_options, on, paths_view(paths@), short@, long@),
        decreases args.len() - i,
    {
        let a = chars_of(args[i].as_str());
        assert(sargs[i as int] == a@);
        if parse_options && eq_str(a.as_slice(), "--") {
            parse_options = false;
        } else if parse_options && (eq_str(a.as_slice(), short) || eq_str(a.as_slice(), long)) {
            on = true;
        } else if parse_options && a.len() > 0 && a[0] == '-' {
            return Err(CatalogErrorV1::UnsupportedOption);
        } else {
            match push_operand(&mut paths, args[i].as_str()) {
                Err(e) => {
                    return Err(e);
                },
                Ok(()) => {},
            }
        }
        i += 1;
    }
    Ok((on, paths))
}

/// What `cat` makes of its arguments.
fn build_cat(command: &ParsedCommandV1) -> (r: Result<StagePlanV1, CatalogErrorV1>)
    ensures
        stage_outcome(r) == spec_build_cat(command@),
{
    let parsed = parse_switch_arguments(&command.arguments, "-n", "--number");
    proof {
        reveal_strlit("-n");
        reveal_strlit("--number");
        assert("-n"@ =~= seq!['-', 'n']);
        assert("--number"@ =~= seq!['-', '-', 'n', 'u', 'm', 'b', 'e', 'r']);
    }
    match parsed {
        Err(e) => Err(e),
        Ok((number_lines, paths)) => {
            if paths.len() == 0 {
                return Err(CatalogErrorV1::MissingOperand);
            }
            Ok(StagePlanV1::ReadTextFiles { paths, number_lines })
        },
    }
}

/// What `wc` makes of its arguments.
fn build_wc(command: &ParsedCommandV1, has_pipeline_input: bool) -> (r: Result<StagePlanV1, CatalogErrorV1>)
    ensures
        stage_outcome(r) == spec_build_wc(command@, has_pipeline_input),
{
    let parsed = parse_switch_arguments(&command.arguments, "-l", "--lines");
    proof {
        reveal_strlit("-l");
        reveal_strlit("--lines");
        assert("-l"@ =~= seq!['-', 'l']);
        assert("--lines"@ =~= seq!['-', '-', 'l', 'i', 'n', 'e', 's']);
    }
    match parsed {
        Err(e) => Err(e),
        Ok((lines, paths)) => {
            if !lines {
                return Err(CatalogErrorV1::UnsupportedOption);
            }
            match take_source(has_pipeline_input, paths) {
                Err(e) => Err(e),
                Ok(path) => Ok(StagePlanV1::CountLines { path }),
            }
        },
    }
}

/// A copy of `a[start..]`.
fn chars_from(a: &[char], start: usize) -> (r: Vec<char>)
    requires
        start <= a@.len(),
    ensures
        r@ == a@.skip(start as int),
{
    let mut r: Vec<char> = Vec::new();
    let mut i: usize = start;
    while i < a.len()
        invariant
            start <= i <= a@.len(),
            r@ == a@.subrange(start as int, i as int),
        decreases a.len() - i,
    {
        r.push(a[i]);
        i += 1;
        assert(r@ =~= a@.subrange(start as int, i as int));
    }
    assert(r@ =~= a@.skip(start as int));
    r
}

/// Whether every letter of `s` is a `grep` switch.
fn all_grep_shorts(s: &[char]) -> (r: bool)
    ensures
        r == (forall|k: int| 0 <= k < s@.len() ==> grep_short(#[trigger] s@[k])),
{
    let mut i: usize = 0;
    while i < s.len()
        invariant
            i <= s@.len(),
            forall|k: int| 0 <= k < i ==> grep_short(#[trigger] s@[k]),
        decreases s.len() - i,
    {
        let c = s[i];
        if !(c == 'i' || c == 'n' || c == 'v' || c == 'F' || c == 'r') {
            assert(!grep_short(s@[i as int]));
            return false;
        }
        i += 1;
    }
    true
}

/// The switches of `grep` and the position of its pattern operand.
fn parse_grep_options(args: &Vec<String>) -> (r: Result<((bool, bool, bool, bool, bool), usize), CatalogErrorV1>)
    ensures
        match grep_options_from(strings_view(args@), 0, (false, false, false, false, false)) {
            Ok((f, index)) => r is Ok && r.unwrap().0 == f && r.unwrap().1 == index,
            Err(e) => r == Err::<((bool, bool, bool, bool, bool), usize), _>(e),
        },
{
    let ghost sargs = strings_view(args@);
    let mut f: (bool, bool, bool, bool, bool) = (false, false, false, false, false);
    let mut i: usize = 0;
    proof {
        reveal_strlit("--");
        reveal_strlit("ignore-case");
        reveal_strlit("line-number");
        reveal_strlit("invert-match");
        reveal_strlit("fixed-strings");
        reveal_strlit("recursive");
        assert("--"@ =~= dashdash());
        assert("ignore-case"@ =~= seq!['i', 'g', 'n', 'o', 'r', 'e', '-', 'c', 'a', 's', 'e']);
        assert("line-number"@ =~= seq!['l', 'i', 'n', 'e', '-', 'n', 'u', 'm', 'b', 'e', 'r']);
        assert("invert-match"@ =~= seq!['i', 'n', 'v', 'e', 'r', 't', '-', 'm', 'a', 't', 'c', 'h']);
        assert("fixed-strings"@ =~= seq!['f', 'i', 'x', 'e', 'd', '-', 's', 't', 'r', 'i', 'n', 'g', 's']);
        assert("recursive"@ =~= seq!['r', 'e', 'c', 'u', 'r', 's', 'i', 'v', 'e']);
    }
    while i < args.len()
        invariant
            i <= args@.len(),
            sargs == strings_view(args@),
            "--"@ == dashdash(),
            "ignore-case"@ == seq!['i', 'g', 'n', 'o', 'r', 'e', '-', 'c', 'a', 's', 'e'],
            "line-number"@ == seq!['l', 'i', 'n', 'e', '-', 'n', 'u', 'm', 'b', 'e', 'r'],
            "invert-match"@ == seq!['i', 'n', 'v', 'e', 'r', 't', '-', 'm', 'a', 't', 'c', 'h'],
            "fixed-strings"@ == seq!['f', 'i', 'x', 'e', 'd', '-', 's', 't', 'r', 'i', 'n', 'g', 's'],
            "recursive"@ == seq!['r', 'e', 'c', 'u', 'r', 's', 'i', 'v', 'e'],
            grep_options_from(sargs, 0, (false, false, false, false, false)) == grep_options_from(sargs, i as int, f),
        decreases args.len() - i,
    {
        let a = chars_of(args[i].as_str());
        assert(sargs[i as int] == a@);
        if eq_str(a.as_slice(), "--") {
            return Ok((f, i + 1));
        } else if a.len() >= 2 && a[0] == '-' && a[1] == '-' {
            if suffix_eq_str(a.as_slice(), 2, "ignore-case") {
                f.0 = true;
            } else if suffix_eq_str(a.as_slice(), 2, "line-number") {
                f.1 = true;
            } else if suffix_eq_str(a.as_slice(), 2, "invert-match") {
                f.2 = true;
            } else if suffix_eq_str(a.as_slice(), 2, "fixed-strings") {
                f.3 = true;
            } else if suffix_eq_str(a.as_slice(), 2, "recursive") {
                f.4 = true;
            } else {
                return Err(CatalogErrorV1::UnsupportedOption);
            }
        } else if a.len() > 0 && a[0] == '-' {
            let shorts = chars_from(a.as_slice(), 1);
            if shorts.len() == 0 {
                return Ok((f, i));
            }
            if !all_grep_shorts(shorts.as_slice()) {
                return Err(CatalogErrorV1::UnsupportedOption);
            }
            f = (
                f.0 || contains_char(shorts.as_slice(), 'i'),
                f.1 || contains_char(shorts.as_slice(), 'n'),
                f.2 || contains_char(shorts.as_slice(), 'v'),
                f.3 || contains_char(shorts.as_slice(), 'F'),
                f.4 || contains_char(shorts.as_slice(), 'r'),
            );
        } else {
            return Ok((f, i));
        }
        i += 1;
    }
    Ok((f, i))
}

/// Validates every path operand of `args[start..]`.
fn validate_operands(args: &Vec<String>, start: usize) -> (r: Result<Vec<ValidatedPathSpecV1>, CatalogErrorV1>)
    requires
        start <= args@.len(),
    ensures
        match operands_from(strings_view(args@), start as int, seq![]) {
            Ok(ps) => r is Ok && paths_view(r.unwrap()@) == ps,
            Err(e) => r == Err::<Vec<ValidatedPathSpecV1>, _>(e),
        },
{
    let ghost sargs = strings_view(args@);
    let mut paths: Vec<ValidatedPathSpecV1> = Vec::new();
    let mut i: usize = start;
    assert(paths_view(paths@) =~= seq![]);
    while i < args.len()
        invariant
            start <= i <= args@.len(),
            sargs == strings_view(args@),
            operands_from(sargs, start as int, seq![]) == operands_from(sargs, i as int, paths_view(paths@)),
        decreases args.len() - i,
    {
        assert(sargs[i as int] == args@[i as int]@);
        match push_operand(&mut paths, args[i].as_str()) {
            Err(e) => {
                return Err(e);
            },
            Ok(()) => {},
        }
        i += 1;
    }
    Ok(paths)
}

/// What `grep` makes of its arguments.
fn build_grep(command: &ParsedCommandV1, has_pipeline_input: bool) -> (r: Result<StagePlanV1, CatalogErrorV1>)
    ensures
        stage_outcome(r) == spec_build_grep(command@, has_pipeline_input),
{
    let (f, index) = match parse_grep_options(&command.arguments) {
        Err(e) => {
            return Err(e);
        },
        Ok(v) => v,
    };
    if index >= command.arguments.len() {
        return Err(CatalogErrorV1::MissingOperand);
    }
    let pattern = command.arguments[index].clone();
    assert(pattern@ == strings_view(command.arguments@)[index as int]);
    match GrepPatternV1::compile(pattern.as_str(), f.3, f.0) {
        Err(_) => {
            return Err(CatalogErrorV1::InvalidPattern);
        },
        Ok(_) => {},
    }
    let paths = match validate_operands(&command.arguments, index + 1) {
        Err(e) => {
            return Err(e);
        },
        Ok(paths) => paths,
    };
    if has_pipeline_input {
        if paths.len() != 0 || f.4 {
            return Err(CatalogErrorV1::InvalidSourceShape);
        }
    } else if paths.len() == 0 {
        return Err(CatalogErrorV1::InvalidSourceShape);
    }
    Ok(StagePlanV1::SearchText {
        pattern,
        paths,
        ignore_case: f.0,
        line_numbers: f.1,
        invert_match: f.2,
        fixed_strings: f.3,
        recursive: f.4,
    })
}

/// The stage that `command` becomes at position `index` of a pipeline.
fn build_stage(command: &ParsedCommandV1, index: usize) -> (r: Result<StagePlanV1, CatalogErrorV1>)
    ensures
        stage_outcome(r) == spec_build_stage(command@, index as int),
{
    let name = chars_of(command.name.as_str());
    proof {
        reveal_strlit("cat");
        reveal_strlit("head");
        reveal_strlit("tail");
        reveal_strlit("wc");
        reveal_strlit("grep");
        reveal_strlit("uniq");
        reveal_strlit("sort");
        assert("cat"@ =~= seq!['c', 'a', 't']);
        assert("head"@ =~= seq!['h', 'e', 'a', 'd']);
        assert("tail"@ =~= seq!['t', 'a', 'i', 'l']);
        assert("wc"@ =~= seq!['w', 'c']);
        assert("grep"@ =~= seq!['g', 'r', 'e', 'p']);
        assert("uniq"@ =~= seq!['u', 'n', 'i', 'q']);
        assert("sort"@ =~= seq!['s', 'o', 'r', 't']);
    }
    if eq_ignore_case_str(name.as_slice(), "cat") {
        if index != 0 {
            return Err(CatalogErrorV1::InvalidSourceShape);
        }
        build_cat(command)
    } else if eq_ignore_case_str(name.as_slice(), "head") {
        build_head(command, index > 0)
    } else if eq_ignore_case_str(name.as_slice(), "tail") {
        build_tail(command, index > 0)
    } else if eq_ignore_case_str(name.as_slice(), "wc") {
        build_wc(command, index > 0)
    } else if eq_ignore_case_str(name.as_slice(), "grep") {
        build_grep(command, index > 0)
    } else if eq_ignore_case_str(name.as_slice(), "uniq") {
        build_uniq(command, index > 0)
    } else if eq_ignore_case_str(name.as_slice(), "sort") {
        build_sort(command, index > 0)
    } else {
        Err(CatalogErrorV1::UnsupportedCommand)
    }
}

/// Turns a parsed line of read-only commands into a validated execution plan.
pub fn build_readonly_plan(parsed: &ParsedLineV1) -> (r: Result<ExecutionPlanV1, CatalogErrorV1>)
    ensures
        match spec_build_plan(parsed@) {
            Ok(plan) => r is Ok && r.unwrap()@ == plan,
            Err(e) => r == Err::<ExecutionPlanV1, _>(e),
        },
{
    let ghost cmds = parsed@.stages;
    let mut stages: Vec<StagePlanV1> = Vec::new();
    let mut i: usize = 0;
    assert(stages_view(stages@) =~= seq![]);
    while i < parsed.stages.len()
        invariant
            i <= parsed.stages@.len(),
            cmds == parsed@.stages,
            cmds.len() == parsed.stages@.len(),
            build_stages_from(cmds, 0, seq![]) == build_stages_from(cmds, i as int, stages_view(stages@)),
        decreases parsed.stages.len() - i,
    {
        assert(cmds[i as int] == parsed.stages@[i as int]@);
        match build_stage(&parsed.stages[i], i) {
            Err(e) => {
                return Err(e);
            },
            Ok(stage) => {
                let ghost before = stages@;
                stages.push(stage);
                assert(stages_view(stages@) =~= stages_view(before).push(stage@));
            },
        }
        i += 1;
    }
    let redirect = match &parsed.redirect {
        None => None,
        Some(redirect) => {
            let mode = match redirect.mode {
                ParsedRedirectModeV1::Overwrite => RedirectModeV1::Overwrite,
                ParsedRedirectModeV1::Append => RedirectModeV1::Append,
            };
            match validate_path_value(redirect.path.as_str()) {
                Err(e) => {
                    return Err(CatalogErrorV1::Path(e));
                },
                Ok(path) => Some(ValidatedRedirectPlanV1 { mode, path }),
            }
        },
    };
    let plan = ExecutionPlanV1 { stages, redirect };
    match validate_execution_plan(&plan) {
        Ok(()) => Ok(plan),
        Err(RunnerRequestValidationErrorV1::InvalidRange) => Err(CatalogErrorV1::InvalidCount),
        Err(RunnerRequestValidationErrorV1::InvalidStageCount) => Err(CatalogErrorV1::ResourceLimit),
        Err(RunnerRequestValidationErrorV1::InvalidPathCount) => Err(CatalogErrorV1::ResourceLimit),
        Err(_) => Err(CatalogErrorV1::InvalidSourceShape),
    }
}
proof fn lemma_build_stages_len(cmds: Seq<SpecCommand>, i: int, stages: Seq<SpecStage>)
    requires
        0 <= i <= cmds.len(),
        build_stages_from(cmds, i, stages) is Ok,
    ensures
        build_stages_from(cmds, i, stages).unwrap().len() == stages.len() + cmds.len() - i,
    decreases cmds.len() - i,
{
    if i < cmds.len() {
        lemma_build_stages_len(cmds, i + 1, stages.push(spec_build_stage(cmds[i], i).unwrap()));
    }
}

/// A plan built from a parsed line is one that validation accepts, with one stage for each
/// command of the line, and a redirection exactly when the line has one: its target is what
/// validating the line's target text gives, and its mode is the line's.
pub proof fn law_built_plan_validates(line: SpecParsedLine)
    requires
        spec_build_plan(line) is Ok,
    ensures
        spec_validate_plan(spec_build_plan(line).unwrap()) is Ok,
        spec_build_plan(line).unwrap().stages.len() == line.stages.len(),
        spec_build_plan(line).unwrap().redirect is Some <==> line.redirect is Some,
        line.redirect matches Some(r) ==> {
            let p = spec_build_plan(line).unwrap().redirect.unwrap();
            &&& spec_validate_path(r.path) == Ok::<_, PathValidationErrorV1>(p.path)
            &&& p.mode == (match r.mode {
                ParsedRedirectModeV1::Overwrite => RedirectModeV1::Overwrite,
                ParsedRedirectModeV1::Append => RedirectModeV1::Append,
            })
        },
{
    lemma_build_stages_len(line.stages, 0, seq![]);
}

/// The long name of switch `k` (0, 1 or 2).
pub open spec fn long_of(names: FlagNames, k: int) -> Seq<char> {
    if k == 0 { names.longs.0 } else if k == 1 { names.longs.1 } else { names.longs.2 }
}

/// The letter of switch `k` (0, 1 or 2).
pub open spec fn short_of(names: FlagNames, k: int) -> char {
    if k == 0 { names.shorts.0 } else if k == 1 { names.shorts.1 } else { names.shorts.2 }
}

/// Whether the argument `a`, read as an option, turns on switch `k`: `--` and the long name,
/// or a dash and a cluster of letters holding the switch's letter.
pub open spec fn names_switch(a: Seq<char>, names: FlagNames, k: int) -> bool {
    ||| is_long(a) && a.skip(2) == long_of(names, k)
    ||| !is_long(a) && a.len() > 1 && a[0] == '-' && has_char(a.skip(1), short_of(names, k))
}

/// Whether some argument of `args[i..]` before a `--` turns on switch `k`.
pub open spec fn switch_given(args: Seq<Seq<char>>, i: int, names: FlagNames, k: int) -> bool
    decreases args.len() - i,
{
    if i < 0 || i >= args.len() {
        false
    } else if args[i] == dashdash() {
        false
    } else {
        names_switch(args[i], names, k) || switch_given(args, i + 1, names, k)
    }
}

/// Three switches with distinct long names.
pub open spec fn distinct_longs(names: FlagNames) -> bool {
    names.longs.0 != names.longs.1 && names.longs.0 != names.longs.2 && names.longs.1 != names.longs.2
}

proof fn lemma_flag_args(
    args: Seq<Seq<char>>,
    i: int,
    parse_options: bool,
    flags: (bool, bool, bool),
    paths: Seq<SpecPath>,
    names: FlagNames,
)
    requires
        0 <= i <= args.len(),
        distinct_longs(names),
    ensures
        flag_args_from(args, i, parse_options, flags, paths, names) matches Ok((f, _)) ==> {
            &&& f.0 == (flags.0 || (parse_options && switch_given(args, i, names, 0)))
            &&& f.1 == (flags.1 || (parse_options && switch_given(args, i, names, 1)))
            &&& f.2 == (flags.2 || (parse_options && switch_given(args, i, names, 2)))
        },
    decreases args.len() - i,
{
    if i < args.len() {
        let a = args[i];
        if parse_options && a == dashdash() {
            lemma_flag_args(args, i + 1, false, flags, paths, names);
        } else if parse_options && is_long(a) {
            let long = a.skip(2);
            if long == names.longs.0 {
                lemma_flag_args(args, i + 1, parse_options, (true, flags.1, flags.2), paths, names);
            } else if long == names.longs.1 {
                lemma_flag_args(args, i + 1, parse_options, (flags.0, true, flags.2), paths, names);
            } else if long == names.longs.2 {
                lemma_flag_args(args, i + 1, parse_options, (flags.0, flags.1, true), paths, names);
            }
        } else if parse_options && a.len() > 1 && a[0] == '-' {
            let shorts = a.skip(1);
            if short_flags_ok(shorts, names.shorts) {
                lemma_flag_args(args, i + 1, parse_options, (
                    flags.0 || has_char(shorts, names.shorts.0),
                    flags.1 || has_char(shorts, names.shorts.1),
                    flags.2 || has_char(shorts, names.shorts.2),
                ), paths, names);
            }
        } else {
            match add_operand(paths, a) {
                Ok(ps) => lemma_flag_args(args, i + 1, parse_options, flags, ps, names),
                Err(_) => {},
            }
        }
    }
}

/// `sort` turns on `reverse` for `-r` or `--reverse`, `numeric` for `-n` or `--numeric-sort`,
/// and `unique` for `-u` or `--unique`, alone or in a cluster such as `-rn`, wherever they
/// stand before a `--`; an argument after `--` is an operand.
pub proof fn law_sort_options(cmd: SpecCommand, has_pipeline_input: bool)
    ensures
        sort_names().longs == (seq!['r', 'e', 'v', 'e', 'r', 's', 'e'],
            seq!['n', 'u', 'm', 'e', 'r', 'i', 'c', '-', 's', 'o', 'r', 't'], seq!['u', 'n', 'i', 'q', 'u', 'e']),
        sort_names().shorts == ('r', 'n', 'u'),
        spec_build_sort(cmd, has_pipeline_input) matches Ok(SpecStage::SortLines { reverse, numeric, unique, .. }) ==> {
            &&& reverse == switch_given(cmd.arguments, 0, sort_names(), 0)
            &&& numeric == switch_given(cmd.arguments, 0, sort_names(), 1)
            &&& unique == switch_given(cmd.arguments, 0, sort_names(), 2)
        },
{
    let n = sort_names();
    assert(n.longs.0[0] != n.longs.1[0] && n.longs.0[0] != n.longs.2[0] && n.longs.1[0] != n.longs.2[0]);
    lemma_flag_args(cmd.arguments, 0, true, (false, false, false), seq![], n);
}

/// `uniq` turns on `count` for `-c` or `--count`, `repeated_only` for `-d` or `--repeated`,
/// and `unique_only` for `-u` or `--unique`, alone or in a cluster, wherever they stand before
/// a `--`, and refuses `-d` together with `-u`.
pub proof fn law_uniq_options(cmd: SpecCommand, has_pipeline_input: bool)
    ensures
        uniq_names().longs == (seq!['c', 'o', 'u', 'n', 't'], seq!['r', 'e', 'p', 'e', 'a', 't', 'e', 'd'],
            seq!['u', 'n', 'i', 'q', 'u', 'e']),
        uniq_names().shorts == ('c', 'd', 'u'),
        spec_build_uniq(cmd, has_pipeline_input) matches Ok(SpecStage::UniqueLines { count, repeated_only, unique_only, .. }) ==> {
            &&& count == switch_given(cmd.arguments, 0, uniq_names(), 0)
            &&& repeated_only == switch_given(cmd.arguments, 0, uniq_names(), 1)
            &&& unique_only == switch_given(cmd.arguments, 0, uniq_names(), 2)
            &&& !(repeated_only && unique_only)
        },
{
    let n = uniq_names();
    assert(n.longs.0[0] != n.longs.1[0] && n.longs.0[0] != n.longs.2[0] && n.longs.1[0] != n.longs.2[0]);
    lemma_flag_args(cmd.arguments, 0, true, (false, false, false), seq![], n);
}

/// An argument that cannot be read as an option: empty or not starting with a dash.
pub open spec fn plain_operand(a: Seq<char>) -> bool {
    !(a.len() > 0 && a[0] == '-')
}

proof fn lemma_count_operands(args: Seq<Seq<char>>, i: int, parse_options: bool, count: usize, paths: Seq<SpecPath>)
    requires
        0 <= i <= args.len(),
        forall|k: int| i <= k < args.len() ==> plain_operand(#[trigger] args[k]),
    ensures
        count_args_from(args, i, parse_options, count, paths) matches Ok((c, _)) ==> c == count,
    decreases args.len() - i,
{
    if i < args.len() {
        let a = args[i];
        assert(plain_operand(a));
        assert(a != dashdash() && a != seq!['-', 'n']) by {
            if a == dashdash() || a == seq!['-', 'n'] {
                assert(a[0] == '-');
            }
        }
        match add_operand(paths, a) {
            Ok(ps) => lemma_count_operands(args, i + 1, parse_options, count, ps),
            Err(_) => {},
        }
    }
}

/// `head` and `tail` take ten lines, or as many as `-n COUNT` says: with only path operands the
/// count is ten; with `-n COUNT` first it is the number `COUNT` spells, and a `COUNT` that is no
/// number is refused.
pub proof fn law_head_tail_count(plain: SpecCommand, counted: SpecCommand, t: Seq<char>, has_pipeline_input: bool)
    requires
        forall|k: int| 0 <= k < plain.arguments.len() ==> plain_operand(#[trigger] plain.arguments[k]),
        counted.arguments == seq![seq!['-', 'n'], t] + plain.arguments,
    ensures
        spec_build_head(plain, has_pipeline_input) matches Ok(SpecStage::HeadLines { count, .. }) ==> count == 10,
        spec_build_tail(plain, has_pipeline_input) matches Ok(SpecStage::TailLines { count, .. }) ==> count == 10,
        spec_build_head(counted, has_pipeline_input) matches Ok(SpecStage::HeadLines { count, .. })
            ==> spec_parse_usize(t) == Some(count),
        spec_build_tail(counted, has_pipeline_input) matches Ok(SpecStage::TailLines { count, .. })
            ==> spec_parse_usize(t) == Some(count),
        spec_parse_usize(t) is None ==> spec_build_head(counted, has_pipeline_input) == Err::<SpecStage, _>(CatalogErrorV1::InvalidCount),
        spec_parse_usize(t) is None ==> spec_build_tail(counted, has_pipeline_input) == Err::<SpecStage, _>(CatalogErrorV1::InvalidCount),
{
    let args = counted.arguments;
    lemma_count_operands(plain.arguments, 0, true, 10, seq![]);
    assert(args[0] == seq!['-', 'n']);
    assert(args[1] == t);
    assert(args[0] != dashdash()) by {
        assert(args[0][1] == 'n');
    }
    assert forall|k: int| 2 <= k < args.len() implies plain_operand(#[trigger] args[k]) by {
        assert(args[k] == plain.arguments[k - 2]);
    }
    match spec_parse_usize(t) {
        Some(c) => lemma_count_operands(args, 2, true, c, seq![]),
        None => {},
    }
}

/// A cluster of `grep` letters such as `-in`: a dash, then one or more of `i n v F r`.
pub open spec fn grep_cluster(a: Seq<char>) -> bool {
    &&& a.len() > 1
    &&& a[0] == '-'
    &&& forall|j: int| 1 <= j < a.len() ==> grep_short(#[trigger] a[j])
}

/// Whether one of the clusters `args[i..n]` holds the letter `c`.
pub open spec fn cluster_has(args: Seq<Seq<char>>, i: int, n: int, c: char) -> bool
    decreases n - i,
{
    if i < 0 || i >= n {
        false
    } else {
        has_char(args[i].skip(1), c) || cluster_has(args, i + 1, n, c)
    }
}

proof fn lemma_grep_clusters(args: Seq<Seq<char>>, i: int, n: int, f: (bool, bool, bool, bool, bool))
    requires
        0 <= i <= n < args.len(),
        forall|k: int| i <= k < n ==> grep_cluster(#[trigger] args[k]),
        plain_operand(args[n]),
    ensures
        grep_options_from(args, i, f) == Ok::<_, CatalogErrorV1>(((
            f.0 || cluster_has(args, i, n, 'i'),
            f.1 || cluster_has(args, i, n, 'n'),
            f.2 || cluster_has(args, i, n, 'v'),
            f.3 || cluster_has(args, i, n, 'F'),
            f.4 || cluster_has(args, i, n, 'r'),
        ), n)),
    decreases n - i,
{
    let a = args[i];
    if i < n {
        assert(grep_cluster(a));
        assert(a != dashdash() && !is_long(a)) by {
            assert(grep_short(a[1]));
        }
        let shorts = a.skip(1);
        assert forall|k: int| 0 <= k < shorts.len() implies grep_short(#[trigger] shorts[k]) by {
            assert(shorts[k] == a[k + 1]);
        }
        lemma_grep_clusters(args, i + 1, n, (
            f.0 || has_char(shorts, 'i'),
            f.1 || has_char(shorts, 'n'),
            f.2 || has_char(shorts, 'v'),
            f.3 || has_char(shorts, 'F'),
            f.4 || has_char(shorts, 'r'),
        ));
    } else {
        assert(plain_operand(a));
        assert(a != dashdash() && !is_long(a)) by {
            if a == dashdash() || is_long(a) {
                assert(a[0] == '-');
            }
        }
    }
}

/// `grep` reads its letters from clusters such as `-i -nv` before the pattern: `-i` ignores
/// case, `-n` numbers lines, `-v` inverts the match, `-F` takes the pattern as fixed text, and
/// `-r` searches recursively; the first argument that is no option is the pattern and the
/// rest are the paths searched.
pub proof fn law_grep_options(cmd: SpecCommand, n: int, has_pipeline_input: bool)
    requires
        0 <= n < cmd.arguments.len(),
        forall|k: int| 0 <= k < n ==> grep_cluster(#[trigger] cmd.arguments[k]),
        plain_operand(cmd.arguments[n]),
    ensures
        spec_build_grep(cmd, has_pipeline_input) matches Ok(SpecStage::SearchText {
            pattern, paths, ignore_case, line_numbers, invert_match, fixed_strings, recursive,
        }) ==> {
            &&& pattern == cmd.arguments[n]
            &&& ignore_case == cluster_has(cmd.arguments, 0, n, 'i')
            &&& line_numbers == cluster_has(cmd.arguments, 0, n, 'n')
            &&& invert_match == cluster_has(cmd.arguments, 0, n, 'v')
            &&& fixed_strings == cluster_has(cmd.arguments, 0, n, 'F')
            &&& recursive == cluster_has(cmd.arguments, 0, n, 'r')
            &&& operands_from(cmd.arguments, n + 1, seq![]) == Ok::<_, CatalogErrorV1>(paths)
        },
{
    lemma_grep_clusters(cmd.arguments, 0, n, (false, false, false, false, false));
}

} // verus!
