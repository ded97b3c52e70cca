//! Classifying submitted lines and holding the requests prepared for them.

use vstd::prelude::*;
use crate::catalog::{build_readonly_plan, spec_build_plan, CatalogErrorV1};
use crate::interpreter::{
    ActiveShell, ExecutionPlanV1, LineEvidence, PreparedRequestKindV1, PreparedRequestV1, SpecPlan,
    SpecRequest, SpecRequestKind, SpecStage, StagePlanV1, spec_familiar_control, parse_familiar_control,
    wingman_protocol,
};
use crate::lexer::{lex_p0_line, spec_lex, LexErrorV1};
use crate::parser::{parse_p0_tokens, spec_parse, ParseErrorV1};
use crate::text::{chars_of, concat, eq_ignore_case, eq_ignore_case_str, eq_str, is_ascii_ws, owned};

verus! {

/// Unicode `White_Space`, the characters `str::trim` removes.
pub open spec fn is_unicode_ws(c: char) -> bool {
    let v = c as u32;
    ||| 0x09 <= v <= 0x0d
    ||| v == 0x20 || v == 0x85 || v == 0xa0 || v == 0x1680
    ||| 0x2000 <= v <= 0x200a
    ||| v == 0x2028 || v == 0x2029 || v == 0x202f || v == 0x205f || v == 0x3000
}

pub open spec fn trim_start_ws(s: Seq<char>) -> Seq<char>
    decreases s.len(),
{
    if s.len() > 0 && is_unicode_ws(s[0]) { trim_start_ws(s.drop_first()) } else { s }
}

pub open spec fn trim_end_ws(s: Seq<char>) -> Seq<char>
    decreases s.len(),
{
    if s.len() > 0 && is_unicode_ws(s.last()) { trim_end_ws(s.drop_last()) } else { s }
}

/// `s` without leading and trailing Unicode whitespace.
pub open spec fn trim_ws(s: Seq<char>) -> Seq<char> {
    trim_end_ws(trim_start_ws(s))
}

fn unicode_ws(c: char) -> (r: bool)
    ensures
        r == is_unicode_ws(c),
{
    let v = c as u32;
    (0x09 <= v && v <= 0x0d) || v == 0x20 || v == 0x85 || v == 0xa0 || v == 0x1680 || (0x2000 <= v && v <= 0x200a)
        || v == 0x2028 || v == 0x2029 || v == 0x202f || v == 0x205f || v == 0x3000
}

/// The characters of `s` without leading and trailing Unicode whitespace.
pub fn trim_unicode(s: &[char]) -> (r: Vec<char>)
    ensures
        r@ == trim_ws(s@),
{
    let mut a: usize = 0;
    assert(s@.skip(0) =~= s@);
    while a < s.len() && unicode_ws(s[a])
        invariant
            a <= s@.len(),
            trim_start_ws(s@) == trim_start_ws(s@.skip(a as int)),
        decreases s.len() - a,
    {
        assert(s@.skip(a as int).drop_first() =~= s@.skip(a + 1));
        a += 1;
    }
    assert(trim_start_ws(s@) == s@.skip(a as int));
    let mut b: usize = s.len();
    assert(s@.subrange(a as int, b as int) =~= s@.skip(a as int));
    while b > a && unicode_ws(s[b - 1])
        invariant
            a <= b <= s@.len(),
            trim_start_ws(s@) == s@.skip(a as int),
            trim_ws(s@) == trim_end_ws(s@.subrange(a as int, b as int)),
        decreases b - a,
    {
        assert(s@.subrange(a as int, b as int).drop_last() =~= s@.subrange(a as int, b - 1));
        b -= 1;
    }
    let mut r: Vec<char> = Vec::new();
    let mut i: usize = a;
    while i < b
        invariant
            a <= i <= b <= s@.len(),
            r@ == s@.subrange(a as int, i as int),
        decreases b - i,
    {
        r.push(s[i]);
        i += 1;
        assert(r@ =~= s@.subrange(a as int, i as int));
    }
    r
}

/// `s` without its leading spaces and tabs.
pub open spec fn strip_blanks(s: Seq<char>) -> Seq<char>
    decreases s.len(),
{
    if s.len() > 0 && (s[0] == ' ' || s[0] == '\t') { strip_blanks(s.drop_first()) } else { s }
}

/// Characters that end the first word of a line.
pub open spec fn ends_word(c: char) -> bool {
    is_ascii_ws(c) || c == '|' || c == '>' || c == '<' || c == '&' || c == ';'
}

/// The index of the first word end in `s` at or after `i`.
pub open spec fn word_end(s: Seq<char>, i: int) -> int
    decreases s.len() - i,
{
    if i < 0 || i >= s.len() || ends_word(s[i]) { i } else { word_end(s, i + 1) }
}

/// The first word of a line, after its leading spaces and tabs.
pub open spec fn leading_word(s: Seq<char>) -> Seq<char> {
    let t = strip_blanks(s);
    t.take(word_end(t, 0))
}

/// The command names that Familiar claims, in their canonical spelling.
pub open spec fn claimed_name(w: Seq<char>) -> Option<Seq<char>> {
    if eq_ignore_case(w, "cat"@) { Some("cat"@) }
    else if eq_ignore_case(w, "clear"@) { Some("clear"@) }
    else if eq_ignore_case(w, "which"@) { Some("which"@) }
    else if eq_ignore_case(w, "ls"@) { Some("ls"@) }
    else if eq_ignore_case(w, "ll"@) { Some("ll"@) }
    else if eq_ignore_case(w, "find"@) { Some("find"@) }
    else if eq_ignore_case(w, "head"@) { Some("head"@) }
    else if eq_ignore_case(w, "wc"@) { Some("wc"@) }
    else if eq_ignore_case(w, "tail"@) { Some("tail"@) }
    else if eq_ignore_case(w, "grep"@) { Some("grep"@) }
    else if eq_ignore_case(w, "uniq"@) { Some("uniq"@) }
    else if eq_ignore_case(w, "sort"@) { Some("sort"@) }
    else if eq_ignore_case(w, "mkdir"@) { Some("mkdir"@) }
    else if eq_ignore_case(w, "touch"@) { Some("touch"@) }
    else if eq_ignore_case(w, "cp"@) { Some("cp"@) }
    else if eq_ignore_case(w, "mv"@) { Some("mv"@) }
    else if eq_ignore_case(w, "rm"@) { Some("rm"@) }
    else { None }
}

/// The command that a line names, when Familiar handles it.
pub open spec fn spec_claimed_command(raw: Seq<char>) -> Option<Seq<char>> {
    claimed_name(leading_word(raw))
}

/// The name of the command that a line claims, if Familiar handles it.
fn claimed_p0_command(raw_line: &str) -> (r: Option<&'static str>)
    ensures
        match r {
            Some(n) => spec_claimed_command(raw_line@) == Some(n@),
            None => spec_claimed_command(raw_line@) is None,
        },
{
    let s = chars_of(raw_line);
    let mut a: usize = 0;
    assert(s@.skip(0) =~= s@);
    while a < s.len() && (s[a] == ' ' || s[a] == '\t')
        invariant
            a <= s@.len(),
            strip_blanks(s@) == strip_blanks(s@.skip(a as int)),
        decreases s.len() - a,
    {
        assert(s@.skip(a as int).drop_first() =~= s@.skip(a + 1));
        a += 1;
    }
    let ghost t = s@.skip(a as int);
    assert(strip_blanks(s@) == t);
    let mut e: usize = a;
    while e < s.len() && !(s[e] == ' ' || s[e] == '\t' || s[e] == '\n' || s[e] == '\r' || s[e] == '\x0C'
        || s[e] == '|' || s[e] == '>' || s[e] == '<' || s[e] == '&' || s[e] == ';')
        invariant
            a <= e <= s@.len(),
            t == s@.skip(a as int),
            word_end(t, 0) == word_end(t, e - a),
        decreases s.len() - e,
    {
        assert(t[e - a] == s@[e as int]);
        e += 1;
    }
    proof {
        if e < s.len() {
            assert(t[e - a] == s@[e as int]);
        }
    }
    assert(word_end(t, 0) == e - a);
    let mut w: Vec<char> = Vec::new();
    let mut i: usize = a;
    while i < e
        invariant
            a <= i <= e <= s@.len(),
            w@ == s@.subrange(a as int, i as int),
        decreases e - i,
    {
        w.push(s[i]);
        i += 1;
        assert(w@ =~= s@.subrange(a as int, i as int));
    }
    assert(w@ =~= leading_word(s@));
    let w = w.as_slice();
    if eq_ignore_case_str(w, "cat") { Some("cat") }
    else if eq_ignore_case_str(w, "clear") { Some("clear") }
    else if eq_ignore_case_str(w, "which") { Some("which") }
    else if eq_ignore_case_str(w, "ls") { Some("ls") }
    else if eq_ignore_case_str(w, "ll") { Some("ll") }
    else if eq_ignore_case_str(w, "find") { Some("find") }
    else if eq_ignore_case_str(w, "head") { Some("head") }
    else if eq_ignore_case_str(w, "wc") { Some("wc") }
    else if eq_ignore_case_str(w, "tail") { Some("tail") }
    else if eq_ignore_case_str(w, "grep") { Some("grep") }
    else if eq_ignore_case_str(w, "uniq") { Some("uniq") }
    else if eq_ignore_case_str(w, "sort") { Some("sort") }
    else if eq_ignore_case_str(w, "mkdir") { Some("mkdir") }
    else if eq_ignore_case_str(w, "touch") { Some("touch") }
    else if eq_ignore_case_str(w, "cp") { Some("cp") }
    else if eq_ignore_case_str(w, "mv") { Some("mv") }
    else if eq_ignore_case_str(w, "rm") { Some("rm") }
    else { None }
}

/// What a refused line's diagnostic says about a tokenizer error.
pub open spec fn lex_message(e: LexErrorV1) -> Seq<char> {
    match e {
        LexErrorV1::UnclosedSingleQuote | LexErrorV1::UnclosedDoubleQuote => "unclosed quote"@,
        LexErrorV1::UnsupportedOperator => "unsupported shell operator"@,
        LexErrorV1::UnsupportedStreamRedirection => "unsupported stream redirection"@,
        LexErrorV1::ControlCharacter => "unsupported control character"@,
    }
}

/// What a refused line's diagnostic says about a pipeline shape error.
pub open spec fn parse_message(e: ParseErrorV1) -> Seq<char> {
    match e {
        ParseErrorV1::EmptyPipelineStage => "empty pipeline stage"@,
        ParseErrorV1::MissingRedirectTarget => "missing redirection target"@,
        ParseErrorV1::MultipleRedirects => "multiple redirections are unsupported"@,
        ParseErrorV1::RedirectNotFinal => "redirection must be final"@,
    }
}

/// What a refused line's diagnostic says about a catalog error of command `name`.
pub open spec fn catalog_message(name: Seq<char>, e: CatalogErrorV1) -> Seq<char> {
    match e {
        CatalogErrorV1::UnsupportedCommand => "pipeline contains an unsupported command"@,
        CatalogErrorV1::UnsupportedOption => "unsupported option"@,
        CatalogErrorV1::MissingOperand => if name == "mkdir"@ { "missing directory operand"@ } else { "missing file operand"@ },
        CatalogErrorV1::InvalidCount => "invalid line count"@,
        CatalogErrorV1::InvalidSourceShape => "invalid pipeline source shape"@,
        CatalogErrorV1::InvalidPattern => "invalid pattern"@,
        CatalogErrorV1::ResourceLimit => "request exceeds a resource limit"@,
        CatalogErrorV1::Path(_) => "unsupported path"@,
    }
}

/// `wingman NAME: MESSAGE`.
pub open spec fn diagnostic_text(name: Seq<char>, message: Seq<char>) -> Seq<char> {
    "wingman "@ + name + ": "@ + message
}

fn diagnostic(command_name: &str, message: &str) -> (r: String)
    ensures
        r@ == diagnostic_text(command_name@, message@),
{
    let a = concat("wingman ", command_name);
    let b = concat(a.as_str(), ": ");
    concat(b.as_str(), message)
}

fn p0_lex_diagnostic(command_name: &str, error: LexErrorV1) -> (r: String)
    ensures
        r@ == diagnostic_text(command_name@, lex_message(error)),
{
    let message = match error {
        LexErrorV1::UnclosedSingleQuote | LexErrorV1::UnclosedDoubleQuote => "unclosed quote",
        LexErrorV1::UnsupportedOperator => "unsupported shell operator",
        LexErrorV1::UnsupportedStreamRedirection => "unsupported stream redirection",
        LexErrorV1::ControlCharacter => "unsupported control character",
    };
    diagnostic(command_name, message)
}

fn p0_parse_diagnostic(command_name: &str, error: ParseErrorV1) -> (r: String)
    ensures
        r@ == diagnostic_text(command_name@, parse_message(error)),
{
    let message = match error {
        ParseErrorV1::EmptyPipelineStage => "empty pipeline stage",
        ParseErrorV1::MissingRedirectTarget => "missing redirection target",
        ParseErrorV1::MultipleRedirects => "multiple redirections are unsupported",
        ParseErrorV1::RedirectNotFinal => "redirection must be final",
    };
    diagnostic(command_name, message)
}

fn p0_catalog_diagnostic(command_name: &str, error: CatalogErrorV1) -> (r: String)
    ensures
        r@ == diagnostic_text(command_name@, catalog_message(command_name@, error)),
{
    let name = chars_of(command_name);
    let message = match error {
        CatalogErrorV1::UnsupportedCommand => "pipeline contains an unsupported command",
        CatalogErrorV1::UnsupportedOption => "unsupported option",
        CatalogErrorV1::MissingOperand => if eq_str(name.as_slice(), "mkdir") {
            "missing directory operand"
        } else {
            "missing file operand"
        },
        CatalogErrorV1::InvalidCount => "invalid line count",
        CatalogErrorV1::InvalidSourceShape => "invalid pipeline source shape",
        CatalogErrorV1::InvalidPattern => "invalid pattern",
        CatalogErrorV1::ResourceLimit => "request exceeds a resource limit",
        CatalogErrorV1::Path(_) => "unsupported path",
    };
    diagnostic(command_name, message)
}

/// A refusal with `diagnostic`.
pub open spec fn reject_kind(diagnostic: Seq<char>) -> SpecRequestKind {
    SpecRequestKind::Reject { diagnostic, exit_code: 2 }
}

/// The request a line of a claimed command becomes: its plan, or a refusal that says why.
pub open spec fn spec_classify_p0(raw: Seq<char>) -> Option<SpecRequestKind> {
    match spec_claimed_command(raw) {
        None => None,
        Some(name) => Some(match spec_lex(raw) {
            Err(e) => reject_kind(diagnostic_text(name, lex_message(e))),
            Ok(tokens) => match spec_parse(tokens) {
                Err(e) => reject_kind(diagnostic_text(name, parse_message(e))),
                Ok(line) => match spec_build_plan(line) {
                    Err(e) => reject_kind(diagnostic_text(name, catalog_message(name, e))),
                    Ok(plan) => SpecRequestKind::Execute { plan },
                },
            },
        }),
    }
}

/// The request kind of a line that names a command Familiar handles.
fn classify_p0_submission(raw_line: &str) -> (r: Option<PreparedRequestKindV1>)
    ensures
        match r {
            Some(k) => spec_classify_p0(raw_line@) == Some(k@),
            None => spec_classify_p0(raw_line@) is None,
        },
{
    let command_name = match claimed_p0_command(raw_line) {
        None => {
            return None;
        },
        Some(n) => n,
    };
    let tokens = match lex_p0_line(raw_line) {
        Err(e) => {
            return Some(PreparedRequestKindV1::Reject { diagnostic: p0_lex_diagnostic(command_name, e), exit_code: 2 });
        },
        Ok(t) => t,
    };
    let parsed = match parse_p0_tokens(tokens.as_slice()) {
        Err(e) => {
            return Some(PreparedRequestKindV1::Reject { diagnostic: p0_parse_diagnostic(command_name, e), exit_code: 2 });
        },
        Ok(p) => p,
    };
    match build_readonly_plan(&parsed) {
        Err(e) => Some(PreparedRequestKindV1::Reject { diagnostic: p0_catalog_diagnostic(command_name, e), exit_code: 2 }),
        Ok(plan) => Some(PreparedRequestKindV1::Execute { plan }),
    }
}

#[derive(Clone, Debug, Eq, PartialEq)]
pub struct PrepareSubmissionV1 {
    pub session_id: u64,
    pub command_sequence: u64,
    pub shell: ActiveShell,
    pub familiar_enabled: bool,
    pub evidence: LineEvidence,
    pub raw_line: String,
}

#[derive(Clone, Debug, Eq, PartialEq)]
pub struct FrontendDecisionV1 {
    pub session_id: u64,
    pub command_sequence: u64,
    pub decision: FrontendDecisionKindV1,
}

#[derive(Clone, Debug, Eq, PartialEq)]
pub enum FrontendDecisionKindV1 {
    PassThrough { raw_line: String },
    InvokePrepared { request_id: String, display_line: String },
}

#[derive(Clone, Debug, Eq, PartialEq)]
pub enum PrepareSubmissionErrorV1 {
    SessionMismatch { expected: u64, received: u64 },
    CommandSequenceMismatch { expected: u64, received: u64 },
    ShellMismatch { expected: ActiveShell, received: ActiveShell },
    AlreadyPrepared { command_sequence: u64 },
}

/// What the frontend is told to do with a submitted line.
pub enum SpecDecisionKind {
    PassThrough { raw_line: Seq<char> },
    InvokePrepared { request_id: Seq<char>, display_line: Seq<char> },
}

pub struct SpecDecision {
    pub session_id: u64,
    pub command_sequence: u64,
    pub decision: SpecDecisionKind,
}

impl View for FrontendDecisionV1 {
    type V = SpecDecision;

    open spec fn view(&self) -> SpecDecision {
        SpecDecision {
            session_id: self.session_id,
            command_sequence: self.command_sequence,
            decision: match self.decision {
                FrontendDecisionKindV1::PassThrough { raw_line } => SpecDecisionKind::PassThrough { raw_line: raw_line@ },
                FrontendDecisionKindV1::InvokePrepared { request_id, display_line } => SpecDecisionKind::InvokePrepared {
                    request_id: request_id@,
                    display_line: display_line@,
                },
            },
        }
    }
}

/// A request id: 32 lowercase hexadecimal digits.
pub open spec fn is_request_id(id: Seq<char>) -> bool {
    id.len() == 32 && forall|i: int| 0 <= i < 32 ==> is_lower_hex(#[trigger] id[i])
}

pub open spec fn is_lower_hex(c: char) -> bool {
    ('0' <= c && c <= '9') || ('a' <= c && c <= 'f')
}

/// A fresh random request id (`uuid::Uuid::new_v4().as_simple().to_string()`): uuid formats the
/// simple form of a UUID as 32 lowercase hexadecimal digits. Which digits come out is random.
#[verifier::external_body]
pub(crate) fn fresh_request_id() -> (r: String)
    ensures
        is_request_id(r@),
{
    uuid::Uuid::new_v4().as_simple().to_string()
}

/// `Familiar: ON` or `Familiar: OFF`.
pub open spec fn control_response(enabled: bool) -> Seq<char> {
    "Familiar: "@ + if enabled { "ON"@ } else { "OFF"@ }
}

/// The plan that prints the working directory.
pub open spec fn pwd_plan() -> SpecPlan {
    SpecPlan { stages: seq![SpecStage::PrintWorkingDirectory], redirect: None }
}

/// What a submitted line becomes: a prepared request of this kind, or (`None`) the shell's own.
pub open spec fn spec_submission_kind(familiar_enabled: bool, evidence: LineEvidence, raw: Seq<char>) -> Option<SpecRequestKind> {
    if evidence == LineEvidence::Reliable && spec_familiar_control(raw) is Some {
        let enabled = match spec_familiar_control(raw).unwrap() {
            crate::interpreter::FamiliarControlEffectV1::SetTo(e) => e,
            crate::interpreter::FamiliarControlEffectV1::Status => familiar_enabled,
        };
        Some(SpecRequestKind::Control { response: control_response(enabled), exit_code: 0 })
    } else if familiar_enabled && evidence == LineEvidence::Reliable && eq_ignore_case(trim_ws(raw), "pwd"@) {
        Some(SpecRequestKind::Execute { plan: pwd_plan() })
    } else if familiar_enabled && evidence == LineEvidence::Reliable {
        spec_classify_p0(raw)
    } else {
        None
    }
}

/// The request kind of a submission, or `None` when the shell runs the line itself.
fn submission_kind(familiar_enabled: bool, evidence: LineEvidence, raw_line: &str) -> (r: Option<PreparedRequestKindV1>)
    ensures
        match r {
            Some(k) => spec_submission_kind(familiar_enabled, evidence, raw_line@) == Some(k@),
            None => spec_submission_kind(familiar_enabled, evidence, raw_line@) is None,
        },
{
    if evidence == LineEvidence::Reliable {
        if let Some(effect) = parse_familiar_control(raw_line) {
            let enabled = match effect.enabled() {
                Some(e) => e,
                None => familiar_enabled,
            };
            let response = concat("Familiar: ", if enabled { "ON" } else { "OFF" });
            return Some(PreparedRequestKindV1::Control { response, exit_code: 0 });
        }
    }
    if familiar_enabled && evidence == LineEvidence::Reliable {
        let chars = chars_of(raw_line);
        let trimmed = trim_unicode(chars.as_slice());
        if eq_ignore_case_str(trimmed.as_slice(), "pwd") {
            let mut stages: Vec<StagePlanV1> = Vec::new();
            stages.push(StagePlanV1::PrintWorkingDirectory);
            let plan = ExecutionPlanV1 { stages, redirect: None };
            assert(plan@ == pwd_plan()) by {
                assert(plan@.stages =~= pwd_plan().stages);
            }
            return Some(PreparedRequestKindV1::Execute { plan });
        }
        return classify_p0_submission(raw_line);
    }
    None
}

/// Whether some entry of `v` has key `k`.
pub open spec fn has_key(v: Seq<(String, PreparedRequestV1)>, k: Seq<char>) -> bool {
    exists|i: int| 0 <= i < v.len() && v[i].0@ == k
}

/// The requests of `v` by key.
pub open spec fn pairs_map(v: Seq<(String, PreparedRequestV1)>) -> Map<Seq<char>, SpecRequest> {
    Map::new(
        |k: Seq<char>| has_key(v, k),
        |k: Seq<char>| v[choose|i: int| 0 <= i < v.len() && v[i].0@ == k].1@,
    )
}

/// No key occurs twice in `v`.
pub open spec fn distinct_keys(v: Seq<(String, PreparedRequestV1)>) -> bool {
    forall|i: int, j: int| 0 <= i < v.len() && 0 <= j < v.len() && i != j ==> v[i].0@ != v[j].0@
}

proof fn lemma_lookup(v: Seq<(String, PreparedRequestV1)>, i: int)
    requires
        distinct_keys(v),
        0 <= i < v.len(),
    ensures
        pairs_map(v).dom().contains(v[i].0@),
        pairs_map(v)[v[i].0@] == v[i].1@,
{
    let k = v[i].0@;
    assert(has_key(v, k));
    let c = choose|c: int| 0 <= c < v.len() && v[c].0@ == k;
    assert(c == i);
}

proof fn lemma_remove(v: Seq<(String, PreparedRequestV1)>, i: int)
    requires
        distinct_keys(v),
        0 <= i < v.len(),
    ensures
        distinct_keys(v.remove(i)),
        pairs_map(v.remove(i)) == pairs_map(v).remove(v[i].0@),
{
    let w = v.remove(i);
    let k0 = v[i].0@;
    assert forall|a: int, b: int| 0 <= a < w.len() && 0 <= b < w.len() && a != b implies w[a].0@ != w[b].0@ by {
        let a1 = if a < i { a } else { a + 1 };
        let b1 = if b < i { b } else { b + 1 };
        assert(w[a] == v[a1] && w[b] == v[b1]);
    }
    assert forall|k: Seq<char>| #[trigger] has_key(w, k) == (has_key(v, k) && k != k0) by {
        if has_key(w, k) {
            let j = choose|j: int| 0 <= j < w.len() && w[j].0@ == k;
            let j1 = if j < i { j } else { j + 1 };
            assert(w[j] == v[j1]);
            assert(j1 != i);
        }
        if has_key(v, k) && k != k0 {
            let j = choose|j: int| 0 <= j < v.len() && v[j].0@ == k;
            assert(j != i);
            let j1 = if j < i { j } else { j - 1 };
            assert(w[j1] == v[j]);
        }
    }
    assert forall|k: Seq<char>| pairs_map(w).dom().contains(k) implies pairs_map(w)[k] == pairs_map(v)[k] by {
        let j = choose|j: int| 0 <= j < w.len() && w[j].0@ == k;
        let j1 = if j < i { j } else { j + 1 };
        assert(w[j] == v[j1]);
        lemma_lookup(v, j1);
    }
    assert(pairs_map(w) =~= pairs_map(v).remove(k0));
}

proof fn lemma_replace(v: Seq<(String, PreparedRequestV1)>, i: int, e: (String, PreparedRequestV1))
    requires
        distinct_keys(v),
        0 <= i < v.len(),
        e.0@ == v[i].0@,
    ensures
        distinct_keys(v.update(i, e)),
        pairs_map(v.update(i, e)) == pairs_map(v).insert(e.0@, e.1@),
{
    let w = v.update(i, e);
    assert forall|k: Seq<char>| #[trigger] has_key(w, k) == has_key(v, k) by {
        if has_key(w, k) {
            let j = choose|j: int| 0 <= j < w.len() && w[j].0@ == k;
            assert(v[j].0@ == k);
        }
        if has_key(v, k) {
            let j = choose|j: int| 0 <= j < v.len() && v[j].0@ == k;
            assert(w[j].0@ == k);
        }
    }
    assert forall|k: Seq<char>| pairs_map(w).dom().contains(k) implies pairs_map(w)[k] == pairs_map(v).insert(e.0@, e.1@)[k] by {
        let j = choose|j: int| 0 <= j < w.len() && w[j].0@ == k;
        if j == i {
            assert(w[j] == e);
        } else {
            assert(w[j] == v[j]);
            lemma_lookup(v, j);
        }
    }
    assert(pairs_map(w) =~= pairs_map(v).insert(e.0@, e.1@));
}

proof fn lemma_push(v: Seq<(String, PreparedRequestV1)>, e: (String, PreparedRequestV1))
    requires
        distinct_keys(v),
        !has_key(v, e.0@),
    ensures
        distinct_keys(v.push(e)),
        pairs_map(v.push(e)) == pairs_map(v).insert(e.0@, e.1@),
{
    let w = v.push(e);
    let n = v.len() as int;
    assert forall|a: int, b: int| 0 <= a < w.len() && 0 <= b < w.len() && a != b implies w[a].0@ != w[b].0@ by {
        if a == n {
            assert(w[b] == v[b]);
        } else if b == n {
            assert(w[a] == v[a]);
        }
    }
    assert forall|k: Seq<char>| #[trigger] has_key(w, k) == (has_key(v, k) || k == e.0@) by {
        if has_key(w, k) {
            let j = choose|j: int| 0 <= j < w.len() && w[j].0@ == k;
            if j < n {
                assert(w[j] == v[j]);
            }
        }
        if has_key(v, k) {
            let j = choose|j: int| 0 <= j < v.len() && v[j].0@ == k;
            assert(w[j] == v[j]);
        }
        if k == e.0@ {
            assert(w[n] == e);
        }
    }
    assert forall|k: Seq<char>| pairs_map(w).dom().contains(k) implies pairs_map(w)[k] == pairs_map(v).insert(e.0@, e.1@)[k] by {
        let j = choose|j: int| 0 <= j < w.len() && w[j].0@ == k;
        if j == n {
            assert(w[j] == e);
        } else {
            assert(w[j] == v[j]);
            lemma_lookup(v, j);
        }
    }
    assert(pairs_map(w) =~= pairs_map(v).insert(e.0@, e.1@));
}

/// Where key `id` is in `v`.
fn find_key(v: &Vec<(String, PreparedRequestV1)>, id: &str) -> (r: Option<usize>)
    ensures
        match r {
            Some(i) => i < v@.len() && v@[i as int].0@ == id@,
            None => !has_key(v@, id@),
        },
{
    let key = chars_of(id);
    let mut i: usize = 0;
    while i < v.len()
        invariant
            i <= v@.len(),
            key@ == id@,
            forall|j: int| 0 <= j < i ==> v@[j].0@ != id@,
        decreases v.len() - i,
    {
        let candidate = chars_of(v[i].0.as_str());
        if crate::text::chars_eq(candidate.as_slice(), key.as_slice()) {
            return Some(i);
        }
        i += 1;
    }
    None
}

/// The state of one shell session as Familiar sees it: the prompt it waits at, and the
/// requests prepared for the line submitted there.
pub struct InterpreterSession {
    session_id: u64,
    command_sequence: u64,
    shell: ActiveShell,
    submission_prepared: bool,
    prepared: Vec<(String, PreparedRequestV1)>,
}

pub struct SpecSession {
    pub session_id: u64,
    pub command_sequence: u64,
    pub shell: ActiveShell,
    pub submission_prepared: bool,
    pub prepared: Map<Seq<char>, SpecRequest>,
}

impl View for InterpreterSession {
    type V = SpecSession;

    closed spec fn view(&self) -> SpecSession {
        SpecSession {
            session_id: self.session_id,
            command_sequence: self.command_sequence,
            shell: self.shell,
            submission_prepared: self.submission_prepared,
            prepared: pairs_map(self.prepared@),
        }
    }
}

/// Why a submission is refused, if it is.
pub open spec fn submission_error(s: SpecSession, session_id: u64, command_sequence: u64, shell: ActiveShell) -> Option<PrepareSubmissionErrorV1> {
    if session_id != s.session_id {
        Some(PrepareSubmissionErrorV1::SessionMismatch { expected: s.session_id, received: session_id })
    } else if command_sequence != s.command_sequence {
        Some(PrepareSubmissionErrorV1::CommandSequenceMismatch { expected: s.command_sequence, received: command_sequence })
    } else if shell != s.shell {
        Some(PrepareSubmissionErrorV1::ShellMismatch { expected: s.shell, received: shell })
    } else if s.submission_prepared {
        Some(PrepareSubmissionErrorV1::AlreadyPrepared { command_sequence: s.command_sequence })
    } else {
        None
    }
}

/// The prepared request that carries `kind`.
pub open spec fn prepared_request(kind: SpecRequestKind) -> SpecRequest {
    SpecRequest { protocol: wingman_protocol(), version: 1, kind }
}

/// What an accepted submission of `raw` at prompt `command_sequence` does: the decision `d`
/// it gives, and the session `after` it.
pub open spec fn submission_accepted(
    before: SpecSession,
    command_sequence: u64,
    familiar_enabled: bool,
    evidence: LineEvidence,
    raw: Seq<char>,
    d: SpecDecision,
    after: SpecSession,
) -> bool {
    &&& d.session_id == before.session_id
    &&& d.command_sequence == command_sequence
    &&& after.session_id == before.session_id
    &&& after.command_sequence == before.command_sequence
    &&& after.shell == before.shell
    &&& after.submission_prepared
    &&& match spec_submission_kind(familiar_enabled, evidence, raw) {
        None => d.decision == (SpecDecisionKind::PassThrough { raw_line: raw }) && after.prepared == before.prepared,
        Some(kind) => d.decision matches SpecDecisionKind::InvokePrepared { request_id, display_line }
            && is_request_id(request_id)
            && display_line == raw
            && after.prepared == before.prepared.insert(request_id, prepared_request(kind)),
    }
}

impl InterpreterSession {
    /// The keys of the prepared requests are distinct.
    pub closed spec fn wf(&self) -> bool {
        distinct_keys(self.prepared@)
    }

    /// A session waiting at prompt `command_sequence` of `shell`, with nothing prepared.
    pub fn new(session_id: u64, command_sequence: u64, shell: ActiveShell) -> (r: Self)
        ensures
            r.wf(),
            r@ == (SpecSession {
                session_id,
                command_sequence,
                shell,
                submission_prepared: false,
                prepared: Map::empty(),
            }),
    {
        let r = InterpreterSession { session_id, command_sequence, shell, submission_prepared: false, prepared: Vec::new() };
        assert(pairs_map(r.prepared@) =~= Map::empty());
        r
    }

    /// Decides what becomes of the line submitted at the current prompt: a request prepared
    /// for the runner, or the shell's own execution.
    pub fn prepare_submission(&mut self, request: PrepareSubmissionV1) -> (r: Result<FrontendDecisionV1, PrepareSubmissionErrorV1>)
        requires
            old(self).wf(),
        ensures
            final(self).wf(),
            match submission_error(old(self)@, request.session_id, request.command_sequence, request.shell) {
                Some(e) => r == Err::<FrontendDecisionV1, _>(e) && final(self)@ == old(self)@,
                None => r is Ok && submission_accepted(
                    old(self)@,
                    request.command_sequence,
                    request.familiar_enabled,
                    request.evidence,
                    request.raw_line@,
                    r.unwrap()@,
                    final(self)@,
                ),
            },
    {
        if request.session_id != self.session_id {
            return Err(PrepareSubmissionErrorV1::SessionMismatch { expected: self.session_id, received: request.session_id });
        }
        if request.command_sequence != self.command_sequence {
            return Err(PrepareSubmissionErrorV1::CommandSequenceMismatch {
                expected: self.command_sequence,
                received: request.command_sequence,
            });
        }
        if request.shell != self.shell {
            return Err(PrepareSubmissionErrorV1::ShellMismatch { expected: self.shell, received: request.shell });
        }
        if self.submission_prepared {
            return Err(PrepareSubmissionErrorV1::AlreadyPrepared { command_sequence: self.command_sequence });
        }
        match submission_kind(request.familiar_enabled, request.evidence, request.raw_line.as_str()) {
            Some(kind) => Ok(self.prepare_request(request.command_sequence, request.raw_line, kind)),
            None => {
                self.submission_prepared = true;
                Ok(FrontendDecisionV1 {
                    session_id: self.session_id,
                    command_sequence: request.command_sequence,
                    decision: FrontendDecisionKindV1::PassThrough { raw_line: request.raw_line },
                })
            },
        }
    }

    /// Hands out the request prepared under `request_id`, once.
    pub fn consume_prepared(&mut self, request_id: &str) -> (r: Option<PreparedRequestV1>)
        requires
            old(self).wf(),
        ensures
            final(self).wf(),
            match r {
                Some(p) => old(self)@.prepared.dom().contains(request_id@) && p@ == old(self)@.prepared[request_id@],
                None => !old(self)@.prepared.dom().contains(request_id@),
            },
            final(self)@ == spec_consumed(old(self)@, request_id@),
    {
        match find_key(&self.prepared, request_id) {
            None => {
                assert(pairs_map(self.prepared@).remove(request_id@) =~= pairs_map(self.prepared@));
                None
            },
            Some(i) => {
                proof {
                    lemma_lookup(self.prepared@, i as int);
                    lemma_remove(self.prepared@, i as int);
                }
                let (_, request) = self.prepared.remove(i);
                Some(request)
            },
        }
    }

    /// Moves to a later prompt: forgets what was prepared at the earlier one. A prompt that
    /// is not later than the current one changes nothing.
    pub fn synchronize_prompt(&mut self, command_sequence: u64, shell: ActiveShell) -> (r: bool)
        requires
            old(self).wf(),
        ensures
            final(self).wf(),
            r == (command_sequence > old(self)@.command_sequence),
            r ==> final(self)@ == (SpecSession {
                session_id: old(self)@.session_id,
                command_sequence,
                shell,
                submission_prepared: false,
                prepared: Map::empty(),
            }),
            !r ==> final(self)@ == old(self)@,
    {
        if command_sequence <= self.command_sequence {
            return false;
        }
        self.command_sequence = command_sequence;
        self.shell = shell;
        self.submission_prepared = false;
        self.prepared = Vec::new();
        assert(pairs_map(self.prepared@) =~= Map::empty());
        true
    }

    /// Stores a request of `kind` under a fresh id and tells the frontend to invoke it.
    fn prepare_request(&mut self, command_sequence: u64, display_line: String, kind: PreparedRequestKindV1) -> (r: FrontendDecisionV1)
        requires
            old(self).wf(),
        ensures
            final(self).wf(),
            r@.session_id == old(self)@.session_id,
            r@.command_sequence == command_sequence,
            r@.decision matches SpecDecisionKind::InvokePrepared { request_id, display_line: shown }
                && is_request_id(request_id)
                && shown == display_line@
                && final(self)@ == (SpecSession {
                    submission_prepared: true,
                    prepared: old(self)@.prepared.insert(request_id, prepared_request(kind@)),
                    ..old(self)@
                }),
    {
        let request_id = fresh_request_id();
        let request = PreparedRequestV1 { protocol: owned("wingman.run"), version: 1, kind };
        proof {
            reveal_strlit("wingman.run");
            assert("wingman.run"@ =~= wingman_protocol());
        }
        let entry = (request_id.clone(), request);
        match find_key(&self.prepared, request_id.as_str()) {
            Some(i) => {
                proof { lemma_replace(self.prepared@, i as int, entry); }
                self.prepared.set(i, entry);
            },
            None => {
                proof { lemma_push(self.prepared@, entry); }
                self.prepared.push(entry);
            },
        }
        self.submission_prepared = true;
        FrontendDecisionV1 {
            session_id: self.session_id,
            command_sequence,
            decision: FrontendDecisionKindV1::InvokePrepared { request_id, display_line },
        }
    }
}


/// One submission per prompt: once a submission was accepted at a prompt, any further
/// submission for the same session, shell and prompt is refused as already prepared.
pub proof fn law_one_submission_per_prompt(
    before: SpecSession,
    command_sequence: u64,
    familiar_enabled: bool,
    evidence: LineEvidence,
    raw: Seq<char>,
    d: SpecDecision,
    after: SpecSession,
)
    requires
        submission_accepted(before, command_sequence, familiar_enabled, evidence, raw, d, after),
    ensures
        submission_error(after, after.session_id, after.command_sequence, after.shell)
            == Some(PrepareSubmissionErrorV1::AlreadyPrepared { command_sequence: after.command_sequence }),
{
}

/// Text of printable ASCII characters only.
pub open spec fn printable_text(s: Seq<char>) -> bool {
    forall|i: int| 0 <= i < s.len() ==> ' ' <= #[trigger] s[i] && s[i] <= '~'
}

proof fn lemma_printable_concat(a: Seq<char>, b: Seq<char>)
    requires
        printable_text(a),
        printable_text(b),
    ensures
        printable_text(a + b),
{
    assert forall|i: int| 0 <= i < (a + b).len() implies ' ' <= #[trigger] (a + b)[i] && (a + b)[i] <= '~' by {
        if i < a.len() {
            assert((a + b)[i] == a[i]);
        } else {
            assert((a + b)[i] == b[i - a.len()]);
        }
    }
}

proof fn lemma_printable_bytes(s: Seq<char>)
    requires
        printable_text(s),
    ensures
        vstd::utf8::encode_utf8(s).len() == s.len(),
    decreases s.len(),
{
    if s.len() > 0 {
        assert(' ' <= s[0] && s[0] <= '~');
        assert((s[0] as u32) <= 0x7e);
        assert forall|i: int| 0 <= i < s.drop_first().len() implies ' ' <= #[trigger] s.drop_first()[i] && s.drop_first()[i] <= '~' by {
            assert(s.drop_first()[i] == s[i + 1]);
        }
        lemma_printable_bytes(s.drop_first());
    }
}

proof fn lemma_printable_bounded(s: Seq<char>, maximum_bytes: nat)
    requires
        printable_text(s),
        0 < s.len() <= maximum_bytes,
    ensures
        crate::interpreter::bounded_terminal_text(s, maximum_bytes),
{
    lemma_printable_bytes(s);
    assert forall|i: int| 0 <= i < s.len() implies !crate::text::is_control(#[trigger] s[i]) by {
        assert(' ' <= s[i] && s[i] <= '~');
        assert(0x20 <= (s[i] as u32) && (s[i] as u32) <= 0x7e);
    }
}

proof fn lemma_claimed_names(raw: Seq<char>)
    ensures
        spec_claimed_command(raw) matches Some(n) ==> printable_text(n) && 0 < n.len() <= 5,
{
    reveal_strlit("cat");
    reveal_strlit("clear");
    reveal_strlit("which");
    reveal_strlit("ls");
    reveal_strlit("ll");
    reveal_strlit("find");
    reveal_strlit("head");
    reveal_strlit("wc");
    reveal_strlit("tail");
    reveal_strlit("grep");
    reveal_strlit("uniq");
    reveal_strlit("sort");
    reveal_strlit("mkdir");
    reveal_strlit("touch");
    reveal_strlit("cp");
    reveal_strlit("mv");
    reveal_strlit("rm");
}

proof fn lemma_messages(name: Seq<char>, l: LexErrorV1, p: ParseErrorV1, c: CatalogErrorV1)
    ensures
        printable_text(lex_message(l)) && lex_message(l).len() <= 64,
        printable_text(parse_message(p)) && parse_message(p).len() <= 64,
        printable_text(catalog_message(name, c)) && catalog_message(name, c).len() <= 64,
{
    reveal_strlit("unclosed quote");
    reveal_strlit("unsupported shell operator");
    reveal_strlit("unsupported stream redirection");
    reveal_strlit("unsupported control character");
    reveal_strlit("empty pipeline stage");
    reveal_strlit("missing redirection target");
    reveal_strlit("multiple redirections are unsupported");
    reveal_strlit("redirection must be final");
    reveal_strlit("pipeline contains an unsupported command");
    reveal_strlit("unsupported option");
    reveal_strlit("missing directory operand");
    reveal_strlit("missing file operand");
    reveal_strlit("invalid line count");
    reveal_strlit("invalid pipeline source shape");
    reveal_strlit("invalid pattern");
    reveal_strlit("request exceeds a resource limit");
    reveal_strlit("unsupported path");
}

/// Every request a submission prepares is one the runner accepts: its protocol and version
/// are the runner's, a refusal's diagnostic and a control's response are short printable
/// text with the right exit code, and a plan validates.
pub proof fn law_prepared_requests_validate(familiar_enabled: bool, evidence: LineEvidence, raw: Seq<char>)
    ensures
        spec_submission_kind(familiar_enabled, evidence, raw) matches Some(kind)
            ==> crate::interpreter::spec_validate_request(prepared_request(kind)) is Ok,
{
    reveal_strlit("wingman ");
    reveal_strlit(": ");
    reveal_strlit("Familiar: ");
    reveal_strlit("ON");
    reveal_strlit("OFF");
    match spec_submission_kind(familiar_enabled, evidence, raw) {
        None => {},
        Some(kind) => match kind {
            SpecRequestKind::Control { response, exit_code } => {
                lemma_printable_concat("Familiar: "@, "ON"@);
                lemma_printable_concat("Familiar: "@, "OFF"@);
                lemma_printable_bounded(response, crate::interpreter::MAX_CONTROL_RESPONSE_BYTES as nat);
            },
            SpecRequestKind::Execute { plan } => {
                if !(evidence == LineEvidence::Reliable && spec_familiar_control(raw) is Some)
                    && !(familiar_enabled && evidence == LineEvidence::Reliable && eq_ignore_case(trim_ws(raw), "pwd"@)) {
                    let name = spec_claimed_command(raw).unwrap();
                    let line = spec_parse(spec_lex(raw)->Ok_0)->Ok_0;
                    crate::catalog::law_built_plan_validates(line);
                }
            },
            SpecRequestKind::Reject { diagnostic, exit_code } => {
                let name = spec_claimed_command(raw).unwrap();
                lemma_claimed_names(raw);
                let msg = match spec_lex(raw) {
                    Err(e) => lex_message(e),
                    Ok(tokens) => match spec_parse(tokens) {
                        Err(e) => parse_message(e),
                        Ok(line) => match spec_build_plan(line) {
                            Err(e) => catalog_message(name, e),
                            Ok(_) => seq![],
                        },
                    },
                };
                lemma_messages(name, LexErrorV1::UnclosedSingleQuote, ParseErrorV1::EmptyPipelineStage, CatalogErrorV1::UnsupportedOption);
                match spec_lex(raw) {
                    Err(e) => lemma_messages(name, e, ParseErrorV1::EmptyPipelineStage, CatalogErrorV1::UnsupportedOption),
                    Ok(tokens) => match spec_parse(tokens) {
                        Err(e) => lemma_messages(name, LexErrorV1::UnclosedSingleQuote, e, CatalogErrorV1::UnsupportedOption),
                        Ok(line) => match spec_build_plan(line) {
                            Err(e) => lemma_messages(name, LexErrorV1::UnclosedSingleQuote, ParseErrorV1::EmptyPipelineStage, e),
                            Ok(_) => {},
                        },
                    },
                }
                assert(diagnostic == diagnostic_text(name, msg));
                lemma_printable_concat("wingman "@, name);
                lemma_printable_concat("wingman "@ + name, ": "@);
                lemma_printable_concat("wingman "@ + name + ": "@, msg);
                lemma_printable_bounded(diagnostic, crate::interpreter::MAX_PREPARED_DIAGNOSTIC_BYTES as nat);
            },
        },
    }
}

/// The session after the request under `request_id` is taken out of it; nothing else changes.
pub open spec fn spec_consumed(s: SpecSession, request_id: Seq<char>) -> SpecSession {
    SpecSession { prepared: s.prepared.remove(request_id), ..s }
}

/// A request is prepared once and handed out once: a submission that prepares a request
/// gives it a fresh id of 32 lowercase hex digits, the session then holds under that id a
/// request of the runner's protocol and version that validation accepts, and once it is
/// consumed the session no longer holds the id, so a second consume finds nothing.
pub proof fn law_prepared_request_single_use(
    before: SpecSession,
    command_sequence: u64,
    familiar_enabled: bool,
    raw: Seq<char>,
    d: SpecDecision,
    after: SpecSession,
    request_id: Seq<char>,
)
    requires
        submission_accepted(before, command_sequence, familiar_enabled, LineEvidence::Reliable, raw, d, after),
        d.decision matches SpecDecisionKind::InvokePrepared { request_id: id, .. } && id == request_id,
    ensures
        is_request_id(request_id),
        after.prepared.dom().contains(request_id),
        after.prepared[request_id].protocol == wingman_protocol(),
        after.prepared[request_id].version == 1,
        crate::interpreter::spec_validate_request(after.prepared[request_id]) is Ok,
        !spec_consumed(after, request_id).prepared.dom().contains(request_id),
        spec_consumed(after, request_id).command_sequence == after.command_sequence,
{
    law_prepared_requests_validate(familiar_enabled, LineEvidence::Reliable, raw);
}

} // verus!
