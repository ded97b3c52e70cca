//! Searches that walk directories (`grep -r` and `find`): which plan asks for one, how a
//! relative root and an entry are shown, and the bounded diagnostics about what they meet.

use vstd::prelude::*;
use crate::grep_pattern::{grep_compile_outcome, grep_expression, GrepPatternV1};
use crate::interpreter::{ExecutionPlanV1, StagePlanV1, MAX_PREPARED_DIAGNOSTIC_BYTES};
use crate::runner_readonly::ReadonlyExecutionErrorV1;
use crate::interpreter::paths_view;
use crate::runner_readonly::copy_paths;
use crate::text::{byte_len, chars_of, concat, eq_str, string_of, strings_view};
use crate::windows_path::{PathKindV1, ValidatedPathSpecV1};

verus! {

/// The bytes of a text in UTF-8.
pub open spec fn text_bytes(s: Seq<char>) -> nat {
    vstd::utf8::encode_utf8(s).len()
}

/// `head` and the quoted text with the message when that fits the diagnostic limit;
/// otherwise `fallback` with the message.
pub open spec fn bounded_diagnostic_text(head: Seq<char>, display: Seq<char>, message: Seq<char>, fallback: Seq<char>) -> Seq<char> {
    let detailed = head + "'"@ + display + "': "@ + message;
    if text_bytes(detailed) <= MAX_PREPARED_DIAGNOSTIC_BYTES { detailed } else { fallback + message }
}

/// The diagnostic about `display`, or the fallback when it does not fit.
fn bounded_diagnostic(head: &str, display: &str, message: &str, fallback: &str) -> (r: String)
    ensures
        r@ == bounded_diagnostic_text(head@, display@, message@, fallback@),
{
    let a = concat(head, "'");
    let b = concat(a.as_str(), display);
    let c = concat(b.as_str(), "': ");
    let detailed = concat(c.as_str(), message);
    if byte_len(detailed.as_str()) <= MAX_PREPARED_DIAGNOSTIC_BYTES {
        detailed
    } else {
        concat(fallback, message)
    }
}

/// The diagnostic of `grep -r` about an input it found.
pub fn discovered_diagnostic(display: &str, message: &str) -> (r: String)
    ensures
        r@ == bounded_diagnostic_text("wingman grep: "@, display@, message@, "wingman grep: discovered input: "@),
{
    bounded_diagnostic("wingman grep: ", display, message, "wingman grep: discovered input: ")
}

/// The diagnostic of `find` about an entry it met.
pub fn find_diagnostic(display: &str, message: &str) -> (r: String)
    ensures
        r@ == bounded_diagnostic_text("wingman find: "@, display@, message@, "wingman find: discovered entry: "@),
{
    bounded_diagnostic("wingman find: ", display, message, "wingman find: discovered entry: ")
}

/// The components of a relative root as shown: `.` dropped, `..` cancelling the component
/// before it unless that is itself `..`.
pub open spec fn fold_display(components: Seq<Seq<char>>) -> Seq<Seq<char>>
    decreases components.len(),
{
    if components.len() == 0 {
        Seq::empty()
    } else {
        let before = fold_display(components.drop_last());
        let c = components.last();
        if c == "."@ {
            before
        } else if c == ".."@ && before.len() > 0 && before.last() != ".."@ {
            before.drop_last()
        } else {
            before.push(c)
        }
    }
}

/// Texts joined with `\\`.
pub open spec fn join_backslash(parts: Seq<Seq<char>>) -> Seq<char>
    decreases parts.len(),
{
    if parts.len() == 0 {
        Seq::empty()
    } else if parts.len() == 1 {
        parts[0]
    } else {
        join_backslash(parts.drop_last()) + seq!['\\'] + parts.last()
    }
}

/// How a search shows a root: an absolute root as resolved; a relative one by its folded
/// components joined with `\\`, or `.` when none is left.
pub open spec fn spec_display_root(kind: PathKindV1, components: Seq<Seq<char>>, resolved: Seq<char>) -> Seq<char> {
    if kind != PathKindV1::Relative {
        resolved
    } else if fold_display(components).len() == 0 {
        "."@
    } else {
        join_backslash(fold_display(components))
    }
}

/// Texts joined with `\\`.
fn join_with_backslash(parts: &Vec<String>) -> (r: String)
    ensures
        r@ == join_backslash(strings_view(parts@)),
{
    let mut r = String::new();
    let mut i: usize = 0;
    while i < parts.len()
        invariant
            i <= parts@.len(),
            r@ == join_backslash(strings_view(parts@).take(i as int)),
        decreases parts.len() - i,
    {
        proof {
            assert(strings_view(parts@).take(i as int + 1).drop_last() =~= strings_view(parts@).take(i as int));
            assert(strings_view(parts@)[i as int] == parts@[i as int]@);
        }
        if i == 0 {
            r = parts[0].clone();
            assert(strings_view(parts@).take(1) =~= seq![parts@[0]@]);
        } else {
            let with_sep = concat(r.as_str(), "\\");
            r = concat(with_sep.as_str(), parts[i].as_str());
            proof {
                reveal_strlit("\\");
            }
        }
        i += 1;
    }
    assert(strings_view(parts@).take(i as int) =~= strings_view(parts@));
    r
}

/// How a search shows a root that `resolved` names.
pub fn display_root(spec: &ValidatedPathSpecV1, resolved: &str) -> (r: String)
    ensures
        r@ == spec_display_root(spec.kind, strings_view(spec.components@), resolved@),
{
    match spec.kind {
        PathKindV1::Relative => {},
        _ => return resolved.to_string(),
    }
    let ghost comps = strings_view(spec.components@);
    let mut kept: Vec<String> = Vec::new();
    let mut i: usize = 0;
    proof {
        reveal_strlit(".");
        reveal_strlit("..");
    }
    while i < spec.components.len()
        invariant
            i <= spec.components@.len(),
            comps == strings_view(spec.components@),
            strings_view(kept@) == fold_display(comps.take(i as int)),
        decreases spec.components.len() - i,
    {
        proof {
            assert(comps.take(i as int + 1).drop_last() =~= comps.take(i as int));
            assert(comps.take(i as int + 1).last() == spec.components@[i as int]@);
        }
        let ghost before = kept@;
        let c = chars_of(spec.components[i].as_str());
        if eq_str(c.as_slice(), ".") {
        } else if eq_str(c.as_slice(), "..") && kept.len() > 0 && {
            let last = chars_of(kept[kept.len() - 1].as_str());
            !eq_str(last.as_slice(), "..")
        } {
            kept.pop();
            proof {
                assert(strings_view(kept@) =~= strings_view(before).drop_last());
            }
        } else {
            kept.push(spec.components[i].clone());
            proof {
                crate::text::lemma_strings_view_push(before, spec.components@[i as int]);
            }
        }
        i += 1;
    }
    proof {
        assert(comps.take(i as int) =~= comps);
    }
    if kept.len() == 0 {
        return ".".to_string();
    }
    join_with_backslash(&kept)
}

/// The last non-empty piece of `s` between backslashes, if any.
pub open spec fn last_piece(s: Seq<char>) -> Option<Seq<char>>
    decreases s.len(),
{
    if s.len() == 0 {
        None
    } else if s.last() == '\\' {
        last_piece(s.drop_last())
    } else {
        Some(last_run(s))
    }
}

/// The characters after the last backslash of `s`.
pub open spec fn last_run(s: Seq<char>) -> Seq<char>
    decreases s.len(),
{
    if s.len() == 0 || s.last() == '\\' {
        Seq::empty()
    } else {
        last_run(s.drop_last()).push(s.last())
    }
}

/// The name a search shows for an entry: the last non-empty piece of its shown path, or the
/// shown path when it has none.
pub open spec fn spec_display_basename(display: Seq<char>) -> Seq<char> {
    match last_piece(display) {
        Some(p) => p,
        None => display,
    }
}

/// The name a search shows for an entry.
pub fn display_basename(display: &str) -> (r: String)
    ensures
        r@ == spec_display_basename(display@),
{
    let s = chars_of(display);
    let mut end: usize = s.len();
    proof {
        assert(s@.take(end as int) =~= s@);
    }
    while end > 0 && s[end - 1] == '\\'
        invariant
            end <= s@.len(),
            last_piece(s@) == last_piece(s@.take(end as int)),
        decreases end,
    {
        proof {
            assert(s@.take(end as int).drop_last() =~= s@.take(end as int - 1));
        }
        end -= 1;
    }
    if end == 0 {
        return display.to_string();
    }
    let mut start: usize = end;
    while start > 0 && s[start - 1] != '\\'
        invariant
            start <= end <= s@.len(),
            last_run(s@.take(end as int)) == last_run(s@.take(start as int)) + s@.subrange(start as int, end as int),
        decreases start,
    {
        proof {
            assert(s@.take(start as int).drop_last() =~= s@.take(start as int - 1));
            assert(s@.subrange(start as int - 1, end as int) =~= seq![s@[start as int - 1]] + s@.subrange(start as int, end as int));
        }
        start -= 1;
    }
    proof {
        if start > 0 {
            assert(s@.take(start as int).last() == '\\');
        }
        assert(last_run(s@.take(start as int)) =~= Seq::<char>::empty());
        assert(s@.take(end as int).last() != '\\');
    }
    let mut piece: Vec<char> = Vec::new();
    let mut i = start;
    while i < end
        invariant
            start <= i <= end <= s@.len(),
            piece@ == s@.subrange(start as int, i as int),
        decreases end - i,
    {
        piece.push(s[i]);
        i += 1;
        assert(piece@ =~= s@.subrange(start as int, i as int));
    }
    string_of(piece.as_slice())
}

/// What `grep -r` searches: the pattern, the roots, and how matches are shown.
pub struct RecursiveGrepV1 {
    pub pattern: GrepPatternV1,
    pub paths: Vec<ValidatedPathSpecV1>,
    pub line_numbers: bool,
    pub invert_match: bool,
    pub grep_is_final: bool,
}

/// Whether a plan starts with a recursive `grep`.
pub open spec fn starts_recursive_grep(stages: Seq<StagePlanV1>) -> bool {
    stages.len() > 0 && (stages[0] matches StagePlanV1::SearchText { recursive, .. } && recursive)
}

/// The recursive search a plan asks for: none unless it starts with `grep -r`; a `grep -r`
/// without roots, or with a pattern that does not compile, is an unsupported plan.
pub fn recursive_plan(plan: &ExecutionPlanV1) -> (r: Result<Option<RecursiveGrepV1>, ReadonlyExecutionErrorV1>)
    ensures
        !starts_recursive_grep(plan.stages@) ==> r matches Ok(None),
        starts_recursive_grep(plan.stages@) ==> match plan.stages@[0] {
            StagePlanV1::SearchText { pattern, paths, ignore_case, line_numbers, invert_match, fixed_strings, .. } =>
                if paths@.len() == 0 || grep_compile_outcome(pattern@, fixed_strings, ignore_case) is Err {
                    r == Err::<Option<RecursiveGrepV1>, _>(ReadonlyExecutionErrorV1::UnsupportedPlan)
                } else {
                    r matches Ok(Some(g)) && Some(g.pattern.expression()) == grep_expression(pattern@, fixed_strings)
                        && g.pattern.ignore_case() == ignore_case && paths_view(g.paths@) == paths_view(paths@)
                        && g.line_numbers == line_numbers
                        && g.invert_match == invert_match && g.grep_is_final == (plan.stages@.len() == 1)
                },
            _ => false,
        },
{
    if plan.stages.len() == 0 {
        return Ok(None);
    }
    match &plan.stages[0] {
        StagePlanV1::SearchText { pattern, paths, ignore_case, line_numbers, invert_match, fixed_strings, recursive } => {
            if !*recursive {
                return Ok(None);
            }
            if paths.len() == 0 {
                return Err(ReadonlyExecutionErrorV1::UnsupportedPlan);
            }
            let compiled = match GrepPatternV1::compile(pattern.as_str(), *fixed_strings, *ignore_case) {
                Ok(p) => p,
                Err(_) => return Err(ReadonlyExecutionErrorV1::UnsupportedPlan),
            };
            Ok(Some(RecursiveGrepV1 {
                pattern: compiled,
                paths: copy_paths(paths),
                line_numbers: *line_numbers,
                invert_match: *invert_match,
                grep_is_final: plan.stages.len() == 1,
            }))
        },
        _ => Ok(None),
    }
}

} // verus!
