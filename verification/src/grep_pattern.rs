//! The portable pattern syntax of `grep` and its compilation.

use vstd::prelude::*;
use crate::pattern_engine::{
    build_regex, regex_build_error, build_hits_size_limit, text_contains, regex_escape, regex_escape_spec, regex_is_match, regex_matches,
    CompiledRegexV1,
};
use crate::text::{chars_of, string_of};

verus! {

#[derive(Clone, Copy, Debug, Eq, PartialEq)]
pub enum GrepPatternErrorV1 {
    InvalidSyntax,
    ResourceLimit,
}

/// A member of a bracket expression.
#[derive(Clone, Copy, Debug, Eq, PartialEq, Structural)]
pub enum ClassMemberV1 {
    Scalar(char),
    Hyphen,
}

/// Characters that may follow a backslash inside a bracket expression.
pub open spec fn class_escapable(c: char) -> bool {
    c == ']' || c == '-' || c == '^' || c == '\\'
}

/// The members of a bracket expression from `cs[i]` up to its `]`, and the position after it.
pub open spec fn class_members_from(cs: Seq<char>, i: int) -> Option<(Seq<ClassMemberV1>, int)>
    decreases cs.len() - i,
{
    if i < 0 || i >= cs.len() {
        None
    } else if cs[i] == ']' {
        Some((seq![], i + 1))
    } else if cs[i] == '\\' {
        if i + 1 < cs.len() && class_escapable(cs[i + 1]) {
            match class_members_from(cs, i + 2) {
                Some((m, e)) => Some((seq![ClassMemberV1::Scalar(cs[i + 1])] + m, e)),
                None => None,
            }
        } else {
            None
        }
    } else {
        match class_members_from(cs, i + 1) {
            Some((m, e)) => Some((seq![if cs[i] == '-' { ClassMemberV1::Hyphen } else { ClassMemberV1::Scalar(cs[i]) }] + m, e)),
            None => None,
        }
    }
}

pub open spec fn scalar_of(m: ClassMemberV1) -> char {
    match m {
        ClassMemberV1::Scalar(c) => c,
        ClassMemberV1::Hyphen => '-',
    }
}

/// Every hyphen between two members is a range from a smaller to a larger character.
pub open spec fn ranges_ok(m: Seq<ClassMemberV1>) -> bool {
    forall|k: int| 0 < k < m.len() - 1 && #[trigger] m[k] == ClassMemberV1::Hyphen ==> {
        &&& m[k - 1] is Scalar
        &&& m[k + 1] is Scalar
        &&& scalar_of(m[k - 1]) <= scalar_of(m[k + 1])
    }
}

/// Position just after the bracket expression whose body starts at `cs[i]`, if it is well formed.
pub open spec fn class_end(cs: Seq<char>, i: int) -> Option<int> {
    let j = if 0 <= i < cs.len() && cs[i] == '^' { i + 1 } else { i };
    match class_members_from(cs, j) {
        Some((m, e)) => if m.len() > 0 && ranges_ok(m) { Some(e) } else { None },
        None => None,
    }
}

/// Characters that may follow a backslash in a portable pattern.
pub open spec fn pattern_escapable(c: char) -> bool {
    c == '.' || c == '*' || c == '^' || c == '$' || c == '[' || c == ']' || c == '\\' || c == '-'
}

/// Whether `cs[i..]` continues a portable pattern; `can_repeat` is whether a `*` may follow.
pub open spec fn portable_from(cs: Seq<char>, i: int, can_repeat: bool) -> bool
    decreases cs.len() - i,
{
    if i < 0 || i >= cs.len() {
        true
    } else {
        let c = cs[i];
        if c == '^' {
            i == 0 && portable_from(cs, i + 1, false)
        } else if c == '$' {
            i + 1 == cs.len() && portable_from(cs, i + 1, false)
        } else if c == '*' {
            can_repeat && portable_from(cs, i + 1, false)
        } else if c == '[' {
            match class_end(cs, i + 1) {
                Some(e) => i < e <= cs.len() && portable_from(cs, e, true),
                None => false,
            }
        } else if c == '\\' {
            i + 1 < cs.len() && pattern_escapable(cs[i + 1]) && portable_from(cs, i + 2, true)
        } else if c == '(' || c == ')' || c == '|' || c == '+' || c == '?' || c == '{' || c == '}' {
            false
        } else {
            portable_from(cs, i + 1, true)
        }
    }
}

/// Whether `p` uses only the portable basic syntax.
pub open spec fn is_portable_pattern(p: Seq<char>) -> bool {
    portable_from(p, 0, false)
}

proof fn lemma_class_members_end(cs: Seq<char>, i: int)
    requires
        0 <= i,
    ensures
        class_members_from(cs, i) is Some ==> i < class_members_from(cs, i).unwrap().1 <= cs.len(),
    decreases cs.len() - i,
{
    if 0 <= i < cs.len() && cs[i] != ']' {
        if cs[i] == '\\' {
            if i + 1 < cs.len() && class_escapable(cs[i + 1]) {
                lemma_class_members_end(cs, i + 2);
            }
        } else {
            lemma_class_members_end(cs, i + 1);
        }
    }
}

/// The bracket expression whose body starts at `characters[index]`: where it ends.
pub fn validate_class(characters: &[char], index: usize) -> (r: Result<usize, GrepPatternErrorV1>)
    requires
        index <= characters@.len(),
    ensures
        match class_end(characters@, index as int) {
            Some(e) => r == Ok::<usize, GrepPatternErrorV1>(e as usize) && index < e <= characters@.len(),
            None => r == Err::<usize, _>(GrepPatternErrorV1::InvalidSyntax),
        },
{
    let start = if index < characters.len() && characters[index] == '^' { index + 1 } else { index };
    proof { lemma_class_members_end(characters@, start as int); }
    match scan_class_members(characters, start) {
        None => Err(GrepPatternErrorV1::InvalidSyntax),
        Some((members, end)) => finish_class(&members, end),
    }
}

/// The members of a bracket expression from `characters[start]` on, and the position after `]`.
fn scan_class_members(characters: &[char], start: usize) -> (r: Option<(Vec<ClassMemberV1>, usize)>)
    requires
        start <= characters@.len(),
    ensures
        match class_members_from(characters@, start as int) {
            Some((m, e)) => r is Some && r.unwrap().0@ == m && r.unwrap().1 == e,
            None => r is None,
        },
{
    let ghost cs = characters@;
    let mut index = start;
    let mut members: Vec<ClassMemberV1> = Vec::new();
    let ghost target = class_members_from(cs, start as int);
    assert(members@ =~= Seq::<ClassMemberV1>::empty());
    assert(target == match class_members_from(cs, index as int) {
        Some((m, e)) => Some((members@ + m, e)),
        None => None,
    }) by {
        if let Some((m, e)) = class_members_from(cs, index as int) {
            assert(members@ + m =~= m);
        }
    }
    while index < characters.len()
        invariant
            cs == characters@,
            start <= index <= characters@.len(),
            target == class_members_from(cs, start as int),
            target == match class_members_from(cs, index as int) {
                Some((m, e)) => Some((members@ + m, e)),
                None => None,
            },
        decreases characters.len() - index,
    {
        let character = characters[index];
        let ghost before = members@;
        if character == ']' {
            assert(before + Seq::<ClassMemberV1>::empty() =~= before);
            return Some((members, index + 1));
        }
        if character == '\\' {
            if index + 1 >= characters.len() {
                return None;
            }
            let escaped = characters[index + 1];
            if !(escaped == ']' || escaped == '-' || escaped == '^' || escaped == '\\') {
                return None;
            }
            members.push(ClassMemberV1::Scalar(escaped));
            index += 2;
            proof {
                if let Some((m, e)) = class_members_from(cs, index as int) {
                    crate::text::lemma_push_concat(before, ClassMemberV1::Scalar(escaped), m);
                }
            }
        } else {
            let member = if character == '-' { ClassMemberV1::Hyphen } else { ClassMemberV1::Scalar(character) };
            assert(member == (if cs[index as int] == '-' { ClassMemberV1::Hyphen } else { ClassMemberV1::Scalar(cs[index as int]) }));
            members.push(member);
            index += 1;
            assert(members@ =~= before.push(member));
            proof {
                if let Some((m, e)) = class_members_from(cs, index as int) {
                    crate::text::lemma_push_concat(before, member, m);
                }
            }
        }
    }
    None
}

pub open spec fn range_ok_at(m: Seq<ClassMemberV1>, k: int) -> bool {
    &&& m[k - 1] is Scalar
    &&& m[k + 1] is Scalar
    &&& scalar_of(m[k - 1]) <= scalar_of(m[k + 1])
}

fn range_at(members: &Vec<ClassMemberV1>, k: usize) -> (r: bool)
    requires
        0 < k,
        k + 1 < members.len(),
    ensures
        r == range_ok_at(members@, k as int),
{
    match (members[k - 1], members[k + 1]) {
        (ClassMemberV1::Scalar(start), ClassMemberV1::Scalar(end)) => start <= end,
        _ => false,
    }
}

/// Checks the members of a closed bracket expression.
fn finish_class(members: &Vec<ClassMemberV1>, end: usize) -> (r: Result<usize, GrepPatternErrorV1>)
    ensures
        if members@.len() > 0 && ranges_ok(members@) {
            r == Ok::<usize, GrepPatternErrorV1>(end)
        } else {
            r == Err::<usize, _>(GrepPatternErrorV1::InvalidSyntax)
        },
{
    if members.len() == 0 {
        return Err(GrepPatternErrorV1::InvalidSyntax);
    }
    let n = members.len();
    let mut k: usize = 0;
    while k < n
        invariant
            n == members@.len(),
            k <= n,
            forall|j: int| 0 < j < k && j < n - 1 && #[trigger] members@[j] == ClassMemberV1::Hyphen ==> range_ok_at(members@, j),
        decreases n - k,
    {
        if k > 0 && k + 1 < n && members[k] == ClassMemberV1::Hyphen {
            if !range_at(members, k) {
                return Err(GrepPatternErrorV1::InvalidSyntax);
            }
        }
        k += 1;
    }
    assert(ranges_ok(members@)) by {
        assert forall|j: int| 0 < j < n - 1 && #[trigger] members@[j] == ClassMemberV1::Hyphen implies {
            &&& members@[j - 1] is Scalar
            &&& members@[j + 1] is Scalar
            &&& scalar_of(members@[j - 1]) <= scalar_of(members@[j + 1])
        } by {
            assert(range_ok_at(members@, j));
        }
    }
    Ok(end)
}

/// One step of the portable-syntax check at `cs[index]`: where the scan goes on, and whether a
/// `*` may follow there.
fn portable_step(cs: &[char], index: usize, can_repeat: bool) -> (r: Option<(usize, bool)>)
    requires
        index < cs@.len(),
    ensures
        match r {
            Some((j, rep)) => index < j <= cs@.len()
                && portable_from(cs@, index as int, can_repeat) == portable_from(cs@, j as int, rep),
            None => !portable_from(cs@, index as int, can_repeat),
        },
{
    let character = cs[index];
    if character == '^' {
        if index != 0 { None } else { Some((index + 1, false)) }
    } else if character == '$' {
        if index + 1 != cs.len() { None } else { Some((index + 1, false)) }
    } else if character == '*' {
        if !can_repeat { None } else { Some((index + 1, false)) }
    } else if character == '[' {
        match validate_class(cs, index + 1) {
            Ok(end) => Some((end, true)),
            Err(_) => None,
        }
    } else if character == '\\' {
        if index + 1 >= cs.len() {
            return None;
        }
        let escaped = cs[index + 1];
        if escaped == '.' || escaped == '*' || escaped == '^' || escaped == '$' || escaped == '['
            || escaped == ']' || escaped == '\\' || escaped == '-' {
            Some((index + 2, true))
        } else {
            None
        }
    } else if character == '(' || character == ')' || character == '|' || character == '+'
        || character == '?' || character == '{' || character == '}' {
        None
    } else {
        Some((index + 1, true))
    }
}

/// Checks that a `grep` pattern uses only the portable basic syntax.
pub fn validate_portable_pattern(pattern: &str) -> (r: Result<(), GrepPatternErrorV1>)
    ensures
        r is Ok <==> is_portable_pattern(pattern@),
        r is Err ==> r == Err::<(), _>(GrepPatternErrorV1::InvalidSyntax),
{
    let characters = chars_of(pattern);
    let ghost cs = characters@;
    let mut index: usize = 0;
    let mut can_repeat = false;
    while index < characters.len()
        invariant
            cs == characters@,
            cs == pattern@,
            index <= cs.len(),
            is_portable_pattern(cs) == portable_from(cs, index as int, can_repeat),
        decreases characters.len() - index,
    {
        match portable_step(characters.as_slice(), index, can_repeat) {
            Some((next, rep)) => {
                index = next;
                can_repeat = rep;
            },
            None => return Err(GrepPatternErrorV1::InvalidSyntax),
        }
    }
    Ok(())
}

/// The regular expression a `grep` pattern stands for, if its syntax is accepted.
pub open spec fn grep_expression(pattern: Seq<char>, fixed_strings: bool) -> Option<Seq<char>> {
    if fixed_strings {
        Some(regex_escape_spec(pattern))
    } else if is_portable_pattern(pattern) {
        Some(pattern)
    } else {
        None
    }
}

/// What compiling a `grep` pattern gives: `Ok(())` or the error.
pub open spec fn grep_compile_outcome(pattern: Seq<char>, fixed_strings: bool, ignore_case: bool) -> Result<(), GrepPatternErrorV1> {
    match grep_expression(pattern, fixed_strings) {
        None => Err(GrepPatternErrorV1::InvalidSyntax),
        Some(e) => if regex_build_error(e, ignore_case) is None {
            Ok(())
        } else if build_hits_size_limit(e, ignore_case) {
            Err(GrepPatternErrorV1::ResourceLimit)
        } else {
            Err(GrepPatternErrorV1::InvalidSyntax)
        },
    }
}

/// A compiled `grep` pattern.
pub struct GrepPatternV1 {
    regex: CompiledRegexV1,
}

impl GrepPatternV1 {
    /// The regular expression this pattern matches with.
    pub closed spec fn expression(&self) -> Seq<char> {
        self.regex.expression()
    }

    pub closed spec fn ignore_case(&self) -> bool {
        self.regex.ignore_case()
    }

    /// Compiles a pattern: literal text when `fixed_strings`, otherwise the portable syntax.
    pub fn compile(pattern: &str, fixed_strings: bool, ignore_case: bool) -> (r: Result<Self, GrepPatternErrorV1>)
        ensures
            match r {
                Ok(p) => grep_compile_outcome(pattern@, fixed_strings, ignore_case) is Ok
                    && Some(p.expression()) == grep_expression(pattern@, fixed_strings)
                    && p.ignore_case() == ignore_case,
                Err(e) => grep_compile_outcome(pattern@, fixed_strings, ignore_case) == Err::<(), _>(e),
            },
    {
        let expression = if fixed_strings {
            regex_escape(pattern)
        } else {
            validate_portable_pattern(pattern)?;
            let v = chars_of(pattern);
            string_of(v.as_slice())
        };
        match build_regex(expression.as_str(), ignore_case) {
            Ok(regex) => Ok(GrepPatternV1 { regex }),
            Err(text) => if text_contains(text.as_str(), "compiled regex exceeds size limit") {
                Err(GrepPatternErrorV1::ResourceLimit)
            } else {
                Err(GrepPatternErrorV1::InvalidSyntax)
            },
        }
    }

    /// Whether the pattern matches somewhere in `record`.
    pub fn is_match(&self, record: &str) -> (r: bool)
        ensures
            r == regex_matches(self.expression(), self.ignore_case(), record@),
    {
        regex_is_match(&self.regex, record)
    }
}

} // verus!
