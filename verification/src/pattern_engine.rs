//! The regular-expression engine behind `grep` and `find` patterns.

use vstd::prelude::*;
use crate::text::chars_of;

verus! {

#[verifier::external_type_specification]
#[verifier::external_body]
pub struct ExRegex(regex::Regex);

/// Whether the `regex` crate treats `c` as a meta character.
pub open spec fn is_regex_meta(c: char) -> bool {
    c == '\\' || c == '.' || c == '+' || c == '*' || c == '?' || c == '(' || c == ')' || c == '|'
        || c == '[' || c == ']' || c == '{' || c == '}' || c == '^' || c == '$' || c == '#' || c
        == '&' || c == '-' || c == '~'
}

/// `s` with a backslash before every meta character.
pub open spec fn regex_escape_spec(s: Seq<char>) -> Seq<char>
    decreases s.len(),
{
    if s.len() == 0 {
        seq![]
    } else {
        regex_escape_spec(s.drop_last()) + (if is_regex_meta(s.last()) {
            seq!['\\', s.last()]
        } else {
            seq![s.last()]
        })
    }
}

/// Outcome of building a regular expression with the size limits used here: nothing when it
/// builds, else the text of the error as it displays.
pub uninterp spec fn regex_build_error(expression: Seq<char>, ignore_case: bool) -> Option<Seq<char>>;

/// Whether `t` occurs in `s` as a run of consecutive characters.
pub open spec fn contains_text(s: Seq<char>, t: Seq<char>) -> bool {
    exists|i: int| 0 <= i && i + t.len() <= s.len() && #[trigger] s.subrange(i, i + t.len()) == t
}

/// The phrase by which a build error is taken for the size limit.
pub open spec fn size_limit_phrase() -> Seq<char> {
    "compiled regex exceeds size limit"@
}

/// Whether building `expression` failed with an error whose text holds the size-limit phrase,
/// compared exactly as written, case included.
pub open spec fn build_hits_size_limit(expression: Seq<char>, ignore_case: bool) -> bool {
    regex_build_error(expression, ignore_case) matches Some(t) && contains_text(t, size_limit_phrase())
}

/// Whether `t` occurs in `s`.
pub fn text_contains(s: &str, t: &str) -> (r: bool)
    ensures
        r == contains_text(s@, t@),
{
    let cs = chars_of(s);
    let ct = chars_of(t);
    if ct.len() > cs.len() {
        proof {
            if contains_text(s@, t@) {
                let i = choose|i: int| 0 <= i && i + t@.len() <= s@.len() && #[trigger] s@.subrange(i, i + t@.len()) == t@;
            }
        }
        return false;
    }
    if ct.len() == 0 {
        assert(s@.subrange(0int, 0int + t@.len()) =~= t@);
        return true;
    }
    let n = cs.len();
    let last = n - ct.len();
    let mut i: usize = 0;
    while i <= last
        invariant
            cs@ == s@,
            ct@ == t@,
            last + ct@.len() == cs@.len(),
            n == cs@.len(),
            ct@.len() > 0,
            i <= last + 1,
            forall|j: int| 0 <= j < i ==> #[trigger] s@.subrange(j, j + t@.len()) != t@,
        decreases last + 1 - i,
    {
        let mut k: usize = 0;
        let mut same = true;
        while k < ct.len()
            invariant
                cs@ == s@,
                ct@ == t@,
                i <= last,
                last + ct@.len() == cs@.len(),
                n == cs@.len(),
                k <= ct@.len(),
                same == forall|m: int| 0 <= m < k ==> cs@[i + m] == ct@[m],
            decreases ct.len() - k,
        {
            if cs[i + k] != ct[k] {
                same = false;
            }
            k += 1;
        }
        if same {
            assert(s@.subrange(i as int, i + t@.len()) =~= t@);
            return true;
        }
        proof {
            let m = choose|m: int| 0 <= m < ct@.len() && cs@[i + m] != ct@[m];
            assert(s@.subrange(i as int, i + t@.len())[m] != t@[m]);
        }
        i += 1;
    }
    proof {
        if contains_text(s@, t@) {
            let j = choose|j: int| 0 <= j && j + t@.len() <= s@.len() && #[trigger] s@.subrange(j, j + t@.len()) == t@;
            assert(s@.subrange(j, j + t@.len()) != t@);
        }
    }
    false
}

/// Whether the regular expression `expression` (case-insensitive when `ignore_case`) matches
/// somewhere in `haystack`.
pub uninterp spec fn regex_matches(expression: Seq<char>, ignore_case: bool, haystack: Seq<char>) -> bool;

/// A compiled regular expression together with the text and flag it was built from.
pub struct CompiledRegexV1 {
    regex: regex::Regex,
    expression: String,
    ignore_case: bool,
}

impl CompiledRegexV1 {
    pub closed spec fn expression(&self) -> Seq<char> {
        self.expression@
    }

    pub closed spec fn ignore_case(&self) -> bool {
        self.ignore_case
    }
}

/// Calls `regex::escape`: every meta character of `pattern` gets a backslash in front of it.
#[verifier::external_body]
pub(crate) fn regex_escape(pattern: &str) -> (r: String)
    ensures
        r@ == regex_escape_spec(pattern@),
{
    regex::escape(pattern)
}

/// Calls `regex::RegexBuilder::build` with Unicode on, case folding as asked, and the size
/// limits of one and two MiB. The contract names the outcome; an error comes back as the text
/// it displays.
#[verifier::external_body]
pub(crate) fn build_regex(expression: &str, ignore_case: bool) -> (r: Result<CompiledRegexV1, String>)
    ensures
        match r {
            Ok(c) => regex_build_error(expression@, ignore_case) is None && c.expression() == expression@
                && c.ignore_case() == ignore_case,
            Err(text) => regex_build_error(expression@, ignore_case) == Some(text@),
        },
{
    let built = regex::RegexBuilder::new(expression)
        .case_insensitive(ignore_case)
        .unicode(true)
        .size_limit(1024 * 1024)
        .dfa_size_limit(2 * 1024 * 1024)
        .build();
    match built {
        Ok(regex) => Ok(CompiledRegexV1 { regex, expression: expression.to_string(), ignore_case }),
        Err(error) => Err(error.to_string()),
    }
}

/// Calls `regex::Regex::is_match` on the compiled expression.
#[verifier::external_body]
pub(crate) fn regex_is_match(compiled: &CompiledRegexV1, haystack: &str) -> (r: bool)
    ensures
        r == regex_matches(compiled.expression(), compiled.ignore_case(), haystack@),
{
    compiled.regex.is_match(haystack)
}

} // verus!
