//! Glob patterns of `find -name` and their translation into regular expressions.

use vstd::prelude::*;
use vstd::string::StringSliceAdditionalSpecFns;
use crate::grep_pattern::{class_end, validate_class};
use crate::pattern_engine::{
    build_regex, regex_build_error, build_hits_size_limit, text_contains, regex_escape, regex_escape_spec, regex_is_match, regex_matches,
    CompiledRegexV1,
};
use crate::text::{chars_of, contains_char, has_char, string_of};

verus! {

pub const MAX_FIND_PATTERN_BYTES: usize = 16 * 1024;

#[derive(Clone, Copy, Debug, Eq, PartialEq)]
pub enum FindPatternErrorV1 {
    InvalidSyntax,
    ResourceLimit,
}

/// Characters that may follow a backslash in a glob.
pub open spec fn glob_escapable(c: char) -> bool {
    c == '*' || c == '?' || c == '[' || c == ']' || c == '\\' || c == '-' || c == '^'
}

/// The regular-expression text for `cs[i..]`, if that part of the glob is well formed.
pub open spec fn translate_from(cs: Seq<char>, i: int) -> Option<Seq<char>>
    decreases cs.len() - i,
{
    if i < 0 || i >= cs.len() {
        Some(seq![])
    } else {
        let c = cs[i];
        let (piece, next) = if c == '*' {
            (Some(seq!['.', '*']), i + 1)
        } else if c == '?' {
            (Some(seq!['.']), i + 1)
        } else if c == '[' {
            match class_end(cs, i + 1) {
                Some(e) => if i < e <= cs.len() { (Some(cs.subrange(i, e)), e) } else { (None, i + 1) },
                None => (None, i + 1),
            }
        } else if c == '\\' {
            if i + 1 < cs.len() && glob_escapable(cs[i + 1]) {
                (Some(regex_escape_spec(seq![cs[i + 1]])), i + 2)
            } else {
                (None, i + 1)
            }
        } else {
            (Some(regex_escape_spec(seq![c])), i + 1)
        };
        match piece {
            None => None,
            Some(p) => if i < next {
                match translate_from(cs, next) {
                    Some(rest) => Some(p + rest),
                    None => None,
                }
            } else {
                None
            },
        }
    }
}

/// The anchored regular expression for a glob, if the glob is well formed.
pub open spec fn translate_spec(pattern: Seq<char>) -> Option<Seq<char>> {
    match translate_from(pattern, 0) {
        Some(body) => Some(seq!['\\', 'A'] + body + seq!['\\', 'z']),
        None => None,
    }
}

/// Whether the text of a glob is refused before translation.
pub open spec fn glob_text_refused(pattern: Seq<char>) -> bool {
    ||| vstd::utf8::encode_utf8(pattern).len() > MAX_FIND_PATTERN_BYTES
    ||| has_char(pattern, '/')
    ||| has_char(pattern, ':')
    ||| has_char(pattern, '\0')
    ||| has_char(pattern, '\r')
    ||| has_char(pattern, '\n')
}

/// What compiling a glob gives: `Ok(())` or the error.
pub open spec fn find_compile_outcome(pattern: Seq<char>, ignore_case: bool) -> Result<(), FindPatternErrorV1> {
    if glob_text_refused(pattern) {
        Err(FindPatternErrorV1::InvalidSyntax)
    } else {
        match translate_spec(pattern) {
            None => Err(FindPatternErrorV1::InvalidSyntax),
            Some(e) => if regex_build_error(e, ignore_case) is None {
                Ok(())
            } else if build_hits_size_limit(e, ignore_case) {
                Err(FindPatternErrorV1::ResourceLimit)
            } else {
                Err(FindPatternErrorV1::InvalidSyntax)
            },
        }
    }
}

fn push_all(v: &mut Vec<char>, s: &str)
    ensures
        final(v)@ == old(v)@ + s@,
{
    let c = chars_of(s);
    let ghost base = v@;
    let mut k: usize = 0;
    while k < c.len()
        invariant
            k <= c@.len(),
            v@ == base + c@.take(k as int),
        decreases c.len() - k,
    {
        v.push(c[k]);
        k += 1;
        assert(v@ =~= base + c@.take(k as int));
    }
    assert(c@.take(k as int) =~= c@);
}

/// `regex::escape` of a single character.
fn escape_char(c: char) -> (r: String)
    ensures
        r@ == regex_escape_spec(seq![c]),
{
    let mut one: Vec<char> = Vec::new();
    one.push(c);
    let s = string_of(one.as_slice());
    assert(s@ =~= seq![c]);
    regex_escape(s.as_str())
}

/// One piece of the translation at `cs[index]`: the text it adds and where the scan goes on.
fn translate_piece(cs: &[char], index: usize) -> (r: Option<(String, usize)>)
    requires
        index < cs@.len(),
    ensures
        match r {
            Some((text, next)) => index < next <= cs@.len() && (match translate_from(cs@, next as int) {
                Some(rest) => translate_from(cs@, index as int) == Some(text@ + rest),
                None => translate_from(cs@, index as int) is None,
            }),
            None => translate_from(cs@, index as int) is None,
        },
{
    let character = cs[index];
    if character == '*' {
        let s = string_of(&['.', '*']);
        Some((s, index + 1))
    } else if character == '?' {
        let s = string_of(&['.']);
        Some((s, index + 1))
    } else if character == '[' {
        match validate_class(cs, index + 1) {
            Ok(end) => {
                let mut v: Vec<char> = Vec::new();
                let mut k = index;
                while k < end
                    invariant
                        index <= k <= end <= cs@.len(),
                        v@ == cs@.subrange(index as int, k as int),
                    decreases end - k,
                {
                    v.push(cs[k]);
                    k += 1;
                    assert(v@ =~= cs@.subrange(index as int, k as int));
                }
                Some((string_of(v.as_slice()), end))
            },
            Err(_) => None,
        }
    } else if character == '\\' {
        if index + 1 >= cs.len() {
            return None;
        }
        let escaped = cs[index + 1];
        if !(escaped == '*' || escaped == '?' || escaped == '[' || escaped == ']' || escaped == '\\'
            || escaped == '-' || escaped == '^') {
            return None;
        }
        Some((escape_char(escaped), index + 2))
    } else {
        Some((escape_char(character), index + 1))
    }
}

/// Translates a glob into an anchored regular expression.
pub fn translate(pattern: &str) -> (r: Result<String, FindPatternErrorV1>)
    ensures
        match translate_spec(pattern@) {
            Some(e) => r is Ok && r.unwrap()@ == e,
            None => r == Err::<String, _>(FindPatternErrorV1::InvalidSyntax),
        },
{
    let characters = chars_of(pattern);
    let ghost cs = characters@;
    let mut body: Vec<char> = Vec::new();
    let mut index: usize = 0;
    while index < characters.len()
        invariant
            cs == characters@,
            cs == pattern@,
            index <= cs.len(),
            match translate_from(cs, index as int) {
                Some(rest) => translate_from(cs, 0) == Some(body@ + rest),
                None => translate_from(cs, 0) is None,
            },
        decreases characters.len() - index,
    {
        match translate_piece(characters.as_slice(), index) {
            Some((text, next)) => {
                let ghost before = body@;
                push_all(&mut body, text.as_str());
                proof {
                    if let Some(rest) = translate_from(cs, next as int) {
                        assert(before + (text@ + rest) =~= body@ + rest);
                    }
                }
                index = next;
            },
            None => return Err(FindPatternErrorV1::InvalidSyntax),
        }
    }
    assert(body@ + Seq::<char>::empty() =~= body@);
    let mut expression: Vec<char> = Vec::new();
    expression.push('\\');
    expression.push('A');
    let ghost head = expression@;
    let body_text = string_of(body.as_slice());
    push_all(&mut expression, body_text.as_str());
    expression.push('\\');
    expression.push('z');
    assert(expression@ =~= seq!['\\', 'A'] + body@ + seq!['\\', 'z']);
    Ok(string_of(expression.as_slice()))
}

/// A compiled `find -name` glob.
pub struct FindPatternV1 {
    regex: CompiledRegexV1,
}

impl FindPatternV1 {
    pub closed spec fn expression(&self) -> Seq<char> {
        self.regex.expression()
    }

    pub closed spec fn ignore_case(&self) -> bool {
        self.regex.ignore_case()
    }

    /// Compiles a glob for matching base names.
    pub fn compile(pattern: &str, ignore_case: bool) -> (r: Result<Self, FindPatternErrorV1>)
        ensures
            match r {
                Ok(p) => find_compile_outcome(pattern@, ignore_case) is Ok
                    && Some(p.expression()) == translate_spec(pattern@)
                    && p.ignore_case() == ignore_case,
                Err(e) => find_compile_outcome(pattern@, ignore_case) == Err::<(), _>(e),
            },
    {
        let characters = chars_of(pattern);
        let byte_len = pattern.as_bytes().len();
        if byte_len > MAX_FIND_PATTERN_BYTES || contains_char(characters.as_slice(), '/')
            || contains_char(characters.as_slice(), ':') || contains_char(characters.as_slice(), '\0')
            || contains_char(characters.as_slice(), '\r') || contains_char(characters.as_slice(), '\n') {
            return Err(FindPatternErrorV1::InvalidSyntax);
        }
        assert(!glob_text_refused(pattern@));
        let expression = translate(pattern)?;
        match build_regex(expression.as_str(), ignore_case) {
            Ok(regex) => Ok(FindPatternV1 { regex }),
            Err(text) => if text_contains(text.as_str(), "compiled regex exceeds size limit") {
                Err(FindPatternErrorV1::ResourceLimit)
            } else {
                Err(FindPatternErrorV1::InvalidSyntax)
            },
        }
    }

    /// Whether the glob matches the whole base name.
    pub fn is_match(&self, basename: &str) -> (r: bool)
        ensures
            r == regex_matches(self.expression(), self.ignore_case(), basename@),
    {
        regex_is_match(&self.regex, basename)
    }
}

/// The regular-expression text that one character of a glob without classes or escapes stands for:
/// `*` any run of characters, `?` exactly one character, anything else itself.
pub open spec fn glob_char_regex(c: char) -> Seq<char> {
    if c == '*' {
        seq!['.', '*']
    } else if c == '?' {
        seq!['.']
    } else {
        regex_escape_spec(seq![c])
    }
}

/// The pieces of a glob without classes or escapes, one per character, in order.
pub open spec fn simple_glob_regex(g: Seq<char>) -> Seq<char>
    decreases g.len(),
{
    if g.len() == 0 {
        seq![]
    } else {
        glob_char_regex(g[0]) + simple_glob_regex(g.drop_first())
    }
}

/// Translating a stretch of a glob without classes or escapes puts its pieces in front of
/// whatever the rest translates to.
proof fn lemma_simple_run(cs: Seq<char>, i: int, j: int)
    requires
        0 <= i <= j <= cs.len(),
        forall|k: int| i <= k < j ==> #[trigger] cs[k] != '[' && cs[k] != '\\',
    ensures
        translate_from(cs, i) == (match translate_from(cs, j) {
            Some(r) => Some(simple_glob_regex(cs.subrange(i, j)) + r),
            None => None,
        }),
    decreases j - i,
{
    if i < j {
        lemma_simple_run(cs, i + 1, j);
        let run = cs.subrange(i, j);
        assert(run[0] == cs[i]);
        assert(run.drop_first() =~= cs.subrange(i + 1, j));
        assert(cs[i] != '[' && cs[i] != '\\');
        match translate_from(cs, j) {
            Some(r) => {
                let p = glob_char_regex(cs[i]);
                let q = simple_glob_regex(cs.subrange(i + 1, j));
                assert(p + (q + r) =~= (p + q) + r);
            },
            None => {},
        }
    } else {
        assert(cs.subrange(i, j).len() == 0);
        match translate_from(cs, j) {
            Some(r) => {
                assert(seq![] + r =~= r);
            },
            None => {},
        }
    }
}

proof fn lemma_simple_glob(g: Seq<char>)
    requires
        !g.contains('['),
        !g.contains('\\'),
    ensures
        forall|k: int| 0 <= k < g.len() ==> #[trigger] g[k] != '[' && g[k] != '\\',
{
    assert forall|k: int| 0 <= k < g.len() implies #[trigger] g[k] != '[' && g[k] != '\\' by {
        assert(g.contains(g[k]));
    }
}

/// A glob without bracket classes or backslash escapes always translates, and its expression is
/// anchored at both ends with one piece per glob character in order: `*` becomes `.*`, `?`
/// becomes `.` (exactly one character, never a run), every other character matches only itself.
pub proof fn law_simple_glob_translation(g: Seq<char>)
    requires
        !g.contains('['),
        !g.contains('\\'),
    ensures
        translate_spec(g) == Some(seq!['\\', 'A'] + simple_glob_regex(g) + seq!['\\', 'z']),
        simple_glob_regex(seq!['?']) == seq!['.'],
{
    lemma_simple_glob(g);
    lemma_simple_run(g, 0, g.len() as int);
    assert(g.subrange(0, g.len() as int) =~= g);
    assert(simple_glob_regex(g) + seq![] =~= simple_glob_regex(g));
    assert(simple_glob_regex(seq!['?']) =~= seq!['.']) by {
        reveal_with_fuel(simple_glob_regex, 2);
        assert(seq!['?'].drop_first() =~= Seq::<char>::empty());
    }
}

/// A backslash makes the glob character after it literal: `\c` for `c` one of `* ? [ ] \ - ^`
/// translates to `c` escaped for the regular expression, a backslash before any other
/// character is refused, and so is a backslash that ends the glob.
pub proof fn law_glob_escapes(c: char, g: Seq<char>)
    requires
        !g.contains('['),
        !g.contains('\\'),
    ensures
        glob_escapable(c) ==> translate_spec(seq!['\\', c] + g)
            == Some(seq!['\\', 'A'] + regex_escape_spec(seq![c]) + simple_glob_regex(g) + seq!['\\', 'z']),
        !glob_escapable(c) ==> translate_spec(seq!['\\', c] + g) is None,
        translate_spec(g + seq!['\\']) is None,
{
    lemma_simple_glob(g);
    let cs = seq!['\\', c] + g;
    assert forall|k: int| 2 <= k < cs.len() implies #[trigger] cs[k] != '[' && cs[k] != '\\' by {
        assert(cs[k] == g[k - 2]);
    }
    lemma_simple_run(cs, 2, cs.len() as int);
    assert(cs.subrange(2, cs.len() as int) =~= g);
    assert(cs[0] == '\\' && cs[1] == c);
    assert(simple_glob_regex(g) + seq![] =~= simple_glob_regex(g));
    if glob_escapable(c) {
        let e = regex_escape_spec(seq![c]);
        assert(translate_from(cs, 0) == Some(e + simple_glob_regex(g)));
        assert(seq!['\\', 'A'] + (e + simple_glob_regex(g)) + seq!['\\', 'z']
            =~= seq!['\\', 'A'] + e + simple_glob_regex(g) + seq!['\\', 'z']);
    }
    let ts = g + seq!['\\'];
    assert forall|k: int| 0 <= k < g.len() implies #[trigger] ts[k] != '[' && ts[k] != '\\' by {
        assert(ts[k] == g[k]);
    }
    lemma_simple_run(ts, 0, g.len() as int);
    assert(ts[g.len() as int] == '\\');
    assert(translate_from(ts, g.len() as int) is None);
}

} // verus!
