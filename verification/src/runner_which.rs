//! `which`: the executable extensions to try, the file names a command may have, and the
//! entries of `PATH`.

use vstd::prelude::*;
use crate::ordered_pipeline::{first_occurrences, retain_first_identical_cancellable, str_views};
use crate::ordered_stage::lemma_first_occurrences_map;
use crate::text::{
    chars_eq_ignore_case, chars_of, concat, eq_ignore_case, is_control, push_char, string_of, strings_view,
};

verus! {

/// What `str::to_lowercase` makes of a text: the full Unicode lowercase mapping.
pub uninterp spec fn unicode_lowercase(s: Seq<char>) -> Seq<char>;

/// `str::to_lowercase`, whose result is `unicode_lowercase` of the text.
#[verifier::external_body]
fn to_lowercase_text(s: &str) -> (r: String)
    ensures
        r@ == unicode_lowercase(s@),
{
    s.to_lowercase()
}

/// The extensions tried when `PATHEXT` is unset or not Unicode.
pub open spec fn default_pathext_text() -> Seq<char> {
    ".COM;.EXE;.BAT;.CMD"@
}

/// Whether `c` is white space, as `char::is_whitespace` says: the Unicode `White_Space`
/// characters.
pub open spec fn is_white_space(c: char) -> bool {
    let v = c as u32;
    (0x9 <= v && v <= 0xd) || v == 0x20 || v == 0x85 || v == 0xa0 || v == 0x1680 || (0x2000 <= v && v <= 0x200a)
        || v == 0x2028 || v == 0x2029 || v == 0x202f || v == 0x205f || v == 0x3000
}

/// `s` without its leading white space.
pub open spec fn trim_leading(s: Seq<char>) -> Seq<char>
    decreases s.len(),
{
    if s.len() > 0 && is_white_space(s[0]) { trim_leading(s.drop_first()) } else { s }
}

/// `s` without its trailing white space.
pub open spec fn trim_trailing(s: Seq<char>) -> Seq<char>
    decreases s.len(),
{
    if s.len() > 0 && is_white_space(s.last()) { trim_trailing(s.drop_last()) } else { s }
}

/// `s` without leading and trailing white space, as `str::trim` gives it.
pub open spec fn trim_white(s: Seq<char>) -> Seq<char> {
    trim_trailing(trim_leading(s))
}

/// The pieces of `s` between the separators `sep`, as `str::split` gives them: one more
/// piece than there are separators.
pub open spec fn split_on(s: Seq<char>, sep: char) -> Seq<Seq<char>>
    decreases s.len(),
{
    if s.len() == 0 {
        seq![Seq::empty()]
    } else {
        let rest = split_on(s.drop_last(), sep);
        if s.last() == sep {
            rest.push(Seq::empty())
        } else {
            rest.update(rest.len() - 1, rest.last().push(s.last()))
        }
    }
}

/// A character no extension may hold.
pub open spec fn is_forbidden_in_extension(c: char) -> bool {
    c == '\\' || c == '/' || c == ':' || c == '*' || c == '?' || c == '<' || c == '>' || c == '"' || c == '|'
}

/// `t` with a leading `.` added when it has none.
pub open spec fn dotted(t: Seq<char>) -> Seq<char> {
    if t.len() > 0 && t[0] == '.' { t } else { seq!['.'] + t }
}

/// Whether an extension holds a forbidden or control character.
pub open spec fn has_bad_char(ext: Seq<char>) -> bool {
    exists|i: int| 0 <= i < ext.len() && (is_forbidden_in_extension(#[trigger] ext[i]) || is_control(ext[i]))
}

/// What an entry of `PATHEXT` gives: trimmed, with a leading `.` added when it has none; an
/// empty entry, a lone `.`, and one with a forbidden or control character give nothing.
pub open spec fn pathext_entry(raw: Seq<char>) -> Option<Seq<char>> {
    let t = trim_white(raw);
    if t.len() == 0 {
        None
    } else if dotted(t).len() <= 1 || has_bad_char(dotted(t)) {
        None
    } else {
        Some(dotted(t))
    }
}

/// The extensions the entries give, in order.
pub open spec fn pathext_extensions(entries: Seq<Seq<char>>) -> Seq<Seq<char>>
    decreases entries.len(),
{
    if entries.len() == 0 {
        Seq::empty()
    } else {
        match pathext_entry(entries.last()) {
            Some(e) => pathext_extensions(entries.drop_last()).push(e),
            None => pathext_extensions(entries.drop_last()),
        }
    }
}

/// The lowercase keys of extensions.
pub open spec fn lowercase_keys(exts: Seq<Seq<char>>) -> Seq<Seq<char>> {
    exts.map_values(|e: Seq<char>| unicode_lowercase(e))
}

/// The extensions `which` tries: those of `PATHEXT` (or of the default when it is unset or
/// not Unicode), the first of each lowercase spelling; the default ones when none is left.
pub open spec fn spec_parse_pathext(value: Option<Seq<char>>) -> Seq<Seq<char>> {
    let text = match value {
        Some(t) => t,
        None => default_pathext_text(),
    };
    let exts = pathext_extensions(split_on(text, ';'));
    let kept = first_occurrences(exts, lowercase_keys(exts), exts.len() as int);
    if kept.len() == 0 {
        split_on(default_pathext_text(), ';')
    } else {
        kept
    }
}

/// Whether `c` is white space.
fn white_space_char(c: char) -> (r: bool)
    ensures
        r == is_white_space(c),
{
    let v = c as u32;
    (0x9 <= v && v <= 0xd) || v == 0x20 || v == 0x85 || v == 0xa0 || v == 0x1680 || (0x2000 <= v && v <= 0x200a)
        || v == 0x2028 || v == 0x2029 || v == 0x202f || v == 0x205f || v == 0x3000
}

/// `s[start..end]` without leading white space, as an index.
proof fn lemma_trim_leading_from(s: Seq<char>, k: int)
    requires
        0 <= k <= s.len(),
        forall|i: int| 0 <= i < k ==> is_white_space(#[trigger] s[i]),
    ensures
        trim_leading(s) == trim_leading(s.subrange(k, s.len() as int)),
    decreases k,
{
    if k > 0 {
        assert(is_white_space(s[0]));
        let t = s.drop_first();
        assert forall|i: int| 0 <= i < k - 1 implies is_white_space(#[trigger] t[i]) by {
            assert(t[i] == s[i + 1]);
        }
        lemma_trim_leading_from(t, k - 1);
        assert(t.subrange(k - 1, t.len() as int) =~= s.subrange(k, s.len() as int));
    } else {
        assert(s.subrange(0, s.len() as int) =~= s);
    }
}

proof fn lemma_trim_trailing_to(s: Seq<char>, k: int)
    requires
        0 <= k <= s.len(),
        forall|i: int| k <= i < s.len() ==> is_white_space(#[trigger] s[i]),
    ensures
        trim_trailing(s) == trim_trailing(s.subrange(0, k)),
    decreases s.len() - k,
{
    if k < s.len() {
        assert(is_white_space(s.last()));
        let t = s.drop_last();
        assert forall|i: int| k <= i < t.len() implies is_white_space(#[trigger] t[i]) by {
            assert(t[i] == s[i]);
        }
        lemma_trim_trailing_to(t, k);
        assert(t.subrange(0, k) =~= s.subrange(0, k));
    } else {
        assert(s.subrange(0, k) =~= s);
    }
}

/// `s` without leading and trailing white space.
fn trim_chars(s: &Vec<char>) -> (r: Vec<char>)
    ensures
        r@ == trim_white(s@),
{
    let mut a: usize = 0;
    while a < s.len() && white_space_char(s[a])
        invariant
            a <= s@.len(),
            forall|i: int| 0 <= i < a ==> is_white_space(#[trigger] s@[i]),
        decreases s.len() - a,
    {
        a += 1;
    }
    proof {
        lemma_trim_leading_from(s@, a as int);
    }
    let ghost lead = s@.subrange(a as int, s@.len() as int);
    assert(a < s@.len() ==> !is_white_space(lead[0]));
    assert(trim_leading(lead) == lead);
    let mut b: usize = s.len();
    while b > a && white_space_char(s[b - 1])
        invariant
            a <= b <= s@.len(),
            forall|i: int| b <= i < s@.len() ==> is_white_space(#[trigger] s@[i]),
        decreases b,
    {
        b -= 1;
    }
    proof {
        assert forall|i: int| b - a <= i < lead.len() implies is_white_space(#[trigger] lead[i]) by {
            assert(lead[i] == s@[a + i]);
        }
        lemma_trim_trailing_to(lead, b - a);
        assert(lead.subrange(0, b - a) =~= s@.subrange(a as int, b as int));
        let m = s@.subrange(a as int, b as int);
        if m.len() > 0 {
            assert(m.last() == s@[b - 1]);
        }
        assert(trim_trailing(m) == m);
    }
    let mut r: Vec<char> = Vec::new();
    let mut i = a;
    while i < b
        invariant
            a <= i <= b,
            b <= s@.len(),
            r@ == s@.subrange(a as int, i as int),
        decreases b - i,
    {
        r.push(s[i]);
        i += 1;
        assert(r@ =~= s@.subrange(a as int, i as int));
    }
    r
}

/// The pieces of `s` between the separators `sep`.
fn split_chars(s: &Vec<char>, sep: char) -> (r: Vec<Vec<char>>)
    ensures
        r@.len() > 0,
        r@.map_values(|v: Vec<char>| v@) == split_on(s@, sep),
{
    let mut done: Vec<Vec<char>> = Vec::new();
    let mut current: Vec<char> = Vec::new();
    let mut i: usize = 0;
    while i < s.len()
        invariant
            i <= s@.len(),
            done@.map_values(|v: Vec<char>| v@).push(current@) == split_on(s@.take(i as int), sep),
        decreases s.len() - i,
    {
        let c = s[i];
        let ghost before_done = done@;
        let ghost before_cur = current@;
        proof {
            assert(s@.take(i as int + 1).drop_last() =~= s@.take(i as int));
            assert(s@.take(i as int + 1).last() == c);
        }
        if c == sep {
            let piece = current;
            current = Vec::new();
            done.push(piece);
            proof {
                assert(done@.map_values(|v: Vec<char>| v@) =~= before_done.map_values(|v: Vec<char>| v@).push(before_cur));
                assert(done@.map_values(|v: Vec<char>| v@).push(current@)
                    =~= split_on(s@.take(i as int), sep).push(Seq::empty()));
            }
        } else {
            current.push(c);
            proof {
                let prev = split_on(s@.take(i as int), sep);
                assert(done@.map_values(|v: Vec<char>| v@).push(current@)
                    =~= prev.update(prev.len() - 1, prev.last().push(c)));
            }
        }
        i += 1;
    }
    let ghost before_done = done@;
    done.push(current);
    proof {
        assert(done@.map_values(|v: Vec<char>| v@) =~= before_done.map_values(|v: Vec<char>| v@).push(current@));
        assert(s@.take(s@.len() as int) =~= s@);
    }
    done
}

/// Whether some character of `s` may not stand in an extension.
fn has_bad_extension_char(s: &Vec<char>) -> (r: bool)
    ensures
        r == has_bad_char(s@),
{
    let mut i: usize = 0;
    while i < s.len()
        invariant
            i <= s@.len(),
            forall|k: int| 0 <= k < i ==> !(is_forbidden_in_extension(#[trigger] s@[k]) || is_control(s@[k])),
        decreases s.len() - i,
    {
        let c = s[i];
        let v = c as u32;
        let forbidden = c == '\\' || c == '/' || c == ':' || c == '*' || c == '?' || c == '<' || c == '>' || c == '"' || c == '|';
        if forbidden || v < 0x20 || (0x7f <= v && v <= 0x9f) {
            assert(is_forbidden_in_extension(s@[i as int]) || is_control(s@[i as int]));
            return true;
        }
        i += 1;
    }
    false
}

/// What an entry of `PATHEXT` gives.
fn pathext_entry_of(raw: &Vec<char>) -> (r: Option<Vec<char>>)
    ensures
        match pathext_entry(raw@) {
            Some(e) => r matches Some(x) && x@ == e,
            None => r is None,
        },
{
    let t = trim_chars(raw);
    if t.len() == 0 {
        return None;
    }
    let ext = if t[0] == '.' {
        t
    } else {
        let mut e: Vec<char> = Vec::new();
        e.push('.');
        let mut i: usize = 0;
        while i < t.len()
            invariant
                i <= t@.len(),
                e@ == seq!['.'] + t@.take(i as int),
            decreases t.len() - i,
        {
            e.push(t[i]);
            i += 1;
            assert(e@ =~= seq!['.'] + t@.take(i as int));
        }
        assert(t@.take(t@.len() as int) =~= t@);
        e
    };
    assert(ext@ == dotted(t@));
    if ext.len() <= 1 || has_bad_extension_char(&ext) {
        return None;
    }
    Some(ext)
}

/// The second text of a pair.
fn second_text(entry: &(String, String)) -> (r: &str)
    ensures
        r@ == entry.1@,
{
    entry.1.as_str()
}

/// The extensions `which` tries, from the value of `PATHEXT` when it is set and Unicode.
pub fn parse_pathext(value: Option<&str>) -> (r: Vec<String>)
    ensures
        strings_view(r@) == spec_parse_pathext(match value {
            Some(v) => Some(v@),
            None => None,
        }),
{
    let text = match value {
        Some(v) => chars_of(v),
        None => chars_of(".COM;.EXE;.BAT;.CMD"),
    };
    let ghost text_view = match value {
        Some(v) => v@,
        None => default_pathext_text(),
    };
    assert(text@ == text_view);
    let pieces = split_chars(&text, ';');
    let ghost piece_views = pieces@.map_values(|v: Vec<char>| v@);
    let mut pairs: Vec<(String, String)> = Vec::new();
    let mut i: usize = 0;
    while i < pieces.len()
        invariant
            i <= pieces@.len(),
            piece_views == pieces@.map_values(|v: Vec<char>| v@),
            pairs@.map_values(|p: (String, String)| p.0@) == pathext_extensions(piece_views.take(i as int)),
            forall|k: int| 0 <= k < pairs@.len() ==> (#[trigger] pairs@[k]).1@ == unicode_lowercase(pairs@[k].0@),
        decreases pieces.len() - i,
    {
        proof {
            assert(piece_views.take(i as int + 1).drop_last() =~= piece_views.take(i as int));
            assert(piece_views.take(i as int + 1).last() == pieces@[i as int]@);
        }
        let ghost before = pairs@;
        match pathext_entry_of(&pieces[i]) {
            Some(ext) => {
                let ext_text = string_of(ext.as_slice());
                let lower = to_lowercase_text(ext_text.as_str());
                pairs.push((ext_text, lower));
                proof {
                    assert(pairs@.map_values(|p: (String, String)| p.0@)
                        =~= before.map_values(|p: (String, String)| p.0@).push(ext@));
                }
            },
            None => {},
        }
        i += 1;
    }
    proof {
        assert(piece_views.take(pieces@.len() as int) =~= piece_views);
    }
    let ghost exts = pairs@.map_values(|p: (String, String)| p.0@);
    let ghost all_pairs = pairs@;
    let never = || -> (b: bool)
        ensures
            !b,
    {
        false
    };
    let kept = match retain_first_identical_cancellable(pairs, second_text, never) {
        Ok(kept) => kept,
        Err(_) => {
            assert(false);
            Vec::new()
        },
    };
    proof {
        let ts = choose|ts: Seq<&str>| {
            &&& ts.len() == all_pairs.len()
            &&& forall|k: int| 0 <= k < ts.len() ==> second_text.ensures((&all_pairs[k],), #[trigger] ts[k])
            &&& kept@ == first_occurrences(all_pairs, str_views(ts), all_pairs.len() as int)
        };
        assert(str_views(ts) =~= lowercase_keys(exts)) by {
            assert forall|k: int| 0 <= k < ts.len() implies str_views(ts)[k] == lowercase_keys(exts)[k] by {
                assert(second_text.ensures((&all_pairs[k],), ts[k]));
            }
        }
        lemma_first_occurrences_map(all_pairs, str_views(ts), all_pairs.len() as int, |p: (String, String)| p.0@);
    }
    let mut out: Vec<String> = Vec::new();
    let mut k: usize = 0;
    while k < kept.len()
        invariant
            k <= kept@.len(),
            strings_view(out@) == kept@.take(k as int).map_values(|p: (String, String)| p.0@),
        decreases kept.len() - k,
    {
        let ghost before = out@;
        let item = kept[k].0.clone();
        assert(item@ == kept@[k as int].0@);
        out.push(item);
        proof {
            crate::text::lemma_strings_view_push(before, item);
            assert(kept@.take(k as int + 1).map_values(|p: (String, String)| p.0@)
                =~= kept@.take(k as int).map_values(|p: (String, String)| p.0@).push(item@));
        }
        k += 1;
    }
    proof {
        assert(kept@.take(k as int) =~= kept@);
    }
    if out.len() == 0 {
        let default_text = chars_of(".COM;.EXE;.BAT;.CMD");
        let defaults = split_chars(&default_text, ';');
        let mut d: Vec<String> = Vec::new();
        let mut j: usize = 0;
        while j < defaults.len()
            invariant
                j <= defaults@.len(),
                strings_view(d@) == defaults@.take(j as int).map_values(|v: Vec<char>| v@),
            decreases defaults.len() - j,
        {
            let ghost before = d@;
            let item = string_of(defaults[j].as_slice());
            d.push(item);
            proof {
                crate::text::lemma_strings_view_push(before, item);
                assert(defaults@.take(j as int + 1).map_values(|v: Vec<char>| v@)
                    =~= defaults@.take(j as int).map_values(|v: Vec<char>| v@).push(item@));
            }
            j += 1;
        }
        proof {
            assert(defaults@.take(j as int) =~= defaults@);
        }
        return d;
    }
    out
}

/// The position of the last `.` in `s`, if any.
pub open spec fn last_dot(s: Seq<char>) -> Option<int>
    decreases s.len(),
{
    if s.len() == 0 {
        None
    } else if s.last() == '.' {
        Some(s.len() - 1)
    } else {
        last_dot(s.drop_last())
    }
}

/// The extension a command name carries: from its last `.` on, when that `.` is neither the
/// first nor the last character.
pub open spec fn name_extension(name: Seq<char>) -> Option<Seq<char>> {
    match last_dot(name) {
        Some(k) => if 0 < k && k + 1 < name.len() { Some(name.subrange(k, name.len() as int)) } else { None },
        None => None,
    }
}

/// The file names `which` looks for: a name that carries an extension only when that
/// extension is one to try (ignoring ASCII case), and nothing otherwise; a name without an
/// extension with each extension appended.
pub open spec fn spec_executable_candidates(name: Seq<char>, exts: Seq<Seq<char>>) -> Option<Seq<Seq<char>>> {
    match name_extension(name) {
        Some(e) => if exists|i: int| 0 <= i < exts.len() && eq_ignore_case(#[trigger] exts[i], e) {
            Some(seq![name])
        } else {
            None
        },
        None => Some(exts.map_values(|x: Seq<char>| name + x)),
    }
}

/// Where the last `.` of `s` stands.
proof fn lemma_last_dot_bounds(s: Seq<char>)
    ensures
        last_dot(s) matches Some(k) ==> 0 <= k < s.len() && s[k] == '.',
    decreases s.len(),
{
    if s.len() > 0 && s.last() != '.' {
        lemma_last_dot_bounds(s.drop_last());
    }
}

/// The position of the last `.` in `s`.
fn find_last_dot(s: &Vec<char>) -> (r: Option<usize>)
    ensures
        match last_dot(s@) {
            Some(k) => r is Some && r.unwrap() as int == k,
            None => r is None,
        },
        r matches Some(k) ==> k < s@.len(),
        last_dot(s@) matches Some(k) ==> 0 <= k < s@.len(),
{
    proof {
        assert(s@.take(s@.len() as int) =~= s@);
        lemma_last_dot_bounds(s@);
    }
    let mut i: usize = s.len();
    while i > 0
        invariant
            i <= s@.len(),
            last_dot(s@) == last_dot(s@.take(i as int)),
        decreases i,
    {
        proof {
            assert(s@.take(i as int).drop_last() =~= s@.take(i as int - 1));
        }
        if s[i - 1] == '.' {
            return Some(i - 1);
        }
        i -= 1;
    }
    None
}

/// The file names `which` looks for.
#[verifier::spinoff_prover]
#[verifier::rlimit(30)]
pub fn executable_candidates(name: &str, extensions: &[String]) -> (r: Option<Vec<String>>)
    ensures
        match spec_executable_candidates(name@, strings_view(extensions@)) {
            Some(c) => r matches Some(v) && strings_view(v@) == c,
            None => r is None,
        },
{
    let chars = chars_of(name);
    proof {
        assert(chars@.take(chars@.len() as int) =~= chars@);
    }
    let dot = find_last_dot(&chars);
    let extension: Option<Vec<char>> = match dot {
        Some(k) => if 0 < k && k < chars.len() && k + 1 < chars.len() {
            let mut e: Vec<char> = Vec::new();
            let mut i = k;
            while i < chars.len()
                invariant
                    k <= i <= chars@.len(),
                    e@ == chars@.subrange(k as int, i as int),
                decreases chars.len() - i,
            {
                e.push(chars[i]);
                i += 1;
                assert(e@ =~= chars@.subrange(k as int, i as int));
            }
            assert(name_extension(name@) == Some(e@));
            Some(e)
        } else {
            proof {
                lemma_last_dot_bounds(chars@);
                assert(chars@ == name@);
                assert(last_dot(name@) == Some(k as int));
            }
            assert(name_extension(name@) is None);
            None
        },
        None => {
            assert(name_extension(name@) is None);
            None
        },
    };
    assert(extension is None ==> name_extension(name@) is None);
    match extension {
        Some(e) => {
            assert(name_extension(name@) == Some(e@));
            let mut i: usize = 0;
            while i < extensions.len()
                invariant
                    i <= extensions@.len(),
                    name_extension(name@) == Some(e@),
                    forall|k: int| 0 <= k < i ==> !eq_ignore_case(#[trigger] strings_view(extensions@)[k], e@),
                decreases extensions.len() - i,
            {
                let x = chars_of(extensions[i].as_str());
                if chars_eq_ignore_case(x.as_slice(), e.as_slice()) {
                    assert(eq_ignore_case(strings_view(extensions@)[i as int], e@));
                    let mut one: Vec<String> = Vec::new();
                    one.push(name.to_string());
                    assert(strings_view(one@) =~= seq![name@]);
                    return Some(one);
                }
                i += 1;
            }
            None
        },
        None => {
            assert(name_extension(name@) is None);
            let mut out: Vec<String> = Vec::new();
            let mut i: usize = 0;
            while i < extensions.len()
                invariant
                    i <= extensions@.len(),
                    strings_view(out@) == strings_view(extensions@).take(i as int).map_values(|x: Seq<char>| name@ + x),
                decreases extensions.len() - i,
            {
                let ghost before = out@;
                let item = concat(name, extensions[i].as_str());
                out.push(item);
                proof {
                    crate::text::lemma_strings_view_push(before, item);
                    assert(strings_view(extensions@)[i as int] == extensions@[i as int]@);
                    assert(strings_view(extensions@).take(i as int + 1).map_values(|x: Seq<char>| name@ + x)
                        =~= strings_view(extensions@).take(i as int).map_values(|x: Seq<char>| name@ + x).push(item@));
                }
                i += 1;
            }
            proof {
                assert(strings_view(extensions@).take(i as int) =~= strings_view(extensions@));
            }
            Some(out)
        },
    }
}

/// An entry of `PATH` without the quotes around it, when it starts and ends with one.
pub open spec fn spec_strip_boundary_quotes(s: Seq<char>) -> Seq<char> {
    if s.len() >= 2 && s[0] == '"' && s.last() == '"' { s.subrange(1, s.len() - 1) } else { s }
}

/// An entry of `PATH` without the quotes around it.
pub fn strip_boundary_quotes(value: &str) -> (r: String)
    ensures
        r@ == spec_strip_boundary_quotes(value@),
{
    let chars = chars_of(value);
    let n = chars.len();
    if n >= 2 && chars[0] == '"' && chars[n - 1] == '"' {
        let mut r = String::new();
        let mut i: usize = 1;
        while i < n - 1
            invariant
                n == chars@.len(),
                1 <= i <= n - 1,
                r@ == chars@.subrange(1, i as int),
            decreases n - 1 - i,
        {
            push_char(&mut r, chars[i]);
            i += 1;
            assert(r@ =~= chars@.subrange(1, i as int));
        }
        r
    } else {
        value.to_string()
    }
}

} // verus!
