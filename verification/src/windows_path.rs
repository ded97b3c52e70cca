//! Validation and resolution of Windows path operands.

use vstd::prelude::*;
use crate::text::{
    ascii_upper, chars_of, is_ascii_alpha, lemma_strings_view_push, string_of, strings_view,
    upper_char,
};

verus! {

pub const MAX_RESOLVED_PATH_UTF16_UNITS: usize = 4096;

#[derive(Clone, Copy, Debug, Eq, PartialEq)]
pub enum PathKindV1 {
    Relative,
    DriveAbsolute,
    UncAbsolute,
}

#[derive(Clone, Debug, Eq, PartialEq)]
pub struct ValidatedPathSpecV1 {
    pub original: String,
    pub kind: PathKindV1,
    pub components: Vec<String>,
}

/// The value of a validated path: its text, its kind and its components.
pub struct SpecPath {
    pub original: Seq<char>,
    pub kind: PathKindV1,
    pub components: Seq<Seq<char>>,
}

impl View for ValidatedPathSpecV1 {
    type V = SpecPath;

    open spec fn view(&self) -> SpecPath {
        SpecPath {
            original: self.original@,
            kind: self.kind,
            components: strings_view(self.components@),
        }
    }
}

#[derive(Clone, Copy, Debug, Eq, PartialEq)]
pub enum PathValidationErrorV1 {
    Empty,
    TooLong,
    DriveRelative,
    RootRelative,
    SlashPrefixedUnc,
    DeviceNamespace,
    AlternateDataStream,
    Wildcard,
    InvalidCharacter,
    AmbiguousComponent,
    ReservedDevice,
    UncMissingServer,
    UncMissingShare,
}

#[derive(Clone, Copy, Debug, Eq, PartialEq)]
pub enum PathResolutionErrorV1 {
    InvalidSpec,
    InvalidCurrentDirectory,
    TraversalAboveRoot,
    TooLong,
}

/// Number of UTF-16 code units that encode `s`.
pub open spec fn utf16_len(s: Seq<char>) -> nat
    decreases s.len(),
{
    if s.len() == 0 {
        0
    } else {
        utf16_len(s.drop_last()) + (if (s.last() as u32) >= 0x10000 { 2nat } else { 1nat })
    }
}

pub open spec fn is_separator(c: char) -> bool {
    c == '\\' || c == '/'
}

/// Splits `s[i..]` at separators, dropping empty pieces; `current` is the piece being read.
pub open spec fn split_from(s: Seq<char>, i: int, current: Seq<char>, pieces: Seq<Seq<char>>) -> Seq<Seq<char>>
    decreases s.len() - i,
{
    if i < 0 || i >= s.len() {
        if current.len() > 0 { pieces.push(current) } else { pieces }
    } else if is_separator(s[i]) {
        split_from(s, i + 1, seq![], if current.len() > 0 { pieces.push(current) } else { pieces })
    } else {
        split_from(s, i + 1, current.push(s[i]), pieces)
    }
}

/// The non-empty pieces of `s` between separators.
pub open spec fn split_components(s: Seq<char>) -> Seq<Seq<char>> {
    split_from(s, 0, seq![], seq![])
}

pub open spec fn starts_with(s: Seq<char>, p: Seq<char>) -> bool {
    p.len() <= s.len() && s.take(p.len() as int) == p
}

/// The part of a component before its first dot.
pub open spec fn base_name(c: Seq<char>) -> Seq<char>
    decreases c.len(),
{
    if c.len() == 0 {
        c
    } else if c.last() == '.' && !has_dot(c.drop_last()) {
        c.drop_last()
    } else if has_dot(c.drop_last()) {
        base_name(c.drop_last())
    } else {
        c
    }
}

pub open spec fn has_dot(c: Seq<char>) -> bool {
    exists|i: int| 0 <= i < c.len() && c[i] == '.'
}

pub open spec fn upper(s: Seq<char>) -> Seq<char> {
    s.map_values(|c: char| ascii_upper(c))
}

/// Device names that Windows reserves in every directory.
pub open spec fn is_reserved_device(base: Seq<char>) -> bool {
    let u = upper(base);
    ||| u == seq!['C', 'O', 'N']
    ||| u == seq!['P', 'R', 'N']
    ||| u == seq!['A', 'U', 'X']
    ||| u == seq!['N', 'U', 'L']
    ||| u == seq!['C', 'O', 'N', 'I', 'N', '$']
    ||| u == seq!['C', 'O', 'N', 'O', 'U', 'T', '$']
    ||| (u.len() == 4 && (u.take(3) == seq!['C', 'O', 'M'] || u.take(3) == seq!['L', 'P', 'T'])
        && '1' <= u[3] && u[3] <= '9')
}

/// Why a single component is refused, if it is.
pub open spec fn component_error(c: Seq<char>) -> Option<PathValidationErrorV1> {
    if c != seq!['.'] && c != seq!['.', '.'] && c.len() > 0 && (c.last() == '.' || c.last() == ' ') {
        Some(PathValidationErrorV1::AmbiguousComponent)
    } else if is_reserved_device(base_name(c)) {
        Some(PathValidationErrorV1::ReservedDevice)
    } else {
        None
    }
}

/// The first refused component of `cs[i..]`.
pub open spec fn components_error(cs: Seq<Seq<char>>, i: int) -> Option<PathValidationErrorV1>
    decreases cs.len() - i,
{
    if i < 0 || i >= cs.len() {
        None
    } else if component_error(cs[i]) is Some {
        component_error(cs[i])
    } else {
        components_error(cs, i + 1)
    }
}

/// Why character `c` at position `i` is refused, if it is; `drive` is whether position 1 holds a
/// drive letter's colon.
pub open spec fn char_error(c: char, i: int, drive: bool) -> Option<PathValidationErrorV1> {
    if c == ':' && !(drive && i == 1) {
        Some(PathValidationErrorV1::AlternateDataStream)
    } else if c == '*' || c == '?' {
        Some(PathValidationErrorV1::Wildcard)
    } else if c < ' ' || c == '<' || c == '>' || c == '"' || c == '|' {
        Some(PathValidationErrorV1::InvalidCharacter)
    } else {
        None
    }
}

/// The first refused character of `s[i..]`.
pub open spec fn chars_error(s: Seq<char>, i: int, drive: bool) -> Option<PathValidationErrorV1>
    decreases s.len() - i,
{
    if i < 0 || i >= s.len() {
        None
    } else if char_error(s[i], i, drive) is Some {
        char_error(s[i], i, drive)
    } else {
        chars_error(s, i + 1, drive)
    }
}

/// Kind and raw components of a path, or the error that its shape gives.
pub open spec fn path_shape(s: Seq<char>) -> Result<(PathKindV1, Seq<Seq<char>>), PathValidationErrorV1> {
    if starts_with(s, seq!['\\', '\\']) {
        let rest = s.skip(2);
        if rest.len() > 0 && is_separator(rest[0]) {
            Err(PathValidationErrorV1::UncMissingServer)
        } else if split_components(rest).len() == 0 {
            Err(PathValidationErrorV1::UncMissingServer)
        } else if split_components(rest).len() < 2 {
            Err(PathValidationErrorV1::UncMissingShare)
        } else {
            Ok((PathKindV1::UncAbsolute, split_components(rest)))
        }
    } else if s.len() >= 2 && is_ascii_alpha(s[0]) && s[1] == ':' {
        if s.len() == 2 || !is_separator(s[2]) {
            Err(PathValidationErrorV1::DriveRelative)
        } else {
            Ok((PathKindV1::DriveAbsolute, split_components(s.skip(3))))
        }
    } else if s.len() > 0 && is_separator(s[0]) {
        Err(PathValidationErrorV1::RootRelative)
    } else {
        Ok((PathKindV1::Relative, split_components(s)))
    }
}

/// What validating the text `s` gives.
pub open spec fn spec_validate_path(s: Seq<char>) -> Result<SpecPath, PathValidationErrorV1> {
    if s.len() == 0 {
        Err(PathValidationErrorV1::Empty)
    } else if utf16_len(s) > MAX_RESOLVED_PATH_UTF16_UNITS {
        Err(PathValidationErrorV1::TooLong)
    } else if starts_with(s, seq!['\\', '\\', '?', '\\']) || starts_with(s, seq!['\\', '\\', '.', '\\'])
        || starts_with(s, seq!['\\', '?', '?', '\\']) {
        Err(PathValidationErrorV1::DeviceNamespace)
    } else if starts_with(s, seq!['/', '/']) {
        Err(PathValidationErrorV1::SlashPrefixedUnc)
    } else {
        match path_shape(s) {
            Err(e) => Err(e),
            Ok((kind, comps)) => {
                if chars_error(s, 0, kind == PathKindV1::DriveAbsolute) is Some {
                    Err(chars_error(s, 0, kind == PathKindV1::DriveAbsolute).unwrap())
                } else if components_error(comps, 0) is Some {
                    Err(components_error(comps, 0).unwrap())
                } else {
                    Ok(SpecPath { original: s, kind, components: comps })
                }
            },
        }
    }
}

/// Number of UTF-16 code units of `s`, or `None` when above `limit`.
fn utf16_len_within(s: &[char], limit: usize) -> (r: Option<usize>)
    ensures
        match r {
            Some(n) => n == utf16_len(s@) && n <= limit,
            None => utf16_len(s@) > limit,
        },
{
    let mut n: usize = 0;
    let mut i: usize = 0;
    while i < s.len()
        invariant
            i <= s.len(),
            n == utf16_len(s@.take(i as int)),
            n <= limit,
        decreases s.len() - i,
    {
        assert(s@.take(i + 1).drop_last() =~= s@.take(i as int));
        let w: usize = if (s[i] as u32) >= 0x10000 { 2 } else { 1 };
        if w > limit - n {
            proof { lemma_utf16_len_prefix(s@, i + 1); }
            return None;
        }
        n = n + w;
        i += 1;
    }
    assert(s@.take(i as int) =~= s@);
    Some(n)
}

proof fn lemma_utf16_len_prefix(s: Seq<char>, k: int)
    requires
        0 <= k <= s.len(),
    ensures
        utf16_len(s.take(k)) <= utf16_len(s),
    decreases s.len() - k,
{
    if k < s.len() {
        lemma_utf16_len_prefix(s, k + 1);
        assert(s.take(k + 1).drop_last() =~= s.take(k));
    } else {
        assert(s.take(k) =~= s);
    }
}

/// Whether `s` starts with `p`.
fn has_prefix(s: &[char], p: &[char]) -> (r: bool)
    ensures
        r == starts_with(s@, p@),
{
    if p.len() > s.len() {
        return false;
    }
    let mut i: usize = 0;
    while i < p.len()
        invariant
            p.len() <= s.len(),
            i <= p.len(),
            forall|j: int| 0 <= j < i ==> s@[j] == p@[j],
        decreases p.len() - i,
    {
        if s[i] != p[i] {
            return false;
        }
        i += 1;
    }
    assert(s@.take(p@.len() as int) =~= p@);
    true
}

/// The non-empty pieces of `s[start..]` between separators.
fn split_from_index(s: &[char], start: usize) -> (r: Vec<Vec<char>>)
    requires
        start <= s@.len(),
    ensures
        r@.map_values(|v: Vec<char>| v@) == split_components(s@.skip(start as int)),
{
    let ghost t = s@.skip(start as int);
    let mut pieces: Vec<Vec<char>> = Vec::new();
    let mut current: Vec<char> = Vec::new();
    let mut i: usize = start;
    assert(pieces@.map_values(|v: Vec<char>| v@) =~= Seq::<Seq<char>>::empty());
    assert(current@ =~= Seq::<char>::empty());
    while i < s.len()
        invariant
            start <= i <= s.len(),
            t == s@.skip(start as int),
            split_components(t) == split_from(t, i - start, current@, pieces@.map_values(|v: Vec<char>| v@)),
        decreases s.len() - i,
    {
        let c = s[i];
        assert(t[i - start] == c);
        if c == '\\' || c == '/' {
            if current.len() > 0 {
                let ghost before = pieces@;
                let piece = current;
                pieces.push(piece);
                assert(pieces@.map_values(|v: Vec<char>| v@) =~= before.map_values(|v: Vec<char>| v@).push(piece@));
                current = Vec::new();
            } else {
                current = Vec::new();
            }
            assert(current@ =~= Seq::<char>::empty());
        } else {
            current.push(c);
        }
        i += 1;
    }
    if current.len() > 0 {
        let ghost before = pieces@;
        let piece = current;
        pieces.push(piece);
        assert(pieces@.map_values(|v: Vec<char>| v@) =~= before.map_values(|v: Vec<char>| v@).push(piece@));
    }
    pieces
}

/// The part of `c` before its first dot.
fn base_of(c: &[char]) -> (r: Vec<char>)
    ensures
        r@ == base_name(c@),
{
    let mut r: Vec<char> = Vec::new();
    let mut i: usize = 0;
    while i < c.len() && c[i] != '.'
        invariant
            i <= c.len(),
            r@ == c@.take(i as int),
            forall|j: int| 0 <= j < i ==> c@[j] != '.',
        decreases c.len() - i,
    {
        r.push(c[i]);
        i += 1;
        assert(r@ =~= c@.take(i as int));
    }
    proof { lemma_base_name(c@, i as int); }
    r
}

proof fn lemma_base_name(c: Seq<char>, i: int)
    requires
        0 <= i <= c.len(),
        forall|j: int| 0 <= j < i ==> c[j] != '.',
        i == c.len() || c[i] == '.',
    ensures
        base_name(c) == c.take(i),
    decreases c.len(),
{
    if c.len() == 0 {
        assert(c.take(i) =~= c);
    } else if i == c.len() {
        assert(!has_dot(c.drop_last()));
        assert(c.take(i) =~= c);
    } else if i == c.len() - 1 {
        assert(!has_dot(c.drop_last()));
        assert(c.take(i) =~= c.drop_last());
    } else {
        assert(c.drop_last()[i] == '.');
        assert(has_dot(c.drop_last()));
        lemma_base_name(c.drop_last(), i);
        assert(c.drop_last().take(i) =~= c.take(i));
    }
}

/// Uppercase of every ASCII letter of `s`.
fn upper_of(s: &[char]) -> (r: Vec<char>)
    ensures
        r@ == upper(s@),
{
    let mut r: Vec<char> = Vec::new();
    let mut i: usize = 0;
    while i < s.len()
        invariant
            i <= s.len(),
            r@ == upper(s@.take(i as int)),
        decreases s.len() - i,
    {
        r.push(upper_char(s[i]));
        i += 1;
        assert(r@ =~= upper(s@.take(i as int)));
    }
    assert(s@.take(i as int) =~= s@);
    r
}

fn is_reserved(base: &[char]) -> (r: bool)
    ensures
        r == is_reserved_device(base@),
{
    let u = upper_of(base);
    let n = u.len();
    let word3 = n == 3 && ((u[0] == 'C' && u[1] == 'O' && u[2] == 'N') || (u[0] == 'P' && u[1] == 'R'
        && u[2] == 'N') || (u[0] == 'A' && u[1] == 'U' && u[2] == 'X') || (u[0] == 'N' && u[1] == 'U'
        && u[2] == 'L'));
    let conin = n == 6 && u[0] == 'C' && u[1] == 'O' && u[2] == 'N' && u[3] == 'I' && u[4] == 'N'
        && u[5] == '$';
    let conout = n == 7 && u[0] == 'C' && u[1] == 'O' && u[2] == 'N' && u[3] == 'O' && u[4] == 'U'
        && u[5] == 'T' && u[6] == '$';
    let numbered = n == 4 && ((u[0] == 'C' && u[1] == 'O' && u[2] == 'M') || (u[0] == 'L' && u[1]
        == 'P' && u[2] == 'T')) && '1' <= u[3] && u[3] <= '9';
    proof {
        let v = u@;
        if n == 3 {
            assert(v == seq![v[0], v[1], v[2]]);
        }
        if n == 6 {
            assert(v == seq![v[0], v[1], v[2], v[3], v[4], v[5]]);
        }
        if n == 7 {
            assert(v == seq![v[0], v[1], v[2], v[3], v[4], v[5], v[6]]);
        }
        if n == 4 {
            assert(v.take(3) == seq![v[0], v[1], v[2]]);
        }
    }
    word3 || conin || conout || numbered
}

fn check_component(c: &[char]) -> (r: Option<PathValidationErrorV1>)
    ensures
        r == component_error(c@),
{
    let n = c.len();
    let dot = n == 1 && c[0] == '.';
    let dotdot = n == 2 && c[0] == '.' && c[1] == '.';
    proof {
        if n == 1 {
            assert(c@ == seq![c@[0]]);
        }
        if n == 2 {
            assert(c@ == seq![c@[0], c@[1]]);
        }
    }
    if !dot && !dotdot && n > 0 && (c[n - 1] == '.' || c[n - 1] == ' ') {
        return Some(PathValidationErrorV1::AmbiguousComponent);
    }
    let base = base_of(c);
    if is_reserved(base.as_slice()) {
        return Some(PathValidationErrorV1::ReservedDevice);
    }
    None
}

fn check_chars(s: &[char], drive: bool) -> (r: Option<PathValidationErrorV1>)
    ensures
        r == chars_error(s@, 0, drive),
{
    let mut i: usize = 0;
    while i < s.len()
        invariant
            i <= s.len(),
            chars_error(s@, 0, drive) == chars_error(s@, i as int, drive),
        decreases s.len() - i,
    {
        let c = s[i];
        if c == ':' && !(drive && i == 1) {
            return Some(PathValidationErrorV1::AlternateDataStream);
        }
        if c == '*' || c == '?' {
            return Some(PathValidationErrorV1::Wildcard);
        }
        if c < ' ' || c == '<' || c == '>' || c == '"' || c == '|' {
            return Some(PathValidationErrorV1::InvalidCharacter);
        }
        i += 1;
    }
    None
}

fn check_components(cs: &Vec<Vec<char>>) -> (r: Option<PathValidationErrorV1>)
    ensures
        r == components_error(cs@.map_values(|v: Vec<char>| v@), 0),
{
    let ghost m = cs@.map_values(|v: Vec<char>| v@);
    let mut i: usize = 0;
    while i < cs.len()
        invariant
            i <= cs.len(),
            m == cs@.map_values(|v: Vec<char>| v@),
            components_error(m, 0) == components_error(m, i as int),
        decreases cs.len() - i,
    {
        assert(m[i as int] == cs@[i as int]@);
        let e = check_component(cs[i].as_slice());
        if e.is_some() {
            return e;
        }
        i += 1;
    }
    None
}

fn strings_of(cs: &Vec<Vec<char>>) -> (r: Vec<String>)
    ensures
        strings_view(r@) == cs@.map_values(|v: Vec<char>| v@),
{
    let mut r: Vec<String> = Vec::new();
    let mut i: usize = 0;
    while i < cs.len()
        invariant
            i <= cs.len(),
            strings_view(r@) == cs@.take(i as int).map_values(|v: Vec<char>| v@),
        decreases cs.len() - i,
    {
        let s = string_of(cs[i].as_slice());
        proof { lemma_strings_view_push(r@, s); }
        r.push(s);
        assert(cs@.take(i + 1).map_values(|v: Vec<char>| v@) =~= cs@.take(i as int).map_values(|v: Vec<char>| v@).push(cs@[i as int]@));
        i += 1;
    }
    assert(cs@.take(i as int) =~= cs@);
    r
}

/// Checks that `input` names a file-system path this crate is willing to touch and splits it.
pub fn validate_path_value(input: &str) -> (r: Result<ValidatedPathSpecV1, PathValidationErrorV1>)
    ensures
        match r {
            Ok(p) => spec_validate_path(input@) == Ok::<_, PathValidationErrorV1>(p@),
            Err(e) => spec_validate_path(input@) == Err::<SpecPath, _>(e),
        },
{
    let s = chars_of(input);
    if s.len() == 0 {
        return Err(PathValidationErrorV1::Empty);
    }
    if utf16_len_within(s.as_slice(), MAX_RESOLVED_PATH_UTF16_UNITS).is_none() {
        return Err(PathValidationErrorV1::TooLong);
    }
    let p1 = chars_of("\\\\?\\");
    let p2 = chars_of("\\\\.\\");
    let p3 = chars_of("\\??\\");
    let p4 = chars_of("//");
    let p5 = chars_of("\\\\");
    proof {
        reveal_strlit("\\\\?\\");
        reveal_strlit("\\\\.\\");
        reveal_strlit("\\??\\");
        reveal_strlit("//");
        reveal_strlit("\\\\");
        assert(p1@ =~= seq!['\\', '\\', '?', '\\']);
        assert(p2@ =~= seq!['\\', '\\', '.', '\\']);
        assert(p3@ =~= seq!['\\', '?', '?', '\\']);
        assert(p4@ =~= seq!['/', '/']);
        assert(p5@ =~= seq!['\\', '\\']);
    }
    if has_prefix(s.as_slice(), p1.as_slice()) || has_prefix(s.as_slice(), p2.as_slice())
        || has_prefix(s.as_slice(), p3.as_slice()) {
        return Err(PathValidationErrorV1::DeviceNamespace);
    }
    if has_prefix(s.as_slice(), p4.as_slice()) {
        return Err(PathValidationErrorV1::SlashPrefixedUnc);
    }
    let n = s.len();
    let kind;
    let raw: Vec<Vec<char>>;
    if has_prefix(s.as_slice(), p5.as_slice()) {
        if n > 2 && (s[2] == '\\' || s[2] == '/') {
            return Err(PathValidationErrorV1::UncMissingServer);
        }
        raw = split_from_index(s.as_slice(), 2);
        if raw.len() == 0 {
            return Err(PathValidationErrorV1::UncMissingServer);
        }
        if raw.len() < 2 {
            return Err(PathValidationErrorV1::UncMissingShare);
        }
        kind = PathKindV1::UncAbsolute;
    } else if n >= 2 && (('a' <= s[0] && s[0] <= 'z') || ('A' <= s[0] && s[0] <= 'Z')) && s[1] == ':' {
        if n == 2 || !(s[2] == '\\' || s[2] == '/') {
            return Err(PathValidationErrorV1::DriveRelative);
        }
        raw = split_from_index(s.as_slice(), 3);
        kind = PathKindV1::DriveAbsolute;
    } else {
        if s[0] == '\\' || s[0] == '/' {
            return Err(PathValidationErrorV1::RootRelative);
        }
        raw = split_from_index(s.as_slice(), 0);
        assert(s@.skip(0) =~= s@);
        kind = PathKindV1::Relative;
    }
    let drive = match kind { PathKindV1::DriveAbsolute => true, _ => false };
    if let Some(e) = check_chars(s.as_slice(), drive) {
        return Err(e);
    }
    if let Some(e) = check_components(&raw) {
        return Err(e);
    }
    let original = string_of(s.as_slice());
    let components = strings_of(&raw);
    Ok(ValidatedPathSpecV1 { original, kind, components })
}


/// `dest` after applying the components of `comps` in order: `.` is skipped, `..` removes the last
/// component, anything else is appended; `None` when `..` finds nothing to remove.
pub open spec fn fold_spec(dest: Seq<Seq<char>>, comps: Seq<Seq<char>>) -> Option<Seq<Seq<char>>>
    decreases comps.len(),
{
    if comps.len() == 0 {
        Some(dest)
    } else if comps[0] == seq!['.'] {
        fold_spec(dest, comps.drop_first())
    } else if comps[0] == seq!['.', '.'] {
        if dest.len() == 0 {
            None
        } else {
            fold_spec(dest.drop_last(), comps.drop_first())
        }
    } else {
        fold_spec(dest.push(comps[0]), comps.drop_first())
    }
}

/// The root of an absolute path: a drive (`C:`) or a server and share.
pub enum SpecRoot {
    Drive(Seq<char>),
    Unc(Seq<char>, Seq<char>),
}

/// The root of an absolute validated path.
pub open spec fn root_of(p: SpecPath) -> SpecRoot {
    if p.kind == PathKindV1::UncAbsolute {
        SpecRoot::Unc(p.components[0], p.components[1])
    } else {
        SpecRoot::Drive(p.original.take(2))
    }
}

/// The components of a validated path that follow its root.
pub open spec fn rooted_components(p: SpecPath) -> Seq<Seq<char>> {
    if p.kind == PathKindV1::UncAbsolute {
        p.components.skip(2)
    } else {
        p.components
    }
}

/// `cs` joined with backslashes.
pub open spec fn join_backslash(cs: Seq<Seq<char>>) -> Seq<char>
    decreases cs.len(),
{
    if cs.len() == 0 {
        seq![]
    } else if cs.len() == 1 {
        cs[0]
    } else {
        join_backslash(cs.drop_last()) + seq!['\\'] + cs.last()
    }
}

/// The native text of a root followed by components.
pub open spec fn render_path(root: SpecRoot, cs: Seq<Seq<char>>) -> Seq<char> {
    match root {
        SpecRoot::Drive(d) => d + seq!['\\'] + join_backslash(cs),
        SpecRoot::Unc(server, share) => seq!['\\', '\\'] + server + seq!['\\'] + share + (
        if cs.len() == 0 { Seq::<char>::empty() } else { seq!['\\'] + join_backslash(cs) }),
    }
}

/// What resolving `p` against the current directory `cwd` gives.
pub open spec fn spec_resolve_path(p: SpecPath, cwd: Seq<char>) -> Result<Seq<char>, PathResolutionErrorV1> {
    if spec_validate_path(p.original) != Ok::<_, PathValidationErrorV1>(p) {
        Err(PathResolutionErrorV1::InvalidSpec)
    } else {
        match spec_validate_path(cwd) {
            Err(_) => Err(PathResolutionErrorV1::InvalidCurrentDirectory),
            Ok(c) => if c.kind == PathKindV1::Relative || fold_spec(seq![], rooted_components(c)) is None {
                Err(PathResolutionErrorV1::InvalidCurrentDirectory)
            } else {
                let root = if p.kind == PathKindV1::Relative { root_of(c) } else { root_of(p) };
                let base = if p.kind == PathKindV1::Relative {
                    fold_spec(seq![], rooted_components(c)).unwrap()
                } else {
                    seq![]
                };
                match fold_spec(base, rooted_components(p)) {
                    None => Err(PathResolutionErrorV1::TraversalAboveRoot),
                    Some(cs) => if utf16_len(render_path(root, cs)) > MAX_RESOLVED_PATH_UTF16_UNITS {
                        Err(PathResolutionErrorV1::TooLong)
                    } else {
                        Ok(render_path(root, cs))
                    },
                }
            },
        }
    }
}

/// Whether two validated paths are the same value.
pub fn path_spec_eq(a: &ValidatedPathSpecV1, b: &ValidatedPathSpecV1) -> (r: bool)
    ensures
        r == (a@ == b@),
{
    if a.original != b.original {
        return false;
    }
    let same_kind = match (a.kind, b.kind) {
        (PathKindV1::Relative, PathKindV1::Relative) => true,
        (PathKindV1::DriveAbsolute, PathKindV1::DriveAbsolute) => true,
        (PathKindV1::UncAbsolute, PathKindV1::UncAbsolute) => true,
        _ => false,
    };
    if !same_kind {
        return false;
    }
    if a.components.len() != b.components.len() {
        assert(strings_view(a.components@).len() != strings_view(b.components@).len());
        return false;
    }
    let mut i: usize = 0;
    while i < a.components.len()
        invariant
            a.components@.len() == b.components@.len(),
            i <= a.components@.len(),
            forall|j: int| 0 <= j < i ==> a.components@[j]@ == b.components@[j]@,
        decreases a.components.len() - i,
    {
        if a.components[i] != b.components[i] {
            assert(strings_view(a.components@)[i as int] != strings_view(b.components@)[i as int]);
            return false;
        }
        i += 1;
    }
    assert(strings_view(a.components@) =~= strings_view(b.components@));
    true
}

/// Whether `p` is exactly what validating its own text gives.
pub fn is_self_consistent(p: &ValidatedPathSpecV1) -> (r: bool)
    ensures
        r == (spec_validate_path(p.original@) == Ok::<_, PathValidationErrorV1>(p@)),
{
    match validate_path_value(p.original.as_str()) {
        Ok(q) => path_spec_eq(&q, p),
        Err(_) => false,
    }
}

/// Applies `comps[start..]` to `dest` as `fold_spec` says.
fn fold_components(dest: &mut Vec<String>, comps: &[String], start: usize) -> (r: Result<(), PathResolutionErrorV1>)
    requires
        start <= comps@.len(),
    ensures
        match fold_spec(strings_view(old(dest)@), strings_view(comps@).skip(start as int)) {
            Some(cs) => r is Ok && strings_view(final(dest)@) == cs,
            None => r == Err::<(), _>(PathResolutionErrorV1::TraversalAboveRoot),
        },
{
    let ghost all = strings_view(comps@).skip(start as int);
    let ghost target = fold_spec(strings_view(dest@), all);
    let mut i: usize = start;
    let dot = chars_of(".");
    let dotdot = chars_of("..");
    proof {
        reveal_strlit(".");
        reveal_strlit("..");
        assert(dot@ =~= seq!['.']);
        assert(dotdot@ =~= seq!['.', '.']);
    }
    assert(strings_view(comps@).skip(i as int) =~= all);
    while i < comps.len()
        invariant
            start <= i <= comps@.len(),
            dot@ == seq!['.'],
            dotdot@ == seq!['.', '.'],
            target == fold_spec(strings_view(dest@), strings_view(comps@).skip(i as int)),
            target == fold_spec(strings_view(old(dest)@), strings_view(comps@).skip(start as int)),
        decreases comps.len() - i,
    {
        let ghost rest = strings_view(comps@).skip(i as int);
        assert(rest[0] == comps@[i as int]@);
        assert(rest.drop_first() =~= strings_view(comps@).skip(i + 1));
        let c = chars_of(comps[i].as_str());
        if crate::text::chars_eq(c.as_slice(), dot.as_slice()) {
        } else if crate::text::chars_eq(c.as_slice(), dotdot.as_slice()) {
            if dest.len() == 0 {
                assert(strings_view(dest@).len() == 0);
                assert(rest[0] != seq!['.']);
                assert(rest.len() > 0);
                assert(c@ == seq!['.', '.']);
                assert(rest[0] == seq!['.', '.']);
                assert(fold_spec(strings_view(dest@), rest) is None);
                return Err(PathResolutionErrorV1::TraversalAboveRoot);
            }
            let ghost before = dest@;
            dest.pop();
            assert(strings_view(dest@) =~= strings_view(before).drop_last());
        } else {
            let v = comps[i].clone();
            proof { lemma_strings_view_push(dest@, v); }
            dest.push(v);
        }
        i += 1;
    }
    assert(strings_view(comps@).skip(i as int) =~= Seq::<Seq<char>>::empty());
    Ok(())
}

/// `cs` joined with backslashes.
fn join_components(cs: &[String]) -> (r: Vec<char>)
    ensures
        r@ == join_backslash(strings_view(cs@)),
{
    let mut r: Vec<char> = Vec::new();
    let mut i: usize = 0;
    assert(r@ =~= join_backslash(strings_view(cs@.take(0))));
    while i < cs.len()
        invariant
            i <= cs@.len(),
            r@ == join_backslash(strings_view(cs@.take(i as int))),
        decreases cs.len() - i,
    {
        let part = chars_of(cs[i].as_str());
        let ghost before = r@;
        if i > 0 {
            r.push('\\');
        }
        let mut k: usize = 0;
        let ghost base = r@;
        while k < part.len()
            invariant
                k <= part@.len(),
                r@ == base + part@.take(k as int),
            decreases part.len() - k,
        {
            r.push(part[k]);
            k += 1;
            assert(r@ =~= base + part@.take(k as int));
        }
        assert(part@.take(k as int) =~= part@);
        proof {
            let prev = strings_view(cs@.take(i as int));
            let next = strings_view(cs@.take(i + 1));
            assert(next =~= prev.push(cs@[i as int]@));
            assert(next.drop_last() =~= prev);
            if i == 0 {
                assert(r@ =~= next[0]);
            } else {
                assert(r@ =~= join_backslash(prev) + seq!['\\'] + next.last());
            }
        }
        i += 1;
    }
    assert(cs@.take(i as int) =~= cs@);
    r
}

/// Resolves a validated path against the inherited current directory into native Windows text.
pub fn resolve_path_spec(spec: &ValidatedPathSpecV1, inherited_cwd: &str) -> (r: Result<String, PathResolutionErrorV1>)
    ensures
        match r {
            Ok(native) => spec_resolve_path(spec@, inherited_cwd@) == Ok::<_, PathResolutionErrorV1>(native@),
            Err(e) => spec_resolve_path(spec@, inherited_cwd@) == Err::<Seq<char>, _>(e),
        },
{
    if !is_self_consistent(spec) {
        return Err(PathResolutionErrorV1::InvalidSpec);
    }
    let cwd = match validate_path_value(inherited_cwd) {
        Ok(cwd) => cwd,
        Err(_) => return Err(PathResolutionErrorV1::InvalidCurrentDirectory),
    };
    let cwd_is_unc = match cwd.kind {
        PathKindV1::Relative => return Err(PathResolutionErrorV1::InvalidCurrentDirectory),
        PathKindV1::DriveAbsolute => false,
        PathKindV1::UncAbsolute => true,
    };
    proof {
        if cwd_is_unc {
            assert(spec_validate_path(cwd.original@) == Ok::<_, PathValidationErrorV1>(cwd@));
        }
    }
    let mut cwd_components: Vec<String> = Vec::new();
    assert(strings_view(cwd_components@) =~= Seq::<Seq<char>>::empty());
    let cwd_start: usize = if cwd_is_unc { 2 } else { 0 };
    proof { lemma_unc_has_share(cwd@); }
    assert(strings_view(cwd.components@).skip(0) =~= strings_view(cwd.components@));
    if fold_components(&mut cwd_components, cwd.components.as_slice(), cwd_start).is_err() {
        return Err(PathResolutionErrorV1::InvalidCurrentDirectory);
    }
    let spec_is_unc = match spec.kind {
        PathKindV1::UncAbsolute => true,
        _ => false,
    };
    let spec_relative = match spec.kind {
        PathKindV1::Relative => true,
        _ => false,
    };
    proof { lemma_unc_has_share(spec@); }
    let root_source = if spec_relative { &cwd } else { spec };
    let root_unc = if spec_relative { cwd_is_unc } else { spec_is_unc };
    let mut resolved = if spec_relative { cwd_components } else { Vec::new() };
    assert(!spec_relative ==> strings_view(resolved@) =~= Seq::<Seq<char>>::empty());
    let spec_start: usize = if spec_is_unc { 2 } else { 0 };
    assert(strings_view(spec.components@).skip(0) =~= strings_view(spec.components@));
    fold_components(&mut resolved, spec.components.as_slice(), spec_start)?;
    let joined = join_components(resolved.as_slice());
    let mut native: Vec<char> = Vec::new();
    if root_unc {
        native.push('\\');
        native.push('\\');
        append_chars(&mut native, root_source.components[0].as_str());
        native.push('\\');
        append_chars(&mut native, root_source.components[1].as_str());
        if resolved.len() > 0 {
            native.push('\\');
        }
    } else {
        let original = chars_of(root_source.original.as_str());
        proof { lemma_drive_prefix(root_source@); }
        native.push(original[0]);
        native.push(original[1]);
        native.push('\\');
    }
    let ghost before_join = native@;
    append_vec(&mut native, &joined);
    proof {
        if root_unc {
            assert(strings_view(root_source.components@)[0] == root_source.components@[0]@);
            assert(strings_view(root_source.components@)[1] == root_source.components@[1]@);
        }
        if !root_unc {
            assert(root_source@.original.take(2) =~= seq![root_source@.original[0], root_source@.original[1]]);
        }
        if resolved.len() == 0 {
            assert(joined@ =~= Seq::<char>::empty());
        }
        assert(native@ =~= render_path(root_of(root_source@), strings_view(resolved@)));
    }
    if utf16_len_within(native.as_slice(), MAX_RESOLVED_PATH_UTF16_UNITS).is_none() {
        return Err(PathResolutionErrorV1::TooLong);
    }
    Ok(string_of(native.as_slice()))
}

proof fn lemma_unc_has_share(p: SpecPath)
    requires
        spec_validate_path(p.original) == Ok::<_, PathValidationErrorV1>(p),
    ensures
        p.kind == PathKindV1::UncAbsolute ==> p.components.len() >= 2,
        p.kind == PathKindV1::DriveAbsolute ==> p.original.len() >= 3,
{
}

proof fn lemma_drive_prefix(p: SpecPath)
    requires
        spec_validate_path(p.original) == Ok::<_, PathValidationErrorV1>(p),
        p.kind != PathKindV1::UncAbsolute,
        p.kind != PathKindV1::Relative,
    ensures
        p.original.len() >= 3,
{
}

fn append_chars(v: &mut Vec<char>, s: &str)
    ensures
        final(v)@ == old(v)@ + s@,
{
    let c = chars_of(s);
    append_vec(v, &c);
}

fn append_vec(v: &mut Vec<char>, s: &Vec<char>)
    ensures
        final(v)@ == old(v)@ + s@,
{
    let ghost base = v@;
    let mut k: usize = 0;
    while k < s.len()
        invariant
            k <= s@.len(),
            v@ == base + s@.take(k as int),
        decreases s.len() - k,
    {
        v.push(s[k]);
        k += 1;
        assert(v@ =~= base + s@.take(k as int));
    }
    assert(s@.take(k as int) =~= s@);
}


/// What validating an executable name gives: the name itself when it is one plain file name.
pub open spec fn spec_executable_name(name: Seq<char>) -> Option<Seq<char>> {
    match spec_validate_path(name) {
        Ok(p) => if p.kind == PathKindV1::Relative && p.components == seq![name] && name != seq!['.']
            && name != seq!['.', '.'] {
            Some(name)
        } else {
            None
        },
        Err(_) => None,
    }
}

/// Checks that `name` is a single plain file name, with no directory, drive or stream part.
pub fn validate_executable_name(name: &str) -> (r: Result<String, PathValidationErrorV1>)
    ensures
        match spec_executable_name(name@) {
            Some(n) => r is Ok && r.unwrap()@ == n,
            None => r is Err,
        },
{
    let p = validate_path_value(name)?;
    let relative = match p.kind {
        PathKindV1::Relative => true,
        _ => false,
    };
    if !relative || p.components.len() != 1 {
        assert(strings_view(p.components@).len() == p.components@.len());
        return Err(PathValidationErrorV1::InvalidCharacter);
    }
    let chars = chars_of(name);
    let comp = chars_of(p.components[0].as_str());
    let dot = chars_of(".");
    let dotdot = chars_of("..");
    proof {
        reveal_strlit(".");
        reveal_strlit("..");
        assert(strings_view(p.components@) =~= seq![p.components@[0]@]);
        assert(comp@ == p.components@[0]@);
        assert(dot@ =~= seq!['.']);
        assert(dotdot@ =~= seq!['.', '.']);
        if seq![comp@] == seq![name@] {
            assert(seq![comp@][0] == seq![name@][0]);
        }
    }
    if !crate::text::chars_eq(comp.as_slice(), chars.as_slice()) || crate::text::chars_eq(chars.as_slice(), dot.as_slice())
        || crate::text::chars_eq(chars.as_slice(), dotdot.as_slice()) {
        return Err(PathValidationErrorV1::InvalidCharacter);
    }
    Ok(string_of(chars.as_slice()))
}

/// How components resolve against the components already reached: a normal component is
/// appended, `.` changes nothing, `..` takes back the component before it (so `x\..` is no
/// step at all), and `..` with nothing left to take back fails.
pub proof fn law_fold_steps(d: Seq<Seq<char>>, x: Seq<char>, rest: Seq<Seq<char>>)
    requires
        x != seq!['.'],
        x != seq!['.', '.'],
    ensures
        fold_spec(d, seq![x] + rest) == fold_spec(d.push(x), rest),
        fold_spec(d, seq![seq!['.']] + rest) == fold_spec(d, rest),
        fold_spec(d.push(x), seq![seq!['.', '.']] + rest) == fold_spec(d, rest),
        fold_spec(d, seq![x, seq!['.', '.']] + rest) == fold_spec(d, rest),
        fold_spec(seq![], seq![seq!['.', '.']] + rest) is None,
{
    let dd = seq!['.', '.'];
    assert((seq![x] + rest)[0] == x);
    assert((seq![x] + rest).drop_first() =~= rest);
    assert((seq![seq!['.']] + rest)[0] == seq!['.']);
    assert((seq![seq!['.']] + rest).drop_first() =~= rest);
    assert((seq![dd] + rest)[0] == dd);
    assert((seq![dd] + rest).drop_first() =~= rest);
    assert(d.push(x).drop_last() =~= d);
    assert((seq![x, dd] + rest)[0] == x);
    assert((seq![x, dd] + rest).drop_first() =~= seq![dd] + rest);
}

/// A component fit to stand in a validated path: not empty and free of separators.
pub open spec fn clean_component(c: Seq<char>) -> bool {
    c.len() > 0 && forall|j: int| 0 <= j < c.len() ==> !is_separator(#[trigger] c[j])
}

proof fn lemma_split_clean(s: Seq<char>, i: int, current: Seq<char>, pieces: Seq<Seq<char>>)
    requires
        0 <= i <= s.len(),
        forall|j: int| 0 <= j < current.len() ==> !is_separator(#[trigger] current[j]),
        forall|k: int| 0 <= k < pieces.len() ==> clean_component(#[trigger] pieces[k]),
    ensures
        forall|k: int| 0 <= k < split_from(s, i, current, pieces).len()
            ==> clean_component(#[trigger] split_from(s, i, current, pieces)[k]),
    decreases s.len() - i,
{
    let next = if current.len() > 0 { pieces.push(current) } else { pieces };
    assert forall|k: int| 0 <= k < next.len() implies clean_component(#[trigger] next[k]) by {
        if current.len() > 0 && k == pieces.len() {
            assert(next[k] == current);
        } else {
            assert(next[k] == pieces[k]);
        }
    }
    if i >= s.len() {
        assert(split_from(s, i, current, pieces) == next);
    } else {
        if is_separator(s[i]) {
            lemma_split_clean(s, i + 1, seq![], next);
            assert(split_from(s, i, current, pieces) == split_from(s, i + 1, seq![], next));
        } else {
            let c2 = current.push(s[i]);
            assert forall|j: int| 0 <= j < c2.len() implies !is_separator(#[trigger] c2[j]) by {
                if j < current.len() {
                    assert(c2[j] == current[j]);
                }
            }
            lemma_split_clean(s, i + 1, c2, pieces);
            assert(split_from(s, i, current, pieces) == split_from(s, i + 1, c2, pieces));
        }
    }
}

proof fn lemma_chars_clean(s: Seq<char>, i: int, drive: bool)
    requires
        0 <= i <= s.len(),
        chars_error(s, i, drive) is None,
    ensures
        forall|k: int| i <= k < s.len() ==> char_error(#[trigger] s[k], k, drive) is None,
    decreases s.len() - i,
{
    if i < s.len() {
        lemma_chars_clean(s, i + 1, drive);
    }
}

proof fn lemma_components_clean(cs: Seq<Seq<char>>, i: int)
    requires
        0 <= i <= cs.len(),
        components_error(cs, i) is None,
    ensures
        forall|k: int| i <= k < cs.len() ==> component_error(#[trigger] cs[k]) is None,
    decreases cs.len() - i,
{
    if i < cs.len() {
        lemma_components_clean(cs, i + 1);
    }
}

/// What validation accepts: a path keeps its text; its components are non-empty and hold no
/// separator; none ends in a dot or a space (but `.` and `..`) or names a reserved device; no
/// character is a wildcard, a control character or one of `< > " |`, and a colon stands only
/// after the drive letter of a drive path; a UNC path has a server and a share.
pub proof fn law_validated_path(s: Seq<char>)
    requires
        spec_validate_path(s) is Ok,
    ensures
        ({
            let p = spec_validate_path(s).unwrap();
            &&& p.original == s
            &&& forall|k: int| 0 <= k < p.components.len() ==> clean_component(#[trigger] p.components[k])
            &&& forall|k: int| 0 <= k < p.components.len() ==> component_error(#[trigger] p.components[k]) is None
            &&& forall|k: int| 0 <= k < s.len() ==> {
                &&& #[trigger] s[k] != '*' && s[k] != '?'
                &&& s[k] >= ' ' && s[k] != '<' && s[k] != '>' && s[k] != '"' && s[k] != '|'
                &&& (s[k] == ':' ==> k == 1 && p.kind == PathKindV1::DriveAbsolute)
            }
            &&& (p.kind == PathKindV1::UncAbsolute ==> p.components.len() >= 2)
        }),
{
    let (kind, comps) = path_shape(s).unwrap();
    let drive = kind == PathKindV1::DriveAbsolute;
    lemma_chars_clean(s, 0, drive);
    lemma_components_clean(comps, 0);
    let empty = Seq::<Seq<char>>::empty();
    let src = if starts_with(s, seq!['\\', '\\']) {
        s.skip(2)
    } else if kind == PathKindV1::DriveAbsolute {
        s.skip(3)
    } else {
        s
    };
    lemma_split_clean(src, 0, seq![], empty);
    assert(comps == split_components(src));
    assert forall|k: int| 0 <= k < s.len() implies {
        &&& #[trigger] s[k] != '*' && s[k] != '?'
        &&& s[k] >= ' ' && s[k] != '<' && s[k] != '>' && s[k] != '"' && s[k] != '|'
        &&& (s[k] == ':' ==> k == 1 && kind == PathKindV1::DriveAbsolute)
    } by {
        assert(char_error(s[k], k, drive) is None);
    }
}

} // verus!
