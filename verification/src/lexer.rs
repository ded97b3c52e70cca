//! Tokenizer for one Familiar command line.

use vstd::prelude::*;
use crate::text::{all_digits, chars_all_digits, chars_of, string_of, words_from, ascii_words};

verus! {

/// A token of a Familiar command line.
#[derive(Clone, Debug, Eq, PartialEq)]
pub enum LexTokenV1 {
    Word(String),
    Pipe,
    RedirectOverwrite,
    RedirectAppend,
}

/// The mathematical value of a token.
pub enum SpecLexToken {
    Word(Seq<char>),
    Pipe,
    RedirectOverwrite,
    RedirectAppend,
}

impl View for LexTokenV1 {
    type V = SpecLexToken;

    open spec fn view(&self) -> SpecLexToken {
        match self {
            LexTokenV1::Word(w) => SpecLexToken::Word(w@),
            LexTokenV1::Pipe => SpecLexToken::Pipe,
            LexTokenV1::RedirectOverwrite => SpecLexToken::RedirectOverwrite,
            LexTokenV1::RedirectAppend => SpecLexToken::RedirectAppend,
        }
    }
}

/// The values of a sequence of tokens.
pub open spec fn tokens_view(v: Seq<LexTokenV1>) -> Seq<SpecLexToken> {
    v.map_values(|t: LexTokenV1| t@)
}

#[derive(Clone, Copy, Debug, Eq, PartialEq)]
pub enum LexErrorV1 {
    UnclosedSingleQuote,
    UnclosedDoubleQuote,
    UnsupportedOperator,
    UnsupportedStreamRedirection,
    ControlCharacter,
}

/// Quoting mode of the tokenizer.
#[derive(Clone, Copy, Debug, Eq, PartialEq)]
pub enum LexMode {
    Normal,
    SingleQuoted,
    DoubleQuoted,
}

/// The tokenizer's state between two characters.
pub struct LexState {
    pub tokens: Seq<SpecLexToken>,
    pub word: Seq<char>,
    pub started: bool,
    pub quoted: bool,
    pub mode: LexMode,
}

pub open spec fn lex_initial() -> LexState {
    LexState { tokens: seq![], word: seq![], started: false, quoted: false, mode: LexMode::Normal }
}

/// Ends the current word, if one was started, and forgets its quoting.
pub open spec fn lex_flush(st: LexState) -> LexState {
    LexState {
        tokens: if st.started { st.tokens.push(SpecLexToken::Word(st.word)) } else { st.tokens },
        word: if st.started { seq![] } else { st.word },
        started: false,
        quoted: false,
        mode: st.mode,
    }
}

pub open spec fn lex_with_mode(st: LexState, mode: LexMode) -> LexState {
    LexState { mode, ..st }
}

/// Adds a character to the current word.
pub open spec fn lex_extend(st: LexState, c: char) -> LexState {
    LexState { word: st.word.push(c), ..st }
}

pub open spec fn lex_push(st: LexState, t: SpecLexToken) -> LexState {
    LexState { tokens: st.tokens.push(t), ..st }
}

/// The character after position `i`, if any.
pub open spec fn peek(line: Seq<char>, i: int) -> Option<char> {
    if i + 1 < line.len() { Some(line[i + 1]) } else { None }
}

/// What the tokenizer makes of `line[i..]` from state `st`.
pub open spec fn lex_from(line: Seq<char>, i: int, st: LexState) -> Result<Seq<SpecLexToken>, LexErrorV1>
    decreases line.len() - i,
{
    if i < 0 || i >= line.len() {
        match st.mode {
            LexMode::SingleQuoted => Err(LexErrorV1::UnclosedSingleQuote),
            LexMode::DoubleQuoted => Err(LexErrorV1::UnclosedDoubleQuote),
            LexMode::Normal => Ok(lex_flush(st).tokens),
        }
    } else {
        let c = line[i];
        if c < ' ' && c != '\t' {
            Err(LexErrorV1::ControlCharacter)
        } else {
            match st.mode {
                LexMode::SingleQuoted => if c == '\'' {
                    lex_from(line, i + 1, lex_with_mode(st, LexMode::Normal))
                } else {
                    lex_from(line, i + 1, lex_extend(st, c))
                },
                LexMode::DoubleQuoted => if c == '"' {
                    lex_from(line, i + 1, lex_with_mode(st, LexMode::Normal))
                } else {
                    lex_from(line, i + 1, lex_extend(st, c))
                },
                LexMode::Normal => if c == ' ' || c == '\t' {
                    lex_from(line, i + 1, lex_flush(st))
                } else if c == '\'' {
                    lex_from(line, i + 1, LexState { mode: LexMode::SingleQuoted, started: true, quoted: true, ..st })
                } else if c == '"' {
                    lex_from(line, i + 1, LexState { mode: LexMode::DoubleQuoted, started: true, quoted: true, ..st })
                } else if c == '|' {
                    if peek(line, i) == Some('|') {
                        Err(LexErrorV1::UnsupportedOperator)
                    } else {
                        lex_from(line, i + 1, lex_push(lex_flush(st), SpecLexToken::Pipe))
                    }
                } else if c == '>' {
                    if st.started && !st.quoted && all_digits(st.word) {
                        Err(LexErrorV1::UnsupportedStreamRedirection)
                    } else if peek(line, i) == Some('>') {
                        lex_from(line, i + 2, lex_push(lex_flush(st), SpecLexToken::RedirectAppend))
                    } else {
                        lex_from(line, i + 1, lex_push(lex_flush(st), SpecLexToken::RedirectOverwrite))
                    }
                } else if c == '&' {
                    if peek(line, i) == Some('>') {
                        Err(LexErrorV1::UnsupportedStreamRedirection)
                    } else {
                        Err(LexErrorV1::UnsupportedOperator)
                    }
                } else if c == '<' || c == ';' || c == '`' {
                    Err(LexErrorV1::UnsupportedOperator)
                } else if c == '$' && peek(line, i) == Some('(') {
                    Err(LexErrorV1::UnsupportedOperator)
                } else {
                    lex_from(line, i + 1, LexState { started: true, ..lex_extend(st, c) })
                },
            }
        }
    }
}

/// The tokens of a whole line.
pub open spec fn spec_lex(line: Seq<char>) -> Result<Seq<SpecLexToken>, LexErrorV1> {
    lex_from(line, 0, lex_initial())
}

/// Splits a Familiar command line into words, pipes and redirections.
pub fn lex_p0_line(line: &str) -> (r: Result<Vec<LexTokenV1>, LexErrorV1>)
    ensures
        match r {
            Ok(tokens) => spec_lex(line@) == Ok::<_, LexErrorV1>(tokens_view(tokens@)),
            Err(e) => spec_lex(line@) == Err::<Seq<SpecLexToken>, _>(e),
        },
{
    let chars = chars_of(line);
    let mut tokens: Vec<LexTokenV1> = Vec::new();
    let mut word: Vec<char> = Vec::new();
    let mut word_started = false;
    let mut word_contains_quotes = false;
    let mut state = LexMode::Normal;
    let mut i: usize = 0;
    let ghost whole = spec_lex(line@);
    assert(tokens_view(tokens@) =~= Seq::<SpecLexToken>::empty());
    assert(word@ =~= Seq::<char>::empty());
    while i < chars.len()
        invariant
            chars@ == line@,
            i <= chars.len(),
            whole == spec_lex(line@),
            whole == lex_from(line@, i as int, LexState {
                tokens: tokens_view(tokens@),
                word: word@,
                started: word_started,
                quoted: word_contains_quotes,
                mode: state,
            }),
        decreases chars.len() - i,
    {
        let ghost st = LexState {
            tokens: tokens_view(tokens@),
            word: word@,
            started: word_started,
            quoted: word_contains_quotes,
            mode: state,
        };
        let character = chars[i];
        let next: Option<char> = if i + 1 < chars.len() { Some(chars[i + 1]) } else { None };
        assert(next == peek(line@, i as int));
        if character < ' ' && character != '\t' {
            return Err(LexErrorV1::ControlCharacter);
        }
        match state {
            LexMode::SingleQuoted => {
                if character == '\'' {
                    state = LexMode::Normal;
                } else {
                    word.push(character);
                }
                i += 1;
            }
            LexMode::DoubleQuoted => {
                if character == '"' {
                    state = LexMode::Normal;
                } else {
                    word.push(character);
                }
                i += 1;
            }
            LexMode::Normal => {
                if character == ' ' || character == '\t' {
                    flush_word(&mut tokens, &mut word, &mut word_started);
                    word_contains_quotes = false;
                    i += 1;
                } else if character == '\'' {
                    state = LexMode::SingleQuoted;
                    word_started = true;
                    word_contains_quotes = true;
                    i += 1;
                } else if character == '"' {
                    state = LexMode::DoubleQuoted;
                    word_started = true;
                    word_contains_quotes = true;
                    i += 1;
                } else if character == '|' {
                    if next == Some('|') {
                        return Err(LexErrorV1::UnsupportedOperator);
                    }
                    flush_word(&mut tokens, &mut word, &mut word_started);
                    word_contains_quotes = false;
                    let ghost flushed = tokens@;
                    tokens.push(LexTokenV1::Pipe);
                    proof { lemma_tokens_view_push(flushed, LexTokenV1::Pipe); }
                    i += 1;
                } else if character == '>' {
                    if word_started && !word_contains_quotes && chars_all_digits(word.as_slice()) {
                        return Err(LexErrorV1::UnsupportedStreamRedirection);
                    }
                    flush_word(&mut tokens, &mut word, &mut word_started);
                    word_contains_quotes = false;
                    let ghost flushed = tokens@;
                    if next == Some('>') {
                        tokens.push(LexTokenV1::RedirectAppend);
                        proof { lemma_tokens_view_push(flushed, LexTokenV1::RedirectAppend); }
                        i += 2;
                    } else {
                        tokens.push(LexTokenV1::RedirectOverwrite);
                        proof { lemma_tokens_view_push(flushed, LexTokenV1::RedirectOverwrite); }
                        i += 1;
                    }
                } else if character == '&' {
                    if next == Some('>') {
                        return Err(LexErrorV1::UnsupportedStreamRedirection);
                    }
                    return Err(LexErrorV1::UnsupportedOperator);
                } else if character == '<' || character == ';' || character == '`' {
                    return Err(LexErrorV1::UnsupportedOperator);
                } else if character == '$' && next == Some('(') {
                    return Err(LexErrorV1::UnsupportedOperator);
                } else {
                    word.push(character);
                    word_started = true;
                    i += 1;
                }
            }
        }
    }
    match state {
        LexMode::SingleQuoted => return Err(LexErrorV1::UnclosedSingleQuote),
        LexMode::DoubleQuoted => return Err(LexErrorV1::UnclosedDoubleQuote),
        LexMode::Normal => {},
    }
    flush_word(&mut tokens, &mut word, &mut word_started);
    Ok(tokens)
}

proof fn lemma_tokens_view_push(v: Seq<LexTokenV1>, t: LexTokenV1)
    ensures
        tokens_view(v.push(t)) == tokens_view(v).push(t@),
{
    assert(tokens_view(v.push(t)) =~= tokens_view(v).push(t@));
}

/// Ends the current word: a started word becomes a token.
fn flush_word(tokens: &mut Vec<LexTokenV1>, word: &mut Vec<char>, word_started: &mut bool)
    ensures
        tokens_view(final(tokens)@) == (if *old(word_started) {
            tokens_view(old(tokens)@).push(SpecLexToken::Word(old(word)@))
        } else {
            tokens_view(old(tokens)@)
        }),
        final(word)@ == (if *old(word_started) { Seq::<char>::empty() } else { old(word)@ }),
        *final(word_started) == false,
{
    if *word_started {
        let w = string_of(word.as_slice());
        let ghost before = tokens@;
        tokens.push(LexTokenV1::Word(w));
        proof { lemma_tokens_view_push(before, LexTokenV1::Word(w)); }
        *word = Vec::new();
        *word_started = false;
    }
}

/// A character that the tokenizer takes as part of a plain word or as a separator: no
/// control character but tab, no quote, and none of `| > & < ; ` $`.
pub open spec fn plain_char(c: char) -> bool {
    c == '\t' || (c >= ' ' && c != '\'' && c != '"' && c != '|' && c != '>' && c != '&' && c != '<' && c != ';' && c != '`' && c != '$')
}

/// Words as tokens.
pub open spec fn word_tokens(words: Seq<Seq<char>>) -> Seq<SpecLexToken> {
    words.map_values(|w: Seq<char>| SpecLexToken::Word(w))
}

proof fn lemma_plain_from(line: Seq<char>, i: int, st: LexState, words: Seq<Seq<char>>)
    requires
        0 <= i <= line.len(),
        forall|k: int| i <= k < line.len() ==> plain_char(#[trigger] line[k]),
        st.mode == LexMode::Normal,
        !st.quoted,
        st.started == (st.word.len() > 0),
        st.tokens == word_tokens(words),
    ensures
        lex_from(line, i, st) == Ok::<_, LexErrorV1>(word_tokens(words_from(line, i, st.word, words))),
    decreases line.len() - i,
{
    if i >= line.len() {
        if st.started {
            assert(word_tokens(words.push(st.word)) =~= word_tokens(words).push(SpecLexToken::Word(st.word)));
        }
    } else {
        let c = line[i];
        assert(plain_char(c));
        if c == ' ' || c == '\t' {
            let next = if st.word.len() > 0 { words.push(st.word) } else { words };
            if st.started {
                assert(word_tokens(words.push(st.word)) =~= word_tokens(words).push(SpecLexToken::Word(st.word)));
            }
            lemma_plain_from(line, i + 1, lex_flush(st), next);
            assert(lex_from(line, i, st) == lex_from(line, i + 1, lex_flush(st)));
            assert(words_from(line, i, st.word, words) == words_from(line, i + 1, seq![], next));
            assert(lex_flush(st).word =~= seq![]);
        } else {
            let st2 = LexState { started: true, ..lex_extend(st, c) };
            lemma_plain_from(line, i + 1, st2, words);
            assert(lex_from(line, i, st) == lex_from(line, i + 1, st2));
            assert(words_from(line, i, st.word, words) == words_from(line, i + 1, st.word.push(c), words));
        }
    }
}

/// A line of plain words lexes to those words: the tokens of a line with no quote, no
/// operator and no control character but tab are its pieces between spaces and tabs, in order.
pub proof fn law_plain_words_lex(line: Seq<char>)
    requires
        forall|k: int| 0 <= k < line.len() ==> plain_char(#[trigger] line[k]),
    ensures
        spec_lex(line) == Ok::<_, LexErrorV1>(word_tokens(ascii_words(line))),
{
    assert(word_tokens(Seq::<Seq<char>>::empty()) =~= Seq::<SpecLexToken>::empty());
    lemma_plain_from(line, 0, lex_initial(), Seq::empty());
}

/// The state after a run of plain characters that ends at a blank or at the end of the line:
/// the run's words are tokens and no word is open.
pub open spec fn after_plain_run(pre: Seq<SpecLexToken>, words: Seq<Seq<char>>) -> LexState {
    LexState { tokens: pre + word_tokens(words), word: seq![], started: false, quoted: false, mode: LexMode::Normal }
}

proof fn lemma_plain_run(line: Seq<char>, seg: Seq<char>, off: int, j: int, st: LexState, pre: Seq<SpecLexToken>, words: Seq<Seq<char>>)
    requires
        0 <= off,
        0 <= j <= seg.len(),
        off + seg.len() <= line.len(),
        forall|k: int| 0 <= k < seg.len() ==> line[off + k] == #[trigger] seg[k] && plain_char(seg[k]),
        off + seg.len() == line.len() || line[off + seg.len()] == ' ',
        st.mode == LexMode::Normal,
        !st.quoted,
        st.started == (st.word.len() > 0),
        st.tokens == pre + word_tokens(words),
    ensures
        lex_from(line, off + j, st) == lex_from(line, off + seg.len(), after_plain_run(pre, words_from(seg, j, st.word, words))),
    decreases seg.len() - j,
{
    let end = off + seg.len();
    if j == seg.len() {
        let ws = words_from(seg, j, st.word, words);
        let target = after_plain_run(pre, ws);
        if st.started {
            assert(word_tokens(words.push(st.word)) =~= word_tokens(words).push(SpecLexToken::Word(st.word)));
            assert(pre + word_tokens(words.push(st.word)) =~= (pre + word_tokens(words)).push(SpecLexToken::Word(st.word)));
        } else {
            assert(st.word =~= seq![]);
        }
        assert(lex_flush(st) == target);
        assert(lex_flush(target) == target);
    } else {
        let c = seg[j];
        assert(line[off + j] == c && plain_char(c));
        if c == ' ' || c == '\t' {
            let next = if st.word.len() > 0 { words.push(st.word) } else { words };
            if st.started {
                assert(word_tokens(words.push(st.word)) =~= word_tokens(words).push(SpecLexToken::Word(st.word)));
                assert(pre + word_tokens(words.push(st.word)) =~= (pre + word_tokens(words)).push(SpecLexToken::Word(st.word)));
            }
            lemma_plain_run(line, seg, off, j + 1, lex_flush(st), pre, next);
            assert(lex_from(line, off + j, st) == lex_from(line, off + j + 1, lex_flush(st)));
            assert(lex_flush(st).word =~= seq![]);
            assert(words_from(seg, j, st.word, words) == words_from(seg, j + 1, seq![], next));
        } else {
            let st2 = LexState { started: true, ..lex_extend(st, c) };
            lemma_plain_run(line, seg, off, j + 1, st2, pre, words);
            assert(lex_from(line, off + j, st) == lex_from(line, off + j + 1, st2));
            assert(words_from(seg, j, st.word, words) == words_from(seg, j + 1, st.word.push(c), words));
        }
    }
}

/// An operator between two runs of plain words, with blanks around it: `x >> y` lexes to the
/// words of `x`, an append redirection, and the words of `y`; `x > y` to the words of `x`, an
/// overwrite redirection, and the words of `y`; `x | y` to the words of `x`, a pipe, and the
/// words of `y`.
pub proof fn law_operators_between_words(x: Seq<char>, y: Seq<char>)
    requires
        forall|k: int| 0 <= k < x.len() ==> plain_char(#[trigger] x[k]),
        forall|k: int| 0 <= k < y.len() ==> plain_char(#[trigger] y[k]),
    ensures
        spec_lex(x + seq![' ', '>', '>', ' '] + y) == Ok::<_, LexErrorV1>(
            word_tokens(ascii_words(x)) + seq![SpecLexToken::RedirectAppend] + word_tokens(ascii_words(y))),
        spec_lex(x + seq![' ', '>', ' '] + y) == Ok::<_, LexErrorV1>(
            word_tokens(ascii_words(x)) + seq![SpecLexToken::RedirectOverwrite] + word_tokens(ascii_words(y))),
        spec_lex(x + seq![' ', '|', ' '] + y) == Ok::<_, LexErrorV1>(
            word_tokens(ascii_words(x)) + seq![SpecLexToken::Pipe] + word_tokens(ascii_words(y))),
{
    lemma_operator_between(x, y, 0);
    lemma_operator_between(x, y, 1);
    lemma_operator_between(x, y, 2);
}

/// The text of an operator with its blanks, and its token.
spec fn blank_operator(kind: int) -> (Seq<char>, SpecLexToken) {
    if kind == 0 {
        (seq![' ', '>', '>', ' '], SpecLexToken::RedirectAppend)
    } else if kind == 1 {
        (seq![' ', '>', ' '], SpecLexToken::RedirectOverwrite)
    } else {
        (seq![' ', '|', ' '], SpecLexToken::Pipe)
    }
}

proof fn lemma_operator_between(x: Seq<char>, y: Seq<char>, kind: int)
    requires
        forall|k: int| 0 <= k < x.len() ==> plain_char(#[trigger] x[k]),
        forall|k: int| 0 <= k < y.len() ==> plain_char(#[trigger] y[k]),
    ensures
        spec_lex(x + blank_operator(kind).0 + y)
            == Ok::<_, LexErrorV1>(word_tokens(ascii_words(x)) + seq![blank_operator(kind).1] + word_tokens(ascii_words(y))),
{
    let op = blank_operator(kind).0;
    let t = blank_operator(kind).1;
    let line = x + op + y;
    let n = x.len() as int;
    let m = op.len() as int;
    let empty_words = Seq::<Seq<char>>::empty();
    assert forall|k: int| 0 <= k < x.len() implies line[0 + k] == #[trigger] x[k] && plain_char(x[k]) by {
        assert(line[k] == x[k]);
    }
    assert(line[n] == ' ');
    assert(word_tokens(empty_words) =~= Seq::<SpecLexToken>::empty());
    assert(Seq::<SpecLexToken>::empty() + word_tokens(empty_words) =~= Seq::<SpecLexToken>::empty());
    lemma_plain_run(line, x, 0, 0, lex_initial(), Seq::empty(), empty_words);
    let s1 = after_plain_run(Seq::empty(), ascii_words(x));
    assert(lex_from(line, 0, lex_initial()) == lex_from(line, n, s1));
    assert(lex_flush(s1) == s1);
    assert(line[n + 1] == (if kind == 0 || kind == 1 { '>' } else { '|' }));
    let pre = word_tokens(ascii_words(x)).push(t);
    let s2 = lex_push(lex_flush(s1), t);
    if kind == 0 {
        assert(line[n + 2] == '>');
        assert(peek(line, n + 1) == Some('>'));
    } else {
        assert(line[n + 2] == ' ');
        assert(peek(line, n + 1) != Some('>'));
        assert(peek(line, n + 1) != Some('|'));
    }
    assert(lex_from(line, n, s1) == lex_from(line, n + 1, s1));
    assert(lex_from(line, n + 1, s1) == lex_from(line, n + m - 1, s2));
    assert(line[n + m - 1] == ' ');
    assert(lex_from(line, n + m - 1, s2) == lex_from(line, n + m, lex_flush(s2)));
    assert(lex_flush(s2) == s2);
    assert(Seq::<SpecLexToken>::empty() + word_tokens(ascii_words(x)) =~= word_tokens(ascii_words(x)));
    assert(s2.tokens =~= pre + word_tokens(empty_words));
    assert forall|k: int| 0 <= k < y.len() implies line[n + m + k] == #[trigger] y[k] && plain_char(y[k]) by {
        assert(line[n + m + k] == y[k]);
    }
    lemma_plain_run(line, y, n + m, 0, s2, pre, empty_words);
    let s3 = after_plain_run(pre, ascii_words(y));
    assert(line.len() == n + m + y.len());
    assert(lex_from(line, n + m, s2) == lex_from(line, line.len() as int, s3));
    assert(lex_flush(s3) == s3);
    assert(lex_from(line, line.len() as int, s3) == Ok::<_, LexErrorV1>(s3.tokens));
    assert(pre + word_tokens(ascii_words(y)) =~= word_tokens(ascii_words(x)) + seq![t] + word_tokens(ascii_words(y)));
}

} // verus!
