//! Groups tokens into pipeline stages and an optional final redirection.

use vstd::prelude::*;
use crate::lexer::{tokens_view, LexTokenV1, SpecLexToken};
use crate::text::{clone_strings_from, lemma_strings_view_push, strings_view};

verus! {

#[derive(Clone, Debug, Eq, PartialEq)]
pub struct ParsedLineV1 {
    pub stages: Vec<ParsedCommandV1>,
    pub redirect: Option<ParsedRedirectV1>,
}

#[derive(Clone, Debug, Eq, PartialEq)]
pub struct ParsedCommandV1 {
    pub name: String,
    pub arguments: Vec<String>,
}

#[derive(Clone, Copy, Debug, Eq, PartialEq)]
pub enum ParsedRedirectModeV1 {
    Overwrite,
    Append,
}

#[derive(Clone, Debug, Eq, PartialEq)]
pub struct ParsedRedirectV1 {
    pub mode: ParsedRedirectModeV1,
    pub path: String,
}

#[derive(Clone, Copy, Debug, Eq, PartialEq)]
pub enum ParseErrorV1 {
    EmptyPipelineStage,
    MissingRedirectTarget,
    MultipleRedirects,
    RedirectNotFinal,
}

/// A command as a name and its arguments.
pub struct SpecCommand {
    pub name: Seq<char>,
    pub arguments: Seq<Seq<char>>,
}

pub struct SpecRedirect {
    pub mode: ParsedRedirectModeV1,
    pub path: Seq<char>,
}

pub struct SpecParsedLine {
    pub stages: Seq<SpecCommand>,
    pub redirect: Option<SpecRedirect>,
}

impl View for ParsedCommandV1 {
    type V = SpecCommand;

    open spec fn view(&self) -> SpecCommand {
        SpecCommand { name: self.name@, arguments: strings_view(self.arguments@) }
    }
}

impl View for ParsedRedirectV1 {
    type V = SpecRedirect;

    open spec fn view(&self) -> SpecRedirect {
        SpecRedirect { mode: self.mode, path: self.path@ }
    }
}

pub open spec fn commands_view(v: Seq<ParsedCommandV1>) -> Seq<SpecCommand> {
    v.map_values(|c: ParsedCommandV1| c@)
}

impl View for ParsedLineV1 {
    type V = SpecParsedLine;

    open spec fn view(&self) -> SpecParsedLine {
        SpecParsedLine {
            stages: commands_view(self.stages@),
            redirect: match self.redirect {
                Some(r) => Some(r@),
                None => None,
            },
        }
    }
}

/// The command whose words are `words` (the first is its name).
pub open spec fn command_of(words: Seq<Seq<char>>) -> SpecCommand {
    SpecCommand { name: words[0], arguments: words.drop_first() }
}

/// What the parser makes of `tokens[i..]`, given the stages finished so far, the words of the
/// current stage, and the redirection seen so far.
pub open spec fn parse_from(
    tokens: Seq<SpecLexToken>,
    i: int,
    stages: Seq<SpecCommand>,
    words: Seq<Seq<char>>,
    mode: Option<ParsedRedirectModeV1>,
    path: Option<Seq<char>>,
) -> Result<SpecParsedLine, ParseErrorV1>
    decreases tokens.len() - i,
{
    if i < 0 || i >= tokens.len() {
        if mode is Some && path is None {
            Err(ParseErrorV1::MissingRedirectTarget)
        } else if words.len() == 0 {
            Err(ParseErrorV1::EmptyPipelineStage)
        } else {
            Ok(SpecParsedLine {
                stages: stages.push(command_of(words)),
                redirect: match mode {
                    Some(m) => Some(SpecRedirect { mode: m, path: path.unwrap() }),
                    None => None,
                },
            })
        }
    } else {
        match tokens[i] {
            SpecLexToken::Word(v) => if mode is Some {
                if path is Some {
                    Err(ParseErrorV1::RedirectNotFinal)
                } else {
                    parse_from(tokens, i + 1, stages, words, mode, Some(v))
                }
            } else {
                parse_from(tokens, i + 1, stages, words.push(v), mode, path)
            },
            SpecLexToken::Pipe => if mode is Some {
                Err(ParseErrorV1::RedirectNotFinal)
            } else if words.len() == 0 {
                Err(ParseErrorV1::EmptyPipelineStage)
            } else {
                parse_from(tokens, i + 1, stages.push(command_of(words)), seq![], mode, path)
            },
            SpecLexToken::RedirectOverwrite => if mode is Some {
                Err(ParseErrorV1::MultipleRedirects)
            } else if words.len() == 0 {
                Err(ParseErrorV1::EmptyPipelineStage)
            } else {
                parse_from(tokens, i + 1, stages, words, Some(ParsedRedirectModeV1::Overwrite), path)
            },
            SpecLexToken::RedirectAppend => if mode is Some {
                Err(ParseErrorV1::MultipleRedirects)
            } else if words.len() == 0 {
                Err(ParseErrorV1::EmptyPipelineStage)
            } else {
                parse_from(tokens, i + 1, stages, words, Some(ParsedRedirectModeV1::Append), path)
            },
        }
    }
}

/// The parse of a whole token sequence.
pub open spec fn spec_parse(tokens: Seq<SpecLexToken>) -> Result<SpecParsedLine, ParseErrorV1> {
    parse_from(tokens, 0, seq![], seq![], None, None)
}

/// Groups tokens into pipeline stages and an optional final redirection.
pub fn parse_p0_tokens(tokens: &[LexTokenV1]) -> (r: Result<ParsedLineV1, ParseErrorV1>)
    ensures
        match r {
            Ok(line) => spec_parse(tokens_view(tokens@)) == Ok::<_, ParseErrorV1>(line@),
            Err(e) => spec_parse(tokens_view(tokens@)) == Err::<SpecParsedLine, _>(e),
        },
{
    let ghost tv = tokens_view(tokens@);
    let ghost whole = spec_parse(tv);
    let mut stages: Vec<ParsedCommandV1> = Vec::new();
    let mut current_words: Vec<String> = Vec::new();
    let mut redirect_mode: Option<ParsedRedirectModeV1> = None;
    let mut redirect_path: Option<String> = None;
    let mut i: usize = 0;
    assert(commands_view(stages@) =~= Seq::<SpecCommand>::empty());
    assert(strings_view(current_words@) =~= Seq::<Seq<char>>::empty());
    while i < tokens.len()
        invariant
            i <= tokens.len(),
            tv == tokens_view(tokens@),
            whole == spec_parse(tv),
            whole == parse_from(tv, i as int, commands_view(stages@), strings_view(current_words@),
                redirect_mode, match redirect_path { Some(p) => Some(p@), None => None }),
        decreases tokens.len() - i,
    {
        assert(tv[i as int] == tokens@[i as int]@);
        match &tokens[i] {
            LexTokenV1::Word(value) => {
                if redirect_mode.is_some() {
                    if redirect_path.is_some() {
                        return Err(ParseErrorV1::RedirectNotFinal);
                    }
                    redirect_path = Some(value.clone());
                } else {
                    let v = value.clone();
                    proof { lemma_strings_view_push(current_words@, v); }
                    current_words.push(v);
                }
            },
            LexTokenV1::Pipe => {
                if redirect_mode.is_some() {
                    return Err(ParseErrorV1::RedirectNotFinal);
                }
                push_stage(&mut stages, &mut current_words)?;
                assert(strings_view(current_words@) =~= Seq::<Seq<char>>::empty());
            },
            LexTokenV1::RedirectOverwrite => {
                if redirect_mode.is_some() {
                    return Err(ParseErrorV1::MultipleRedirects);
                }
                if current_words.len() == 0 {
                    return Err(ParseErrorV1::EmptyPipelineStage);
                }
                redirect_mode = Some(ParsedRedirectModeV1::Overwrite);
            },
            LexTokenV1::RedirectAppend => {
                if redirect_mode.is_some() {
                    return Err(ParseErrorV1::MultipleRedirects);
                }
                if current_words.len() == 0 {
                    return Err(ParseErrorV1::EmptyPipelineStage);
                }
                redirect_mode = Some(ParsedRedirectModeV1::Append);
            },
        }
        i += 1;
    }
    if redirect_mode.is_some() && redirect_path.is_none() {
        return Err(ParseErrorV1::MissingRedirectTarget);
    }
    push_stage(&mut stages, &mut current_words)?;
    let redirect = match redirect_mode {
        Some(mode) => match redirect_path {
            Some(path) => Some(ParsedRedirectV1 { mode, path }),
            None => None,
        },
        None => None,
    };
    let line = ParsedLineV1 { stages, redirect };
    Ok(line)
}

proof fn lemma_commands_view_push(v: Seq<ParsedCommandV1>, c: ParsedCommandV1)
    ensures
        commands_view(v.push(c)) == commands_view(v).push(c@),
{
    assert(commands_view(v.push(c)) =~= commands_view(v).push(c@));
}

/// Closes the current stage: its first word is the command name, the rest its arguments.
fn push_stage(stages: &mut Vec<ParsedCommandV1>, words: &mut Vec<String>) -> (r: Result<(), ParseErrorV1>)
    ensures
        old(words)@.len() == 0 ==> r == Err::<(), _>(ParseErrorV1::EmptyPipelineStage)
            && final(stages)@ == old(stages)@,
        old(words)@.len() > 0 ==> r is Ok
            && commands_view(final(stages)@) == commands_view(old(stages)@).push(
                command_of(strings_view(old(words)@)))
            && final(words)@.len() == 0,
{
    if words.len() == 0 {
        return Err(ParseErrorV1::EmptyPipelineStage);
    }
    let name = words[0].clone();
    let arguments = clone_strings_from(words.as_slice(), 1);
    proof {
        assert(words@.subrange(1, words@.len() as int) == words@.drop_first());
        assert(strings_view(words@.drop_first()) =~= strings_view(words@).drop_first());
    }
    let command = ParsedCommandV1 { name, arguments };
    proof { lemma_commands_view_push(stages@, command); }
    stages.push(command);
    *words = Vec::new();
    Ok(())
}

/// The number of pipe tokens in `tokens[i..]`.
pub open spec fn pipes_from(tokens: Seq<SpecLexToken>, i: int) -> nat
    decreases tokens.len() - i,
{
    if i < 0 || i >= tokens.len() {
        0
    } else {
        (if tokens[i] is Pipe { 1nat } else { 0nat }) + pipes_from(tokens, i + 1)
    }
}

/// Whether `tokens[i..]` holds a redirection.
pub open spec fn redirects_from(tokens: Seq<SpecLexToken>, i: int) -> bool
    decreases tokens.len() - i,
{
    if i < 0 || i >= tokens.len() {
        false
    } else {
        tokens[i] is RedirectOverwrite || tokens[i] is RedirectAppend || redirects_from(tokens, i + 1)
    }
}

proof fn lemma_parse_shape(
    tokens: Seq<SpecLexToken>,
    i: int,
    stages: Seq<SpecCommand>,
    words: Seq<Seq<char>>,
    mode: Option<ParsedRedirectModeV1>,
    path: Option<Seq<char>>,
)
    requires
        0 <= i,
        parse_from(tokens, i, stages, words, mode, path) is Ok,
    ensures
        parse_from(tokens, i, stages, words, mode, path).unwrap().stages.len() == stages.len() + pipes_from(tokens, i) + 1,
        parse_from(tokens, i, stages, words, mode, path).unwrap().redirect is Some <==> (mode is Some || redirects_from(tokens, i)),
    decreases tokens.len() - i,
{
    if i < tokens.len() {
        match tokens[i] {
            SpecLexToken::Word(v) => if mode is Some {
                lemma_parse_shape(tokens, i + 1, stages, words, mode, Some(v));
            } else {
                lemma_parse_shape(tokens, i + 1, stages, words.push(v), mode, path);
            },
            SpecLexToken::Pipe => {
                lemma_parse_shape(tokens, i + 1, stages.push(command_of(words)), seq![], mode, path);
            },
            SpecLexToken::RedirectOverwrite => {
                lemma_parse_shape(tokens, i + 1, stages, words, Some(ParsedRedirectModeV1::Overwrite), path);
            },
            SpecLexToken::RedirectAppend => {
                lemma_parse_shape(tokens, i + 1, stages, words, Some(ParsedRedirectModeV1::Append), path);
            },
        }
    }
}

/// The shape of a parsed line: a line that parses has one stage more than it has pipes, and
/// a redirection exactly when its tokens hold one.
pub proof fn law_parse_shape(tokens: Seq<SpecLexToken>)
    requires
        spec_parse(tokens) is Ok,
    ensures
        spec_parse(tokens).unwrap().stages.len() == pipes_from(tokens, 0) + 1,
        spec_parse(tokens).unwrap().redirect is Some <==> redirects_from(tokens, 0),
{
    lemma_parse_shape(tokens, 0, seq![], seq![], None, None);
}

/// The words of some commands, each command's name then its arguments, in order.
pub open spec fn flat_words(cmds: Seq<SpecCommand>) -> Seq<Seq<char>>
    decreases cmds.len(),
{
    if cmds.len() == 0 {
        seq![]
    } else {
        flat_words(cmds.drop_last()) + (seq![cmds.last().name] + cmds.last().arguments)
    }
}

/// The words of `tokens[i..]` up to the first redirection token, pipes left out.
pub open spec fn words_until_redirect(tokens: Seq<SpecLexToken>, i: int) -> Seq<Seq<char>>
    decreases tokens.len() - i,
{
    if i < 0 || i >= tokens.len() {
        seq![]
    } else {
        match tokens[i] {
            SpecLexToken::Word(v) => seq![v] + words_until_redirect(tokens, i + 1),
            SpecLexToken::Pipe => words_until_redirect(tokens, i + 1),
            _ => seq![],
        }
    }
}

/// The mode a redirection token asks for; nothing for other tokens.
pub open spec fn redirect_mode_of(t: SpecLexToken) -> Option<ParsedRedirectModeV1> {
    match t {
        SpecLexToken::RedirectOverwrite => Some(ParsedRedirectModeV1::Overwrite),
        SpecLexToken::RedirectAppend => Some(ParsedRedirectModeV1::Append),
        _ => None,
    }
}

proof fn lemma_flat_push(stages: Seq<SpecCommand>, words: Seq<Seq<char>>)
    requires
        words.len() > 0,
    ensures
        flat_words(stages.push(command_of(words))) == flat_words(stages) + words,
{
    assert(stages.push(command_of(words)).drop_last() =~= stages);
    assert(seq![words[0]] + words.drop_first() =~= words);
    assert(flat_words(stages) + (seq![words[0]] + words.drop_first()) =~= flat_words(stages) + words);
}

proof fn lemma_parse_words(
    tokens: Seq<SpecLexToken>,
    i: int,
    stages: Seq<SpecCommand>,
    words: Seq<Seq<char>>,
    mode: Option<ParsedRedirectModeV1>,
    path: Option<Seq<char>>,
)
    requires
        0 <= i,
        parse_from(tokens, i, stages, words, mode, path) is Ok,
    ensures
        mode is None ==> flat_words(parse_from(tokens, i, stages, words, mode, path).unwrap().stages)
            == flat_words(stages) + words + words_until_redirect(tokens, i),
        mode is Some ==> flat_words(parse_from(tokens, i, stages, words, mode, path).unwrap().stages)
            == flat_words(stages) + words,
    decreases tokens.len() - i,
{
    if i >= tokens.len() {
        lemma_flat_push(stages, words);
        assert(flat_words(stages) + words + Seq::<Seq<char>>::empty() =~= flat_words(stages) + words);
    } else {
        match tokens[i] {
            SpecLexToken::Word(v) => if mode is Some {
                lemma_parse_words(tokens, i + 1, stages, words, mode, Some(v));
            } else {
                lemma_parse_words(tokens, i + 1, stages, words.push(v), mode, path);
                assert(flat_words(stages) + words.push(v) + words_until_redirect(tokens, i + 1)
                    =~= flat_words(stages) + words + (seq![v] + words_until_redirect(tokens, i + 1)));
            },
            SpecLexToken::Pipe => {
                lemma_parse_words(tokens, i + 1, stages.push(command_of(words)), seq![], mode, path);
                lemma_flat_push(stages, words);
                assert(flat_words(stages) + words + Seq::<Seq<char>>::empty() + words_until_redirect(tokens, i + 1)
                    =~= flat_words(stages) + words + words_until_redirect(tokens, i + 1));
            },
            SpecLexToken::RedirectOverwrite => {
                lemma_parse_words(tokens, i + 1, stages, words, Some(ParsedRedirectModeV1::Overwrite), path);
                assert(flat_words(stages) + words + Seq::<Seq<char>>::empty() =~= flat_words(stages) + words);
            },
            SpecLexToken::RedirectAppend => {
                lemma_parse_words(tokens, i + 1, stages, words, Some(ParsedRedirectModeV1::Append), path);
                assert(flat_words(stages) + words + Seq::<Seq<char>>::empty() =~= flat_words(stages) + words);
            },
        }
    }
}

proof fn lemma_parse_redirect(
    tokens: Seq<SpecLexToken>,
    i: int,
    stages: Seq<SpecCommand>,
    words: Seq<Seq<char>>,
    mode: Option<ParsedRedirectModeV1>,
    path: Option<Seq<char>>,
)
    requires
        0 <= i <= tokens.len(),
        mode is None ==> path is None,
        parse_from(tokens, i, stages, words, mode, path) matches Ok(line) && line.redirect is Some,
    ensures
        ({
            let r = parse_from(tokens, i, stages, words, mode, path).unwrap().redirect.unwrap();
            &&& mode is None ==> {
                &&& tokens.len() >= i + 2
                &&& redirect_mode_of(tokens[tokens.len() - 2]) == Some(r.mode)
                &&& tokens[tokens.len() - 1] == SpecLexToken::Word(r.path)
                &&& forall|k: int| i <= k < tokens.len() - 2 ==> redirect_mode_of(#[trigger] tokens[k]) is None
            }
            &&& (mode is Some && path is None) ==> tokens.len() == i + 1 && tokens[i] == SpecLexToken::Word(r.path) && mode == Some(r.mode)
            &&& (mode is Some && path is Some) ==> tokens.len() == i && mode == Some(r.mode) && path == Some(r.path)
        }),
    decreases tokens.len() - i,
{
    if i < tokens.len() {
        match tokens[i] {
            SpecLexToken::Word(v) => if mode is Some {
                lemma_parse_redirect(tokens, i + 1, stages, words, mode, Some(v));
            } else {
                lemma_parse_redirect(tokens, i + 1, stages, words.push(v), mode, path);
            },
            SpecLexToken::Pipe => {
                lemma_parse_redirect(tokens, i + 1, stages.push(command_of(words)), seq![], mode, path);
            },
            SpecLexToken::RedirectOverwrite => {
                lemma_parse_redirect(tokens, i + 1, stages, words, Some(ParsedRedirectModeV1::Overwrite), path);
            },
            SpecLexToken::RedirectAppend => {
                lemma_parse_redirect(tokens, i + 1, stages, words, Some(ParsedRedirectModeV1::Append), path);
            },
        }
    }
}

/// The words of a parsed line: its commands' names and arguments, in order, are the words of
/// the tokens before the first redirection; and a line has a redirection exactly when its
/// tokens end with a redirection token and the target word, with no redirection token before.
pub proof fn law_parse_words(tokens: Seq<SpecLexToken>)
    requires
        spec_parse(tokens) is Ok,
    ensures
        flat_words(spec_parse(tokens).unwrap().stages) == words_until_redirect(tokens, 0),
        spec_parse(tokens).unwrap().redirect matches Some(r) ==> {
            &&& tokens.len() >= 2
            &&& redirect_mode_of(tokens[tokens.len() - 2]) == Some(r.mode)
            &&& tokens[tokens.len() - 1] == SpecLexToken::Word(r.path)
            &&& forall|k: int| 0 <= k < tokens.len() - 2 ==> redirect_mode_of(#[trigger] tokens[k]) is None
        },
        spec_parse(tokens).unwrap().redirect is None ==> !redirects_from(tokens, 0),
{
    lemma_parse_words(tokens, 0, seq![], seq![], None, None);
    assert(flat_words(Seq::<SpecCommand>::empty()) + Seq::<Seq<char>>::empty() + words_until_redirect(tokens, 0)
        =~= words_until_redirect(tokens, 0));
    if spec_parse(tokens).unwrap().redirect is Some {
        lemma_parse_redirect(tokens, 0, seq![], seq![], None, None);
    }
    law_parse_shape(tokens);
}

} // verus!
