//! The command grammar: a raw input line is either a shell escape
//! (`$ ` followed by an opaque command string) or a verb followed by
//! positional and `keyword=value` arguments.  Arguments may be quoted
//! with `'` or `"`; inside quotes a backslash escapes only itself and
//! the quote character.  A positional argument after a keyword
//! argument is rejected.
//!
//! The grammar is stated by the `spec_*` functions below; the
//! executable parser is proved to return exactly what they describe.

use vstd::prelude::*;
use vstd::string::StringExecFns;
use crate::strutil::{push_char, str_to_chars, chars_range_string};

verus! {

/// What a raw command line parses to: verb, shell flag, positional
/// arguments and keyword arguments, as character sequences.
pub struct RawCommandView {
    pub main_cmd: Seq<char>,
    pub shell: bool,
    pub args: Seq<Seq<char>>,
    pub kwargs: Seq<(Seq<char>, Seq<char>)>,
}

/// Everything that can be wrong with a command line, at the lexical
/// level or during command building, with payloads as sequences.
pub enum ParseIssue {
    EmptyInput,
    ShellMarkerNoSpace,
    CharAfterVerb { c: char, verb: Seq<char> },
    UnterminatedQuote,
    BadEscape { c: char },
    CharAfterQuotedArg { c: char },
    QuoteInUnquoted { c: char },
    PositionalAfterKeyword,
    EnvVarNotFound { name: Seq<char> },
    SetMissingVariable,
    CredentialsMissingBoth,
    CredentialsMissingOne,
    SetMissingValue { field: Seq<char> },
    SetTooManyArgs { field: Seq<char> },
    SetUnknownVariable { name: Seq<char> },
    UnexpectedKeywordArgs { verb: Seq<char> },
    MissingArgument { verb: Seq<char>, what: Seq<char> },
    TooManyPositional { verb: Seq<char> },
    UnexpectedPositional { verb: Seq<char> },
    UnexpectedArguments { verb: Seq<char> },
    UnknownCommand { verb: Seq<char> },
}

/// The same issues, carried by executable code.
#[derive(Debug)]
pub enum CommandParseError {
    EmptyInput,
    ShellMarkerNoSpace,
    CharAfterVerb { c: char, verb: String },
    UnterminatedQuote,
    BadEscape { c: char },
    CharAfterQuotedArg { c: char },
    QuoteInUnquoted { c: char },
    PositionalAfterKeyword,
    EnvVarNotFound { name: String },
    SetMissingVariable,
    CredentialsMissingBoth,
    CredentialsMissingOne,
    SetMissingValue { field: String },
    SetTooManyArgs { field: String },
    SetUnknownVariable { name: String },
    UnexpectedKeywordArgs { verb: String },
    MissingArgument { verb: String, what: String },
    TooManyPositional { verb: String },
    UnexpectedPositional { verb: String },
    UnexpectedArguments { verb: String },
    UnknownCommand { verb: String },
}

impl View for CommandParseError {
    type V = ParseIssue;

    open spec fn view(&self) -> ParseIssue {
        match self {
            CommandParseError::EmptyInput => ParseIssue::EmptyInput,
            CommandParseError::ShellMarkerNoSpace => ParseIssue::ShellMarkerNoSpace,
            CommandParseError::CharAfterVerb { c, verb } => ParseIssue::CharAfterVerb {
                c: *c,
                verb: verb@,
            },
            CommandParseError::UnterminatedQuote => ParseIssue::UnterminatedQuote,
            CommandParseError::BadEscape { c } => ParseIssue::BadEscape { c: *c },
            CommandParseError::CharAfterQuotedArg { c } => ParseIssue::CharAfterQuotedArg {
                c: *c,
            },
            CommandParseError::QuoteInUnquoted { c } => ParseIssue::QuoteInUnquoted { c: *c },
            CommandParseError::PositionalAfterKeyword => ParseIssue::PositionalAfterKeyword,
            CommandParseError::EnvVarNotFound { name } => ParseIssue::EnvVarNotFound {
                name: name@,
            },
            CommandParseError::SetMissingVariable => ParseIssue::SetMissingVariable,
            CommandParseError::CredentialsMissingBoth => ParseIssue::CredentialsMissingBoth,
            CommandParseError::CredentialsMissingOne => ParseIssue::CredentialsMissingOne,
            CommandParseError::SetMissingValue { field } => ParseIssue::SetMissingValue {
                field: field@,
            },
            CommandParseError::SetTooManyArgs { field } => ParseIssue::SetTooManyArgs {
                field: field@,
            },
            CommandParseError::SetUnknownVariable { name } => ParseIssue::SetUnknownVariable {
                name: name@,
            },
            CommandParseError::UnexpectedKeywordArgs { verb } => ParseIssue::UnexpectedKeywordArgs {
                verb: verb@,
            },
            CommandParseError::MissingArgument { verb, what } => ParseIssue::MissingArgument {
                verb: verb@,
                what: what@,
            },
            CommandParseError::TooManyPositional { verb } => ParseIssue::TooManyPositional {
                verb: verb@,
            },
            CommandParseError::UnexpectedPositional { verb } => ParseIssue::UnexpectedPositional {
                verb: verb@,
            },
            CommandParseError::UnexpectedArguments { verb } => ParseIssue::UnexpectedArguments {
                verb: verb@,
            },
            CommandParseError::UnknownCommand { verb } => ParseIssue::UnknownCommand {
                verb: verb@,
            },
        }
    }
}

/// Lowercase ASCII letter.
pub open spec fn is_lower_c(c: char) -> bool {
    97 <= c as u32 && c as u32 <= 122
}

/// Quote character of the grammar.
pub open spec fn is_quote_c(c: char) -> bool {
    c == '\'' || c == '"'
}

/// Drops leading spaces.
pub open spec fn spec_skip_spaces(s: Seq<char>) -> Seq<char>
    decreases s.len(),
{
    if s.len() > 0 && s[0] == ' ' {
        spec_skip_spaces(s.skip(1))
    } else {
        s
    }
}

/// Drops trailing spaces.
pub open spec fn spec_trim_trailing(s: Seq<char>) -> Seq<char>
    decreases s.len(),
{
    if s.len() > 0 && s.last() == ' ' {
        spec_trim_trailing(s.drop_last())
    } else {
        s
    }
}

/// Drops leading and trailing spaces, as the tokenizer does before
/// looking at a line.
pub open spec fn spec_trim(s: Seq<char>) -> Seq<char> {
    spec_trim_trailing(spec_skip_spaces(s))
}

/// Length of the maximal prefix of lowercase ASCII letters.
pub open spec fn spec_lower_run(s: Seq<char>) -> int
    decreases s.len(),
{
    if s.len() > 0 && is_lower_c(s[0]) {
        1 + spec_lower_run(s.skip(1))
    } else {
        0
    }
}

/// Body of a quoted argument after the opening quote `q`: characters
/// until the closing quote, where a backslash may escape only itself
/// or the quote.  Returns the content accumulated onto `acc` and the
/// input after the closing quote.
pub open spec fn spec_parse_quoted(s: Seq<char>, q: char, acc: Seq<char>) -> Result<
    (Seq<char>, Seq<char>),
    ParseIssue,
>
    decreases s.len(),
{
    if s.len() == 0 {
        Err(ParseIssue::UnterminatedQuote)
    } else if s[0] == q {
        Ok((acc, s.skip(1)))
    } else if s[0] == '\\' {
        if s.len() == 1 {
            Err(ParseIssue::UnterminatedQuote)
        } else if s[1] == '\\' || s[1] == q {
            spec_parse_quoted(s.skip(2), q, acc.push(s[1]))
        } else {
            Err(ParseIssue::BadEscape { c: s[1] })
        }
    } else {
        spec_parse_quoted(s.skip(1), q, acc.push(s[0]))
    }
}

/// Unquoted argument: characters until a space or the end; a quote in
/// the middle is an error.
pub open spec fn spec_parse_unquoted(s: Seq<char>, acc: Seq<char>) -> Result<
    (Seq<char>, Seq<char>),
    ParseIssue,
>
    decreases s.len(),
{
    if s.len() == 0 {
        Ok((acc, s))
    } else if s[0] == ' ' {
        Ok((acc, s))
    } else if is_quote_c(s[0]) {
        Err(ParseIssue::QuoteInUnquoted { c: s[0] })
    } else {
        spec_parse_unquoted(s.skip(1), acc.push(s[0]))
    }
}

/// One argument, quoted or not; a quoted argument must be followed by
/// a space or the end.  Returns the argument and the input after it,
/// with following spaces dropped.
pub open spec fn spec_parse_arg(s: Seq<char>) -> Result<(Seq<char>, Seq<char>), ParseIssue> {
    if s.len() > 0 && is_quote_c(s[0]) {
        match spec_parse_quoted(s.skip(1), s[0], Seq::empty()) {
            Err(e) => Err(e),
            Ok((content, rest)) => if rest.len() > 0 && rest[0] != ' ' {
                Err(ParseIssue::CharAfterQuotedArg { c: rest[0] })
            } else {
                Ok((content, spec_skip_spaces(rest)))
            },
        }
    } else {
        match spec_parse_unquoted(s, Seq::empty()) {
            Err(e) => Err(e),
            Ok((tok, rest)) => Ok((tok, spec_skip_spaces(rest))),
        }
    }
}

proof fn lemma_skip_spaces_len(s: Seq<char>)
    ensures
        spec_skip_spaces(s).len() <= s.len(),
        s.len() > 0 && s[0] == ' ' ==> spec_skip_spaces(s).len() < s.len(),
    decreases s.len(),
{
    if s.len() > 0 && s[0] == ' ' {
        lemma_skip_spaces_len(s.skip(1));
    }
}

proof fn lemma_parse_quoted_len(s: Seq<char>, q: char, acc: Seq<char>)
    ensures
        spec_parse_quoted(s, q, acc) matches Ok(r) ==> r.1.len() < s.len(),
    decreases s.len(),
{
    if s.len() == 0 {
    } else if s[0] == q {
    } else if s[0] == '\\' {
        if s.len() > 1 && (s[1] == '\\' || s[1] == q) {
            lemma_parse_quoted_len(s.skip(2), q, acc.push(s[1]));
        }
    } else {
        lemma_parse_quoted_len(s.skip(1), q, acc.push(s[0]));
    }
}

proof fn lemma_parse_unquoted_len(s: Seq<char>, acc: Seq<char>)
    ensures
        spec_parse_unquoted(s, acc) matches Ok(r) ==> r.1.len() <= s.len(),
        s.len() > 0 && s[0] != ' ' && !is_quote_c(s[0]) ==> (spec_parse_unquoted(s, acc) matches Ok(
            r,
        ) ==> r.1.len() < s.len()),
    decreases s.len(),
{
    if s.len() == 0 {
    } else if s[0] == ' ' {
    } else if is_quote_c(s[0]) {
    } else {
        lemma_parse_unquoted_len(s.skip(1), acc.push(s[0]));
    }
}

proof fn lemma_parse_arg_len(s: Seq<char>)
    ensures
        spec_parse_arg(s) matches Ok(r) ==> r.1.len() <= s.len(),
        s.len() > 0 ==> (spec_parse_arg(s) matches Ok(r) ==> r.1.len() < s.len()),
{
    if s.len() > 0 && is_quote_c(s[0]) {
        lemma_parse_quoted_len(s.skip(1), s[0], Seq::empty());
        if let Ok((content, rest)) = spec_parse_quoted(s.skip(1), s[0], Seq::empty()) {
            lemma_skip_spaces_len(rest);
        }
    } else {
        lemma_parse_unquoted_len(s, Seq::empty());
        if let Ok((tok, rest)) = spec_parse_unquoted(s, Seq::empty()) {
            lemma_skip_spaces_len(rest);
        }
    }
}

pub proof fn lemma_lower_run_bounds(s: Seq<char>)
    ensures
        0 <= spec_lower_run(s) <= s.len(),
    decreases s.len(),
{
    if s.len() > 0 && is_lower_c(s[0]) {
        lemma_lower_run_bounds(s.skip(1));
    }
}

/// Token list after the verb: positional arguments, then keyword
/// arguments; a positional argument after a keyword argument is
/// rejected.  A token is a keyword argument exactly when a run of
/// lowercase letters is immediately followed by `=`.
pub open spec fn spec_parse_tokens(
    verb: Seq<char>,
    s: Seq<char>,
    args: Seq<Seq<char>>,
    kwargs: Seq<(Seq<char>, Seq<char>)>,
    seen_kw: bool,
) -> Result<RawCommandView, ParseIssue>
    decreases s.len(),
    via spec_parse_tokens_dec
{
    if s.len() == 0 {
        Ok(RawCommandView { main_cmd: verb, shell: false, args, kwargs })
    } else {
        let kwlen = spec_lower_run(s);
        if kwlen < s.len() && s[kwlen] == '=' {
            match spec_parse_arg(s.skip(kwlen + 1)) {
                Err(e) => Err(e),
                Ok((val, rest)) => spec_parse_tokens(
                    verb,
                    rest,
                    args,
                    kwargs.push((s.take(kwlen), val)),
                    true,
                ),
            }
        } else if seen_kw {
            Err(ParseIssue::PositionalAfterKeyword)
        } else {
            match spec_parse_arg(s) {
                Err(e) => Err(e),
                Ok((tok, rest)) => spec_parse_tokens(verb, rest, args.push(tok), kwargs, false),
            }
        }
    }
}

#[via_fn]
proof fn spec_parse_tokens_dec(
    verb: Seq<char>,
    s: Seq<char>,
    args: Seq<Seq<char>>,
    kwargs: Seq<(Seq<char>, Seq<char>)>,
    seen_kw: bool,
) {
    if s.len() > 0 {
        let kwlen = spec_lower_run(s);
        lemma_lower_run_bounds(s);
        if kwlen < s.len() && s[kwlen] == '=' {
            lemma_parse_arg_len(s.skip(kwlen + 1));
        } else if !seen_kw {
            lemma_parse_arg_len(s);
        }
    }
}

/// The whole line: trimmed, then either a shell escape, or a verb
/// followed by its tokens.
pub open spec fn spec_parse_line(raw: Seq<char>) -> Result<RawCommandView, ParseIssue> {
    let s = spec_trim(raw);
    if s.len() == 0 {
        Err(ParseIssue::EmptyInput)
    } else if s[0] == '$' {
        if s.len() >= 2 && s[1] == ' ' {
            Ok(
                RawCommandView {
                    main_cmd: s.skip(2),
                    shell: true,
                    args: Seq::empty(),
                    kwargs: Seq::empty(),
                },
            )
        } else {
            Err(ParseIssue::ShellMarkerNoSpace)
        }
    } else {
        let ve = spec_lower_run(s);
        if ve < s.len() && s[ve] != ' ' {
            Err(ParseIssue::CharAfterVerb { c: s[ve], verb: s.take(ve) })
        } else {
            spec_parse_tokens(
                s.take(ve),
                spec_skip_spaces(s.skip(ve)),
                Seq::empty(),
                Seq::empty(),
                false,
            )
        }
    }
}

/// The single human-readable line each issue is reported as.
pub open spec fn spec_parse_error_message(e: ParseIssue) -> Seq<char> {
    match e {
        ParseIssue::EmptyInput => "Input is empty"@,
        ParseIssue::ShellMarkerNoSpace => "There must be a space after the shell marker $"@,
        ParseIssue::CharAfterVerb { c, verb } => "Unexpected non-whitespace character `"@
            + seq![c] + "` after command name `"@ + verb + "`"@,
        ParseIssue::UnterminatedQuote => "Unterminated quoted argument"@,
        ParseIssue::BadEscape { c } => "Unexpected escaped character `"@ + seq![c]
            + "` after backslash"@,
        ParseIssue::CharAfterQuotedArg { c } => "Unexpected non-whitespace character `"@
            + seq![c] + "` after quoted argument"@,
        ParseIssue::QuoteInUnquoted { c } => "Unexpected quote `"@ + seq![c]
            + "` in the middle of an unquoted argument"@,
        ParseIssue::PositionalAfterKeyword => "Positional argument after a keyword argument"@,
        ParseIssue::EnvVarNotFound { name } => "Environment variable `"@ + name + "` not found"@,
        ParseIssue::SetMissingVariable => "set: Missing argument <variable>"@,
        ParseIssue::CredentialsMissingBoth =>
            "set credentials: Missing arguments <bojautologin> <onlinejudge>"@,
        ParseIssue::CredentialsMissingOne => "set credentials: Missing argument <onlinejudge>"@,
        ParseIssue::SetMissingValue { field } => "set "@ + field + ": Missing argument <"@ + field
            + ">"@,
        ParseIssue::SetTooManyArgs { field } => "set "@ + field + ": Too many arguments"@,
        ParseIssue::SetUnknownVariable { name } => "set: Unrecognized variable `"@ + name + "`"@,
        ParseIssue::UnexpectedKeywordArgs { verb } => verb + ": Unexpected keyword argument(s)"@,
        ParseIssue::MissingArgument { verb, what } => verb + ": Missing argument <"@ + what
            + ">"@,
        ParseIssue::TooManyPositional { verb } => verb + ": Too many positional arguments"@,
        ParseIssue::UnexpectedPositional { verb } => verb + ": Unexpected positional argument(s)"@,
        ParseIssue::UnexpectedArguments { verb } => verb + ": Unexpected argument(s)"@,
        ParseIssue::UnknownCommand { verb } => "Unknown command `"@ + verb + "`"@,
    }
}

impl CommandParseError {
    /// Renders the issue as its report line.
    pub fn message(&self) -> (r: String)
        ensures
            r@ == spec_parse_error_message(self@),
    {
        match self {
            CommandParseError::EmptyInput => String::from_str("Input is empty"),
            CommandParseError::ShellMarkerNoSpace => String::from_str(
                "There must be a space after the shell marker $",
            ),
            CommandParseError::CharAfterVerb { c, verb } => crate::strutil::concat_char_str(
                "Unexpected non-whitespace character `",
                *c,
                "` after command name `",
                verb.as_str(),
                "`",
            ),
            CommandParseError::UnterminatedQuote => String::from_str("Unterminated quoted argument"),
            CommandParseError::BadEscape { c } => crate::strutil::concat_char(
                "Unexpected escaped character `",
                *c,
                "` after backslash",
            ),
            CommandParseError::CharAfterQuotedArg { c } => crate::strutil::concat_char(
                "Unexpected non-whitespace character `",
                *c,
                "` after quoted argument",
            ),
            CommandParseError::QuoteInUnquoted { c } => crate::strutil::concat_char(
                "Unexpected quote `",
                *c,
                "` in the middle of an unquoted argument",
            ),
            CommandParseError::PositionalAfterKeyword => String::from_str(
                "Positional argument after a keyword argument",
            ),
            CommandParseError::EnvVarNotFound { name } => crate::strutil::concat3(
                "Environment variable `",
                name.as_str(),
                "` not found",
            ),
            CommandParseError::SetMissingVariable => String::from_str(
                "set: Missing argument <variable>",
            ),
            CommandParseError::CredentialsMissingBoth => String::from_str(
                "set credentials: Missing arguments <bojautologin> <onlinejudge>",
            ),
            CommandParseError::CredentialsMissingOne => String::from_str(
                "set credentials: Missing argument <onlinejudge>",
            ),
            CommandParseError::SetMissingValue { field } => crate::strutil::concat5(
                "set ",
                field.as_str(),
                ": Missing argument <",
                field.as_str(),
                ">",
            ),
            CommandParseError::SetTooManyArgs { field } => crate::strutil::concat3(
                "set ",
                field.as_str(),
                ": Too many arguments",
            ),
            CommandParseError::SetUnknownVariable { name } => crate::strutil::concat3(
                "set: Unrecognized variable `",
                name.as_str(),
                "`",
            ),
            CommandParseError::UnexpectedKeywordArgs { verb } => crate::strutil::concat2(
                verb.as_str(),
                ": Unexpected keyword argument(s)",
            ),
            CommandParseError::MissingArgument { verb, what } => crate::strutil::concat4(
                verb.as_str(),
                ": Missing argument <",
                what.as_str(),
                ">",
            ),
            CommandParseError::TooManyPositional { verb } => crate::strutil::concat2(
                verb.as_str(),
                ": Too many positional arguments",
            ),
            CommandParseError::UnexpectedPositional { verb } => crate::strutil::concat2(
                verb.as_str(),
                ": Unexpected positional argument(s)",
            ),
            CommandParseError::UnexpectedArguments { verb } => crate::strutil::concat2(
                verb.as_str(),
                ": Unexpected argument(s)",
            ),
            CommandParseError::UnknownCommand { verb } => crate::strutil::concat3(
                "Unknown command `",
                verb.as_str(),
                "`",
            ),
        }
    }
}

/// Escaped form of argument content inside quotes with quote
/// character `q`: a backslash is put before every backslash and every
/// occurrence of `q`; all other characters stand as they are.
pub open spec fn spec_escape(s: Seq<char>, q: char) -> Seq<char>
    decreases s.len(),
{
    if s.len() == 0 {
        Seq::empty()
    } else if s[0] == q || s[0] == '\\' {
        seq!['\\', s[0]] + spec_escape(s.skip(1), q)
    } else {
        seq![s[0]] + spec_escape(s.skip(1), q)
    }
}

proof fn lemma_quote_roundtrip_aux(s: Seq<char>, q: char, tail: Seq<char>, acc: Seq<char>)
    requires
        is_quote_c(q),
    ensures
        spec_parse_quoted(spec_escape(s, q) + seq![q] + tail, q, acc) == Ok::<_, ParseIssue>(
            (acc + s, tail),
        ),
    decreases s.len(),
{
    let input = spec_escape(s, q) + seq![q] + tail;
    if s.len() == 0 {
        assert(input =~= seq![q] + tail);
        assert(input[0] == q);
        assert(input.skip(1) =~= tail);
        assert(acc + s =~= acc);
    } else {
        let c = s[0];
        let rest = s.skip(1);
        if c == q || c == '\\' {
            assert(input =~= seq!['\\', c] + (spec_escape(rest, q) + seq![q] + tail));
            assert(input[0] == '\\');
            assert(input[1] == c);
            assert(input.len() >= 2);
            assert(input.skip(2) =~= spec_escape(rest, q) + seq![q] + tail);
            lemma_quote_roundtrip_aux(rest, q, tail, acc.push(c));
            assert(acc.push(c) + rest =~= acc + s);
        } else {
            assert(input =~= seq![c] + (spec_escape(rest, q) + seq![q] + tail));
            assert(input[0] == c);
            assert(input.skip(1) =~= spec_escape(rest, q) + seq![q] + tail);
            lemma_quote_roundtrip_aux(rest, q, tail, acc.push(c));
            assert(acc.push(c) + rest =~= acc + s);
        }
    }
}

/// Law: escaping any content and wrapping it in quotes, then running
/// the tokenizer's argument rule on it, yields back exactly the
/// original content, with the input after the closing quote consumed
/// as usual.  Escaping is therefore reversible for every argument.
pub proof fn lemma_quote_roundtrip(s: Seq<char>, q: char, tail: Seq<char>)
    requires
        is_quote_c(q),
        tail.len() == 0 || tail[0] == ' ',
    ensures
        spec_parse_arg(seq![q] + spec_escape(s, q) + seq![q] + tail) == Ok::<_, ParseIssue>(
            (s, spec_skip_spaces(tail)),
        ),
{
    let input = seq![q] + spec_escape(s, q) + seq![q] + tail;
    assert(input[0] == q);
    assert(input.len() > 0);
    assert(input.skip(1) =~= spec_escape(s, q) + seq![q] + tail);
    lemma_quote_roundtrip_aux(s, q, tail, Seq::empty());
    assert(Seq::<char>::empty() + s =~= s);
}

proof fn lemma_skip_spaces_noop(s: Seq<char>)
    requires
        s.len() == 0 || s[0] != ' ',
    ensures
        spec_skip_spaces(s) == s,
{
}

proof fn lemma_trim_trailing_noop(s: Seq<char>)
    requires
        s.len() == 0 || s.last() != ' ',
    ensures
        spec_trim_trailing(s) == s,
{
}

proof fn lemma_lower_run_concat(verb: Seq<char>, rest: Seq<char>)
    requires
        forall|i: int| 0 <= i < verb.len() ==> is_lower_c(#[trigger] verb[i]),
        rest.len() == 0 || !is_lower_c(rest[0]),
    ensures
        spec_lower_run(verb + rest) == verb.len(),
    decreases verb.len(),
{
    let s = verb + rest;
    if verb.len() == 0 {
        assert(s =~= rest);
    } else {
        assert(s[0] == verb[0]);
        assert(s.skip(1) =~= verb.skip(1) + rest);
        lemma_lower_run_concat(verb.skip(1), rest);
    }
}

/// Law: a whole command line made of a verb and one quoted, escaped
/// argument tokenizes back to exactly that verb and exactly the
/// original argument content, whatever the content holds.  Together
/// with `lemma_quote_roundtrip` this makes quoting reversible through
/// the tokenizer.
pub proof fn lemma_line_roundtrip(verb: Seq<char>, content: Seq<char>, q: char)
    requires
        verb.len() > 0,
        forall|i: int| 0 <= i < verb.len() ==> is_lower_c(#[trigger] verb[i]),
        is_quote_c(q),
    ensures
        spec_parse_line(verb + seq![' '] + seq![q] + spec_escape(content, q) + seq![q]) == Ok::<
            RawCommandView,
            ParseIssue,
        >(
            RawCommandView {
                main_cmd: verb,
                shell: false,
                args: seq![content],
                kwargs: Seq::empty(),
            },
        ),
{
    let quoted = seq![q] + spec_escape(content, q) + seq![q];
    let line = verb + seq![' '] + seq![q] + spec_escape(content, q) + seq![q];
    assert(line =~= verb + (seq![' '] + quoted));
    // Trimming leaves the line alone: it starts with a lowercase
    // letter and ends with the quote character.
    assert(line[0] == verb[0]);
    assert(line.last() == q);
    lemma_skip_spaces_noop(line);
    lemma_trim_trailing_noop(line);
    assert(spec_trim(line) == line);
    // The verb is exactly the leading lowercase run.
    lemma_lower_run_concat(verb, seq![' '] + quoted);
    let ve = spec_lower_run(line);
    assert(ve == verb.len());
    assert(line[ve] == ' ');
    assert(line.take(ve) =~= verb);
    assert(line.skip(ve) =~= seq![' '] + quoted);
    // The space after the verb is skipped, leaving the quoted token.
    assert((seq![' '] + quoted).skip(1) =~= quoted);
    assert(quoted[0] == q);
    lemma_skip_spaces_noop(quoted);
    assert(spec_skip_spaces(line.skip(ve)) == quoted);
    // The quoted token is one positional argument.
    assert(!is_lower_c(q));
    assert(spec_lower_run(quoted) == 0) by {
        assert(quoted =~= Seq::<char>::empty() + quoted);
        lemma_lower_run_concat(Seq::empty(), quoted);
    }
    assert(quoted =~= seq![q] + spec_escape(content, q) + seq![q] + Seq::<char>::empty());
    lemma_quote_roundtrip(content, q, Seq::empty());
    lemma_skip_spaces_noop(Seq::<char>::empty());
    assert(spec_parse_arg(quoted) == Ok::<_, ParseIssue>((content, Seq::<char>::empty())));
    assert(Seq::<Seq<char>>::empty().push(content) =~= seq![content]);
    assert(spec_parse_tokens(
        verb,
        quoted,
        Seq::empty(),
        Seq::empty(),
        false,
    ) == spec_parse_tokens(verb, Seq::empty(), seq![content], Seq::empty(), false));
}

/// Wraps argument content in quotes, escaping backslashes and the
/// quote character, so that the tokenizer reads back exactly the
/// given content.
pub fn quote_argument(content: &str, q: char) -> (r: String)
    requires
        is_quote_c(q),
    ensures
        r@ == seq![q] + spec_escape(content@, q) + seq![q],
{
    let v = str_to_chars(content);
    let mut out = String::new();
    push_char(&mut out, q);
    let mut i: usize = 0;
    while i < v.len()
        invariant
            i <= v@.len(),
            v@ == content@,
            is_quote_c(q),
            out@ == seq![q] + spec_escape(content@.take(i as int), q),
        decreases v@.len() - i,
    {
        let c = v[i];
        let ghost pre = content@.take(i as int);
        let ghost cur = content@.take(i as int + 1);
        proof {
            lemma_escape_snoc(pre, c, q);
            assert(cur =~= pre.push(c));
        }
        if c == q || c == '\\' {
            push_char(&mut out, '\\');
            push_char(&mut out, c);
            proof {
                assert(out@ =~= seq![q] + spec_escape(cur, q));
            }
        } else {
            push_char(&mut out, c);
            proof {
                assert(out@ =~= seq![q] + spec_escape(cur, q));
            }
        }
        i = i + 1;
    }
    push_char(&mut out, q);
    proof {
        assert(content@.take(content@.len() as int) =~= content@);
        assert(out@ =~= seq![q] + spec_escape(content@, q) + seq![q]);
    }
    out
}

proof fn lemma_escape_snoc(s: Seq<char>, c: char, q: char)
    ensures
        spec_escape(s.push(c), q) == if c == q || c == '\\' {
            spec_escape(s, q) + seq!['\\', c]
        } else {
            spec_escape(s, q) + seq![c]
        },
    decreases s.len(),
{
    if s.len() == 0 {
        assert(s.push(c) =~= seq![c]);
        assert(seq![c].skip(1) =~= Seq::<char>::empty());
        assert(spec_escape(Seq::<char>::empty(), q) == Seq::<char>::empty());
        if c == q || c == '\\' {
            assert(spec_escape(s.push(c), q) =~= spec_escape(s, q) + seq!['\\', c]);
        } else {
            assert(spec_escape(s.push(c), q) =~= spec_escape(s, q) + seq![c]);
        }
    } else {
        assert(s.push(c)[0] == s[0]);
        assert(s.push(c).skip(1) =~= s.skip(1).push(c));
        lemma_escape_snoc(s.skip(1), c, q);
        if c == q || c == '\\' {
            assert(spec_escape(s.push(c), q) =~= spec_escape(s, q) + seq!['\\', c]);
        } else {
            assert(spec_escape(s.push(c), q) =~= spec_escape(s, q) + seq![c]);
        }
    }
}

/// Lowercase ASCII test on a character.
pub fn is_lower_char(c: char) -> (r: bool)
    ensures
        r == is_lower_c(c),
{
    let u = c as u32;
    97 <= u && u <= 122
}

/// First position at or after `i` holding something other than a space.
fn skip_spaces_at(t: &Vec<char>, i: usize) -> (j: usize)
    requires
        i <= t@.len(),
    ensures
        i <= j <= t@.len(),
        spec_skip_spaces(t@.skip(i as int)) == t@.skip(j as int),
{
    let mut j = i;
    while j < t.len() && t[j] == ' '
        invariant
            i <= j <= t@.len(),
            spec_skip_spaces(t@.skip(i as int)) == spec_skip_spaces(t@.skip(j as int)),
        decreases t@.len() - j,
    {
        proof {
            assert(t@.skip(j as int)[0] == t@[j as int]);
            assert(t@.skip(j as int).skip(1) =~= t@.skip(j as int + 1));
        }
        j = j + 1;
    }
    proof {
        if j < t@.len() {
            assert(t@.skip(j as int)[0] == t@[j as int]);
        }
    }
    j
}

/// End of the run of lowercase letters starting at `i`.
fn lower_run_at(t: &Vec<char>, i: usize) -> (j: usize)
    requires
        i <= t@.len(),
    ensures
        i <= j <= t@.len(),
        j - i == spec_lower_run(t@.skip(i as int)),
{
    let mut j = i;
    while j < t.len() && is_lower_char(t[j])
        invariant
            i <= j <= t@.len(),
            spec_lower_run(t@.skip(i as int)) == (j - i) + spec_lower_run(t@.skip(j as int)),
        decreases t@.len() - j,
    {
        proof {
            assert(t@.skip(j as int)[0] == t@[j as int]);
            assert(t@.skip(j as int).skip(1) =~= t@.skip(j as int + 1));
        }
        j = j + 1;
    }
    proof {
        if j < t@.len() {
            assert(t@.skip(j as int)[0] == t@[j as int]);
        }
    }
    j
}

/// Quoted-argument body starting at `i` (after the opening quote `q`):
/// returns the unescaped content and the position after the closing
/// quote.
fn parse_quoted_at(t: &Vec<char>, i: usize, q: char) -> (r: Result<
    (String, usize),
    CommandParseError,
>)
    requires
        i <= t@.len(),
    ensures
        match r {
            Ok(p) => i <= p.1 <= t@.len() && spec_parse_quoted(t@.skip(i as int), q, Seq::empty())
                == Ok::<_, ParseIssue>((p.0@, t@.skip(p.1 as int))),
            Err(e) => spec_parse_quoted(t@.skip(i as int), q, Seq::empty()) == Err::<
                (Seq<char>, Seq<char>),
                _,
            >(e@),
        },
{
    let mut acc = String::new();
    let mut cur = i;
    loop
        invariant
            i <= cur <= t@.len(),
            spec_parse_quoted(t@.skip(i as int), q, Seq::empty()) == spec_parse_quoted(
                t@.skip(cur as int),
                q,
                acc@,
            ),
        decreases t@.len() - cur,
    {
        if cur == t.len() {
            return Err(CommandParseError::UnterminatedQuote);
        }
        let c = t[cur];
        proof {
            assert(t@.skip(cur as int)[0] == t@[cur as int]);
        }
        if c == q {
            proof {
                assert(t@.skip(cur as int).skip(1) =~= t@.skip(cur as int + 1));
            }
            return Ok((acc, cur + 1));
        }
        if c == '\\' {
            if cur + 1 == t.len() {
                return Err(CommandParseError::UnterminatedQuote);
            }
            let c2 = t[cur + 1];
            proof {
                assert(t@.skip(cur as int)[1] == t@[cur as int + 1]);
            }
            if c2 == '\\' || c2 == q {
                proof {
                    assert(t@.skip(cur as int).skip(2) =~= t@.skip(cur as int + 2));
                }
                push_char(&mut acc, c2);
                cur = cur + 2;
            } else {
                return Err(CommandParseError::BadEscape { c: c2 });
            }
        } else {
            proof {
                assert(t@.skip(cur as int).skip(1) =~= t@.skip(cur as int + 1));
            }
            push_char(&mut acc, c);
            cur = cur + 1;
        }
    }
}

/// Unquoted argument starting at `i`: runs until a space or the end.
fn parse_unquoted_at(t: &Vec<char>, i: usize) -> (r: Result<(String, usize), CommandParseError>)
    requires
        i <= t@.len(),
    ensures
        match r {
            Ok(p) => i <= p.1 <= t@.len() && spec_parse_unquoted(t@.skip(i as int), Seq::empty())
                == Ok::<_, ParseIssue>((p.0@, t@.skip(p.1 as int))),
            Err(e) => spec_parse_unquoted(t@.skip(i as int), Seq::empty()) == Err::<
                (Seq<char>, Seq<char>),
                _,
            >(e@),
        },
{
    let mut acc = String::new();
    let mut cur = i;
    loop
        invariant
            i <= cur <= t@.len(),
            spec_parse_unquoted(t@.skip(i as int), Seq::empty()) == spec_parse_unquoted(
                t@.skip(cur as int),
                acc@,
            ),
        decreases t@.len() - cur,
    {
        if cur == t.len() {
            return Ok((acc, cur));
        }
        let c = t[cur];
        proof {
            assert(t@.skip(cur as int)[0] == t@[cur as int]);
        }
        if c == ' ' {
            return Ok((acc, cur));
        }
        if c == '\'' || c == '"' {
            return Err(CommandParseError::QuoteInUnquoted { c });
        }
        proof {
            assert(t@.skip(cur as int).skip(1) =~= t@.skip(cur as int + 1));
        }
        push_char(&mut acc, c);
        cur = cur + 1;
    }
}

/// One argument starting at `i`, and the position of the next token
/// after it (spaces skipped).
fn parse_arg_at(t: &Vec<char>, i: usize) -> (r: Result<(String, usize), CommandParseError>)
    requires
        i <= t@.len(),
    ensures
        match r {
            Ok(p) => i <= p.1 <= t@.len() && spec_parse_arg(t@.skip(i as int)) == Ok::<
                _,
                ParseIssue,
            >((p.0@, t@.skip(p.1 as int))),
            Err(e) => spec_parse_arg(t@.skip(i as int)) == Err::<(Seq<char>, Seq<char>), _>(e@),
        },
{
    if i < t.len() && (t[i] == '\'' || t[i] == '"') {
        let q = t[i];
        proof {
            assert(t@.skip(i as int)[0] == t@[i as int]);
            assert(t@.skip(i as int).skip(1) =~= t@.skip(i as int + 1));
        }
        match parse_quoted_at(t, i + 1, q) {
            Err(e) => Err(e),
            Ok((content, j)) => {
                proof {
                    if j < t@.len() {
                        assert(t@.skip(j as int)[0] == t@[j as int]);
                    }
                }
                if j < t.len() && t[j] != ' ' {
                    Err(CommandParseError::CharAfterQuotedArg { c: t[j] })
                } else {
                    let j2 = skip_spaces_at(t, j);
                    Ok((content, j2))
                }
            },
        }
    } else {
        proof {
            if i < t@.len() {
                assert(t@.skip(i as int)[0] == t@[i as int]);
            }
        }
        match parse_unquoted_at(t, i) {
            Err(e) => Err(e),
            Ok((tok, j)) => {
                let j2 = skip_spaces_at(t, j);
                Ok((tok, j2))
            },
        }
    }
}

/// A tokenized command line: the verb (or, for a shell escape, the
/// rest of the line), the shell flag, and the positional and keyword
/// arguments.
#[derive(Debug)]
pub struct RawCommand {
    pub main_cmd: String,
    pub shell: bool,
    pub args: Vec<String>,
    pub kwargs: Vec<(String, String)>,
}

/// Views a vector of argument strings as a sequence of character
/// sequences.
pub open spec fn args_view(v: Seq<String>) -> Seq<Seq<char>> {
    v.map_values(|a: String| a@)
}

/// Views a vector of keyword/value pairs as pairs of character
/// sequences.
pub open spec fn kwargs_view(v: Seq<(String, String)>) -> Seq<(Seq<char>, Seq<char>)> {
    v.map_values(|p: (String, String)| (p.0@, p.1@))
}

impl View for RawCommand {
    type V = RawCommandView;

    open spec fn view(&self) -> RawCommandView {
        RawCommandView {
            main_cmd: self.main_cmd@,
            shell: self.shell,
            args: args_view(self.args@),
            kwargs: kwargs_view(self.kwargs@),
        }
    }
}

impl RawCommand {
    /// Tokenizes one input line; the result is exactly what the
    /// grammar (`spec_parse_line`) assigns to it.
    pub fn parse(input: &str) -> (r: Result<RawCommand, CommandParseError>)
        ensures
            match r {
                Ok(rc) => spec_parse_line(input@) == Ok::<RawCommandView, ParseIssue>(rc@),
                Err(e) => spec_parse_line(input@) == Err::<RawCommandView, ParseIssue>(e@),
            },
    {
        let all = str_to_chars(input);
        proof {
            assert(all@.skip(0) =~= all@);
        }
        let a = skip_spaces_at(&all, 0);
        let mut e = all.len();
        proof {
            assert(all@.subrange(a as int, e as int) =~= all@.skip(a as int));
        }
        while e > a && all[e - 1] == ' '
            invariant
                a <= e <= all@.len(),
                spec_trim_trailing(all@.skip(a as int)) == spec_trim_trailing(
                    all@.subrange(a as int, e as int),
                ),
            decreases e,
        {
            proof {
                let s = all@.subrange(a as int, e as int);
                assert(s.last() == all@[e - 1]);
                assert(s.drop_last() =~= all@.subrange(a as int, e - 1));
            }
            e = e - 1;
        }
        proof {
            let s = all@.subrange(a as int, e as int);
            if e > a {
                assert(s.last() == all@[e - 1]);
            }
            assert(spec_trim_trailing(s) == s);
            assert(spec_trim(input@) == all@.subrange(a as int, e as int));
        }
        let mut t: Vec<char> = Vec::new();
        let mut k = a;
        while k < e
            invariant
                a <= k <= e <= all@.len(),
                t@ == all@.subrange(a as int, k as int),
            decreases e - k,
        {
            t.push(all[k]);
            k = k + 1;
            proof {
                assert(t@ =~= all@.subrange(a as int, k as int));
            }
        }
        proof {
            assert(t@ =~= all@.subrange(a as int, e as int));
        }
        // From here on, t holds the trimmed line.
        if t.len() == 0 {
            return Err(CommandParseError::EmptyInput);
        }
        if t[0] == '$' {
            if t.len() >= 2 {
                if t[1] == ' ' {
                    let main_cmd = chars_range_string(&t, 2, t.len());
                    let empty_args: Vec<String> = Vec::new();
                    let empty_kwargs: Vec<(String, String)> = Vec::new();
                    proof {
                        assert(t@.subrange(2, t@.len() as int) =~= t@.skip(2));
                        assert(args_view(empty_args@) =~= Seq::<Seq<char>>::empty());
                        assert(kwargs_view(empty_kwargs@) =~= Seq::<(Seq<char>, Seq<char>)>::empty());
                    }
                    return Ok(
                        RawCommand {
                            main_cmd,
                            shell: true,
                            args: empty_args,
                            kwargs: empty_kwargs,
                        },
                    );
                }
            }
            return Err(CommandParseError::ShellMarkerNoSpace);
        }
        proof {
            assert(t@.skip(0) =~= t@);
        }
        let ve = lower_run_at(&t, 0);
        let verb = chars_range_string(&t, 0, ve);
        proof {
            assert(verb@ =~= t@.take(ve as int));
        }
        if ve < t.len() && t[ve] != ' ' {
            return Err(CommandParseError::CharAfterVerb { c: t[ve], verb });
        }
        let p0 = skip_spaces_at(&t, ve);
        let mut args: Vec<String> = Vec::new();
        let mut kwargs: Vec<(String, String)> = Vec::new();
        let mut seen_kw = false;
        let mut i = p0;
        proof {
            assert(args_view(args@) =~= Seq::<Seq<char>>::empty());
            assert(kwargs_view(kwargs@) =~= Seq::<(Seq<char>, Seq<char>)>::empty());
        }
        let ghost target = spec_parse_tokens(
            t@.take(ve as int),
            t@.skip(p0 as int),
            Seq::empty(),
            Seq::empty(),
            false,
        );
        proof {
            assert(spec_parse_line(input@) == target);
        }
        while i < t.len()
            invariant
                i <= t@.len(),
                target == spec_parse_tokens(
                    t@.take(ve as int),
                    t@.skip(i as int),
                    args_view(args@),
                    kwargs_view(kwargs@),
                    seen_kw,
                ),
                spec_parse_line(input@) == target,
            decreases t@.len() - i,
        {
            let ghost s = t@.skip(i as int);
            let kwend = lower_run_at(&t, i);
            proof {
                lemma_lower_run_bounds(s);
                if kwend < t@.len() {
                    assert(s[kwend - i] == t@[kwend as int]);
                }
            }
            if kwend < t.len() && t[kwend] == '=' {
                let kw = chars_range_string(&t, i, kwend);
                proof {
                    assert(kw@ =~= s.take(kwend - i));
                    assert(t@.skip(kwend as int + 1) =~= s.skip(kwend - i + 1));
                }
                match parse_arg_at(&t, kwend + 1) {
                    Err(er) => {
                        return Err(er);
                    },
                    Ok((val, j)) => {
                        let ghost old_kwargs = kwargs@;
                        proof {
                            lemma_parse_arg_len(s.skip(kwend - i + 1));
                        }
                        kwargs.push((kw, val));
                        seen_kw = true;
                        proof {
                            assert(kwargs_view(kwargs@) =~= kwargs_view(old_kwargs).push(
                                (kw@, val@),
                            ));
                            assert(target == spec_parse_tokens(
                                t@.take(ve as int),
                                t@.skip(j as int),
                                args_view(args@),
                                kwargs_view(kwargs@),
                                true,
                            ));
                        }
                        i = j;
                    },
                }
            } else if seen_kw {
                return Err(CommandParseError::PositionalAfterKeyword);
            } else {
                match parse_arg_at(&t, i) {
                    Err(er) => {
                        return Err(er);
                    },
                    Ok((tok, j)) => {
                        let ghost old_args = args@;
                        proof {
                            lemma_parse_arg_len(s);
                        }
                        args.push(tok);
                        proof {
                            assert(args_view(args@) =~= args_view(old_args).push(tok@));
                            assert(target == spec_parse_tokens(
                                t@.take(ve as int),
                                t@.skip(j as int),
                                args_view(args@),
                                kwargs_view(kwargs@),
                                seen_kw,
                            ));
                        }
                        i = j;
                    },
                }
            }
        }
        proof {
            assert(t@.skip(i as int) =~= Seq::<char>::empty());
        }
        let rc = RawCommand { main_cmd: verb, shell: false, args, kwargs };
        Ok(rc)
    }
}

} // verus!
