//! Closed command values and the builder that turns a tokenized line
//! into one: per-verb arity and keyword rules, and `$NAME`
//! environment-variable substitution over argument tokens.

use vstd::prelude::*;
use crate::data::Credentials;
use crate::strutil::{chars_range_string, str_eq, str_to_chars, strings_view};
use crate::tokenize::{
    kwargs_view, spec_parse_line, CommandParseError, ParseIssue, RawCommand, RawCommandView,
};

verus! {

/// One session default, with the value to store for it.
#[derive(Clone, Debug)]
pub enum Setting {
    Credentials(Credentials),
    Lang(String),
    File(String),
    Init(String),
    Build(String),
    Cmd(String),
    Input(String),
}

/// Spec-level image of a `Setting`.
pub enum SettingView {
    Credentials { bojautologin: Seq<char>, onlinejudge: Seq<char> },
    Lang(Seq<char>),
    File(Seq<char>),
    Init(Seq<char>),
    Build(Seq<char>),
    Cmd(Seq<char>),
    Input(Seq<char>),
}

impl View for Setting {
    type V = SettingView;

    open spec fn view(&self) -> SettingView {
        match self {
            Setting::Credentials(c) => SettingView::Credentials {
                bojautologin: c.bojautologin@,
                onlinejudge: c.onlinejudge@,
            },
            Setting::Lang(s) => SettingView::Lang(s@),
            Setting::File(s) => SettingView::File(s@),
            Setting::Init(s) => SettingView::Init(s@),
            Setting::Build(s) => SettingView::Build(s@),
            Setting::Cmd(s) => SettingView::Cmd(s@),
            Setting::Input(s) => SettingView::Input(s@),
        }
    }
}

/// A fully validated command, ready for dispatch.
#[derive(Clone, Debug)]
pub enum Command {
    SetValue(Setting),
    Preset { name: String },
    Prob { prob: String },
    Build { build: Option<String> },
    Run { cmd: Option<String>, input: Option<String> },
    Test { cmd: Option<String> },
    Submit { lang: Option<String>, file: Option<String> },
    Help,
    Exit,
    Shell(String),
}

/// View of an optional string.
pub open spec fn opt_view(o: Option<String>) -> Option<Seq<char>> {
    match o {
        Some(s) => Some(s@),
        None => None,
    }
}

/// Spec-level image of a `Command`.
pub enum CommandView {
    SetValue(SettingView),
    Preset { name: Seq<char> },
    Prob { prob: Seq<char> },
    Build { build: Option<Seq<char>> },
    Run { cmd: Option<Seq<char>>, input: Option<Seq<char>> },
    Test { cmd: Option<Seq<char>> },
    Submit { lang: Option<Seq<char>>, file: Option<Seq<char>> },
    Help,
    Exit,
    Shell(Seq<char>),
}

impl View for Command {
    type V = CommandView;

    open spec fn view(&self) -> CommandView {
        match self {
            Command::SetValue(s) => CommandView::SetValue(s@),
            Command::Preset { name } => CommandView::Preset { name: name@ },
            Command::Prob { prob } => CommandView::Prob { prob: prob@ },
            Command::Build { build } => CommandView::Build { build: opt_view(*build) },
            Command::Run { cmd, input } => CommandView::Run {
                cmd: opt_view(*cmd),
                input: opt_view(*input),
            },
            Command::Test { cmd } => CommandView::Test { cmd: opt_view(*cmd) },
            Command::Submit { lang, file } => CommandView::Submit {
                lang: opt_view(*lang),
                file: opt_view(*file),
            },
            Command::Help => CommandView::Help,
            Command::Exit => CommandView::Exit,
            Command::Shell(s) => CommandView::Shell(s@),
        }
    }
}

impl Command {
    /// Whether this is the exit command.
    pub fn is_exit(&self) -> (r: bool)
        ensures
            r == (*self is Exit),
    {
        match self {
            Command::Exit => true,
            _ => false,
        }
    }
}

/// The environment variables visible to command building, as
/// name/value pairs; the first pair with a given name wins.
pub struct EnvMap {
    pub vars: Vec<(String, String)>,
}

/// First value bound to `name`, if any.
pub open spec fn spec_env_lookup(vars: Seq<(Seq<char>, Seq<char>)>, name: Seq<char>) -> Option<
    Seq<char>,
>
    decreases vars.len(),
{
    if vars.len() == 0 {
        None
    } else if vars[0].0 == name {
        Some(vars[0].1)
    } else {
        spec_env_lookup(vars.skip(1), name)
    }
}

impl EnvMap {
    /// The variables as character sequences.
    pub open spec fn env_view(&self) -> Seq<(Seq<char>, Seq<char>)> {
        kwargs_view(self.vars@)
    }

    /// Looks a variable up by name.
    pub fn get(&self, name: &str) -> (r: Option<&String>)
        ensures
            match r {
                Some(v) => spec_env_lookup(self.env_view(), name@) == Some(v@),
                None => spec_env_lookup(self.env_view(), name@) is None,
            },
    {
        let mut i: usize = 0;
        proof {
            assert(self.env_view().skip(0) =~= self.env_view());
        }
        while i < self.vars.len()
            invariant
                i <= self.vars@.len(),
                spec_env_lookup(self.env_view(), name@) == spec_env_lookup(
                    self.env_view().skip(i as int),
                    name@,
                ),
            decreases self.vars@.len() - i,
        {
            proof {
                assert(self.env_view().skip(i as int)[0] == self.env_view()[i as int]);
                assert(self.env_view().skip(i as int).skip(1) =~= self.env_view().skip(
                    i as int + 1,
                ));
            }
            if str_eq(self.vars[i].0.as_str(), name) {
                return Some(&self.vars[i].1);
            }
            i = i + 1;
        }
        proof {
            assert(self.env_view().skip(i as int) =~= Seq::<(Seq<char>, Seq<char>)>::empty());
        }
        None
    }
}

/// `$NAME` substitution on one token: a token beginning with `$` is
/// replaced by the value of the environment variable named by the
/// rest, and an unset variable is an error naming it.
pub open spec fn spec_subst_token(t: Seq<char>, env: Seq<(Seq<char>, Seq<char>)>) -> Result<
    Seq<char>,
    ParseIssue,
> {
    if t.len() > 0 && t[0] == '$' {
        match spec_env_lookup(env, t.skip(1)) {
            Some(v) => Ok(v),
            None => Err(ParseIssue::EnvVarNotFound { name: t.skip(1) }),
        }
    } else {
        Ok(t)
    }
}

/// Substitution over all positional arguments, in order.
pub open spec fn spec_subst_args(args: Seq<Seq<char>>, env: Seq<(Seq<char>, Seq<char>)>) -> Result<
    Seq<Seq<char>>,
    ParseIssue,
>
    decreases args.len(),
{
    if args.len() == 0 {
        Ok(args)
    } else {
        match spec_subst_token(args[0], env) {
            Err(e) => Err(e),
            Ok(v) => match spec_subst_args(args.skip(1), env) {
                Err(e) => Err(e),
                Ok(rest) => Ok(seq![v] + rest),
            },
        }
    }
}

/// Substitution over all keyword values, in order; keys are left as
/// they are.
pub open spec fn spec_subst_kwargs(
    kwargs: Seq<(Seq<char>, Seq<char>)>,
    env: Seq<(Seq<char>, Seq<char>)>,
) -> Result<Seq<(Seq<char>, Seq<char>)>, ParseIssue>
    decreases kwargs.len(),
{
    if kwargs.len() == 0 {
        Ok(kwargs)
    } else {
        match spec_subst_token(kwargs[0].1, env) {
            Err(e) => Err(e),
            Ok(v) => match spec_subst_kwargs(kwargs.skip(1), env) {
                Err(e) => Err(e),
                Ok(rest) => Ok(seq![(kwargs[0].0, v)] + rest),
            },
        }
    }
}

/// Substitutes environment variables into one token.
fn subst_token(t: &String, env: &EnvMap) -> (r: Result<String, CommandParseError>)
    ensures
        match r {
            Ok(v) => spec_subst_token(t@, env.env_view()) == Ok::<Seq<char>, ParseIssue>(v@),
            Err(e) => spec_subst_token(t@, env.env_view()) == Err::<Seq<char>, ParseIssue>(e@),
        },
{
    let cv = str_to_chars(t.as_str());
    if cv.len() > 0 && cv[0] == '$' {
        let name = chars_range_string(&cv, 1, cv.len());
        proof {
            assert(name@ =~= t@.skip(1));
        }
        match env.get(name.as_str()) {
            Some(v) => Ok(v.clone()),
            None => Err(CommandParseError::EnvVarNotFound { name }),
        }
    } else {
        Ok(t.clone())
    }
}

/// Substitutes environment variables into every positional argument.
fn subst_args(args: &Vec<String>, env: &EnvMap) -> (r: Result<Vec<String>, CommandParseError>)
    ensures
        match r {
            Ok(v) => spec_subst_args(strings_view(args@), env.env_view()) == Ok::<
                Seq<Seq<char>>,
                ParseIssue,
            >(strings_view(v@)),
            Err(e) => spec_subst_args(strings_view(args@), env.env_view()) == Err::<
                Seq<Seq<char>>,
                ParseIssue,
            >(e@),
        },
{
    let ghost av = strings_view(args@);
    let ghost env_v = env.env_view();
    let mut out: Vec<String> = Vec::new();
    let mut i: usize = 0;
    proof {
        assert(av.skip(0) =~= av);
        assert(strings_view(out@) =~= Seq::<Seq<char>>::empty());
    }
    while i < args.len()
        invariant
            i <= args@.len(),
            av == strings_view(args@),
            env_v == env.env_view(),
            match spec_subst_args(av.skip(i as int), env_v) {
                Ok(rest) => spec_subst_args(av, env_v) == Ok::<Seq<Seq<char>>, ParseIssue>(
                    strings_view(out@) + rest,
                ),
                Err(e) => spec_subst_args(av, env_v) == Err::<Seq<Seq<char>>, ParseIssue>(e),
            },
        decreases args@.len() - i,
    {
        let ghost srem = av.skip(i as int);
        proof {
            assert(srem[0] == av[i as int]);
            assert(srem.skip(1) =~= av.skip(i as int + 1));
        }
        let ghost old_out = out@;
        match subst_token(&args[i], env) {
            Ok(v) => {
                out.push(v);
                proof {
                    assert(strings_view(out@) =~= strings_view(old_out).push(
                        strings_view(out@).last(),
                    ));
                    if let Ok(rest) = spec_subst_args(srem.skip(1), env_v) {
                        assert(strings_view(out@) + rest =~= strings_view(old_out) + (seq![
                            strings_view(out@).last(),
                        ] + rest));
                    }
                }
            },
            Err(e) => {
                return Err(e);
            },
        }
        i = i + 1;
    }
    proof {
        assert(av.skip(i as int) =~= Seq::<Seq<char>>::empty());
        assert(strings_view(out@) + Seq::<Seq<char>>::empty() =~= strings_view(out@));
    }
    Ok(out)
}

/// Substitutes environment variables into every keyword value.
fn subst_kwargs(kwargs: &Vec<(String, String)>, env: &EnvMap) -> (r: Result<
    Vec<(String, String)>,
    CommandParseError,
>)
    ensures
        match r {
            Ok(v) => spec_subst_kwargs(kwargs_view(kwargs@), env.env_view()) == Ok::<
                Seq<(Seq<char>, Seq<char>)>,
                ParseIssue,
            >(kwargs_view(v@)),
            Err(e) => spec_subst_kwargs(kwargs_view(kwargs@), env.env_view()) == Err::<
                Seq<(Seq<char>, Seq<char>)>,
                ParseIssue,
            >(e@),
        },
{
    let ghost kv = kwargs_view(kwargs@);
    let ghost env_v = env.env_view();
    let mut out: Vec<(String, String)> = Vec::new();
    let mut i: usize = 0;
    proof {
        assert(kv.skip(0) =~= kv);
        assert(kwargs_view(out@) =~= Seq::<(Seq<char>, Seq<char>)>::empty());
    }
    while i < kwargs.len()
        invariant
            i <= kwargs@.len(),
            kv == kwargs_view(kwargs@),
            env_v == env.env_view(),
            match spec_subst_kwargs(kv.skip(i as int), env_v) {
                Ok(rest) => spec_subst_kwargs(kv, env_v) == Ok::<
                    Seq<(Seq<char>, Seq<char>)>,
                    ParseIssue,
                >(kwargs_view(out@) + rest),
                Err(e) => spec_subst_kwargs(kv, env_v) == Err::<
                    Seq<(Seq<char>, Seq<char>)>,
                    ParseIssue,
                >(e),
            },
        decreases kwargs@.len() - i,
    {
        let ghost srem = kv.skip(i as int);
        proof {
            assert(srem[0] == kv[i as int]);
            assert(srem.skip(1) =~= kv.skip(i as int + 1));
        }
        let ghost old_out = out@;
        match subst_token(&kwargs[i].1, env) {
            Ok(v) => {
                let key = kwargs[i].0.clone();
                proof {
                    assert(key@ == kv[i as int].0);
                }
                out.push((key, v));
                proof {
                    assert(kwargs_view(out@) =~= kwargs_view(old_out).push(
                        kwargs_view(out@).last(),
                    ));
                    if let Ok(rest) = spec_subst_kwargs(srem.skip(1), env_v) {
                        assert(kwargs_view(out@) + rest =~= kwargs_view(old_out) + (seq![
                            kwargs_view(out@).last(),
                        ] + rest));
                    }
                }
            },
            Err(e) => {
                return Err(e);
            },
        }
        i = i + 1;
    }
    proof {
        assert(kv.skip(i as int) =~= Seq::<(Seq<char>, Seq<char>)>::empty());
        assert(kwargs_view(out@) + Seq::<(Seq<char>, Seq<char>)>::empty() =~= kwargs_view(out@));
    }
    Ok(out)
}

/// Last value given for a keyword, if any; a repeated keyword is
/// taken at its last occurrence.
pub open spec fn spec_kw_last(kwargs: Seq<(Seq<char>, Seq<char>)>, name: Seq<char>) -> Option<
    Seq<char>,
>
    decreases kwargs.len(),
{
    if kwargs.len() == 0 {
        None
    } else if kwargs.last().0 == name {
        Some(kwargs.last().1)
    } else {
        spec_kw_last(kwargs.drop_last(), name)
    }
}

/// Every keyword is one of the two allowed names.
pub open spec fn spec_keys_in(
    kwargs: Seq<(Seq<char>, Seq<char>)>,
    a: Seq<char>,
    b: Seq<char>,
) -> bool
    decreases kwargs.len(),
{
    if kwargs.len() == 0 {
        true
    } else {
        (kwargs[0].0 == a || kwargs[0].0 == b) && spec_keys_in(kwargs.skip(1), a, b)
    }
}

/// Looks a keyword up, later occurrences winning.
fn kw_get(kwargs: &Vec<(String, String)>, name: &str) -> (r: Option<String>)
    ensures
        opt_view(r) == spec_kw_last(kwargs_view(kwargs@), name@),
{
    let ghost kv = kwargs_view(kwargs@);
    let mut found: Option<String> = None;
    let mut i: usize = 0;
    proof {
        assert(kv.take(0) =~= Seq::<(Seq<char>, Seq<char>)>::empty());
    }
    while i < kwargs.len()
        invariant
            i <= kwargs@.len(),
            kv == kwargs_view(kwargs@),
            opt_view(found) == spec_kw_last(kv.take(i as int), name@),
        decreases kwargs@.len() - i,
    {
        proof {
            assert(kv.take(i as int + 1).last() == kv[i as int]);
            assert(kv.take(i as int + 1).drop_last() =~= kv.take(i as int));
        }
        if str_eq(kwargs[i].0.as_str(), name) {
            found = Some(kwargs[i].1.clone());
        }
        i = i + 1;
    }
    proof {
        assert(kv.take(i as int) =~= kv);
    }
    found
}

/// Checks that every keyword is one of the two allowed names.
fn kw_keys_in(kwargs: &Vec<(String, String)>, a: &str, b: &str) -> (r: bool)
    ensures
        r == spec_keys_in(kwargs_view(kwargs@), a@, b@),
{
    let ghost kv = kwargs_view(kwargs@);
    let mut i: usize = 0;
    proof {
        assert(kv.skip(0) =~= kv);
    }
    while i < kwargs.len()
        invariant
            i <= kwargs@.len(),
            kv == kwargs_view(kwargs@),
            spec_keys_in(kv, a@, b@) == spec_keys_in(kv.skip(i as int), a@, b@),
        decreases kwargs@.len() - i,
    {
        proof {
            assert(kv.skip(i as int)[0] == kv[i as int]);
            assert(kv.skip(i as int).skip(1) =~= kv.skip(i as int + 1));
        }
        let ka = str_eq(kwargs[i].0.as_str(), a);
        let kb = str_eq(kwargs[i].0.as_str(), b);
        if !ka && !kb {
            return false;
        }
        i = i + 1;
    }
    proof {
        assert(kv.skip(i as int) =~= Seq::<(Seq<char>, Seq<char>)>::empty());
    }
    true
}

/// What the verb `set` makes of its arguments: a field name and the
/// value(s) to store, with exact arity per field.
pub open spec fn spec_build_set(args: Seq<Seq<char>>, kwargs: Seq<(Seq<char>, Seq<char>)>) -> Result<
    CommandView,
    ParseIssue,
> {
    if args.len() == 0 {
        Err(ParseIssue::SetMissingVariable)
    } else {
        let field = args[0];
        if field == "credentials"@ {
            if args.len() == 1 {
                Err(ParseIssue::CredentialsMissingBoth)
            } else if args.len() == 2 {
                Err(ParseIssue::CredentialsMissingOne)
            } else if args.len() > 3 {
                Err(ParseIssue::SetTooManyArgs { field })
            } else if kwargs.len() > 0 {
                Err(ParseIssue::UnexpectedKeywordArgs { verb: "set"@ })
            } else {
                Ok(
                    CommandView::SetValue(
                        SettingView::Credentials { bojautologin: args[1], onlinejudge: args[2] },
                    ),
                )
            }
        } else if field == "lang"@ || field == "file"@ || field == "build"@ || field == "cmd"@
            || field == "input"@ || field == "init"@ {
            if args.len() == 1 {
                Err(ParseIssue::SetMissingValue { field })
            } else if args.len() > 2 {
                Err(ParseIssue::SetTooManyArgs { field })
            } else if kwargs.len() > 0 {
                Err(ParseIssue::UnexpectedKeywordArgs { verb: "set"@ })
            } else if field == "lang"@ {
                Ok(CommandView::SetValue(SettingView::Lang(args[1])))
            } else if field == "file"@ {
                Ok(CommandView::SetValue(SettingView::File(args[1])))
            } else if field == "build"@ {
                Ok(CommandView::SetValue(SettingView::Build(args[1])))
            } else if field == "cmd"@ {
                Ok(CommandView::SetValue(SettingView::Cmd(args[1])))
            } else if field == "input"@ {
                Ok(CommandView::SetValue(SettingView::Input(args[1])))
            } else {
                Ok(CommandView::SetValue(SettingView::Init(args[1])))
            }
        } else {
            Err(ParseIssue::SetUnknownVariable { name: field })
        }
    }
}

/// What each verb makes of its argument tokens: exact positional
/// arity, the allowed keywords, and the command value produced.
pub open spec fn spec_build(
    main: Seq<char>,
    args: Seq<Seq<char>>,
    kwargs: Seq<(Seq<char>, Seq<char>)>,
) -> Result<CommandView, ParseIssue> {
    if main == "set"@ {
        spec_build_set(args, kwargs)
    } else if main == "preset"@ {
        if args.len() == 0 {
            Err(ParseIssue::MissingArgument { verb: "preset"@, what: "name"@ })
        } else if args.len() > 1 {
            Err(ParseIssue::TooManyPositional { verb: "preset"@ })
        } else if kwargs.len() > 0 {
            Err(ParseIssue::UnexpectedKeywordArgs { verb: "preset"@ })
        } else {
            Ok(CommandView::Preset { name: args[0] })
        }
    } else if main == "prob"@ {
        if args.len() == 0 {
            Err(ParseIssue::MissingArgument { verb: "prob"@, what: "problem"@ })
        } else if args.len() > 1 {
            Err(ParseIssue::TooManyPositional { verb: "prob"@ })
        } else if kwargs.len() > 0 {
            Err(ParseIssue::UnexpectedKeywordArgs { verb: "prob"@ })
        } else {
            Ok(CommandView::Prob { prob: args[0] })
        }
    } else if main == "build"@ {
        if args.len() > 1 {
            Err(ParseIssue::TooManyPositional { verb: "build"@ })
        } else if kwargs.len() > 0 {
            Err(ParseIssue::UnexpectedKeywordArgs { verb: "build"@ })
        } else if args.len() == 1 {
            Ok(CommandView::Build { build: Some(args[0]) })
        } else {
            Ok(CommandView::Build { build: None })
        }
    } else if main == "run"@ {
        if args.len() > 0 {
            Err(ParseIssue::UnexpectedPositional { verb: "run"@ })
        } else if !spec_keys_in(kwargs, "c"@, "i"@) {
            Err(ParseIssue::UnexpectedKeywordArgs { verb: "run"@ })
        } else {
            Ok(
                CommandView::Run {
                    cmd: spec_kw_last(kwargs, "c"@),
                    input: spec_kw_last(kwargs, "i"@),
                },
            )
        }
    } else if main == "test"@ {
        if args.len() > 0 {
            Err(ParseIssue::UnexpectedPositional { verb: "test"@ })
        } else if !spec_keys_in(kwargs, "c"@, "c"@) {
            Err(ParseIssue::UnexpectedKeywordArgs { verb: "test"@ })
        } else {
            Ok(CommandView::Test { cmd: spec_kw_last(kwargs, "c"@) })
        }
    } else if main == "submit"@ {
        if args.len() > 0 {
            Err(ParseIssue::UnexpectedPositional { verb: "submit"@ })
        } else if !spec_keys_in(kwargs, "l"@, "f"@) {
            Err(ParseIssue::UnexpectedKeywordArgs { verb: "submit"@ })
        } else {
            Ok(
                CommandView::Submit {
                    lang: spec_kw_last(kwargs, "l"@),
                    file: spec_kw_last(kwargs, "f"@),
                },
            )
        }
    } else if main == "exit"@ {
        if args.len() > 0 || kwargs.len() > 0 {
            Err(ParseIssue::UnexpectedArguments { verb: "exit"@ })
        } else {
            Ok(CommandView::Exit)
        }
    } else if main == "help"@ {
        if args.len() > 0 || kwargs.len() > 0 {
            Err(ParseIssue::UnexpectedArguments { verb: "help"@ })
        } else {
            Ok(CommandView::Help)
        }
    } else {
        Err(ParseIssue::UnknownCommand { verb: main })
    }
}

/// Builds the `set` command from already-substituted tokens.
fn build_set(args: &Vec<String>, kwargs: &Vec<(String, String)>) -> (r: Result<
    Command,
    CommandParseError,
>)
    ensures
        match r {
            Ok(c) => spec_build_set(strings_view(args@), kwargs_view(kwargs@)) == Ok::<
                CommandView,
                ParseIssue,
            >(c@),
            Err(e) => spec_build_set(strings_view(args@), kwargs_view(kwargs@)) == Err::<
                CommandView,
                ParseIssue,
            >(e@),
        },
{
    if args.len() == 0 {
        return Err(CommandParseError::SetMissingVariable);
    }
    let field = &args[0];
    if str_eq(field.as_str(), "credentials") {
        if args.len() == 1 {
            Err(CommandParseError::CredentialsMissingBoth)
        } else if args.len() == 2 {
            Err(CommandParseError::CredentialsMissingOne)
        } else if args.len() > 3 {
            Err(CommandParseError::SetTooManyArgs { field: field.clone() })
        } else if kwargs.len() > 0 {
            Err(CommandParseError::UnexpectedKeywordArgs { verb: String::from_str("set") })
        } else {
            Ok(
                Command::SetValue(
                    Setting::Credentials(
                        Credentials {
                            bojautologin: args[1].clone(),
                            onlinejudge: args[2].clone(),
                        },
                    ),
                ),
            )
        }
    } else if str_eq(field.as_str(), "lang") || str_eq(field.as_str(), "file") || str_eq(
        field.as_str(),
        "build",
    ) || str_eq(field.as_str(), "cmd") || str_eq(field.as_str(), "input") || str_eq(
        field.as_str(),
        "init",
    ) {
        if args.len() == 1 {
            Err(CommandParseError::SetMissingValue { field: field.clone() })
        } else if args.len() > 2 {
            Err(CommandParseError::SetTooManyArgs { field: field.clone() })
        } else if kwargs.len() > 0 {
            Err(CommandParseError::UnexpectedKeywordArgs { verb: String::from_str("set") })
        } else if str_eq(field.as_str(), "lang") {
            Ok(Command::SetValue(Setting::Lang(args[1].clone())))
        } else if str_eq(field.as_str(), "file") {
            Ok(Command::SetValue(Setting::File(args[1].clone())))
        } else if str_eq(field.as_str(), "build") {
            Ok(Command::SetValue(Setting::Build(args[1].clone())))
        } else if str_eq(field.as_str(), "cmd") {
            Ok(Command::SetValue(Setting::Cmd(args[1].clone())))
        } else if str_eq(field.as_str(), "input") {
            Ok(Command::SetValue(Setting::Input(args[1].clone())))
        } else {
            Ok(Command::SetValue(Setting::Init(args[1].clone())))
        }
    } else {
        Err(CommandParseError::SetUnknownVariable { name: field.clone() })
    }
}

/// Builds a command value from substituted tokens, enforcing each
/// verb's arity and keyword rules.
pub fn build_command(main: &String, args: &Vec<String>, kwargs: &Vec<(String, String)>) -> (r:
    Result<Command, CommandParseError>)
    ensures
        match r {
            Ok(c) => spec_build(main@, strings_view(args@), kwargs_view(kwargs@)) == Ok::<
                CommandView,
                ParseIssue,
            >(c@),
            Err(e) => spec_build(main@, strings_view(args@), kwargs_view(kwargs@)) == Err::<
                CommandView,
                ParseIssue,
            >(e@),
        },
{
    if str_eq(main.as_str(), "set") {
        build_set(args, kwargs)
    } else if str_eq(main.as_str(), "preset") {
        if args.len() == 0 {
            Err(
                CommandParseError::MissingArgument {
                    verb: String::from_str("preset"),
                    what: String::from_str("name"),
                },
            )
        } else if args.len() > 1 {
            Err(CommandParseError::TooManyPositional { verb: String::from_str("preset") })
        } else if kwargs.len() > 0 {
            Err(CommandParseError::UnexpectedKeywordArgs { verb: String::from_str("preset") })
        } else {
            Ok(Command::Preset { name: args[0].clone() })
        }
    } else if str_eq(main.as_str(), "prob") {
        if args.len() == 0 {
            Err(
                CommandParseError::MissingArgument {
                    verb: String::from_str("prob"),
                    what: String::from_str("problem"),
                },
            )
        } else if args.len() > 1 {
            Err(CommandParseError::TooManyPositional { verb: String::from_str("prob") })
        } else if kwargs.len() > 0 {
            Err(CommandParseError::UnexpectedKeywordArgs { verb: String::from_str("prob") })
        } else {
            Ok(Command::Prob { prob: args[0].clone() })
        }
    } else if str_eq(main.as_str(), "build") {
        if args.len() > 1 {
            Err(CommandParseError::TooManyPositional { verb: String::from_str("build") })
        } else if kwargs.len() > 0 {
            Err(CommandParseError::UnexpectedKeywordArgs { verb: String::from_str("build") })
        } else if args.len() == 1 {
            Ok(Command::Build { build: Some(args[0].clone()) })
        } else {
            Ok(Command::Build { build: None })
        }
    } else if str_eq(main.as_str(), "run") {
        if args.len() > 0 {
            Err(CommandParseError::UnexpectedPositional { verb: String::from_str("run") })
        } else if !kw_keys_in(kwargs, "c", "i") {
            Err(CommandParseError::UnexpectedKeywordArgs { verb: String::from_str("run") })
        } else {
            let cmd = kw_get(kwargs, "c");
            let input = kw_get(kwargs, "i");
            Ok(Command::Run { cmd, input })
        }
    } else if str_eq(main.as_str(), "test") {
        if args.len() > 0 {
            Err(CommandParseError::UnexpectedPositional { verb: String::from_str("test") })
        } else if !kw_keys_in(kwargs, "c", "c") {
            Err(CommandParseError::UnexpectedKeywordArgs { verb: String::from_str("test") })
        } else {
            let cmd = kw_get(kwargs, "c");
            Ok(Command::Test { cmd })
        }
    } else if str_eq(main.as_str(), "submit") {
        if args.len() > 0 {
            Err(CommandParseError::UnexpectedPositional { verb: String::from_str("submit") })
        } else if !kw_keys_in(kwargs, "l", "f") {
            Err(CommandParseError::UnexpectedKeywordArgs { verb: String::from_str("submit") })
        } else {
            let lang = kw_get(kwargs, "l");
            let file = kw_get(kwargs, "f");
            Ok(Command::Submit { lang, file })
        }
    } else if str_eq(main.as_str(), "exit") {
        if args.len() > 0 || kwargs.len() > 0 {
            Err(CommandParseError::UnexpectedArguments { verb: String::from_str("exit") })
        } else {
            Ok(Command::Exit)
        }
    } else if str_eq(main.as_str(), "help") {
        if args.len() > 0 || kwargs.len() > 0 {
            Err(CommandParseError::UnexpectedArguments { verb: String::from_str("help") })
        } else {
            Ok(Command::Help)
        }
    } else {
        Err(CommandParseError::UnknownCommand { verb: main.clone() })
    }
}

/// What a tokenized line means: a shell escape passes through as it
/// is; any other line has its arguments substituted and its verb's
/// rules applied.
pub open spec fn spec_command_of_raw(rc: RawCommandView, env: Seq<(Seq<char>, Seq<char>)>) -> Result<
    CommandView,
    ParseIssue,
> {
    if rc.shell {
        Ok(CommandView::Shell(rc.main_cmd))
    } else {
        match spec_subst_args(rc.args, env) {
            Err(e) => Err(e),
            Ok(args) => match spec_subst_kwargs(rc.kwargs, env) {
                Err(e) => Err(e),
                Ok(kwargs) => spec_build(rc.main_cmd, args, kwargs),
            },
        }
    }
}

/// What one raw input line means under the given environment.
pub open spec fn spec_command_of_line(line: Seq<char>, env: Seq<(Seq<char>, Seq<char>)>) -> Result<
    CommandView,
    ParseIssue,
> {
    match spec_parse_line(line) {
        Err(e) => Err(e),
        Ok(rc) => spec_command_of_raw(rc, env),
    }
}

impl Command {
    /// Builds a command from a tokenized line, substituting
    /// environment variables into the argument tokens first.
    pub fn from_raw(raw: &RawCommand, env: &EnvMap) -> (r: Result<Command, CommandParseError>)
        ensures
            match r {
                Ok(c) => spec_command_of_raw(raw@, env.env_view()) == Ok::<
                    CommandView,
                    ParseIssue,
                >(c@),
                Err(e) => spec_command_of_raw(raw@, env.env_view()) == Err::<
                    CommandView,
                    ParseIssue,
                >(e@),
            },
    {
        if raw.shell {
            return Ok(Command::Shell(raw.main_cmd.clone()));
        }
        let args = match subst_args(&raw.args, env) {
            Ok(v) => v,
            Err(e) => {
                return Err(e);
            },
        };
        let kwargs = match subst_kwargs(&raw.kwargs, env) {
            Ok(v) => v,
            Err(e) => {
                return Err(e);
            },
        };
        build_command(&raw.main_cmd, &args, &kwargs)
    }

    /// Parses one input line into a command under the given
    /// environment: tokenizing, substituting, and validating, exactly
    /// as `spec_command_of_line` states.
    pub fn parse_line(line: &str, env: &EnvMap) -> (r: Result<Command, CommandParseError>)
        ensures
            match r {
                Ok(c) => spec_command_of_line(line@, env.env_view()) == Ok::<
                    CommandView,
                    ParseIssue,
                >(c@),
                Err(e) => spec_command_of_line(line@, env.env_view()) == Err::<
                    CommandView,
                    ParseIssue,
                >(e@),
            },
    {
        match RawCommand::parse(line) {
            Err(e) => Err(e),
            Ok(raw) => Command::from_raw(&raw, env),
        }
    }
}

/// A parsed command together with the raw text it came from.
#[derive(Clone, Debug)]
pub struct InputCommand {
    pub raw_command: String,
    pub command: Command,
}

impl InputCommand {
    /// Parses one input line, keeping the original text alongside the
    /// command value.
    pub fn parse(line: &str, env: &EnvMap) -> (r: Result<InputCommand, CommandParseError>)
        ensures
            match r {
                Ok(ic) => spec_command_of_line(line@, env.env_view()) == Ok::<
                    CommandView,
                    ParseIssue,
                >(ic.command@) && ic.raw_command@ == line@,
                Err(e) => spec_command_of_line(line@, env.env_view()) == Err::<
                    CommandView,
                    ParseIssue,
                >(e@),
            },
    {
        match Command::parse_line(line, env) {
            Err(e) => Err(e),
            Ok(command) => Ok(InputCommand { raw_command: line.to_owned(), command }),
        }
    }

    /// The parsed command.
    pub fn command(&self) -> (r: &Command)
        ensures
            r == &self.command,
    {
        &self.command
    }

    /// The line the command was typed as.
    pub fn raw_text(&self) -> (r: &String)
        ensures
            r@ == self.raw_command@,
    {
        &self.raw_command
    }
}

} // verus!
