use boj_shell::command::{Command, EnvMap, InputCommand, Setting};
use boj_shell::tokenize::CommandParseError;

fn env_of(pairs: &[(&str, &str)]) -> EnvMap {
    EnvMap {
        vars: pairs
            .iter()
            .map(|(k, v)| (k.to_string(), v.to_string()))
            .collect(),
    }
}

fn parse(line: &str) -> Result<Command, CommandParseError> {
    Command::parse_line(line, &env_of(&[]))
}

#[test]
fn builds_each_verb() {
    assert!(matches!(parse("help").unwrap(), Command::Help));
    assert!(matches!(parse("exit").unwrap(), Command::Exit));
    match parse("prob 1000").unwrap() {
        Command::Prob { prob } => assert_eq!(prob, "1000"),
        _ => panic!("wrong command"),
    }
    match parse("preset fast").unwrap() {
        Command::Preset { name } => assert_eq!(name, "fast"),
        _ => panic!("wrong command"),
    }
    match parse("build").unwrap() {
        Command::Build { build } => assert!(build.is_none()),
        _ => panic!("wrong command"),
    }
    match parse("build make").unwrap() {
        Command::Build { build } => assert_eq!(build.unwrap(), "make"),
        _ => panic!("wrong command"),
    }
    match parse("$ echo hi").unwrap() {
        Command::Shell(s) => assert_eq!(s, "echo hi"),
        _ => panic!("wrong command"),
    }
}

#[test]
fn is_exit_only_for_exit() {
    assert!(parse("exit").unwrap().is_exit());
    assert!(!parse("help").unwrap().is_exit());
}

#[test]
fn set_commands() {
    match parse("set credentials abc def").unwrap() {
        Command::SetValue(Setting::Credentials(c)) => {
            assert_eq!(c.bojautologin, "abc");
            assert_eq!(c.onlinejudge, "def");
        }
        _ => panic!("wrong command"),
    }
    match parse("set lang 'Rust 2021'").unwrap() {
        Command::SetValue(Setting::Lang(v)) => assert_eq!(v, "Rust 2021"),
        _ => panic!("wrong command"),
    }
    match parse("set file src/main.rs").unwrap() {
        Command::SetValue(Setting::File(v)) => assert_eq!(v, "src/main.rs"),
        _ => panic!("wrong command"),
    }
    match parse("set init 'cargo init {}'").unwrap() {
        Command::SetValue(Setting::Init(v)) => assert_eq!(v, "cargo init {}"),
        _ => panic!("wrong command"),
    }
    match parse("set build make").unwrap() {
        Command::SetValue(Setting::Build(v)) => assert_eq!(v, "make"),
        _ => panic!("wrong command"),
    }
    match parse("set cmd ./run").unwrap() {
        Command::SetValue(Setting::Cmd(v)) => assert_eq!(v, "./run"),
        _ => panic!("wrong command"),
    }
    match parse("set input in.txt").unwrap() {
        Command::SetValue(Setting::Input(v)) => assert_eq!(v, "in.txt"),
        _ => panic!("wrong command"),
    }
}

#[test]
fn set_arity_errors() {
    assert_eq!(parse("set").unwrap_err().message(), "set: Missing argument <variable>");
    assert_eq!(
        parse("set credentials").unwrap_err().message(),
        "set credentials: Missing arguments <bojautologin> <onlinejudge>"
    );
    assert_eq!(
        parse("set credentials onlyone").unwrap_err().message(),
        "set credentials: Missing argument <onlinejudge>"
    );
    assert_eq!(
        parse("set credentials a b c d").unwrap_err().message(),
        "set credentials: Too many arguments"
    );
    assert_eq!(
        parse("set lang").unwrap_err().message(),
        "set lang: Missing argument <lang>"
    );
    assert_eq!(
        parse("set lang a b").unwrap_err().message(),
        "set lang: Too many arguments"
    );
    assert_eq!(
        parse("set bogus x").unwrap_err().message(),
        "set: Unrecognized variable `bogus`"
    );
    assert_eq!(
        parse("set lang x c=1").unwrap_err().message(),
        "set: Unexpected keyword argument(s)"
    );
}

#[test]
fn run_test_submit_keywords() {
    match parse("run i=in.txt c=./sol").unwrap() {
        Command::Run { cmd, input } => {
            assert_eq!(cmd.unwrap(), "./sol");
            assert_eq!(input.unwrap(), "in.txt");
        }
        _ => panic!("wrong command"),
    }
    match parse("run").unwrap() {
        Command::Run { cmd, input } => {
            assert!(cmd.is_none());
            assert!(input.is_none());
        }
        _ => panic!("wrong command"),
    }
    match parse("test c=./sol").unwrap() {
        Command::Test { cmd } => assert_eq!(cmd.unwrap(), "./sol"),
        _ => panic!("wrong command"),
    }
    match parse("submit l='Rust 2021' f=sol.rs").unwrap() {
        Command::Submit { lang, file } => {
            assert_eq!(lang.unwrap(), "Rust 2021");
            assert_eq!(file.unwrap(), "sol.rs");
        }
        _ => panic!("wrong command"),
    }
}

#[test]
fn repeated_keyword_takes_the_last_value() {
    match parse("test c=first c=second").unwrap() {
        Command::Test { cmd } => assert_eq!(cmd.unwrap(), "second"),
        _ => panic!("wrong command"),
    }
}

#[test]
fn keyword_and_positional_misuse() {
    assert_eq!(
        parse("run stray").unwrap_err().message(),
        "run: Unexpected positional argument(s)"
    );
    assert_eq!(
        parse("run x=1").unwrap_err().message(),
        "run: Unexpected keyword argument(s)"
    );
    assert_eq!(
        parse("test x=1").unwrap_err().message(),
        "test: Unexpected keyword argument(s)"
    );
    assert_eq!(
        parse("submit x=1").unwrap_err().message(),
        "submit: Unexpected keyword argument(s)"
    );
    assert_eq!(
        parse("prob 1 2").unwrap_err().message(),
        "prob: Too many positional arguments"
    );
    assert_eq!(parse("prob").unwrap_err().message(), "prob: Missing argument <problem>");
    assert_eq!(parse("preset").unwrap_err().message(), "preset: Missing argument <name>");
    assert_eq!(
        parse("build a b").unwrap_err().message(),
        "build: Too many positional arguments"
    );
    assert_eq!(parse("exit now").unwrap_err().message(), "exit: Unexpected argument(s)");
    assert_eq!(parse("help me").unwrap_err().message(), "help: Unexpected argument(s)");
}

#[test]
fn unknown_verb() {
    assert_eq!(
        parse("frobnicate").unwrap_err().message(),
        "Unknown command `frobnicate`"
    );
}

#[test]
fn environment_substitution() {
    let env = env_of(&[("SOL", "main.rs"), ("L", "Rust 2021")]);
    match Command::parse_line("submit l=$L f=$SOL", &env).unwrap() {
        Command::Submit { lang, file } => {
            assert_eq!(lang.unwrap(), "Rust 2021");
            assert_eq!(file.unwrap(), "main.rs");
        }
        _ => panic!("wrong command"),
    }
    match Command::parse_line("prob $P", &env_of(&[("P", "1000")])).unwrap() {
        Command::Prob { prob } => assert_eq!(prob, "1000"),
        _ => panic!("wrong command"),
    }
}

#[test]
fn unset_environment_variable_is_fatal() {
    let e = Command::parse_line("prob $NOPE", &env_of(&[])).unwrap_err();
    assert_eq!(e.message(), "Environment variable `NOPE` not found");
}

#[test]
fn shell_lines_are_not_substituted() {
    match Command::parse_line("$ echo $HOME", &env_of(&[])).unwrap() {
        Command::Shell(s) => assert_eq!(s, "echo $HOME"),
        _ => panic!("wrong command"),
    }
}

#[test]
fn input_command_keeps_raw_text() {
    let ic = InputCommand::parse("  prob 1000  ", &env_of(&[])).unwrap();
    assert_eq!(ic.raw_text(), "  prob 1000  ");
    assert!(matches!(ic.command(), Command::Prob { .. }));
}
