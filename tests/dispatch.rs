use shellob::{Action, Builtin, CommandLine, Effect, Shell};

fn strings(ws: &[&str]) -> Vec<String> {
    ws.iter().map(|w| w.to_string()).collect()
}

fn parse(ws: &[&str]) -> CommandLine {
    CommandLine::from_tokens(&strings(ws)).unwrap()
}

#[test]
fn no_tokens_no_command() {
    assert!(CommandLine::from_tokens(&Vec::new()).is_none());
}

#[test]
fn plain_command_has_no_target() {
    let cl = parse(&["echo", "hi", "there"]);
    assert_eq!(cl.name, "echo");
    assert_eq!(cl.args, strings(&["hi", "there"]));
    assert_eq!(cl.target, None);
    assert_eq!(cl.joined_args(), "hi there");
}

#[test]
fn redirect_operator_names_target() {
    let cl = parse(&["echo", "hi", ">", "/tmp/out.txt"]);
    assert_eq!(cl.args, strings(&["hi"]));
    assert_eq!(cl.target, Some("/tmp/out.txt".to_string()));
}

#[test]
fn stdout_operator_names_target() {
    let cl = parse(&["ls", "-l", "1>", "list.txt", "ignored"]);
    assert_eq!(cl.args, strings(&["-l"]));
    assert_eq!(cl.target, Some("list.txt".to_string()));
}

#[test]
fn only_first_operator_counts() {
    let cl = parse(&["echo", "a", ">", "f1", ">", "f2"]);
    assert_eq!(cl.args, strings(&["a"]));
    assert_eq!(cl.target, Some("f1".to_string()));
}

#[test]
fn dangling_operator_is_an_argument() {
    let cl = parse(&["echo", "hi", "1>"]);
    assert_eq!(cl.args, strings(&["hi", "1>"]));
    assert_eq!(cl.target, None);
    let plain = parse(&["echo", "hi", ">"]);
    assert_eq!(plain.args, strings(&["hi", ">"]));
    assert_eq!(plain.target, None);
}

#[test]
fn operator_as_command_name() {
    let cl = parse(&[">", "f"]);
    assert_eq!(cl.name, ">");
    assert!(cl.args.is_empty());
    assert_eq!(cl.target, Some("f".to_string()));
}

#[test]
fn registry_lookup_is_exact() {
    let sh = Shell::new();
    assert_eq!(sh.lookup("cd"), Some(Builtin::Cd));
    assert_eq!(sh.lookup("echo"), Some(Builtin::Echo));
    assert_eq!(sh.lookup("exit"), Some(Builtin::Exit));
    assert_eq!(sh.lookup("type"), Some(Builtin::Type));
    assert_eq!(sh.lookup("Echo"), None);
    assert_eq!(sh.lookup("ech"), None);
    assert_eq!(sh.lookup(""), None);
}

#[test]
fn echo_prints_joined_arguments() {
    let sh = Shell::new();
    let cl = parse(&["echo", "hi", "there"]);
    let action = sh.plan(&cl, None);
    assert_eq!(
        action,
        Action::RunBuiltin { builtin: Builtin::Echo, arg: "hi there".to_string(), target: None }
    );
    assert_eq!(sh.run_builtin(Builtin::Echo, "hi there", None), Effect::Print("hi there\n".to_string()));
}

#[test]
fn echo_redirected_writes_target() {
    let sh = Shell::new();
    let cl = parse(&["echo", "hi", ">", "/tmp/out.txt"]);
    let action = sh.plan(&cl, None);
    assert_eq!(
        action,
        Action::RunBuiltin {
            builtin: Builtin::Echo,
            arg: "hi".to_string(),
            target: Some("/tmp/out.txt".to_string()),
        }
    );
    assert_eq!(sh.run_builtin(Builtin::Echo, "hi", None), Effect::Print("hi\n".to_string()));
}

#[test]
fn unknown_command_not_found() {
    let sh = Shell::new();
    let cl = parse(&["nosuchcmd", "x"]);
    assert_eq!(
        sh.plan(&cl, None),
        Action::NotFound { message: "nosuchcmd: command not found".to_string() }
    );
}

#[test]
fn builtin_wins_over_search_path() {
    let sh = Shell::new();
    let cl = parse(&["echo", "x"]);
    let action = sh.plan(&cl, Some("/bin/echo".to_string()));
    assert_eq!(
        action,
        Action::RunBuiltin { builtin: Builtin::Echo, arg: "x".to_string(), target: None }
    );
}

#[test]
fn found_program_runs_external() {
    let sh = Shell::new();
    let cl = parse(&["ls", "-l", "/tmp", ">", "out"]);
    assert_eq!(
        sh.plan(&cl, Some("/bin/ls".to_string())),
        Action::RunExternal {
            path: "/bin/ls".to_string(),
            args: strings(&["-l", "/tmp"]),
            target: Some("out".to_string()),
        }
    );
}

#[test]
fn exit_only_on_zero() {
    let sh = Shell::new();
    assert_eq!(sh.run_builtin(Builtin::Exit, "0", None), Effect::Exit);
    assert_eq!(
        sh.run_builtin(Builtin::Exit, "1", None),
        Effect::Print("1: invalid argument\n".to_string())
    );
    assert_eq!(
        sh.run_builtin(Builtin::Exit, "", None),
        Effect::Print(": invalid argument\n".to_string())
    );
}

#[test]
fn type_reports_kind() {
    let sh = Shell::new();
    assert_eq!(
        sh.run_builtin(Builtin::Type, "", None),
        Effect::Print("type: not enough arguments\n".to_string())
    );
    assert_eq!(
        sh.run_builtin(Builtin::Type, "echo", Some("/bin/echo".to_string())),
        Effect::Print("echo is a shellob builtin\n".to_string())
    );
    assert_eq!(
        sh.run_builtin(Builtin::Type, "ls", Some("/bin/ls".to_string())),
        Effect::Print("ls is /bin/ls\n".to_string())
    );
    assert_eq!(
        sh.run_builtin(Builtin::Type, "nosuch", None),
        Effect::Print("nosuch: not found\n".to_string())
    );
}

#[test]
fn cd_takes_first_word_or_root() {
    let sh = Shell::new();
    assert_eq!(sh.run_builtin(Builtin::Cd, "", None), Effect::ChangeDir("/".to_string()));
    assert_eq!(sh.run_builtin(Builtin::Cd, "   ", None), Effect::ChangeDir("/".to_string()));
    assert_eq!(sh.run_builtin(Builtin::Cd, "dir", None), Effect::ChangeDir("dir".to_string()));
    assert_eq!(
        sh.run_builtin(Builtin::Cd, " \t/tmp  other", None),
        Effect::ChangeDir("/tmp".to_string())
    );
}
