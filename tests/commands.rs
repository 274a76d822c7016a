use shell::builtins::{
    is_builtin, CdOutcome, ChangeDirCommand, EchoComand, ExitAction, ExitComand, TypeComand,
};
use shell::command::{join_from, Command};
use shell::executable::{Executable, Launch};

fn strings(v: &[&str]) -> Vec<String> {
    v.iter().map(|s| s.to_string()).collect()
}

fn exit_with(args: &[&str]) -> ExitAction {
    ExitComand { args: strings(args) }.execute()
}

#[test]
fn parse_empty_line() {
    assert!(matches!(Command::parse(""), Command::CmdNotFound));
    assert!(matches!(Command::parse("   "), Command::CmdNotFound));
}

#[test]
fn parse_builtins() {
    match Command::parse("exit 3") {
        Command::ExitCmd(e) => assert_eq!(e.args, strings(&["3"])),
        _ => panic!("expected exit"),
    }
    match Command::parse("type echo  ls") {
        Command::TypeCmd(t) => assert_eq!(t.args, strings(&["echo", "ls"])),
        _ => panic!("expected type"),
    }
    assert!(matches!(Command::parse("pwd"), Command::PWDCmd(_)));
    match Command::parse("cd /tmp") {
        Command::CDcmd(c) => assert_eq!(c.args, strings(&["/tmp"])),
        _ => panic!("expected cd"),
    }
}

#[test]
fn parse_is_case_sensitive() {
    match Command::parse("EXIT 1") {
        Command::OtherCmd(x) => {
            assert_eq!(x.name, "EXIT");
            assert_eq!(x.args, strings(&["1"]));
        }
        _ => panic!("expected an external command"),
    }
}

#[test]
fn parse_external() {
    match Command::parse("ls -l 'my dir'") {
        Command::OtherCmd(x) => {
            assert_eq!(x.name, "ls");
            assert_eq!(x.args, strings(&["-l", "my dir"]));
        }
        _ => panic!("expected an external command"),
    }
}

#[test]
fn echo_keeps_quoted_spaces() {
    match Command::parse("echo  'hello   world'") {
        Command::EchoCmd(e) => assert_eq!(e.execute(), "hello   world"),
        _ => panic!("expected echo"),
    }
}

#[test]
fn echo_joins_words_with_single_spaces() {
    match Command::parse("echo   a    b c") {
        Command::EchoCmd(e) => assert_eq!(e.text, "a b c"),
        _ => panic!("expected echo"),
    }
    match Command::parse("echo") {
        Command::EchoCmd(e) => assert_eq!(e.text, ""),
        _ => panic!("expected echo"),
    }
    assert_eq!(EchoComand { text: "x y".to_string() }.execute(), "x y");
}

#[test]
fn join_from_skips_the_head() {
    assert_eq!(join_from(&strings(&["echo", "a", "b"]), 1), "a b");
    assert_eq!(join_from(&strings(&["echo"]), 1), "");
}

#[test]
fn exit_policy() {
    assert!(matches!(exit_with(&[]), ExitAction::Terminate(0)));
    assert!(matches!(exit_with(&["42"]), ExitAction::Terminate(42)));
    assert!(matches!(exit_with(&["abc"]), ExitAction::Terminate(0)));
    match exit_with(&["1", "2"]) {
        ExitAction::Refuse(m) => assert_eq!(m, "exit: too many arguments"),
        _ => panic!("expected a refusal"),
    }
}

#[test]
fn exit_code_parsing() {
    assert!(matches!(exit_with(&["-7"]), ExitAction::Terminate(-7)));
    assert!(matches!(exit_with(&["+5"]), ExitAction::Terminate(5)));
    assert!(matches!(exit_with(&["2147483647"]), ExitAction::Terminate(2147483647)));
    assert!(matches!(exit_with(&["-2147483648"]), ExitAction::Terminate(-2147483648)));
    assert!(matches!(exit_with(&["2147483648"]), ExitAction::Terminate(0)));
    assert!(matches!(exit_with(&["-"]), ExitAction::Terminate(0)));
    assert!(matches!(exit_with(&["1x"]), ExitAction::Terminate(0)));
}

#[test]
fn builtin_registry() {
    for name in ["exit", "echo", "type", "pwd", "cd"] {
        assert!(is_builtin(&name.to_string()));
    }
    assert!(!is_builtin(&"ls".to_string()));
    assert!(!is_builtin(&"Echo".to_string()));
}

#[test]
fn type_describes_each_case() {
    let name = "cd".to_string();
    assert_eq!(
        TypeComand::describe(&name, Some("/bin/cd".to_string())),
        "cd is a shell builtin"
    );
    assert_eq!(
        TypeComand::describe(&"ls".to_string(), Some("/bin/ls".to_string())),
        "ls is /bin/ls"
    );
    assert_eq!(TypeComand::describe(&"zz".to_string(), None), "zz: not found");
}

#[test]
fn type_pwd_and_missing_command() {
    match Command::parse("type pwd nonexistentcmd123") {
        Command::TypeCmd(t) => assert_eq!(
            t.execute(),
            strings(&["pwd is a shell builtin", "nonexistentcmd123: not found"])
        ),
        _ => panic!("expected type"),
    }
}

#[test]
fn cd_decisions() {
    let one = |a: &str| ChangeDirCommand { args: strings(&[a]) };
    let home = Some("/home/u".to_string());
    assert!(matches!(
        ChangeDirCommand { args: strings(&["a", "b"]) }.decide(home.clone(), true, true),
        CdOutcome::TooManyArguments
    ));
    match (ChangeDirCommand { args: vec![] }).decide(home.clone(), false, false) {
        CdOutcome::ChangeTo(p) => assert_eq!(p, "/home/u"),
        _ => panic!("expected a change to home"),
    }
    assert!(matches!(
        ChangeDirCommand { args: vec![] }.decide(None, true, true),
        CdOutcome::HomeNotSet
    ));
    match one("~").decide(home.clone(), true, true) {
        CdOutcome::ChangeTo(p) => assert_eq!(p, "/home/u"),
        _ => panic!("expected a change to home"),
    }
    assert!(matches!(one("~").decide(None, true, true), CdOutcome::HomeNotSet));
    match one("/x").decide(None, true, true) {
        CdOutcome::ChangeTo(p) => assert_eq!(p, "/x"),
        _ => panic!("expected a change"),
    }
}

#[test]
fn cd_target_path() {
    let home = Some("/home/u".to_string());
    let one = |a: &str| ChangeDirCommand { args: strings(&[a]) };
    assert_eq!(one("~").target(&home), Some("/home/u".to_string()));
    assert_eq!(one("~").target(&None), None);
    assert_eq!(one("/tmp").target(&home), Some("/tmp".to_string()));
    assert_eq!(ChangeDirCommand { args: vec![] }.target(&home), None);
    assert_eq!(ChangeDirCommand { args: strings(&["a", "b"]) }.target(&home), None);
}

#[test]
fn cd_messages() {
    let one = |a: &str| ChangeDirCommand { args: strings(&[a]) };
    assert_eq!(
        one("/nonexistent").decide(None, false, false).message(),
        Some("cd: /nonexistent: No such file or directory".to_string())
    );
    assert_eq!(
        one("/etc/f").decide(None, true, false).message(),
        Some("cd: /etc/f: not a directory".to_string())
    );
    assert_eq!(
        ChangeDirCommand { args: strings(&["a", "b"]) }.decide(None, true, true).message(),
        Some("too many arguments".to_string())
    );
    assert_eq!(
        CdOutcome::HomeNotSet.message(),
        Some("cd: HOME not set".to_string())
    );
    assert_eq!(CdOutcome::ChangeTo("/".to_string()).message(), None);
}

#[test]
fn cd_probes_the_file_system() {
    let one = |a: &str| ChangeDirCommand { args: strings(&[a]) };
    assert_eq!(
        one("/nonexistent").execute().message(),
        Some("cd: /nonexistent: No such file or directory".to_string())
    );
    match one("/").execute() {
        CdOutcome::ChangeTo(p) => assert_eq!(p, "/"),
        _ => panic!("expected a change to /"),
    }
    assert_eq!(
        one("/etc/passwd").execute().message(),
        Some("cd: /etc/passwd: not a directory".to_string())
    );
}

#[test]
fn external_launch() {
    let e = Executable { name: "ls".to_string(), args: strings(&["-l"]) };
    match e.launch(true) {
        Launch::Spawn(n, a) => {
            assert_eq!(n, "ls");
            assert_eq!(a, strings(&["-l"]));
        }
        _ => panic!("expected a spawn"),
    }
    match e.launch(false) {
        Launch::NotFound(m) => assert_eq!(m, "ls: command not found"),
        _ => panic!("expected not found"),
    }
    let missing = Executable { name: "nonexistentcmd123".to_string(), args: vec![] };
    match missing.prepare() {
        Launch::NotFound(m) => assert_eq!(m, "nonexistentcmd123: command not found"),
        _ => panic!("expected not found"),
    }
}
