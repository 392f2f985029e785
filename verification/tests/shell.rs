use minishell::builtins::{
    builtin_of, cd_failure_line, cd_target, echo_line, is_builtin, type_line, Builtin, CdFailure,
    CdTarget,
};
use minishell::lexer::tokenize;
use minishell::plan::{builtin_action, plan_line, redirects_descriptor, BuiltinAction, LinePlan};
use minishell::process::{
    child_group_failure_tolerated, exec_arguments, is_executable_mode,
    parent_group_failure_tolerated, redirect_target, wait_again, ExecArgError, RedirectTarget,
    SysError,
};

fn strings(v: &[&str]) -> Vec<String> {
    v.iter().map(|s| s.to_string()).collect()
}

#[test]
fn builtin_names() {
    for name in ["echo", "exit", "type", "pwd", "cd"] {
        assert!(is_builtin(name), "{}", name);
    }
    for name in ["ls", "", "ech", "echoo", "Echo", "cd ", "exit\n"] {
        assert!(!is_builtin(name), "{:?}", name);
    }
    assert_eq!(builtin_of("pwd"), Some(Builtin::Pwd));
    assert_eq!(builtin_of("cd"), Some(Builtin::Cd));
    assert_eq!(builtin_of("cat"), None);
}

#[test]
fn echo_joins_arguments_with_spaces() {
    assert_eq!(echo_line(&strings(&["hello", "big  world"])), "hello big  world");
    assert_eq!(echo_line(&strings(&[])), "");
    assert_eq!(echo_line(&strings(&["one"])), "one");
}

#[test]
fn type_lines() {
    assert_eq!(type_line("echo", None), "echo is a shell builtin");
    assert_eq!(type_line("type", Some("/usr/bin/type".to_string())), "type is a shell builtin");
    assert_eq!(type_line("ls", Some("/bin/ls".to_string())), "ls is /bin/ls");
    assert_eq!(type_line("nope", None), "nope: not found");
}

#[test]
fn cd_targets() {
    assert!(matches!(cd_target(&strings(&[])), CdTarget::Home));
    assert!(matches!(cd_target(&strings(&["~"])), CdTarget::Home));
    assert!(matches!(cd_target(&strings(&["-"])), CdTarget::PreviousDirectory));
    match cd_target(&strings(&["/tmp", "ignored"])) {
        CdTarget::Path(p) => assert_eq!(p, "/tmp"),
        other => panic!("unexpected {:?}", other),
    }
    match cd_target(&strings(&["~/x"])) {
        CdTarget::Path(p) => assert_eq!(p, "~/x"),
        other => panic!("unexpected {:?}", other),
    }
}

#[test]
fn cd_failure_lines() {
    assert_eq!(cd_failure_line("/nope", &CdFailure::NotFound), "cd: /nope: No such file or directory");
    assert_eq!(cd_failure_line("/root", &CdFailure::PermissionDenied), "cd: /root: Permission denied");
    assert_eq!(
        cd_failure_line("f", &CdFailure::Other("Not a directory".to_string())),
        "cd: f: Not a directory"
    );
}

#[test]
fn plan_for_empty_line() {
    assert!(matches!(plan_line(&tokenize("   \n"), 1, 2), LinePlan::Nothing));
    assert!(matches!(plan_line(&tokenize("> out\n"), 1, 2), LinePlan::Nothing));
}

#[test]
fn plan_for_external_command() {
    assert!(matches!(plan_line(&tokenize("ls -l > out\n"), 1, 2), LinePlan::External));
}

#[test]
fn plan_for_builtin_with_redirects() {
    match plan_line(&tokenize("echo a  b 2> err\n"), 1, 2) {
        LinePlan::Builtin { action: BuiltinAction::Echo(line), save_stdout, save_stderr } => {
            assert_eq!(line, "a b");
            assert!(!save_stdout);
            assert!(save_stderr);
        }
        other => panic!("unexpected {:?}", other),
    }
    match plan_line(&tokenize("pwd > out\n"), 1, 2) {
        LinePlan::Builtin { action: BuiltinAction::Pwd, save_stdout, save_stderr } => {
            assert!(save_stdout);
            assert!(!save_stderr);
        }
        other => panic!("unexpected {:?}", other),
    }
    assert!(matches!(
        plan_line(&tokenize("exit\n"), 1, 2),
        LinePlan::Builtin { action: BuiltinAction::Exit, .. }
    ));
    assert!(matches!(
        plan_line(&tokenize("cd\n"), 1, 2),
        LinePlan::Builtin { action: BuiltinAction::Cd(CdTarget::Home), .. }
    ));
    assert!(matches!(
        plan_line(&tokenize("type ls\n"), 1, 2),
        LinePlan::Builtin { action: BuiltinAction::Type, .. }
    ));
}

#[test]
fn builtin_actions() {
    assert!(matches!(builtin_action(Builtin::Cd, &strings(&["-"])), BuiltinAction::Cd(CdTarget::PreviousDirectory)));
    match builtin_action(Builtin::Echo, &strings(&["x", "y"])) {
        BuiltinAction::Echo(line) => assert_eq!(line, "x y"),
        other => panic!("unexpected {:?}", other),
    }
}

#[test]
fn redirected_descriptors() {
    let p = tokenize("echo 2>a 7>>b\n");
    assert!(redirects_descriptor(&p.redirects, 2));
    assert!(redirects_descriptor(&p.redirects, 7));
    assert!(!redirects_descriptor(&p.redirects, 1));
}

#[test]
fn executable_modes() {
    assert!(is_executable_mode(0o755));
    assert!(is_executable_mode(0o100));
    assert!(is_executable_mode(0o001));
    assert!(is_executable_mode(0o100644 | 0o010));
    assert!(!is_executable_mode(0o644));
    assert!(!is_executable_mode(0o100666));
}

#[test]
fn redirect_targets() {
    assert_eq!(redirect_target(0), RedirectTarget::Refused);
    assert_eq!(redirect_target(1), RedirectTarget::StandardOutput);
    assert_eq!(redirect_target(2), RedirectTarget::StandardError);
    assert_eq!(redirect_target(9), RedirectTarget::Descriptor(9));
}

#[test]
fn exec_argument_lists() {
    let argv = exec_arguments("/bin/ls", "ls", &strings(&["-l", "/tmp"])).unwrap();
    assert_eq!(argv, strings(&["ls", "-l", "/tmp"]));
    assert_eq!(exec_arguments("/bin/l\0s", "l\0s", &strings(&["\0"])), Err(ExecArgError::Path));
    assert_eq!(exec_arguments("/bin/ls", "l\0s", &strings(&["\0"])), Err(ExecArgError::Program));
    assert_eq!(exec_arguments("/bin/ls", "ls", &strings(&["ok", "b\0d"])), Err(ExecArgError::Argument));
    assert_eq!(exec_arguments("/bin/true", "true", &strings(&[])).unwrap(), strings(&["true"]));
}

#[test]
fn failures_let_pass() {
    assert!(child_group_failure_tolerated(SysError::Access));
    assert!(child_group_failure_tolerated(SysError::Invalid));
    assert!(!child_group_failure_tolerated(SysError::NoProcess));
    assert!(!child_group_failure_tolerated(SysError::Other));
    assert!(parent_group_failure_tolerated(SysError::Access));
    assert!(parent_group_failure_tolerated(SysError::NoProcess));
    assert!(!parent_group_failure_tolerated(SysError::Invalid));
    assert!(wait_again(SysError::Interrupted));
    assert!(!wait_again(SysError::Other));
    assert!(!wait_again(SysError::Access));
}

#[test]
fn command_not_found_line() {
    assert_eq!(minishell::builtins::not_found_line("frob"), "frob: command not found");
}
