use rsh::native::error::{Errno, Error};
use rsh::native::file_stat::FileStat;
use rsh::native::execute;
use rsh::shell::resolver::{Invocation, OpenMode, Redirection, Target};
use rsh::shell::{check_file, get_prompt, Job, Script, Shell, Step, FAILURE};

fn strings(items: &[&str]) -> Vec<String> {
    items.iter().map(|item| item.to_string()).collect()
}

fn pairs(items: &[(&str, &str)]) -> Vec<(String, String)> {
    items.iter().map(|(name, value)| (name.to_string(), value.to_string())).collect()
}

fn shell(argv: &[&str]) -> Shell {
    Shell::new(
        strings(argv),
        1000,
        Some("/usr/bin:/bin"),
        String::from("/home/u"),
        String::from("/home/u/work"),
        Some("box"),
    )
}

#[test]
fn is_login_regular() {
    let args: Vec<String> = vec!["rsh", "hello.rsh"]
        .iter()
        .map(|s| s.to_string())
        .collect();
    assert_eq!(Shell::is_login(&args), false);
}

#[test]
fn is_login_minus_and_arg() {
    let args = vec!["-rsh", "hello.rsh"]
        .iter()
        .map(|s| s.to_string())
        .collect();
    assert_eq!(Shell::is_login(&args), false);
}

#[test]
fn is_login_minus_no_args() {
    let args = vec!["-rsh"].iter().map(|s| s.to_string()).collect();
    assert_eq!(Shell::is_login(&args), true);
}

#[test]
fn is_login_argument_login() {
    let args = vec!["rsh", "-l"].iter().map(|s| s.to_string()).collect();
    assert_eq!(Shell::is_login(&args), true);
}

#[test]
fn is_login_argument_login_and_another() {
    let args = vec!["rsh", "-l", "hello.rsh"]
        .iter()
        .map(|s| s.to_string())
        .collect();
    assert_eq!(Shell::is_login(&args), false);
}

#[test]
fn is_login_looks_at_the_whole_option() {
    assert_eq!(Shell::is_login(&strings(&["rsh", "-login"])), false);
    assert_eq!(Shell::is_login(&strings(&["rsh", "-"])), false);
    assert_eq!(Shell::is_login(&strings(&["rsh"])), false);
    assert_eq!(Shell::is_login(&strings(&[""])), false);
    assert_eq!(Shell::is_login(&strings(&["-"])), true);
}

#[test]
fn a_new_shell() {
    let shell = shell(&["-rsh"]);
    assert!(shell.is_login);
    assert_eq!(shell.argv, strings(&["-rsh"]));
    assert_eq!(shell.user, 1000);
    assert_eq!(shell.status, 0);
    assert_eq!(shell.home, "/home/u");
    assert_eq!(shell.cwd, "/home/u/work");
    assert_eq!(shell.path, strings(&["/usr/bin", "/bin"]));
    assert_eq!(shell.prompt, "box% ");
    assert_eq!(shell.variables.get("HOME"), None);
}

#[test]
fn a_new_shell_without_a_search_path() {
    let shell = Shell::new(
        strings(&["rsh", "script"]),
        0,
        None,
        String::from("/root"),
        String::from("/"),
        None,
    );
    assert!(!shell.is_login);
    assert_eq!(shell.path, strings(&["/usr/bin"]));
    assert_eq!(shell.prompt, "hostname# ");
}

#[test]
fn the_search_path_may_hold_empty_directories() {
    let shell = Shell::new(
        strings(&["rsh"]),
        1,
        Some(":/bin:"),
        String::from("/root"),
        String::from("/"),
        None,
    );
    assert_eq!(shell.path, strings(&["", "/bin", ""]));
}

#[test]
fn the_prompt_tells_the_superuser() {
    assert_eq!(get_prompt(0, Some("box")), "box# ");
    assert_eq!(get_prompt(1, Some("box")), "box% ");
    assert_eq!(get_prompt(0, None), "hostname# ");
    assert_eq!(get_prompt(4294967295, None), "hostname% ");
    assert_eq!(get_prompt(1000, Some("")), "% ");
}

#[test]
fn check_file_wants_the_read_bit_of_the_owner_or_the_group() {
    let stat = |mode| FileStat { uid: 10, gid: 20, mode };
    assert!(check_file(&stat(0o400), 10, 99));
    assert!(check_file(&stat(0o100644), 10, 99));
    assert!(!check_file(&stat(0o200), 10, 99));
    assert!(!check_file(&stat(0o040), 10, 99));
    assert!(check_file(&stat(0o040), 99, 20));
    assert!(!check_file(&stat(0o400), 99, 20));
    assert!(!check_file(&stat(0o004), 99, 98));
    assert!(!check_file(&stat(0o777), 99, 98));
    assert!(check_file(&stat(0o440), 10, 20));
    assert!(!check_file(&stat(0), 10, 20));
}

#[test]
fn a_login_shell_starts_with_three_scripts() {
    assert_eq!(
        shell(&["-rsh"]).on_start(),
        strings(&["/etc/.login", ".cshrc", ".login"])
    );
}

#[test]
fn any_other_shell_starts_with_one_script() {
    assert_eq!(shell(&["rsh"]).on_start(), strings(&[".cshrc"]));
}

#[test]
fn the_system_login_script_is_checked_like_the_others() {
    let shell = shell(&["-rsh"]);
    assert_eq!(shell.rc_file("/etc/.login"), "/etc/.login");
    let stat = FileStat { uid: 0, gid: 0, mode: 0o100644 };
    assert_eq!(shell.interpret_rc("/etc/.login", &stat, 0, 0), Some(String::from("/etc/.login")));
    assert_eq!(shell.interpret_rc("/etc/.login", &stat, 1000, 0), Some(String::from("/etc/.login")));
    assert_eq!(shell.interpret_rc("/etc/.login", &stat, 1000, 1000), None);
    let stat = FileStat { uid: 0, gid: 0, mode: 0o100200 };
    assert_eq!(shell.interpret_rc("/etc/.login", &stat, 0, 0), None);
}

#[test]
fn rc_files_are_in_the_home_directory() {
    let shell = shell(&["rsh"]);
    assert_eq!(shell.rc_file(".cshrc"), "/home/u/.cshrc");
    assert_eq!(shell.rc_file(".logout"), "/home/u/.logout");
}

#[test]
fn an_rc_file_is_interpreted_where_it_may_be_read() {
    let shell = shell(&["rsh"]);
    let stat = FileStat { uid: 1000, gid: 50, mode: 0o100600 };
    assert_eq!(shell.interpret_rc(".cshrc", &stat, 1000, 1000), Some(String::from("/home/u/.cshrc")));
    assert_eq!(shell.interpret_rc(".cshrc", &stat, 1001, 50), None);
    let stat = FileStat { uid: 0, gid: 50, mode: 0o100640 };
    assert_eq!(shell.interpret_rc(".login", &stat, 1000, 50), Some(String::from("/home/u/.login")));
    assert_eq!(shell.interpret_rc(".login", &stat, 1000, 51), None);
}

#[test]
fn arguments_ask_for_jobs() {
    assert_eq!(shell(&["rsh"]).handle_arguments(), Vec::new());
    assert_eq!(
        shell(&["rsh", "a.rsh", "-", "-x", "--", "b.rsh", ""]).handle_arguments(),
        vec![
            Job::Interpret(String::from("a.rsh")),
            Job::Interact,
            Job::Interpret(String::from("b.rsh")),
            Job::Interpret(String::new()),
        ]
    );
    assert_eq!(shell(&["-", "-"]).handle_arguments(), vec![Job::Interact]);
    assert_eq!(shell(&["rsh", "-l"]).handle_arguments(), Vec::new());
}

#[test]
fn a_script_with_an_interpreter_is_a_program() {
    let shell = shell(&["rsh"]);
    let expected = Invocation {
        environment: Vec::new(),
        command: String::from("/tmp/run.sh"),
        arguments: strings(&["/tmp/run.sh"]),
        redirections: Vec::new(),
    };
    assert_eq!(shell.interpret("/tmp/run.sh", "#!/bin/sh"), Script::Execute(expected.clone()));
    assert_eq!(shell.interpret("/tmp/run.sh", "#!"), Script::Execute(expected));
}

#[test]
fn any_other_script_is_read() {
    let shell = shell(&["rsh"]);
    assert_eq!(shell.interpret("/tmp/run.sh", "ls -l"), Script::Read);
    assert_eq!(shell.interpret("/tmp/run.sh", "#"), Script::Read);
    assert_eq!(shell.interpret("/tmp/run.sh", ""), Script::Read);
    assert_eq!(shell.interpret("/tmp/run.sh", " #!/bin/sh"), Script::Read);
    assert_eq!(shell.interpret("/tmp/run.sh", "!#"), Script::Read);
}

#[test]
fn exit_stops_the_loop() {
    let mut shell = shell(&["rsh"]);
    assert_eq!(shell.interact("exit", &Vec::new()), Step::Stop);
    assert_eq!(shell.status, 0);
}

#[test]
fn pwd_prints_the_working_directory() {
    let mut shell = shell(&["rsh"]);
    assert_eq!(shell.interact("pwd", &Vec::new()), Step::Print(String::from("/home/u/work\n")));
    assert_eq!(shell.status, 0);
}

#[test]
fn a_line_that_cannot_be_run_is_reported() {
    let mut shell = shell(&["rsh"]);
    let before = shell.clone();
    assert_eq!(shell.interact("", &Vec::new()), Step::Report(String::from("Value was not found\n")));
    assert_eq!(shell.status, FAILURE);
    assert_ne!(shell.status, 0);
    shell.status = 0;
    assert_eq!(shell, before);
    assert_eq!(
        shell.interact("ls x>y", &Vec::new()),
        Step::Report(String::from("Value was not found\n"))
    );
    assert_eq!(shell.status, 1);
}

#[test]
fn a_program_is_run() {
    let mut shell = shell(&["rsh"]);
    shell.status = 7;
    let step = shell.interact("A=1 ls -l 2>&1", &Vec::new());
    let expected = Invocation {
        environment: pairs(&[("A", "1")]),
        command: String::from("ls"),
        arguments: strings(&["ls", "-l"]),
        redirections: vec![Redirection { source: 2, target: Target::Descriptor(1) }],
    };
    assert_eq!(step, Step::Run(expected));
    assert_eq!(shell.status, 7);
}

#[test]
fn the_status_of_a_program_is_kept() {
    let mut shell = shell(&["rsh"]);
    assert_eq!(shell.finish(Ok(0)), None);
    assert_eq!(shell.status, 0);
    assert_eq!(shell.finish(Ok(256)), None);
    assert_eq!(shell.status, 256);
    assert_eq!(shell.finish(Ok(-1)), None);
    assert_eq!(shell.status, -1);
}

#[test]
fn a_program_that_did_not_run_is_reported() {
    let mut shell = shell(&["rsh"]);
    let before = shell.clone();
    let error = Error::Errno(Errno::new(11, String::from("Resource temporarily unavailable")));
    assert_eq!(shell.finish(Err(error)), Some(String::from("Resource temporarily unavailable\n")));
    assert_eq!(shell.status, FAILURE);
    assert_eq!(shell.finish(Err(Error::NotFound)), Some(String::from("Value was not found\n")));
    assert_eq!(shell.status, FAILURE);
    shell.status = 0;
    assert_eq!(shell, before);
}

#[test]
fn echo_from_line_to_image() {
    let mut shell = shell(&["rsh"]);
    let environment = pairs(&[("PATH", "/usr/bin:/bin"), ("HOME", "/home/u")]);
    let invocation = match shell.interact("echo hi", &environment) {
        Step::Run(invocation) => invocation,
        other => panic!("{:?}", other),
    };
    let listings = vec![strings(&["env"]), strings(&["cat", "echo"])];
    let path = shell.search_path(&invocation.command, &listings).unwrap();
    assert_eq!(path, "/bin/echo");
    let image = execute(&path, &invocation.arguments, &invocation.envp(&environment)).unwrap();
    assert_eq!(image.path, b"/bin/echo\0".to_vec());
    assert_eq!(image.arguments, vec![b"echo\0".to_vec(), b"hi\0".to_vec()]);
    assert_eq!(
        image.environment,
        vec![b"PATH=/usr/bin:/bin\0".to_vec(), b"HOME=/home/u\0".to_vec()]
    );
    assert_eq!(invocation.redirections, Vec::new());
    assert_eq!(shell.finish(Ok(0)), None);
    assert_eq!(shell.status, 0);
}

#[test]
fn a_redirected_program_from_line_to_image() {
    let mut shell = shell(&["rsh"]);
    let invocation = match shell.interact("LANG=C echo hi >out.txt", &Vec::new()) {
        Step::Run(invocation) => invocation,
        other => panic!("{:?}", other),
    };
    assert_eq!(
        invocation.redirections,
        vec![Redirection {
            source: 1,
            target: Target::File {
                path: String::from("out.txt"),
                mode: OpenMode { create: true, write: true, permissions: 0o400 },
            },
        }]
    );
    assert_eq!(invocation.envp(&Vec::new()), strings(&["LANG=C"]));
}
