use cmd_pipeline::{Command, Node, Output, Request, Run, Single, Step, Tree};

/// Stands in for a few well-known programs, so that a run can be driven
/// here without starting processes.
fn simulate(req: &Request) -> Output {
    let input = req.input.clone().unwrap_or_default();
    match req.program.as_str() {
        "echo" => Output::new(0, format!("{}\n", req.args.join(" ")), String::new()),
        "cat" => Output::new(0, input, String::new()),
        "grep" => {
            let pat = &req.args[0];
            let found: String = input
                .lines()
                .filter(|l| l.contains(pat.as_str()))
                .map(|l| format!("{}\n", l))
                .collect();
            let code = if found.is_empty() { 1 } else { 0 };
            Output::new(code, found, String::new())
        }
        "printenv" => {
            let value = req
                .env
                .iter()
                .rev()
                .find(|(k, _)| *k == req.args[0])
                .map(|(_, v)| v.clone());
            match value {
                Some(v) => Output::new(0, format!("{}\n", v), String::new()),
                None => Output::new(1, String::new(), String::new()),
            }
        }
        "pwd" => {
            let dir = req.dir.clone().unwrap_or_else(|| "/".to_string());
            Output::new(0, format!("{}\n", dir), String::new())
        }
        "true" => Output::new(0, String::new(), String::new()),
        "false" => Output::new(1, String::new(), "failed\n".to_string()),
        other => Output::new(127, String::new(), format!("{}: not found\n", other)),
    }
}

fn drive(command: impl Tree, base: Vec<(String, String)>, log: &mut Vec<Request>) -> Output {
    drive_node(&command.into_node(), base, log)
}

fn drive_node(node: &Node, base: Vec<(String, String)>, log: &mut Vec<Request>) -> Output {
    let mut run = Run::new(base);
    loop {
        match run.next(node) {
            Step::Spawn(req) => {
                let out = simulate(&req);
                log.push(req);
                run.record(out);
            }
            Step::Done { result, .. } => return run.into_output(result),
        }
    }
}

fn run_sim(command: impl Tree) -> Output {
    drive(command, Vec::new(), &mut Vec::new())
}

fn pair(k: &str, v: &str) -> (String, String) {
    (k.to_string(), v.to_string())
}

#[test]
fn pipe() {
    let command = Single::new("echo")
        .a("foo\nbar\nbaz")
        .pipe(Single::new("grep").a("bar"));
    assert_eq!(run_sim(command).stdout(), "bar\n");
}

#[test]
fn passthrough_returns_its_input() {
    let out = run_sim(Single::new("cat").with_input("any text\nat all"));
    assert_eq!(out.stdout(), "any text\nat all");
    assert!(out.success());
}

#[test]
fn pipe_keeps_matching_lines_in_order() {
    let command = Single::new("echo")
        .a("ab\ncd\nabc\nx")
        .pipe(Single::new("grep").a("b"));
    assert_eq!(run_sim(command).stdout(), "ab\nabc\n");
}

#[test]
fn pipe_overrides_pending_input() {
    let mut log = Vec::new();
    let command = Single::new("echo")
        .a("up")
        .pipe(Single::new("cat"))
        .with_input("outer");
    let out = drive(command, Vec::new(), &mut log);
    assert_eq!(out.stdout(), "up\n");
    assert_eq!(log[0].input, Some("outer".to_string()));
    assert_eq!(log[1].input, Some("up\n".to_string()));
}

#[test]
fn and_stops_after_failure() {
    let mut log = Vec::new();
    let out = drive(
        Single::new("false").and(Single::new("echo").a("marker")),
        Vec::new(),
        &mut log,
    );
    assert_eq!(log.len(), 1);
    assert_eq!(out.code(), 1);
    assert_eq!(out.stderr(), "failed\n");
    assert_eq!(out.stdout(), "");
}

#[test]
fn and_goes_on_after_success() {
    let mut log = Vec::new();
    let out = drive(
        Single::new("true").and(Single::new("echo").a("second")),
        Vec::new(),
        &mut log,
    );
    assert_eq!(log.len(), 2);
    assert_eq!(out.stdout(), "second\n");
}

#[test]
fn or_stops_after_success() {
    let mut log = Vec::new();
    let out = drive(
        Single::new("echo").a("first").or(Single::new("echo").a("marker")),
        Vec::new(),
        &mut log,
    );
    assert_eq!(log.len(), 1);
    assert_eq!(out.stdout(), "first\n");
}

#[test]
fn or_goes_on_after_failure() {
    let mut log = Vec::new();
    let out = drive(
        Single::new("false").or(Single::new("echo").a("rescue")),
        Vec::new(),
        &mut log,
    );
    assert_eq!(log.len(), 2);
    assert_eq!(out.stdout(), "rescue\n");
    assert!(out.success());
}

#[test]
fn then_runs_both_without_input() {
    let mut log = Vec::new();
    let out = drive(
        Single::new("false")
            .then(Single::new("cat"))
            .with_input("text"),
        Vec::new(),
        &mut log,
    );
    assert_eq!(log.len(), 2);
    assert_eq!(log[0].input, Some("text".to_string()));
    assert_eq!(log[1].input, None);
    assert_eq!(out.stdout(), "");
    assert!(out.success());
}

#[test]
fn env_override_wins_over_clear_and_removal() {
    let base = vec![pair("A", "1"), pair("B", "0"), pair("C", "3")];
    let echo_a = Single::new("printenv")
        .a("A")
        .env("A", "2")
        .without_env("B")
        .clear_envs();
    assert_eq!(drive(echo_a, base.clone(), &mut Vec::new()).stdout(), "2\n");
    let echo_b = Single::new("printenv")
        .a("B")
        .env("A", "2")
        .without_env("B")
        .clear_envs();
    let out = drive(echo_b, base, &mut Vec::new());
    assert_eq!(out.stdout(), "");
    assert!(!out.success());
}

#[test]
fn removal_strips_inherited_variables() {
    let base = vec![pair("A", "1"), pair("B", "0"), pair("C", "3")];
    let mut log = Vec::new();
    drive(
        Single::new("true")
            .without_envs(vec!["A".to_string(), "C".to_string()])
            .env("D", "4"),
        base,
        &mut log,
    );
    assert_eq!(log[0].env, vec![pair("B", "0"), pair("D", "4")]);
}

#[test]
fn set_variable_survives_removal() {
    let base = vec![pair("A", "1")];
    let out = drive(
        Single::new("printenv").a("A").env("A", "5").without_env("A"),
        base,
        &mut Vec::new(),
    );
    assert_eq!(out.stdout(), "5\n");
}

#[test]
fn dir_sets_working_directory() {
    assert_eq!(run_sim(Single::new("pwd").with_dir("/tmp/work")).stdout(), "/tmp/work\n");
}

#[test]
fn innermost_dir_wins() {
    let out = run_sim(Single::new("pwd").with_dir("/inner").with_dir("/outer"));
    assert_eq!(out.stdout(), "/inner\n");
}

#[test]
fn inputs_concatenate_outer_first() {
    let out = run_sim(Single::new("cat").with_input("inner").with_input("outer "));
    assert_eq!(out.stdout(), "outer inner");
}

#[test]
fn running_twice_gives_independent_outputs() {
    let command = Single::new("echo").a("x").and(Single::new("echo").a("y"));
    let node = command.into_node();
    let mut first = Vec::new();
    let mut second = Vec::new();
    let a = drive_node(&node, Vec::new(), &mut first);
    let b = drive_node(&node, Vec::new(), &mut second);
    assert_eq!(a.stdout(), "y\n");
    assert_eq!(b.stdout(), "y\n");
    assert_eq!(first.len(), 2);
    assert_eq!(second.len(), 2);
    assert_eq!(first[1].args, second[1].args);
}

#[test]
fn args_appends_in_order() {
    let mut log = Vec::new();
    drive(Single::new("echo").args(&["a", "b"]).a("c"), Vec::new(), &mut log);
    assert_eq!(log[0].program, "echo");
    assert_eq!(log[0].args, vec!["a".to_string(), "b".to_string(), "c".to_string()]);
}

#[test]
fn output_accessors() {
    let out = Output::new(3, "o".to_string(), "e".to_string());
    assert_eq!(out.code(), 3);
    assert!(!out.success());
    assert_eq!(out.stdout(), "o");
    assert_eq!(out.stderr(), "e");
    assert!(Output::new(0, String::new(), String::new()).success());
}

#[test]
fn renders_like_a_shell() {
    let command = Single::new("echo")
        .a("a")
        .pipe(Single::new("grep").a("a"))
        .and(Single::new("true").env("K", "V"))
        .or(Single::new("false").with_dir("/d"))
        .then(Single::new("cat").with_input("in").without_env("X").clear_envs());
    assert_eq!(
        command.into_node().render(),
        "echo a | grep a && K=V true || cd \"/d\"; false; CLEAR_ENV \"unset X cat < \"in\"\""
    );
    let many = Single::new("env").without_envs(vec!["A".to_string(), "B".to_string()]);
    assert_eq!(many.into_node().render(), "unset A B env");
}
