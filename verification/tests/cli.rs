use cmux_axi::cli::{help, required, route, takes_value, Command, Parsed};

fn args(v: &[&str]) -> Vec<String> {
    v.iter().map(|s| s.to_string()).collect()
}

#[test]
fn flags_take_values_in_three_forms() {
    let p = Parsed::parse(&args(&["send", "--project=x", "--devs", "3", "--json", "proj", "--cwd"]));
    assert_eq!(p.positionals, args(&["send", "proj"]));
    assert_eq!(p.value("project").as_deref(), Some("x"));
    assert_eq!(p.value("devs").as_deref(), Some("3"));
    assert!(p.flag("json"));
    assert_eq!(p.value("json"), None);
    assert!(p.flag("cwd"));
    assert_eq!(p.value("cwd"), None);
    assert!(!p.flag("harness"));
}

#[test]
fn only_named_flags_consume_the_next_token() {
    let p = Parsed::parse(&args(&["teardown", "--force", "proj"]));
    assert_eq!(p.positionals, args(&["teardown", "proj"]));
    assert!(takes_value("seed-prompt"));
    assert!(!takes_value("force"));
}

#[test]
fn the_last_value_of_a_flag_wins() {
    let p = Parsed::parse(&args(&["x", "--layout", "a", "--layout=b"]));
    assert_eq!(p.value("layout").as_deref(), Some("b"));
    assert_eq!(p.value_or("harness", "omp"), "omp");
}

#[test]
fn bare_invocation_is_the_dashboard_and_help_flags_come_first() {
    match route(&[]).unwrap().command {
        Command::Status { project } => assert_eq!(project, None),
        _ => panic!("a bare invocation is the status dashboard"),
    }
    assert!(matches!(route(&args(&["status", "-h"])).unwrap().command, Command::Help));
    assert!(matches!(route(&args(&["bogus", "--version"])).unwrap().command, Command::PrintVersion));
    assert!(help().starts_with("usage: cmux-axi [command]"));
}

#[test]
fn provision_reads_its_flags_with_defaults() {
    match route(&args(&["provision", "demo", "--devs", "x"])).unwrap().command {
        Command::Provision { project, cwd, harness, devs, layout } => {
            assert_eq!(project, "demo");
            assert_eq!(cwd, ".");
            assert_eq!(harness, "omp");
            assert_eq!(devs, 2);
            assert_eq!(layout, "3by2");
        }
        _ => panic!("not provision"),
    }
    match route(&args(&["provision", "demo", "--devs=+4", "--layout", "2by2"])).unwrap().command {
        Command::Provision { devs, layout, .. } => {
            assert_eq!(devs, 4);
            assert_eq!(layout, "2by2");
        }
        _ => panic!("not provision"),
    }
}

#[test]
fn missing_arguments_are_usage_errors() {
    let e = route(&args(&["provision"])).unwrap_err();
    assert_eq!(e.message, "missing project name");
    assert_eq!(e.exit_code(), 2);
    let e = route(&args(&["send", "p"])).unwrap_err();
    assert_eq!(e.message, "missing role or dev id");
    let e = route(&args(&["dev", "rm", "p"])).unwrap_err();
    assert_eq!(e.message, "missing dev id");
    let e = route(&args(&["layout", "show"])).unwrap_err();
    assert_eq!(e.message, "missing layout name");
    let e = required(&args(&["a"]), 1, "thing").unwrap_err();
    assert_eq!(e.message, "missing thing");
    assert_eq!(required(&args(&["a"]), 0, "thing").unwrap(), "a");
}

#[test]
fn unknown_words_are_usage_errors() {
    let e = route(&args(&["bogus"])).unwrap_err();
    assert_eq!(e.message, "unknown command \"bogus\" \u{2014} run `cmux-axi --help`");
    assert_eq!(e.exit_code(), 2);
    assert_eq!(route(&args(&["layout", "x"])).unwrap_err().message, "unknown layout subcommand (list | show)");
    assert_eq!(route(&args(&["dev"])).unwrap_err().message, "unknown dev subcommand (add | rm)");
    assert_eq!(route(&args(&["setup"])).unwrap_err().message, "unknown setup subcommand (skill | hooks)");
}

#[test]
fn commands_carry_their_arguments() {
    let inv = route(&args(&["send", "p", "planner", "plan it", "--json", "--state-dir", "/s"])).unwrap();
    assert!(inv.json);
    assert_eq!(inv.state_dir.as_deref(), Some("/s"));
    match inv.command {
        Command::Send { project, role, text } => {
            assert_eq!((project.as_str(), role.as_str(), text.as_str()), ("p", "planner", "plan it"));
        }
        _ => panic!("not send"),
    }
    match route(&args(&["send", "p", "planner"])).unwrap().command {
        Command::Send { text, .. } => assert_eq!(text, ""),
        _ => panic!("not send"),
    }
    match route(&args(&["dev", "add", "p", "--worktree", "--specialty", "rust"])).unwrap().command {
        Command::DevAdd { project, worktree, specialty, id, .. } => {
            assert_eq!(project, "p");
            assert!(worktree);
            assert_eq!(specialty.as_deref(), Some("rust"));
            assert_eq!(id, None);
        }
        _ => panic!("not dev add"),
    }
    match route(&args(&["dev", "add", "p", "--worktree", "--no-worktree"])).unwrap().command {
        Command::DevAdd { worktree, .. } => assert!(!worktree),
        _ => panic!("not dev add"),
    }
    match route(&args(&["dev", "rm", "p", "dev-2", "--force"])).unwrap().command {
        Command::DevRm { project, dev_id, force } => {
            assert_eq!((project.as_str(), dev_id.as_str(), force), ("p", "dev-2", true));
        }
        _ => panic!("not dev rm"),
    }
    assert!(matches!(route(&args(&["setup", "hooks", "--project"])).unwrap().command, Command::SetupHooks { global: false }));
    assert!(matches!(route(&args(&["setup", "skill"])).unwrap().command, Command::SetupSkill { global: true }));
    assert!(matches!(route(&args(&["update", "--check"])).unwrap().command, Command::Update { check: true }));
    assert!(matches!(route(&args(&["layout", "list"])).unwrap().command, Command::LayoutList));
    match route(&args(&["status", "--project", "p"])).unwrap().command {
        Command::Status { project } => assert_eq!(project.as_deref(), Some("p")),
        _ => panic!("not status"),
    }
}
