use cmux_axi::cmux::{Pane, Surface, Workspace};
use cmux_axi::fleet::FleetEntry;
use cmux_axi::layout::Seat;
use cmux_axi::ops::{
    absolute, check_create_source, check_pane_count, cof_home_of, crew_drifted, dev_candidates,
    entries_for_pane, entries_of_project, fleet_report, last_row_slots, layouts_dir, least_loaded,
    newest_surface, next_dev_id, next_status, refresh_statuses, remove_project, resolve_surface,
    seat_title, seats_at, send_args, session_id, state_root, title_for, with_seed, worktree_plan,
    ws_title, cof_home_from, provision_step, teardown_step, CreateOpts, ProvisionStep, TeardownStep,
};
use cmux_axi::templates::{builtin_2by2, builtin_3by2};

fn entry(role: &str, project: &str, surface: &str, status: &str) -> FleetEntry {
    FleetEntry {
        role: role.into(),
        project: project.into(),
        surface: surface.into(),
        session: "ephemeral".into(),
        status: status.into(),
        started: "2026-09-01".into(),
    }
}

fn seat(role: &str, slot: usize, resumable: bool) -> Seat {
    Seat { role: role.into(), slot, resumable, title: None, command: None }
}

#[test]
fn titles_follow_the_role() {
    assert_eq!(title_for("coordinator", None), "Coordinator");
    assert_eq!(title_for("dev-3", None), "Developer 3");
    assert_eq!(title_for("dev-4", Some("rust")), "Developer 4 · rust");
    assert_eq!(title_for("dev-5", Some("")), "Developer 5");
    assert_eq!(title_for("tester", None), "tester");
}

#[test]
fn workspace_title_and_session_ids() {
    assert_eq!(ws_title("demo"), "cf-demo");
    assert_eq!(session_id("/state", "planner", "omp"), "/state/sessions/planner");
    assert_eq!(session_id("/state", "planner", "aider"), "ephemeral");
}

#[test]
fn paths_are_made_absolute() {
    let cwd: Result<String, String> = Ok("/work".into());
    assert_eq!(absolute("/abs", &cwd).unwrap(), "/abs");
    assert_eq!(absolute("rel", &cwd).unwrap(), "/work/rel");
    let gone: Result<String, String> = Err("gone".into());
    let e = absolute("rel", &gone).unwrap_err();
    assert_eq!(e.message, "cannot resolve cwd: gone");
    assert_eq!(e.code, "CWD");
    assert_eq!(e.exit_code(), 1);
    assert_eq!(state_root("/p", None, &cwd).unwrap(), "/p/.omp/state");
    assert_eq!(state_root("/p", Some("st"), &cwd).unwrap(), "/work/st");
    assert!(state_root("p", None, &gone).is_err());
}

#[test]
fn chief_of_staff_home_is_the_state_roots_grandparent() {
    assert_eq!(cof_home_of("/home/me/.omp/state", "/cwd"), "/home/me");
    assert_eq!(cof_home_of("/home/me/state", "/cwd"), "/cwd");
    assert_eq!(cof_home_of("/tmp/elsewhere", "/cwd"), "/cwd");
    assert_eq!(layouts_dir(Some("/d"), "/u"), "/d");
    assert_eq!(layouts_dir(None, "/u"), "/u");
}

#[test]
fn surfaces_resolve_by_project_and_role() {
    let rows = vec![
        entry("planner", "a", "surface:1", "active"),
        entry("cof", "home", "surface:9", "active"),
    ];
    assert_eq!(resolve_surface(&rows, "a", "planner").unwrap(), "surface:1");
    assert_eq!(resolve_surface(&rows, "b", "cof").unwrap(), "surface:9");
    let e = resolve_surface(&rows, "b", "planner").unwrap_err();
    assert_eq!(e.message, "no fleet entry for b/planner");
    assert_eq!(e.code, "ROLE_NOT_FOUND");
    assert_eq!(e.suggestions.len(), 2);
}

#[test]
fn send_is_scoped_except_for_the_chief_of_staff() {
    let (a, b) = send_args("planner", Some("workspace:1"), "surface:2", "hi");
    assert_eq!(a, vec!["send", "--workspace", "workspace:1", "--surface", "surface:2", "hi"]);
    assert_eq!(b, vec!["send-key", "--workspace", "workspace:1", "--surface", "surface:2", "enter"]);
    let (a, _) = send_args("cof", Some("workspace:1"), "surface:2", "hi");
    assert_eq!(a, vec!["send", "--surface", "surface:2", "hi"]);
}

#[test]
fn liveness_updates_statuses() {
    assert_eq!(next_status(false, "active"), "dead");
    assert_eq!(next_status(true, "dead"), "active");
    assert_eq!(next_status(true, "unknown"), "active");
    assert_eq!(next_status(true, "busy"), "busy");
    let mut rows = vec![entry("a", "p", "s1", "active"), entry("b", "p", "s2", "dead")];
    assert!(refresh_statuses(&mut rows, &[false, true]));
    assert_eq!(rows[0].status, "dead");
    assert_eq!(rows[1].status, "active");
    assert!(!refresh_statuses(&mut rows, &[false, true]));
}

#[test]
fn project_filters_and_removal() {
    let mut rows = vec![
        entry("a", "p", "s1", "active"),
        entry("b", "q", "s2", "active"),
        entry("c", "p", "s3", "active"),
    ];
    assert_eq!(entries_of_project(&rows, Some("p")).len(), 2);
    assert_eq!(entries_of_project(&rows, None).len(), 3);
    remove_project(&mut rows, "p");
    assert_eq!(rows, vec![entry("b", "q", "s2", "active")]);
}

#[test]
fn fleet_report_lists_the_entries() {
    let r = fleet_report(&[entry("a", "p", "s1", "active")]);
    assert!(r.contains("fleet[1]"), "{r}");
    assert!(r.contains("a,p,s1,ephemeral,active"), "{r}");
}

#[test]
fn dev_ids_count_up_from_the_highest() {
    let rows = vec![entry("dev-2", "p", "s", "active"), entry("dev-7", "q", "s", "active")];
    assert_eq!(next_dev_id(&rows, "p", None), "dev-3");
    assert_eq!(next_dev_id(&rows, "r", None), "dev-1");
    assert_eq!(next_dev_id(&rows, "p", Some("dev-5")), "dev-5");
    assert_eq!(next_dev_id(&rows, "p", Some("5")), "5");
    let nested = vec![entry("dev-dev-4", "p", "s", "active"), entry("dev-x", "p", "s", "active")];
    assert_eq!(next_dev_id(&nested, "p", None), "dev-5");
}

fn pane(r: &str, index: i64, surfaces: usize) -> Pane {
    Pane { reference: r.into(), index: Some(index), surface_refs: vec!["x".to_string(); surfaces] }
}

#[test]
fn developers_go_to_the_least_loaded_dev_pane() {
    let panes = vec![pane("pane:0", 0, 2), pane("pane:1", 1, 1), pane("pane:2", 2, 3), pane("pane:3", 3, 1)];
    let leaf: Vec<usize> = vec![0, 1, 2, 3];
    let dev: Vec<usize> = vec![2, 3];
    let c = dev_candidates(&panes, Some((&leaf, &dev))).unwrap();
    assert_eq!(c.len(), 2);
    assert_eq!(least_loaded(&c).unwrap().reference, "pane:3");
    assert!(least_loaded(&[]).is_err());
}

#[test]
fn the_newest_surface_is_the_highest_index() {
    let s = vec![
        Surface { reference: "surface:1".into(), index: Some(0) },
        Surface { reference: "surface:2".into(), index: Some(2) },
        Surface { reference: "surface:3".into(), index: Some(1) },
    ];
    assert_eq!(newest_surface(&s).unwrap().reference, "surface:2");
    assert!(newest_surface(&[]).is_err());
}

#[test]
fn worktrees_and_seed_prompts() {
    let (path, branch) = worktree_plan("/repo", Some("dev-3"));
    assert_eq!(path, "/repo/.omp/worktrees/dev-3");
    assert_eq!(branch, "cmux-axi/dev-3");
    let (path, branch) = worktree_plan("/repo", None);
    assert_eq!(path, "/repo/.omp/worktrees/dev");
    assert_eq!(branch, "cmux-axi/dev");
    assert_eq!(with_seed("omp".into(), None), "omp");
    assert_eq!(with_seed("omp".into(), Some("/b.md")), "omp @/b.md");
}

#[test]
fn a_workspace_with_the_wrong_pane_count_is_refused() {
    assert!(check_pane_count(4, 4, "workspace:1").is_ok());
    let e = check_pane_count(3, 4, "workspace:1").unwrap_err();
    assert_eq!(e.message, "expected 4 panes in workspace:1, found 3");
    assert_eq!(e.code, "LAYOUT_UNEXPECTED");
}

#[test]
fn seats_take_their_panes_surfaces_in_order() {
    let seating = vec![seat("coordinator", 0, true), seat("brainstorm", 1, true), seat("planner", 0, true)];
    let here = seats_at(&seating, 0);
    assert_eq!(here.len(), 2);
    assert_eq!(here[1].role, "planner");
    let surfaces = vec![
        Surface { reference: "surface:1".into(), index: Some(0) },
        Surface { reference: "surface:2".into(), index: Some(1) },
    ];
    let es = entries_for_pane(0, "pane:1", &here, &surfaces, "p", "/state", "omp", "2026-01-01").unwrap();
    assert_eq!(es.len(), 2);
    assert_eq!(es[0].surface, "surface:1");
    assert_eq!(es[0].session, "/state/sessions/coordinator");
    assert_eq!(es[1].role, "planner");
    let e = entries_for_pane(0, "pane:1", &here, &surfaces[..1], "p", "/state", "omp", "d").unwrap_err();
    assert_eq!(e.message, "slot 0 (pane:1) has 1 surfaces for 2 seats");
}

#[test]
fn tab_titles_and_drift() {
    let mut s = seat("planner", 0, true);
    s.title = Some("Plans".into());
    let seating = vec![s, seat("dev-1", 2, false)];
    assert_eq!(seat_title(&seating, "planner"), "Plans");
    assert_eq!(seat_title(&seating, "dev-1"), "Developer 1");
    assert!(!crew_drifted("3by2", &seating, "3by2", &seating));
    assert!(crew_drifted("2by2", &seating, "3by2", &seating));
    assert!(crew_drifted("3by2", &seating, "3by2", &seating[..1]));
}

fn opts() -> CreateOpts {
    CreateOpts {
        rows: None,
        heights: None,
        widths: None,
        from_file: None,
        from_workspace: None,
        dev_slots: None,
        seats: None,
        summary: None,
        dir: None,
        force: false,
    }
}

#[test]
fn layout_create_needs_exactly_one_source() {
    let mut o = opts();
    let e = check_create_source(&o).unwrap_err();
    assert_eq!(e.exit_code(), 2);
    o.rows = Some("3,2".into());
    assert!(check_create_source(&o).is_ok());
    o.from_file = Some("x.json".into());
    assert!(check_create_source(&o).is_err());
}

#[test]
fn the_last_row_holds_the_default_dev_slots() {
    assert_eq!(last_row_slots(&builtin_3by2()), vec![3, 4]);
    assert_eq!(last_row_slots(&builtin_2by2()), vec![2, 3]);
}

#[test]
fn teardown_of_the_fleet_is_idempotent() {
    let mut rows = vec![entry("a", "p", "s1", "active"), entry("b", "q", "s2", "active")];
    remove_project(&mut rows, "p");
    let once = rows.clone();
    remove_project(&mut rows, "p");
    assert_eq!(rows, once);
    assert!(rows.iter().all(|e| e.project != "p"));
}

#[test]
fn masters_get_distinct_session_dirs() {
    assert_ne!(session_id("/s", "planner", "omp"), session_id("/s", "coordinator", "omp"));
}

#[test]
fn provision_and_teardown_are_no_ops_when_done() {
    let w = Workspace { reference: "workspace:3".into(), custom_title: Some("cf-demo".into()) };
    match provision_step("demo", Some(&w)) {
        ProvisionStep::Already(line) => assert_eq!(line, "already: cf-demo (workspace:3)"),
        ProvisionStep::Create => panic!("a live crew is not rebuilt"),
    }
    assert!(matches!(provision_step("demo", None), ProvisionStep::Create));
    match teardown_step("demo", None) {
        TeardownStep::Already(line) => assert_eq!(line, "already: true (no workspace cf-demo)"),
        TeardownStep::Close(_) => panic!("nothing to close"),
    }
    match teardown_step("demo", Some(&w)) {
        TeardownStep::Close(r) => assert_eq!(r, "workspace:3"),
        TeardownStep::Already(_) => panic!("a live crew is closed"),
    }
}

#[test]
fn chief_of_staff_home_from_path_parts() {
    assert_eq!(cof_home_from(Some("state".into()), Some(".omp".into()), Some("/home/me".into()), "/cwd"), "/home/me");
    assert_eq!(cof_home_from(Some("state".into()), Some("omp".into()), Some("/home/me".into()), "/cwd"), "/cwd");
    assert_eq!(cof_home_from(Some("state".into()), Some(".omp".into()), None, "/cwd"), "/cwd");
}
