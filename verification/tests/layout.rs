use cmux_axi::crew::SeatRequest;
use cmux_axi::layout::{default_seating, dev_number, harness_command, seat, sh_quote, slot_surfaces, CrewSpec};
use cmux_axi::templates::{builtin_2by2, builtin_3by2, slots, Template};

fn spec() -> CrewSpec<'static> {
    CrewSpec {
        state_root: "/state",
        harness: "omp",
        project: "demo",
        cof_home: "/nonexistent-home",
        has_extension: false,
        has_crew_config: false,
    }
}

fn t() -> Template {
    builtin_2by2()
}

/// The surfaces of each slot, in slot order: a command, or none for a bare terminal.
fn built(devs: usize) -> Vec<Vec<Option<String>>> {
    let tpl = t();
    let seating = default_seating(&tpl, devs).unwrap();
    slot_surfaces(&spec(), slots(&tpl), &seating)
}

#[test]
fn quad_has_four_panes() {
    let l = built(2);
    assert_eq!(l.len(), 4);
    assert_eq!(l[0].len(), 2); // coordinator + planner
    assert_eq!(l[1].len(), 1); // brainstorm
    assert_eq!(l[2].len(), 1); // dev-1
    assert_eq!(l[3].len(), 1); // dev-2
}

#[test]
fn odd_devs_round_robin_left_first() {
    let l = built(3);
    assert_eq!(l[2].len(), 2); // dev-1, dev-3
    assert_eq!(l[3].len(), 1); // dev-2
}

#[test]
fn zero_devs_still_fills_quad_with_slots() {
    let l = built(0);
    assert_eq!(l[2].len(), 1);
    assert_eq!(l[3].len(), 1);
    assert!(l[2][0].is_none()); // bare terminal
}

#[test]
fn master_commands_carry_session_dir() {
    let l = built(2);
    assert_eq!(
        l[0][0].as_deref().unwrap(),
        "CF_ROLE='coordinator' CF_PROJECT='demo' CF_COF_HOME='/nonexistent-home' omp --session-dir '/state/sessions/coordinator'"
    );
    assert_eq!(l[2][0].as_deref().unwrap(), "CF_ROLE='dev-1' CF_PROJECT='demo' CF_COF_HOME='/nonexistent-home' omp --no-session");
}

#[test]
fn three_by_two_has_five_slots_one_master_each() {
    let tpl = builtin_3by2();
    let seating = default_seating(&tpl, 2).unwrap();
    let out = slot_surfaces(&spec(), slots(&tpl), &seating);
    assert_eq!(out.len(), 5);
    for slot in 0..5 {
        assert_eq!(out[slot].len(), 1, "slot {slot}");
    }
    let role_at = |slot: usize| out[slot][0].as_deref().unwrap().split('\'').nth(1).unwrap().to_string();
    assert_eq!(role_at(0), "coordinator");
    assert_eq!(role_at(1), "planner");
    assert_eq!(role_at(2), "brainstorm");
    assert_eq!(role_at(3), "dev-1");
    assert_eq!(role_at(4), "dev-2");
}

#[test]
fn three_by_two_odd_devs_left_first() {
    let tpl = builtin_3by2();
    let seating = default_seating(&tpl, 3).unwrap();
    let dev3 = seating.iter().find(|s| s.role == "dev-3").unwrap();
    assert_eq!(dev3.slot, 3);
    let out = slot_surfaces(&spec(), slots(&tpl), &seating);
    assert_eq!(out[3].len(), 2);
    assert_eq!(out[4].len(), 1);
}

fn req(role: &str, slot: Option<usize>) -> SeatRequest {
    SeatRequest { role: role.into(), slot, resumable: None, title: None, command: None }
}

#[test]
fn spec_seats_follow_explicit_slot_default_seats_then_round_robin() {
    let tpl = builtin_3by2();
    let s = seat(
        &tpl,
        &[
            req("brainstorm", Some(0)),
            req("planner", None),
            req("tester", None),
            req("qa", None),
            req("dev-2", None),
            req("dev-1", None),
            req("dev-9", None),
        ],
        None,
    )
    .unwrap();
    let got: Vec<(String, usize, bool)> = s.iter().map(|x| (x.role.clone(), x.slot, x.resumable)).collect();
    assert_eq!(
        got,
        vec![
            ("brainstorm".into(), 0, true), // explicit
            ("planner".into(), 1, true),    // default_seats
            ("tester".into(), 0, true),     // round-robin over non-dev slots 0,1,2
            ("qa".into(), 1, true),
            ("dev-2".into(), 4, false), // dev-k → dev_slots[(k-1) % 2]
            ("dev-1".into(), 3, false),
            ("dev-9".into(), 3, false),
        ]
    );
}

#[test]
fn spec_dev_slots_override_and_seat_overrides_carry_through() {
    let tpl = builtin_3by2();
    let mut r = req("dev-1", None);
    r.resumable = Some(true);
    r.title = Some("Dev · rust".into());
    r.command = Some("echo hi".into());
    let s = seat(&tpl, &[r], Some(&[0])).unwrap();
    assert_eq!(s[0].slot, 0);
    assert!(s[0].resumable);
    assert_eq!(s[0].title.as_deref(), Some("Dev · rust"));
    let out = slot_surfaces(&spec(), slots(&tpl), &s);
    assert_eq!(out[0][0].as_deref(), Some("echo hi"));
    assert!(out[1][0].is_none()); // bare terminal
}

#[test]
fn spec_rejects_bad_slots() {
    let tpl = builtin_3by2();
    let e = seat(&tpl, &[req("planner", Some(9))], None).unwrap_err();
    assert_eq!(e.exit_code(), 2);
    assert!(e.message.contains("slot 9"), "{}", e.message);
    let e = seat(&tpl, &[req("dev-1", None)], Some(&[7])).unwrap_err();
    assert!(e.message.contains("dev_slots entry 7"), "{}", e.message);
    let e = seat(&tpl, &[req("dev-1", None)], Some(&[])).unwrap_err();
    assert!(e.message.contains("no dev_slots"), "{}", e.message);
}

#[test]
fn default_seating_round_robins_masters_without_default_seats() {
    let mut tpl = t();
    tpl.default_seats.clear();
    let s = default_seating(&tpl, 1).unwrap();
    let slots: Vec<usize> = s.iter().map(|x| x.slot).collect();
    assert_eq!(slots, vec![0, 1, 0, 2]); // coordinator, planner, brainstorm over slots 0,1; dev-1 → 2
}

#[test]
fn devs_need_dev_slots() {
    let mut tpl = t();
    tpl.dev_slots.clear();
    assert!(default_seating(&tpl, 0).is_ok());
    assert_eq!(default_seating(&tpl, 1).unwrap_err().exit_code(), 2);
}

#[test]
fn panes_load_codefactory_extension_and_crew_config_when_the_home_has_them() {
    let home_s = "/home/someone".to_string();
    let spec = CrewSpec {
        state_root: "/state",
        harness: "omp",
        project: "it's demo",
        cof_home: &home_s,
        has_extension: true,
        has_crew_config: true,
    };
    let cmd = harness_command(&spec, "planner", true);
    assert!(cmd.contains(&format!(" -e '{}/.omp/extensions/cf-session-start.ts'", home_s)), "{cmd}");
    assert!(cmd.contains(&format!(" --config '{}/.omp/crew-config.yml'", home_s)), "{cmd}");
    assert!(cmd.starts_with("CF_ROLE='planner' CF_PROJECT='it'\\''s demo' "), "{cmd}");
}

#[test]
fn other_harnesses_launch_bare() {
    let mut s = spec();
    s.harness = "aider";
    assert_eq!(harness_command(&s, "planner", true), "aider");
}

#[test]
fn quoting_and_dev_numbers() {
    assert_eq!(sh_quote("a'b"), "'a'\\''b'");
    assert_eq!(dev_number("dev-12"), Some(12));
    assert_eq!(dev_number("dev-+3"), Some(3));
    assert_eq!(dev_number("dev-"), None);
    assert_eq!(dev_number("planner"), None);
}

#[test]
fn explicit_requests_keep_their_order_and_fields() {
    let tpl = builtin_2by2();
    let mut r = req("planner", None);
    r.resumable = Some(false);
    let s = seat(&tpl, &[r, req("dev-0", None)], None).unwrap();
    assert_eq!(s.len(), 2);
    assert_eq!(s[0].slot, 0);
    assert!(!s[0].resumable);
    assert_eq!(s[1].role, "dev-0");
    assert_eq!(s[1].slot, 2);
    assert!(!s[1].resumable);
}

#[test]
fn dev_ids_read_back() {
    for k in [0usize, 1, 9, 10, 123] {
        assert_eq!(dev_number(&format!("dev-{k}")), Some(k));
    }
}
