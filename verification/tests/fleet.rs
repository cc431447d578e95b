use cmux_axi::fleet::{find, parse, remove, render, upsert, FleetEntry};

fn entry(role: &str, surface: &str) -> FleetEntry {
    FleetEntry {
        role: role.into(),
        project: "proj".into(),
        surface: surface.into(),
        session: "ephemeral".into(),
        status: "active".into(),
        started: "2026-09-01".into(),
    }
}

#[test]
fn line_round_trips() {
    let e = entry("planner", "surface:5");
    let parsed = FleetEntry::from_line(&e.to_line()).unwrap();
    assert_eq!(parsed, e);
}

#[test]
fn ignores_non_fleet_lines() {
    assert!(FleetEntry::from_line("# header").is_none());
    assert!(FleetEntry::from_line("").is_none());
    assert!(FleetEntry::from_line("just text").is_none());
}

#[test]
fn upsert_replaces_same_role() {
    let mut v = vec![entry("planner", "surface:5")];
    upsert(&mut v, entry("planner", "surface:9"));
    assert_eq!(v.len(), 1);
    assert_eq!(find(&v, "proj", "planner").unwrap().surface, "surface:9");
}

#[test]
fn remove_drops_only_match() {
    let mut v = vec![entry("planner", "surface:5"), entry("dev-1", "surface:6")];
    remove(&mut v, "proj", "planner");
    assert_eq!(v.len(), 1);
    assert!(find(&v, "proj", "planner").is_none());
    assert!(find(&v, "proj", "dev-1").is_some());
}

#[test]
fn line_has_the_documented_grammar() {
    let e = entry("planner", "surface:5");
    assert_eq!(
        e.to_line(),
        "- planner - proj (surface: surface:5; session: ephemeral; status: active; started 2026-09-01)"
    );
}

#[test]
fn missing_parts_take_their_defaults() {
    let e = FleetEntry::from_line("  - dev-2 - other (surface: surface:7)  ").unwrap();
    assert_eq!(e.role, "dev-2");
    assert_eq!(e.project, "other");
    assert_eq!(e.surface, "surface:7");
    assert_eq!(e.session, "");
    assert_eq!(e.status, "unknown");
    assert_eq!(e.started, "");
}

#[test]
fn a_line_without_surface_is_not_an_entry() {
    assert!(FleetEntry::from_line("- planner - proj (session: x; status: active)").is_none());
    assert!(FleetEntry::from_line("- planner - proj (surface: s").is_none());
}

#[test]
fn later_parts_override_earlier_ones() {
    let e = FleetEntry::from_line("- a - b (surface: s1; status: dead; surface: s2)").unwrap();
    assert_eq!(e.surface, "s2");
    assert_eq!(e.status, "dead");
}

#[test]
fn upsert_appends_a_new_key() {
    let mut v = vec![entry("planner", "surface:5")];
    upsert(&mut v, entry("dev-1", "surface:6"));
    assert_eq!(v.len(), 2);
    assert_eq!(v[1].role, "dev-1");
    let mut other = entry("planner", "surface:7");
    other.project = "elsewhere".into();
    upsert(&mut v, other);
    assert_eq!(v.len(), 3);
    assert_eq!(find(&v, "proj", "planner").unwrap().surface, "surface:5");
}

#[test]
fn remove_of_an_absent_key_changes_nothing() {
    let mut v = vec![entry("planner", "surface:5")];
    remove(&mut v, "proj", "dev-9");
    assert_eq!(v, vec![entry("planner", "surface:5")]);
}

#[test]
fn file_round_trips() {
    let v = vec![entry("planner", "surface:5"), entry("dev-1", "surface:6")];
    let text = render(&v);
    assert!(text.starts_with("# "));
    assert_eq!(parse(&text), v);
}

#[test]
fn parse_skips_unrelated_lines() {
    let text = "# fleet\n\nnotes here\n- planner - proj (surface: surface:5; session: ephemeral; status: active; started 2026-09-01)\n";
    assert_eq!(parse(text), vec![entry("planner", "surface:5")]);
}

#[test]
fn upsert_and_remove_are_idempotent() {
    let mut once = vec![entry("planner", "surface:5")];
    upsert(&mut once, entry("dev-1", "surface:6"));
    let mut twice = once.clone();
    upsert(&mut twice, entry("dev-1", "surface:6"));
    assert_eq!(once, twice);
    remove(&mut once, "proj", "planner");
    let mut again = once.clone();
    remove(&mut again, "proj", "planner");
    assert_eq!(once, again);
}
