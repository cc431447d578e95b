use cmux_axi::setup::{
    hook_already_present, hook_edit, settings_target, skill_done_line, skill_target, HookEntry, SessionStart,
};

fn entry(commands: &[Option<&str>]) -> HookEntry {
    HookEntry { commands: Some(commands.iter().map(|c| c.map(|s| s.to_string())).collect()) }
}

#[test]
fn targets_live_under_the_agent_dir() {
    assert_eq!(skill_target("/home/me", ".agent"), "/home/me/.agent/skills/cmux-axi/SKILL.md");
    assert_eq!(settings_target("/work", ".agent"), "/work/.agent/settings.json");
}

#[test]
fn our_hook_is_recognised_by_its_command() {
    let ss = SessionStart::Entries(vec![entry(&[Some("other")]), entry(&[None, Some("/usr/bin/cmux-axi --x")])]);
    assert!(hook_already_present(&ss));
    let ss = SessionStart::Entries(vec![entry(&[Some("other")]), HookEntry { commands: None }]);
    assert!(!hook_already_present(&ss));
    assert!(!hook_already_present(&SessionStart::Absent));
    assert!(!hook_already_present(&SessionStart::Other));
}

#[test]
fn installing_the_hook_is_idempotent() {
    let present = SessionStart::Entries(vec![entry(&[Some("cmux-axi")])]);
    assert!(hook_edit(true, &present).is_none());
    let e = hook_edit(false, &SessionStart::Absent).unwrap();
    assert!(e.reset_hooks && e.append);
    let e = hook_edit(true, &SessionStart::Entries(vec![])).unwrap();
    assert!(!e.reset_hooks && e.append);
    let e = hook_edit(true, &SessionStart::Other).unwrap();
    assert!(!e.append);
}

#[test]
fn the_skill_line_says_when_it_updated() {
    assert_eq!(skill_done_line("/p", false), "ok: setup skill -> /p");
    assert_eq!(skill_done_line("/p", true), "ok: setup skill -> /p (updated)");
}

#[test]
fn the_installed_entry_is_recognised() {
    let e = cmux_axi::setup::installed_entry();
    assert_eq!(e.commands, Some(vec![Some("cmux-axi".to_string())]));
    let ss = SessionStart::Entries(vec![entry(&[Some("other")]), e]);
    assert!(hook_already_present(&ss));
    assert!(hook_edit(true, &ss).is_none());
}
