use cmux_axi::cmux::{find_workspace_by_title, has_workspace_titled, sort_panes, sort_surfaces, Pane, Surface, Workspace, WorkspaceList};
use cmux_axi::cmux::failure_message;
use cmux_axi::error::CmuxError;

fn ws(r: &str, title: Option<&str>) -> Workspace {
    Workspace { reference: r.into(), custom_title: title.map(|t| t.to_string()) }
}

#[test]
fn workspaces_are_found_by_exact_title() {
    let list = WorkspaceList {
        workspaces: vec![ws("workspace:1", None), ws("workspace:2", Some("cf-a")), ws("workspace:3", Some("cf-a"))],
    };
    assert_eq!(find_workspace_by_title(&list, "cf-a").unwrap().reference, "workspace:2");
    assert!(has_workspace_titled(&list, "cf-a"));
    assert!(!has_workspace_titled(&list, "cf-b"));
    let e: CmuxError = find_workspace_by_title(&list, "cf-b").unwrap_err();
    assert_eq!(e.message, "no workspace titled \"cf-b\"");
    assert_eq!(e.code, "WORKSPACE_NOT_FOUND");
    assert_eq!(e.exit_code(), 1);
}

#[test]
fn panes_sort_by_index_keeping_ties_in_order() {
    let p = |r: &str, i: Option<i64>| Pane { reference: r.into(), index: i, surface_refs: vec![] };
    let sorted = sort_panes(&vec![p("c", Some(2)), p("a", None), p("b", Some(1)), p("z", Some(0))]);
    let refs: Vec<&str> = sorted.iter().map(|x| x.reference.as_str()).collect();
    assert_eq!(refs, vec!["a", "z", "b", "c"]);
}

#[test]
fn surfaces_sort_by_index() {
    let s = |r: &str, i: i64| Surface { reference: r.into(), index: Some(i) };
    let sorted = sort_surfaces(&vec![s("b", 3), s("a", -1), s("c", 3)]);
    let refs: Vec<&str> = sorted.iter().map(|x| x.reference.as_str()).collect();
    assert_eq!(refs, vec!["a", "b", "c"]);
}

#[test]
fn failures_carry_the_first_line_of_stderr() {
    assert_eq!(
        failure_message(&["send", "--surface", "s"], "  no such surface\r\nmore\n"),
        "cmux send --surface s failed: no such surface"
    );
    assert_eq!(failure_message(&["tree"], " \n "), "cmux tree failed: unknown cmux error");
    assert_eq!(failure_message(&[], "boom"), "cmux  failed: boom");
}
