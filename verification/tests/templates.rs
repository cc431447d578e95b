use cmux_axi::diagram::{diagram_text, DiagramRow};
use cmux_axi::templates::{
    builtin_2by2, builtin_3by2, builtins, known_names, leaf_order, resolve, slots, tree_leaf_order,
    row_slots, unknown_layout, user_dir_of, user_file, validate, Resolution, Row, SlotTree, Source, Template, DEFAULT,
};

fn resolved(name: &str) -> Template {
    match resolve(name, false) {
        Resolution::Builtin(t) => t,
        _ => panic!("{name} is not a built-in"),
    }
}

fn seat_of(t: &Template, role: &str) -> usize {
    t.default_seats.iter().find(|(r, _)| r == role).unwrap().1
}

fn row(panes: usize) -> Row {
    Row { panes, height_given: false, widths_given: None, widths_sum_to_one: true }
}

fn rows(panes: &[usize]) -> Template {
    Template {
        name: "t".into(),
        summary: String::new(),
        rows: Some(panes.iter().map(|p| row(*p)).collect()),
        tree: None,
        dev_slots: vec![],
        default_seats: vec![],
        heights_sum_to_one: true,
        heights_sum: "0.00".into(),
    }
}

fn slot(n: usize) -> SlotTree {
    SlotTree::Slot(Some(n))
}

fn node(children: Vec<SlotTree>) -> SlotTree {
    SlotTree::Node(Some(children))
}

#[test]
fn builtin_2by2_is_valid_with_four_slots() {
    let t = resolved("2by2");
    validate(&t).unwrap();
    assert_eq!(slots(&t), 4);
    assert_eq!(t.dev_slots, vec![2, 3]);
    assert_eq!(seat_of(&t, "coordinator"), 0);
    assert_eq!(seat_of(&t, "planner"), 0);
    assert_eq!(seat_of(&t, "brainstorm"), 1);
    assert_eq!(leaf_order(&t), vec![0, 1, 2, 3]);
}

#[test]
fn default_is_3by2_and_builtins_validate() {
    assert_eq!(DEFAULT, "3by2");
    for t in builtins() {
        validate(&t).unwrap();
    }
    let t = resolved("3by2");
    assert_eq!(slots(&t), 5);
    assert_eq!(t.dev_slots, vec![3, 4]);
    assert!(t.rows.as_ref().unwrap()[0].height_given);
    assert!(t.heights_sum_to_one);
}

#[test]
fn tree_template_fills_slots_and_reports_leaf_order() {
    let t = Template {
        name: "col".into(),
        summary: String::new(),
        rows: None,
        tree: Some(node(vec![node(vec![slot(0), slot(2)]), node(vec![slot(1), slot(3)])])),
        dev_slots: vec![2, 3],
        default_seats: vec![],
        heights_sum_to_one: true,
        heights_sum: "0.00".into(),
    };
    validate(&t).unwrap();
    assert_eq!(slots(&t), 4);
    assert_eq!(leaf_order(&t), vec![0, 2, 1, 3]);
}

#[test]
fn validation_rejects_bad_templates() {
    let mut t = rows(&[2, 2]);
    for r in t.rows.as_mut().unwrap().iter_mut() {
        r.height_given = true;
    }
    t.heights_sum_to_one = false;
    t.heights_sum = "1.40".into();
    let m = validate(&t).unwrap_err().message;
    assert!(m.contains("sum to 1"), "{m}");
    assert!(m.contains("1.40"), "{m}");
    t = rows(&[2]);
    t.dev_slots = vec![5];
    assert!(validate(&t).unwrap_err().message.contains("dev_slots"));
    t = rows(&[2]);
    t.default_seats.push(("planner".into(), 9));
    assert!(validate(&t).unwrap_err().message.contains("default_seats.planner"));
    t = rows(&[2]);
    t.tree = Some(slot(0));
    assert!(validate(&t).unwrap_err().message.contains("not both"));
    let mut both_none = rows(&[1]);
    both_none.rows = None;
    assert!(validate(&both_none).is_err());
}

#[test]
fn validation_messages_name_the_template() {
    let mut t = rows(&[2, 0]);
    assert_eq!(validate(&t).unwrap_err().message, "layout \"t\": every row needs at least one pane");
    t = rows(&[2, 2]);
    t.rows.as_mut().unwrap()[0].height_given = true;
    assert_eq!(validate(&t).unwrap_err().message, "layout \"t\": give a height for every row or for none");
    t = rows(&[2]);
    t.rows.as_mut().unwrap()[0].widths_given = Some(3);
    assert_eq!(validate(&t).unwrap_err().message, "layout \"t\": row 0: 3 widths for 2 panes");
    t = rows(&[2]);
    t.dev_slots = vec![1, 1];
    assert_eq!(validate(&t).unwrap_err().message, "layout \"t\": dev_slots must be distinct slots below 2");
    t = rows(&[2]);
    t.name = String::new();
    assert_eq!(validate(&t).unwrap_err().message, "layout \"\": name is required");
    assert_eq!(validate(&t).unwrap_err().exit_code(), 2);
}

#[test]
fn tree_slots_must_be_a_permutation() {
    let mut t = rows(&[1]);
    t.rows = None;
    t.tree = Some(node(vec![slot(0), slot(0)]));
    assert_eq!(validate(&t).unwrap_err().message, "layout \"t\": tree slots must be exactly 0..1 once each");
    t.tree = Some(node(vec![slot(0), SlotTree::Slot(None)]));
    assert_eq!(validate(&t).unwrap_err().message, "tree: slot must be a non-negative integer");
    t.tree = Some(node(vec![slot(0), SlotTree::Node(None)]));
    assert_eq!(validate(&t).unwrap_err().message, "tree: every node needs children or a slot");
    assert!(tree_leaf_order(&SlotTree::Node(None)).is_err());
    assert_eq!(tree_leaf_order(&node(vec![slot(1), node(vec![slot(0)])])).unwrap(), vec![1, 0]);
}

#[test]
fn unknown_name_lists_known_layouts() {
    assert!(matches!(resolve("nope", false), Resolution::Unknown));
    let e = unknown_layout("nope", &known_names(&builtins()));
    assert_eq!(e.exit_code(), 2);
    assert!(e.message.contains("2by2"), "{}", e.message);
    assert_eq!(e.message, "unknown layout \"nope\" \u{2014} known: 2by2, 3by2");
}

#[test]
fn names_resolve_to_files_builtins_and_user_templates() {
    assert!(matches!(resolve("mine.json", false), Resolution::File));
    assert!(matches!(resolve("dir/x", false), Resolution::File));
    assert!(matches!(resolve("mine", true), Resolution::User));
    assert_eq!(resolved("2by2"), builtin_2by2());
    assert_eq!(resolved("3by2"), builtin_3by2());
    assert_eq!(user_file("/u", "mine"), "/u/mine.json");
    assert_eq!(Source::Builtin.describe(), "built-in");
    assert_eq!(Source::User("/u/mine.json".into()).describe(), "/u/mine.json");
}

#[test]
fn user_templates_live_under_the_config_dir() {
    assert_eq!(user_dir_of(Some("/x"), Some("/h")), "/x/cmux-axi/layouts");
    assert_eq!(user_dir_of(Some(""), Some("/h")), "/h/.config/cmux-axi/layouts");
    assert_eq!(user_dir_of(None, None), "./.config/cmux-axi/layouts");
}

#[test]
fn diagram_draws_one_box_per_row() {
    let rows = vec![
        DiagramRow { cols: vec![20, 20, 20], height_pct: Some("60".into()) },
        DiagramRow { cols: vec![30, 30], height_pct: Some("40".into()) },
    ];
    let labels: Vec<String> =
        vec!["0 coordinator".into(), "1 planner".into(), "2 brainstorm".into(), "3 devs".into(), "4 devs".into()];
    let d = diagram_text(Some(&rows), &labels);
    assert_eq!(d.lines().count(), 6, "{d}");
    assert!(d.contains("│ 0 coordinator"));
    assert!(d.contains("60%") && d.contains("40%"));
}

#[test]
fn diagram_fixes_the_last_width_and_cuts_labels() {
    let rows = vec![DiagramRow { cols: vec![1, 2], height_pct: None }];
    let d = diagram_text(Some(&rows), &["abc".to_string()]);
    let lines: Vec<&str> = d.lines().collect();
    assert_eq!(lines[0], format!("┌─┬{}┐", "─".repeat(59)));
    assert_eq!(lines[1], format!("│ │ 1{}│", " ".repeat(57)));
    assert_eq!(lines[2], format!("└─┴{}┘", "─".repeat(59)));
    assert_eq!(diagram_text(None, &[]), "(tree layout — see JSON)");
    let narrow = vec![DiagramRow { cols: vec![70], height_pct: None }];
    assert_eq!(diagram_text(Some(&narrow), &[]).lines().next().unwrap(), format!("┌{}┐", "─".repeat(60)));
    let wide = vec![DiagramRow { cols: vec![100, 1], height_pct: None }];
    assert_eq!(diagram_text(Some(&wide), &[]).lines().next().unwrap(), format!("┌{}┬───┐", "─".repeat(100)));
}

#[test]
fn rows_take_their_slots_in_order() {
    assert_eq!(row_slots(&builtin_3by2()), vec![vec![0, 1, 2], vec![3, 4]]);
    assert_eq!(row_slots(&rows(&[1, 3])), vec![vec![0], vec![1, 2, 3]]);
}
