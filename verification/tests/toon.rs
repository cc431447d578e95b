use cmux_axi::toon::{error, header, help, join, kv, list};

#[test]
fn header_names_the_binary() {
    assert_eq!(header("cmux-axi", "d"), "bin: cmux-axi\ndescription: d");
}

#[test]
fn list_quotes_cells_that_need_it() {
    let rows = vec![
        vec!["a".to_string(), "b,c".to_string()],
        vec!["say \"hi\"".to_string(), "x\ny".to_string()],
    ];
    assert_eq!(
        list("items", &["k", "v"], &rows),
        "items[2]{k,v}:\n  a,\"b,c\"\n  \"say \"\"hi\"\"\",\"x\ny\""
    );
    assert_eq!(list("none", &["k"], &[]), "none[0]{k}:");
}

#[test]
fn kv_help_and_error() {
    assert_eq!(kv("layout", "3by2"), "layout: 3by2");
    assert_eq!(help(&[]), "");
    assert_eq!(help(&["one".to_string(), "two".to_string()]), "help[2]:\n  - one\n  - two");
    assert_eq!(error("bad", "CODE", &[]), "error: bad\ncode: CODE");
    assert_eq!(error("bad", "CODE", &["fix".to_string()]), "error: bad\ncode: CODE\nhelp[1]:\n  - fix");
}

#[test]
fn join_skips_empty_blocks() {
    assert_eq!(join(&["a".to_string(), String::new(), "b".to_string()]), "a\n\nb");
    assert_eq!(join(&[]), "");
}

#[test]
fn empty_blocks_anywhere_change_nothing() {
    let a = join(&["x".to_string(), "y".to_string()]);
    assert_eq!(join(&[String::new(), "x".to_string(), String::new(), "y".to_string(), String::new()]), a);
}
