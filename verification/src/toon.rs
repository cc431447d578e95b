//! Minimal TOON (`toonformat.dev`) renderer, matching the AXI family's compact
//! labeled-list output. Default output is TOON; `--json` is the opt-in
//! machine-readable path handled by the caller.

use vstd::prelude::*;
use crate::text::{
    dec, has_char, join_strings, join_strs, join_with, push_decimal, push_str,
    replace_char, replace_chars, str_views, views_of, chars_of,
};

verus! {

broadcast use vstd::string::group_string_axioms;

/// A CSV cell: quoted (with inner quotes doubled) when it holds a comma, a quote
/// or a newline.
pub open spec fn cell_text(v: Seq<char>) -> Seq<char> {
    if v.contains(',') || v.contains('"') || v.contains('\n') {
        "\""@ + replace_char(v, '"', "\"\""@) + "\""@
    } else {
        v
    }
}

/// One record row: its cells, comma-separated.
pub open spec fn row_text(row: Seq<Seq<char>>) -> Seq<char> {
    join_with(row.map_values(|c: Seq<char>| cell_text(c)), ","@)
}

/// The rows of a list, each on its own line indented by two spaces.
pub open spec fn rows_text(rows: Seq<Seq<Seq<char>>>) -> Seq<char>
    decreases rows.len(),
{
    if rows.len() == 0 {
        Seq::empty()
    } else {
        rows_text(rows.drop_last()) + "\n  "@ + row_text(rows.last())
    }
}

/// `label[count]{schema}:` followed by the rows.
pub open spec fn list_text(label: Seq<char>, schema: Seq<Seq<char>>, rows: Seq<Seq<Seq<char>>>) -> Seq<char> {
    label + "["@ + dec(rows.len()) + "]{"@ + join_with(schema, ","@) + "}:"@ + rows_text(rows)
}

pub open spec fn header_text(bin: Seq<char>, description: Seq<char>) -> Seq<char> {
    "bin: "@ + bin + "\ndescription: "@ + description
}

pub open spec fn kv_text(label: Seq<char>, value: Seq<char>) -> Seq<char> {
    label + ": "@ + value
}

/// The suggestion lines, each as `\n  - <line>`.
pub open spec fn help_lines(lines: Seq<Seq<char>>) -> Seq<char>
    decreases lines.len(),
{
    if lines.len() == 0 {
        Seq::empty()
    } else {
        help_lines(lines.drop_last()) + "\n  - "@ + lines.last()
    }
}

/// `help[N]:` and the lines, or nothing when there are no lines.
pub open spec fn help_text(lines: Seq<Seq<char>>) -> Seq<char> {
    if lines.len() == 0 {
        Seq::empty()
    } else {
        "help["@ + dec(lines.len()) + "]:"@ + help_lines(lines)
    }
}

pub open spec fn error_text(message: Seq<char>, code: Seq<char>, suggestions: Seq<Seq<char>>) -> Seq<char> {
    let base = "error: "@ + message + "\ncode: "@ + code;
    if suggestions.len() == 0 {
        base
    } else {
        base + "\n"@ + help_text(suggestions)
    }
}

/// The non-empty blocks, in order.
pub open spec fn non_empty(blocks: Seq<Seq<char>>) -> Seq<Seq<char>>
    decreases blocks.len(),
{
    if blocks.len() == 0 {
        blocks
    } else if blocks.last().len() == 0 {
        non_empty(blocks.drop_last())
    } else {
        non_empty(blocks.drop_last()).push(blocks.last())
    }
}

pub open spec fn join_text(blocks: Seq<Seq<char>>) -> Seq<char> {
    join_with(non_empty(blocks), "\n\n"@)
}

pub open spec fn row_views(rows: Seq<Vec<String>>) -> Seq<Seq<Seq<char>>> {
    rows.map_values(|r: Vec<String>| views_of(r@))
}

/// Quote a CSV cell when it contains a comma, quote, or newline.
fn cell(v: &str) -> (r: String)
    ensures
        r@ == cell_text(v@),
{
    let cs = chars_of(v);
    if has_char(cs.as_slice(), ',') || has_char(cs.as_slice(), '"') || has_char(cs.as_slice(), '\n') {
        let mut out = String::from_str("\"");
        let inner = replace_chars(v, '"', "\"\"");
        push_str(&mut out, inner.as_str());
        push_str(&mut out, "\"");
        assert(out@ =~= cell_text(v@));
        out
    } else {
        String::from_str(v)
    }
}

fn row_line(row: &Vec<String>) -> (r: String)
    ensures
        r@ == row_text(views_of(row@)),
{
    let mut cells: Vec<String> = Vec::new();
    let mut i: usize = 0;
    while i < row.len()
        invariant
            i <= row@.len(),
            cells@.len() == i,
            forall|j: int| 0 <= j < i ==> (#[trigger] cells@[j])@ == cell_text(row@[j]@),
        decreases row@.len() - i,
    {
        cells.push(cell(row[i].as_str()));
        i = i + 1;
    }
    let out = join_strings(cells.as_slice(), ",");
    assert(views_of(cells@) =~= views_of(row@).map_values(|c: Seq<char>| cell_text(c)));
    out
}

/// Render the `bin:` + `description:` report header.
pub fn header(bin: &str, description: &str) -> (r: String)
    ensures
        r@ == header_text(bin@, description@),
{
    let mut out = String::from_str("bin: ");
    push_str(&mut out, bin);
    push_str(&mut out, "\ndescription: ");
    push_str(&mut out, description);
    assert(out@ =~= header_text(bin@, description@));
    out
}

/// Render a labeled record list: `label[count]{schema}:` + one CSV row per record.
pub fn list(label: &str, schema: &[&str], rows: &[Vec<String>]) -> (r: String)
    ensures
        r@ == list_text(label@, str_views(schema@), row_views(rows@)),
{
    let mut out = String::from_str(label);
    push_str(&mut out, "[");
    push_decimal(&mut out, rows.len());
    push_str(&mut out, "]{");
    let s = join_strs(schema, ",");
    push_str(&mut out, s.as_str());
    push_str(&mut out, "}:");
    let ghost head = out@;
    let mut i: usize = 0;
    while i < rows.len()
        invariant
            i <= rows@.len(),
            out@ == head + rows_text(row_views(rows@.subrange(0, i as int))),
        decreases rows@.len() - i,
    {
        let ghost pre = row_views(rows@.subrange(0, i as int));
        let ghost post = row_views(rows@.subrange(0, i + 1));
        assert(post.drop_last() =~= pre);
        assert(post.last() == views_of(rows@[i as int]@));
        push_str(&mut out, "\n  ");
        let line = row_line(&rows[i]);
        push_str(&mut out, line.as_str());
        i = i + 1;
        assert(out@ =~= head + rows_text(post));
    }
    assert(rows@.subrange(0, rows@.len() as int) =~= rows@);
    assert(out@ =~= list_text(label@, str_views(schema@), row_views(rows@)));
    out
}

/// Render a labeled scalar as `label: value`.
pub fn kv(label: &str, value: &str) -> (r: String)
    ensures
        r@ == kv_text(label@, value@),
{
    let mut out = String::from_str(label);
    push_str(&mut out, ": ");
    push_str(&mut out, value);
    assert(out@ =~= kv_text(label@, value@));
    out
}

/// Render the `help[N]:` next-step suggestion block.
pub fn help(lines: &[String]) -> (r: String)
    ensures
        r@ == help_text(views_of(lines@)),
{
    if lines.len() == 0 {
        return String::new();
    }
    let mut out = String::from_str("help[");
    push_decimal(&mut out, lines.len());
    push_str(&mut out, "]:");
    let ghost head = out@;
    let mut i: usize = 0;
    while i < lines.len()
        invariant
            i <= lines@.len(),
            out@ == head + help_lines(views_of(lines@.subrange(0, i as int))),
        decreases lines@.len() - i,
    {
        let ghost pre = views_of(lines@.subrange(0, i as int));
        let ghost post = views_of(lines@.subrange(0, i + 1));
        assert(post.drop_last() =~= pre);
        assert(post.last() == lines@[i as int]@);
        push_str(&mut out, "\n  - ");
        push_str(&mut out, lines[i].as_str());
        i = i + 1;
        assert(out@ =~= head + help_lines(post));
    }
    assert(lines@.subrange(0, lines@.len() as int) =~= lines@);
    assert(out@ =~= help_text(views_of(lines@)));
    out
}

/// Render a structured error as TOON (`error:` + `code:` + optional `help:`).
pub fn error(message: &str, code: &str, suggestions: &[String]) -> (r: String)
    ensures
        r@ == error_text(message@, code@, views_of(suggestions@)),
{
    let mut out = String::from_str("error: ");
    push_str(&mut out, message);
    push_str(&mut out, "\ncode: ");
    push_str(&mut out, code);
    if suggestions.len() > 0 {
        push_str(&mut out, "\n");
        let h = help(suggestions);
        push_str(&mut out, h.as_str());
    }
    assert(out@ =~= error_text(message@, code@, views_of(suggestions@)));
    out
}

/// Join already-rendered TOON blocks with a blank line between non-empty ones.
pub fn join(blocks: &[String]) -> (r: String)
    ensures
        r@ == join_text(views_of(blocks@)),
{
    let mut kept: Vec<String> = Vec::new();
    let mut i: usize = 0;
    while i < blocks.len()
        invariant
            i <= blocks@.len(),
            views_of(kept@) == non_empty(views_of(blocks@.subrange(0, i as int))),
        decreases blocks@.len() - i,
    {
        let ghost pre = views_of(blocks@.subrange(0, i as int));
        let ghost post = views_of(blocks@.subrange(0, i + 1));
        assert(post.drop_last() =~= pre);
        assert(post.last() == blocks@[i as int]@);
        if !blocks[i].as_str().is_empty() {
            kept.push(blocks[i].clone());
            assert(views_of(kept@) =~= non_empty(post));
        }
        i = i + 1;
    }
    assert(blocks@.subrange(0, blocks@.len() as int) =~= blocks@);
    join_strings(kept.as_slice(), "\n\n")
}


proof fn lemma_non_empty_concat(a: Seq<Seq<char>>, b: Seq<Seq<char>>)
    ensures
        non_empty(a + b) == non_empty(a) + non_empty(b),
    decreases b.len(),
{
    if b.len() == 0 {
        assert(a + b =~= a);
        assert(non_empty(a) + non_empty(b) =~= non_empty(a));
    } else {
        lemma_non_empty_concat(a, b.drop_last());
        assert((a + b).drop_last() =~= a + b.drop_last());
        assert((a + b).last() == b.last());
        if b.last().len() != 0 {
            assert(non_empty(a) + non_empty(b.drop_last()).push(b.last())
                =~= (non_empty(a) + non_empty(b.drop_last())).push(b.last()));
        }
    }
}

/// An empty block, wherever it stands, changes nothing that `join` renders.
pub proof fn lemma_join_ignores_empty_block(a: Seq<Seq<char>>, b: Seq<Seq<char>>)
    ensures
        join_text(a + seq![Seq::<char>::empty()] + b) == join_text(a + b),
{
    lemma_non_empty_concat(a + seq![Seq::<char>::empty()], b);
    lemma_non_empty_concat(a, seq![Seq::<char>::empty()]);
    lemma_non_empty_concat(a, b);
    let e = seq![Seq::<char>::empty()];
    assert(e.drop_last() =~= Seq::<Seq<char>>::empty());
    assert(e.last().len() == 0);
    assert(non_empty(e.drop_last()) =~= Seq::<Seq<char>>::empty());
    assert(non_empty(e) == non_empty(e.drop_last()));
    assert(non_empty(e) =~= Seq::<Seq<char>>::empty());
    assert(non_empty(a) + non_empty(e) =~= non_empty(a));
}

} // verus!
