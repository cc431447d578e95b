//! The ASCII picture of a `rows` template: one box per row, one cell per pane,
//! each cell labelled with its slot. Column widths (out of 60) and the row's
//! height percentage come from the template's fractional sizes, which the
//! caller rounds; the picture is drawn here.

use vstd::prelude::*;
use crate::text::{dec, decimal, join_strings, join_with, push_char, push_str, views_of};

verus! {

broadcast use vstd::string::group_string_axioms;

/// The width of the picture, in columns.
pub const WIDTH: usize = 60;

/// The text drawn for a `tree` template, which has no rows to picture.
pub const TREE_DIAGRAM: &'static str = "(tree layout \u{2014} see JSON)";

/// One row of the picture: each pane's width in columns (the row's width
/// fractions times 60, rounded), and the row's height as a whole percentage
/// where the template gives one.
pub struct DiagramRow {
    pub cols: Vec<usize>,
    pub height_pct: Option<String>,
}

/// The sum of the column widths.
pub open spec fn cols_sum(c: Seq<usize>) -> int
    decreases c.len(),
{
    if c.len() == 0 {
        0
    } else {
        cols_sum(c.drop_last()) + c.last()
    }
}

/// The widths after the fix-up that makes a row 60 columns wide: the last
/// pane takes up the difference, and is never narrower than 3.
pub open spec fn fixed_cols(c: Seq<usize>) -> Seq<usize> {
    if c.len() == 0 {
        c
    } else {
        let v = c.last() + WIDTH - cols_sum(c);
        c.update(c.len() - 1, (if v < 3 { 3 } else { v }) as usize)
    }
}

/// Every box is 60 columns wide, unless its last pane would be narrower than
/// 3 columns, in which case that pane is 3 wide; only the last width changes.
pub proof fn lemma_fixed_width(c: Seq<usize>)
    requires
        c.len() > 0,
        cols_sum(c) <= i64::MAX,
    ensures
        fixed_cols(c).len() == c.len(),
        forall|j: int| 0 <= j < c.len() - 1 ==> #[trigger] fixed_cols(c)[j] == c[j],
        cols_sum(fixed_cols(c)) == WIDTH || fixed_cols(c).last() == 3,
        fixed_cols(c).last() >= 3,
{
    let f = fixed_cols(c);
    lemma_cols_sum_last(c);
    assert(f.drop_last() =~= c.drop_last());
}

proof fn lemma_cols_sum_last(c: Seq<usize>)
    requires
        c.len() > 0,
    ensures
        cols_sum(c) == cols_sum(c.drop_last()) + c.last(),
        cols_sum(c.drop_last()) >= 0,
{
    lemma_cols_sum_nonneg(c.drop_last());
}

/// `n` horizontal rules.
pub open spec fn rule(n: nat) -> Seq<char> {
    Seq::new(n, |i: int| '\u{2500}')
}

/// The left corner, then each column's rule followed by `m`.
pub open spec fn bar_mids(c: Seq<usize>, l: char, m: char) -> Seq<char>
    decreases c.len(),
{
    if c.len() == 0 {
        seq![l]
    } else {
        bar_mids(c.drop_last(), l, m) + rule(c.last() as nat) + seq![m]
    }
}

/// A horizontal border: `l`, each column's rule, `m` between columns and `r`
/// after the last.
pub open spec fn bar_text(c: Seq<usize>, l: char, m: char, r: char) -> Seq<char> {
    if c.len() == 0 {
        seq![l]
    } else {
        bar_mids(c.drop_last(), l, m) + rule(c.last() as nat) + seq![r]
    }
}

/// The label of slot `s`: the one given, or its number.
pub open spec fn label_of(labels: Seq<Seq<char>>, s: nat) -> Seq<char> {
    if s < labels.len() { labels[s as int] } else { dec(s) }
}

/// One cell `c` columns wide: a space, the label cut to `c - 1` characters,
/// padding to `c` columns, and the right border.
pub open spec fn cell_of(label: Seq<char>, c: nat) -> Seq<char> {
    let k: nat = if c == 0 { 0 } else { (c - 1) as nat };
    let t = if label.len() <= k { label } else { label.subrange(0, k as int) };
    let text = seq![' '] + t;
    let pad: nat = if c >= text.len() { (c - text.len()) as nat } else { 0 };
    text + Seq::new(pad, |i: int| ' ') + seq!['\u{2502}']
}

/// The cells of a row whose first slot is `start`.
pub open spec fn cells_of(c: Seq<usize>, labels: Seq<Seq<char>>, start: nat) -> Seq<char>
    decreases c.len(),
{
    if c.len() == 0 {
        Seq::empty()
    } else {
        cells_of(c.drop_last(), labels, start) + cell_of(label_of(labels, (start + c.len() - 1) as nat), c.last() as nat)
    }
}

/// The middle line of a row: the left border, the cells, and the height.
pub open spec fn row_line(c: Seq<usize>, labels: Seq<Seq<char>>, start: nat, pct: Option<Seq<char>>) -> Seq<char> {
    seq!['\u{2502}'] + cells_of(c, labels, start) + match pct {
        Some(p) => "  "@ + p + "%"@,
        None => Seq::empty(),
    }
}

pub open spec fn pct_view(p: Option<String>) -> Option<Seq<char>> {
    match p {
        Some(s) => Some(s@),
        None => None,
    }
}

/// The slots of the rows, counted.
pub open spec fn slots_before(rows: Seq<DiagramRow>) -> nat
    decreases rows.len(),
{
    if rows.len() == 0 {
        0
    } else {
        slots_before(rows.drop_last()) + rows.last().cols@.len()
    }
}

/// The three lines of one row's box, its first slot being `start`.
pub open spec fn row_box(r: DiagramRow, labels: Seq<Seq<char>>, start: nat) -> Seq<Seq<char>> {
    let c = fixed_cols(r.cols@);
    seq![
        bar_text(c, '\u{250c}', '\u{252c}', '\u{2510}'),
        row_line(c, labels, start, pct_view(r.height_pct)),
        bar_text(c, '\u{2514}', '\u{2534}', '\u{2518}'),
    ]
}

/// The lines of the picture, box after box.
pub open spec fn diagram_lines(rows: Seq<DiagramRow>, labels: Seq<Seq<char>>) -> Seq<Seq<char>>
    decreases rows.len(),
{
    if rows.len() == 0 {
        Seq::empty()
    } else {
        diagram_lines(rows.drop_last(), labels) + row_box(rows.last(), labels, slots_before(rows.drop_last()))
    }
}

/// Box `i` of the picture is row `i` drawn with its slots numbered on from
/// those of the rows above it: lines `3i .. 3i + 3` are row `i`'s top border,
/// its cells labelled from slot `slots_before(rows[..i])` on, and its bottom
/// border.
pub proof fn lemma_diagram_row_boxes(rows: Seq<DiagramRow>, labels: Seq<Seq<char>>)
    ensures
        diagram_lines(rows, labels).len() == 3 * rows.len(),
        forall|i: int| 0 <= i < rows.len() ==> diagram_lines(rows, labels).subrange(3 * i, 3 * i + 3)
            == #[trigger] row_box(rows[i], labels, slots_before(rows.subrange(0, i))),
    decreases rows.len(),
{
    if rows.len() > 0 {
        let d = rows.drop_last();
        lemma_diagram_row_boxes(d, labels);
        let a = diagram_lines(d, labels);
        let b = row_box(rows.last(), labels, slots_before(d));
        assert(diagram_lines(rows, labels) == a + b);
        assert forall|i: int| 0 <= i < rows.len() implies diagram_lines(rows, labels).subrange(3 * i, 3 * i + 3)
            == #[trigger] row_box(rows[i], labels, slots_before(rows.subrange(0, i))) by {
            if i < d.len() {
                assert(rows[i] == d[i]);
                assert(rows.subrange(0, i) =~= d.subrange(0, i));
                assert((a + b).subrange(3 * i, 3 * i + 3) =~= a.subrange(3 * i, 3 * i + 3));
            } else {
                assert(rows.subrange(0, i) =~= d);
                assert((a + b).subrange(3 * i, 3 * i + 3) =~= b);
            }
        }
    }
}

/// The cell of pane `j` in a row whose first slot is `start` carries the
/// label of slot `start + j`: the cells are, in order, `cell_of(label of
/// start + j, width j)`.
pub proof fn lemma_cells_labels(c: Seq<usize>, labels: Seq<Seq<char>>, start: nat, j: int)
    requires
        0 <= j < c.len(),
    ensures
        cells_of(c, labels, start) == cells_of(c.subrange(0, j), labels, start)
            + cell_of(label_of(labels, (start + j) as nat), c[j] as nat)
            + cells_of_from(c, labels, start, j + 1),
    decreases c.len(),
{
    if j < c.len() - 1 {
        lemma_cells_labels(c.drop_last(), labels, start, j);
        assert(c.drop_last().subrange(0, j) =~= c.subrange(0, j));
        assert(c.drop_last()[j] == c[j]);
        lemma_cells_from_step(c, labels, start, j + 1);
    } else {
        assert(c.drop_last() =~= c.subrange(0, j));
        assert(cells_of_from(c, labels, start, j + 1) == Seq::<char>::empty());
        assert(cells_of(c, labels, start) =~= cells_of(c.subrange(0, j), labels, start)
            + cell_of(label_of(labels, (start + j) as nat), c[j] as nat) + Seq::<char>::empty());
    }
}

/// The cells of panes `k ..` of a row whose first slot is `start`.
pub open spec fn cells_of_from(c: Seq<usize>, labels: Seq<Seq<char>>, start: nat, k: int) -> Seq<char>
    decreases c.len() - k,
{
    if k < 0 || k >= c.len() {
        Seq::empty()
    } else {
        cell_of(label_of(labels, (start + k) as nat), c[k] as nat) + cells_of_from(c, labels, start, k + 1)
    }
}

proof fn lemma_cells_from_step(c: Seq<usize>, labels: Seq<Seq<char>>, start: nat, k: int)
    requires
        1 <= k < c.len(),
    ensures
        cells_of_from(c, labels, start, k) == cells_of_from(c.drop_last(), labels, start, k)
            + cell_of(label_of(labels, (start + c.len() - 1) as nat), c.last() as nat),
    decreases c.len() - k,
{
    let d = c.drop_last();
    if k < c.len() - 1 {
        lemma_cells_from_step(c, labels, start, k + 1);
        assert(d[k] == c[k]);
        assert(cells_of_from(c, labels, start, k) =~= cell_of(label_of(labels, (start + k) as nat), c[k] as nat)
            + cells_of_from(d, labels, start, k + 1)
            + cell_of(label_of(labels, (start + c.len() - 1) as nat), c.last() as nat));
    } else {
        assert(cells_of_from(c, labels, start, k + 1) == Seq::<char>::empty());
        assert(cells_of_from(d, labels, start, k) == Seq::<char>::empty());
        assert(cells_of_from(c, labels, start, k) =~= Seq::<char>::empty()
            + cell_of(label_of(labels, (start + c.len() - 1) as nat), c.last() as nat));
    }
}

/// The picture of a template: its rows' boxes, or the tree note.
pub open spec fn diagram_of(rows: Option<Seq<DiagramRow>>, labels: Seq<Seq<char>>) -> Seq<char> {
    match rows {
        Some(r) => join_with(diagram_lines(r, labels), "\n"@),
        None => TREE_DIAGRAM@,
    }
}

/// What a caller must make sure of: each row's widths sum to at most
/// `i64::MAX` (they are summed as an `i64`), and the slots counted over all
/// rows fit in a `usize`.
pub open spec fn drawable(rows: Seq<DiagramRow>) -> bool {
    &&& forall|i: int| 0 <= i < rows.len() ==> cols_sum((#[trigger] rows[i]).cols@) <= i64::MAX
    &&& slots_before(rows) <= usize::MAX
}

proof fn lemma_cols_sum_prefix(c: Seq<usize>, k: int)
    requires
        0 <= k <= c.len(),
    ensures
        cols_sum(c.subrange(0, k)) <= cols_sum(c),
        0 <= cols_sum(c.subrange(0, k)),
    decreases c.len() - k,
{
    if k < c.len() {
        lemma_cols_sum_prefix(c, k + 1);
        assert(c.subrange(0, k + 1).drop_last() =~= c.subrange(0, k));
    } else {
        assert(c.subrange(0, k) =~= c);
    }
    lemma_cols_sum_nonneg(c.subrange(0, k));
}

proof fn lemma_cols_sum_nonneg(c: Seq<usize>)
    ensures
        0 <= cols_sum(c),
        c.len() > 0 ==> c.last() <= cols_sum(c),
    decreases c.len(),
{
    if c.len() > 0 {
        lemma_cols_sum_nonneg(c.drop_last());
    }
}

proof fn lemma_slots_before_prefix(rows: Seq<DiagramRow>, k: int)
    requires
        0 <= k <= rows.len(),
    ensures
        slots_before(rows.subrange(0, k)) <= slots_before(rows),
    decreases rows.len() - k,
{
    if k < rows.len() {
        lemma_slots_before_prefix(rows, k + 1);
        assert(rows.subrange(0, k + 1).drop_last() =~= rows.subrange(0, k));
    } else {
        assert(rows.subrange(0, k) =~= rows);
    }
}

/// The widths after the fix-up.
fn fix_cols(c: &Vec<usize>) -> (r: Vec<usize>)
    requires
        cols_sum(c@) <= i64::MAX,
    ensures
        r@ == fixed_cols(c@),
{
    let mut out: Vec<usize> = Vec::new();
    let mut sum: u128 = 0;
    let mut i: usize = 0;
    while i < c.len()
        invariant
            i <= c@.len(),
            cols_sum(c@) <= i64::MAX,
            sum == cols_sum(c@.subrange(0, i as int)),
            out@ == c@.subrange(0, i as int),
        decreases c@.len() - i,
    {
        proof {
            lemma_cols_sum_prefix(c@, i + 1);
            assert(c@.subrange(0, i + 1).drop_last() =~= c@.subrange(0, i as int));
        }
        sum = sum + c[i] as u128;
        out.push(c[i]);
        i = i + 1;
        assert(out@ =~= c@.subrange(0, i as int));
    }
    assert(c@.subrange(0, c@.len() as int) =~= c@);
    let n = out.len();
    if n == 0 {
        return out;
    }
    proof {
        lemma_cols_sum_nonneg(c@);
    }
    let last = out[n - 1] as u128;
    let v: usize = if last + 60 >= sum + 3 { (last + 60 - sum) as usize } else { 3 };
    out.set(n - 1, v);
    out
}

/// A run of `n` copies of `ch`.
fn push_run(s: &mut String, ch: char, n: usize)
    ensures
        final(s)@ == old(s)@ + Seq::new(n as nat, |i: int| ch),
{
    let ghost s0 = s@;
    let mut i: usize = 0;
    while i < n
        invariant
            i <= n,
            s@ == s0 + Seq::new(i as nat, |j: int| ch),
        decreases n - i,
    {
        push_char(s, ch);
        i = i + 1;
        assert(s@ =~= s0 + Seq::new(i as nat, |j: int| ch));
    }
}

/// A horizontal border over the (fixed) widths `c`.
fn bar(c: &Vec<usize>, l: char, m: char, r: char) -> (out: String)
    ensures
        out@ == bar_text(c@, l, m, r),
{
    let mut s = String::new();
    push_char(&mut s, l);
    let n = c.len();
    if n == 0 {
        assert(s@ =~= seq![l]);
        return s;
    }
    let mut i: usize = 0;
    assert(s@ =~= bar_mids(c@.subrange(0, 0), l, m));
    while i + 1 < n
        invariant
            n == c@.len(),
            n > 0,
            i + 1 <= n,
            s@ == bar_mids(c@.subrange(0, i as int), l, m),
        decreases n - i,
    {
        push_run(&mut s, '\u{2500}', c[i]);
        push_char(&mut s, m);
        proof {
            let p = c@.subrange(0, i + 1);
            assert(p.drop_last() =~= c@.subrange(0, i as int));
            assert(p.last() == c@[i as int]);
            assert(s@ =~= bar_mids(p, l, m));
        }
        i = i + 1;
    }
    push_run(&mut s, '\u{2500}', c[n - 1]);
    push_char(&mut s, r);
    proof {
        assert(c@.drop_last() =~= c@.subrange(0, i as int));
        assert(s@ =~= bar_text(c@, l, m, r));
    }
    s
}

/// One labelled cell.
fn cell(label: &str, c: usize) -> (out: String)
    ensures
        out@ == cell_of(label@, c as nat),
{
    let k: usize = if c == 0 { 0 } else { c - 1 };
    let v = crate::text::chars_of(label);
    let t = if v.len() <= k { crate::text::sub_chars(v.as_slice(), 0, v.len()) } else {
        crate::text::sub_chars(v.as_slice(), 0, k)
    };
    proof {
        assert(v@.subrange(0, v@.len() as int) =~= v@);
    }
    let mut s = String::new();
    push_char(&mut s, ' ');
    crate::text::push_chars(&mut s, t.as_slice());
    let tl = t.len() + 1;
    let pad: usize = if c >= tl { c - tl } else { 0 };
    push_run(&mut s, ' ', pad);
    push_char(&mut s, '\u{2502}');
    assert(s@ =~= cell_of(label@, c as nat));
    s
}

/// The middle line of a row.
fn line(c: &Vec<usize>, labels: &[String], start: usize, pct: &Option<String>) -> (out: String)
    requires
        start + c@.len() <= usize::MAX,
    ensures
        out@ == row_line(c@, views_of(labels@), start as nat, pct_view(*pct)),
{
    let ghost lv = views_of(labels@);
    let mut s = String::new();
    push_char(&mut s, '\u{2502}');
    let mut i: usize = 0;
    while i < c.len()
        invariant
            i <= c@.len(),
            start + c@.len() <= usize::MAX,
            lv == views_of(labels@),
            s@ == seq!['\u{2502}'] + cells_of(c@.subrange(0, i as int), lv, start as nat),
        decreases c@.len() - i,
    {
        let slot = start + i;
        let label = if slot < labels.len() { labels[slot].clone() } else { decimal(slot) };
        assert(label@ == label_of(lv, slot as nat));
        let ce = cell(label.as_str(), c[i]);
        push_str(&mut s, ce.as_str());
        proof {
            let p = c@.subrange(0, i + 1);
            assert(p.drop_last() =~= c@.subrange(0, i as int));
            assert(p.last() == c@[i as int]);
            assert(s@ =~= seq!['\u{2502}'] + cells_of(p, lv, start as nat));
        }
        i = i + 1;
    }
    assert(c@.subrange(0, c@.len() as int) =~= c@);
    match pct {
        Some(p) => {
            push_str(&mut s, "  ");
            push_str(&mut s, p.as_str());
            push_str(&mut s, "%");
        },
        None => {},
    }
    proof {
        assert(s@ =~= row_line(c@, lv, start as nat, pct_view(*pct)));
    }
    s
}

/// The ASCII picture of a template: for each row a box of cells, each cell
/// labelled `labels[n]` (or its slot number `n` where no label is given),
/// widened or narrowed in its last cell to 60 columns; `None` rows (a `tree`
/// template) give a short note instead.
pub fn diagram_text(rows: Option<&[DiagramRow]>, labels: &[String]) -> (r: String)
    requires
        rows matches Some(rs) ==> drawable(rs@),
    ensures
        r@ == diagram_of(
            match rows {
                Some(rs) => Some(rs@),
                None => None,
            },
            views_of(labels@),
        ),
{
    let rows = match rows {
        Some(rs) => rs,
        None => return String::from_str(TREE_DIAGRAM),
    };
    let ghost lv = views_of(labels@);
    let mut lines: Vec<String> = Vec::new();
    let mut start: usize = 0;
    let mut i: usize = 0;
    while i < rows.len()
        invariant
            i <= rows@.len(),
            drawable(rows@),
            lv == views_of(labels@),
            start == slots_before(rows@.subrange(0, i as int)),
            views_of(lines@) == diagram_lines(rows@.subrange(0, i as int), lv),
        decreases rows@.len() - i,
    {
        let ghost pre = rows@.subrange(0, i as int);
        let ghost post = rows@.subrange(0, i + 1);
        assert(post.drop_last() =~= pre);
        assert(post.last() == rows@[i as int]);
        proof {
            lemma_slots_before_prefix(rows@, i + 1);
        }
        let r = &rows[i];
        assert(cols_sum(rows@[i as int].cols@) <= i64::MAX);
        let c = fix_cols(&r.cols);
        let top = bar(&c, '\u{250c}', '\u{252c}', '\u{2510}');
        let mid = line(&c, labels, start, &r.height_pct);
        let bottom = bar(&c, '\u{2514}', '\u{2534}', '\u{2518}');
        let ghost before = views_of(lines@);
        lines.push(top);
        lines.push(mid);
        lines.push(bottom);
        assert(views_of(lines@) =~= before + row_box(rows@[i as int], lv, start as nat));
        start = start + r.cols.len();
        i = i + 1;
    }
    assert(rows@.subrange(0, rows@.len() as int) =~= rows@);
    join_strings(lines.as_slice(), "\n")
}

} // verus!
