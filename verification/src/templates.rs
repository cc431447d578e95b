//! Layout templates — the crew's *structure only*.
//!
//! A template is rows of pane counts (or a raw cmux split tree for odd shapes). Its
//! leaf panes are **slots**, numbered in spatial order: top row left→right, then the
//! next row. Who sits in which slot is the crew's business (`layout::Seating`); a
//! template only carries `dev_slots` (where developer tabs go) and optional
//! `default_seats` (role → slot) so the tool works with no crew spec.
//!
//! The fractional sizes of rows and panes are the caller's: a template here holds
//! what the structural checks read of them (which are given, and whether they
//! sum to one).

use vstd::prelude::*;
use crate::error::{CmuxError, validation_code};
use crate::text::{
    debug_quote, debug_text, dec, ends_with, join_with, push_decimal, push_str,
    str_eq, views_of, chars_of, has_char, matches_at, join_strings,
};

verus! {

broadcast use vstd::string::group_string_axioms;

/// The template that `provision` uses when no `--layout` is given.
pub const DEFAULT: &'static str = "3by2";

/// One row of a `rows` template.
#[derive(Debug, Clone, Copy, PartialEq)]
pub struct Row {
    pub panes: usize,
    /// A height fraction is given for this row.
    pub height_given: bool,
    /// The number of width fractions given, if any.
    pub widths_given: Option<usize>,
    /// The given width fractions sum to one (within 0.01) and are all positive.
    pub widths_sum_to_one: bool,
}

/// A user's split tree, as far as slot placement reads it: a node with a `slot`
/// key (holding a non-negative integer, or not), or a node with or without a
/// `children` array.
#[derive(Debug, PartialEq)]
pub enum SlotTree {
    Slot(Option<usize>),
    Node(Option<Vec<SlotTree>>),
}

#[derive(Debug, PartialEq)]
pub struct Template {
    pub name: String,
    pub summary: String,
    pub rows: Option<Vec<Row>>,
    /// Escape hatch: a cmux `--layout` tree whose leaves are `{"slot": n}`.
    pub tree: Option<SlotTree>,
    /// Slots that receive developer tabs (round-robin).
    pub dev_slots: Vec<usize>,
    /// role → slot used when the caller supplies no seating: a map from role
    /// names, kept as its entries in role order, each role once
    /// (`seats_in_role_order`; the built-ins keep it, and so does reading a
    /// template file, whose map is ordered).
    pub default_seats: Vec<(String, usize)>,
    /// The given row heights sum to one (within 0.01) and are all positive.
    pub heights_sum_to_one: bool,
    /// The sum of the given row heights, to two decimals.
    pub heights_sum: String,
}

/// Where a template came from.
#[derive(Debug, Clone, PartialEq)]
pub enum Source {
    Builtin,
    User(String),
}

impl Source {
    /// `built-in`, or the file's path.
    pub fn describe(&self) -> (r: String)
        ensures
            r@ == match self {
                Source::Builtin => "built-in"@,
                Source::User(p) => p@,
            },
    {
        match self {
            Source::Builtin => String::from_str("built-in"),
            Source::User(p) => p.clone(),
        }
    }
}

// ---------------------------------------------------------------------------
// Slots of a tree
// ---------------------------------------------------------------------------

/// Why a tree has no leaf order.
pub enum TreeFault {
    BadSlot,
    NoChildren,
}

/// The slots at the leaves of a tree, left to right, or the first fault.
pub open spec fn tree_leaves(t: SlotTree) -> Result<Seq<usize>, TreeFault>
    decreases t,
{
    match t {
        SlotTree::Slot(Some(n)) => Ok(seq![n]),
        SlotTree::Slot(None) => Err(TreeFault::BadSlot),
        SlotTree::Node(None) => Err(TreeFault::NoChildren),
        SlotTree::Node(Some(ch)) => children_leaves(ch@),
    }
}

pub open spec fn children_leaves(ch: Seq<SlotTree>) -> Result<Seq<usize>, TreeFault>
    decreases ch,
{
    if ch.len() == 0 {
        Ok(Seq::empty())
    } else {
        match children_leaves(ch.drop_last()) {
            Err(f) => Err(f),
            Ok(a) => match tree_leaves(ch.last()) {
                Err(f) => Err(f),
                Ok(b) => Ok(a + b),
            },
        }
    }
}

pub open spec fn fault_text(f: TreeFault) -> Seq<char> {
    match f {
        TreeFault::BadSlot => "tree: slot must be a non-negative integer"@,
        TreeFault::NoChildren => "tree: every node needs children or a slot"@,
    }
}

fn walk(v: &SlotTree, out: &mut Vec<usize>) -> (r: Result<(), CmuxError>)
    ensures
        match tree_leaves(*v) {
            Ok(l) => r is Ok && final(out)@ == old(out)@ + l,
            Err(f) => r matches Err(e) && e.message@ == fault_text(f) && e.code@ == validation_code()
                && e.suggestions@.len() == 0,
        },
    decreases v,
{
    match v {
        SlotTree::Slot(Some(n)) => {
            out.push(*n);
            Ok(())
        },
        SlotTree::Slot(None) => Err(CmuxError::usage("tree: slot must be a non-negative integer")),
        SlotTree::Node(None) => Err(CmuxError::usage("tree: every node needs children or a slot")),
        SlotTree::Node(Some(ch)) => {
            let ghost start = out@;
            let mut i: usize = 0;
            while i < ch.len()
                invariant
                    i <= ch@.len(),
                    *v == SlotTree::Node(Some(*ch)),
                    children_leaves(ch@.subrange(0, i as int)) matches Ok(l) && out@ == start + l,
                decreases ch@.len() - i,
            {
                let ghost pre = ch@.subrange(0, i as int);
                let ghost post = ch@.subrange(0, i + 1);
                assert(post.drop_last() =~= pre);
                assert(post.last() == ch@[i as int]);
                let ghost before = out@;
                match walk(&ch[i], out) {
                    Ok(()) => {},
                    Err(e) => {
                        proof {
                            lemma_children_prefix_err(ch@, i as int + 1);
                        }
                        return Err(e);
                    },
                }
                i = i + 1;
                assert(out@ =~= start + children_leaves(post)->Ok_0);
            }
            assert(ch@.subrange(0, ch@.len() as int) =~= ch@);
            Ok(())
        },
    }
}

/// A fault in a prefix of the children is the fault of all of them.
proof fn lemma_children_prefix_err(ch: Seq<SlotTree>, k: int)
    requires
        0 <= k <= ch.len(),
        children_leaves(ch.subrange(0, k)) is Err,
    ensures
        children_leaves(ch) == children_leaves(ch.subrange(0, k)),
    decreases ch.len() - k,
{
    if k < ch.len() {
        let a = ch.subrange(0, k);
        let b = ch.subrange(0, k + 1);
        assert(b.drop_last() =~= a);
        lemma_children_prefix_err(ch, k + 1);
    } else {
        assert(ch.subrange(0, k) =~= ch);
    }
}

/// The slot at each leaf of `tree`, in tree order.
pub fn tree_leaf_order(tree: &SlotTree) -> (r: Result<Vec<usize>, CmuxError>)
    ensures
        match tree_leaves(*tree) {
            Ok(l) => r matches Ok(v) && v@ == l,
            Err(f) => r matches Err(e) && e.message@ == fault_text(f) && e.code@ == validation_code()
                && e.suggestions@.len() == 0,
        },
{
    let mut out: Vec<usize> = Vec::new();
    match walk(tree, &mut out) {
        Ok(()) => {
            assert(out@ =~= tree_leaves(*tree)->Ok_0);
            Ok(out)
        },
        Err(e) => Err(e),
    }
}

// ---------------------------------------------------------------------------
// Slots of a template
// ---------------------------------------------------------------------------

/// Total pane count of the rows.
pub open spec fn total_panes(rows: Seq<Row>) -> nat
    decreases rows.len(),
{
    if rows.len() == 0 {
        0
    } else {
        total_panes(rows.drop_last()) + rows.last().panes as nat
    }
}

/// The pane total of a `rows` template fits in a `usize` (summing it otherwise
/// overflows).
pub open spec fn fits(t: Template) -> bool {
    t.rows matches Some(rows) ==> total_panes(rows@) <= usize::MAX
}

/// Number of slots (leaf panes).
pub open spec fn slot_count(t: Template) -> nat {
    match t.rows {
        Some(rows) => total_panes(rows@),
        None => match t.tree {
            Some(tree) => match tree_leaves(tree) {
                Ok(l) => l.len(),
                Err(_) => 0,
            },
            None => 0,
        },
    }
}

/// The slot at each leaf position: `rows` templates are the identity, `tree`
/// templates follow the tree (empty when it has no leaf order).
pub open spec fn leaf_order_of(t: Template) -> Seq<usize> {
    match t.rows {
        Some(rows) => Seq::new(total_panes(rows@), |i: int| i as usize),
        None => match t.tree {
            Some(tree) => match tree_leaves(tree) {
                Ok(l) => l,
                Err(_) => Seq::empty(),
            },
            None => Seq::empty(),
        },
    }
}

fn sum_panes(rows: &Vec<Row>) -> (r: usize)
    requires
        total_panes(rows@) <= usize::MAX,
    ensures
        r == total_panes(rows@),
{
    let mut total: usize = 0;
    let mut i: usize = 0;
    while i < rows.len()
        invariant
            i <= rows@.len(),
            total_panes(rows@) <= usize::MAX,
            total == total_panes(rows@.subrange(0, i as int)),
        decreases rows@.len() - i,
    {
        let ghost pre = rows@.subrange(0, i as int);
        let ghost post = rows@.subrange(0, i + 1);
        assert(post.drop_last() =~= pre);
        proof {
            lemma_total_panes_prefix(rows@, i + 1);
        }
        total = total + rows[i].panes;
        i = i + 1;
    }
    assert(rows@.subrange(0, rows@.len() as int) =~= rows@);
    total
}

proof fn lemma_total_panes_prefix(rows: Seq<Row>, k: int)
    requires
        0 <= k <= rows.len(),
    ensures
        total_panes(rows.subrange(0, k)) <= total_panes(rows),
    decreases rows.len() - k,
{
    if k < rows.len() {
        lemma_total_panes_prefix(rows, k + 1);
        assert(rows.subrange(0, k + 1).drop_last() =~= rows.subrange(0, k));
    } else {
        assert(rows.subrange(0, k) =~= rows);
    }
}

/// Whether the pane total of a template fits in a `usize`.
pub fn pane_total_fits(t: &Template) -> (r: bool)
    ensures
        r == fits(*t),
{
    match &t.rows {
        None => true,
        Some(rows) => {
            let mut total: usize = 0;
            let mut i: usize = 0;
            while i < rows.len()
                invariant
                    i <= rows@.len(),
                    t.rows == Some(*rows),
                    total == total_panes(rows@.subrange(0, i as int)),
                decreases rows@.len() - i,
            {
                let ghost pre = rows@.subrange(0, i as int);
                let ghost post = rows@.subrange(0, i + 1);
                assert(post.drop_last() =~= pre);
                assert(post.last() == rows@[i as int]);
                if rows[i].panes > usize::MAX - total {
                    proof {
                        assert(total_panes(post) == total_panes(pre) + rows@[i as int].panes as nat);
                        lemma_total_panes_prefix(rows@, i + 1);
                    }
                    return false;
                }
                total = total + rows[i].panes;
                i = i + 1;
            }
            assert(rows@.subrange(0, rows@.len() as int) =~= rows@);
            true
        },
    }
}

/// Number of slots (leaf panes).
pub fn slots(t: &Template) -> (r: usize)
    requires
        fits(*t),
    ensures
        r == slot_count(*t),
{
    match &t.rows {
        Some(rows) => sum_panes(rows),
        None => match &t.tree {
            Some(tree) => match tree_leaf_order(tree) {
                Ok(v) => v.len(),
                Err(_) => 0,
            },
            None => 0,
        },
    }
}

/// The slot at each leaf position of the compiled tree, in tree (= cmux pane
/// index) order. `rows` templates are the identity; `tree` templates follow the
/// user's tree.
pub fn leaf_order(t: &Template) -> (r: Vec<usize>)
    requires
        fits(*t),
    ensures
        r@ == leaf_order_of(*t),
{
    match &t.rows {
        Some(_) => {
            let n = slots(t);
            let mut v: Vec<usize> = Vec::new();
            let mut i: usize = 0;
            while i < n
                invariant
                    i <= n,
                    v@ == Seq::new(i as nat, |k: int| k as usize),
                decreases n - i,
            {
                v.push(i);
                i = i + 1;
                assert(v@ =~= Seq::new(i as nat, |k: int| k as usize));
            }
            v
        },
        None => match &t.tree {
            Some(tree) => match tree_leaf_order(tree) {
                Ok(v) => v,
                Err(_) => Vec::new(),
            },
            None => Vec::new(),
        },
    }
}


// ---------------------------------------------------------------------------
// Where the slots go in a `rows` template
// ---------------------------------------------------------------------------

/// The slots of each row, in order: row `i` holds the next `panes` slots after
/// those of the rows above it.
pub open spec fn row_slots_of(rows: Seq<Row>) -> Seq<Seq<usize>>
    decreases rows.len(),
{
    if rows.len() == 0 {
        Seq::empty()
    } else {
        let prev = rows.drop_last();
        row_slots_of(prev).push(Seq::new(rows.last().panes as nat, |j: int| (total_panes(prev) + j) as usize))
    }
}

/// The rows' slots one after another.
pub open spec fn concat_rows(g: Seq<Seq<usize>>) -> Seq<usize>
    decreases g.len(),
{
    if g.len() == 0 {
        Seq::empty()
    } else {
        concat_rows(g.drop_last()) + g.last()
    }
}

/// Reading the rows' slots in order, top row left to right and then the next
/// row, gives the slots `0, 1, 2, …` once each: the pane at leaf `i` of the
/// compiled tree holds slot `leaf_order[i]`.
pub proof fn lemma_row_slots_in_order(t: Template)
    requires
        t.rows is Some,
    ensures
        concat_rows(row_slots_of(t.rows->Some_0@)) == leaf_order_of(t),
{
    lemma_row_slots_concat(t.rows->Some_0@);
}

proof fn lemma_row_slots_len(rows: Seq<Row>)
    ensures
        row_slots_of(rows).len() == rows.len(),
    decreases rows.len(),
{
    if rows.len() > 0 {
        lemma_row_slots_len(rows.drop_last());
    }
}

proof fn lemma_row_slots_concat(rows: Seq<Row>)
    ensures
        concat_rows(row_slots_of(rows)) == Seq::new(total_panes(rows), |i: int| i as usize),
    decreases rows.len(),
{
    if rows.len() > 0 {
        let prev = rows.drop_last();
        lemma_row_slots_concat(prev);
        let g = row_slots_of(rows);
        assert(g.drop_last() == row_slots_of(prev));
        assert(concat_rows(g) =~= Seq::new(total_panes(rows), |i: int| i as usize));
    } else {
        assert(concat_rows(row_slots_of(rows)) =~= Seq::new(total_panes(rows), |i: int| i as usize));
    }
}

/// The slots of each row of a `rows` template, in order.
pub fn row_slots(t: &Template) -> (r: Vec<Vec<usize>>)
    requires
        fits(*t),
        t.rows is Some,
    ensures
        r@.len() == t.rows->Some_0@.len(),
        forall|i: int| 0 <= i < r@.len() ==> (#[trigger] r@[i])@ == row_slots_of(t.rows->Some_0@)[i],
{
    let rows = match &t.rows {
        Some(rows) => rows,
        None => return Vec::new(),
    };
    let mut out: Vec<Vec<usize>> = Vec::new();
    let mut next: usize = 0;
    let mut i: usize = 0;
    while i < rows.len()
        invariant
            t.rows == Some(*rows),
            fits(*t),
            i <= rows@.len(),
            next == total_panes(rows@.subrange(0, i as int)),
            out@.len() == i,
            forall|k: int| 0 <= k < i ==> (#[trigger] out@[k])@ == row_slots_of(rows@.subrange(0, i as int))[k],
        decreases rows@.len() - i,
    {
        let ghost pre = rows@.subrange(0, i as int);
        let ghost post = rows@.subrange(0, i + 1);
        assert(post.drop_last() =~= pre);
        assert(post.last() == rows@[i as int]);
        proof {
            lemma_total_panes_prefix(rows@, i + 1);
        }
        let n = rows[i].panes;
        let mut g: Vec<usize> = Vec::new();
        let mut j: usize = 0;
        while j < n
            invariant
                j <= n,
                next + n <= usize::MAX,
                g@ == Seq::new(j as nat, |m: int| (next + m) as usize),
            decreases n - j,
        {
            g.push(next + j);
            j = j + 1;
            assert(g@ =~= Seq::new(j as nat, |m: int| (next + m) as usize));
        }
        let ghost old_out = out@;
        out.push(g);
        next = next + n;
        i = i + 1;
        proof {
            lemma_row_slots_len(pre);
            assert(row_slots_of(post) == row_slots_of(pre).push(
                Seq::new(rows@[i - 1].panes as nat, |m: int| (total_panes(pre) + m) as usize),
            ));
            assert forall|k: int| 0 <= k < i implies (#[trigger] out@[k])@ == row_slots_of(post)[k] by {
                if k < i - 1 {
                    assert(out@[k] == old_out[k]);
                }
            }
        }
    }
    assert(rows@.subrange(0, rows@.len() as int) =~= rows@);
    out
}

// ---------------------------------------------------------------------------
// Validation
// ---------------------------------------------------------------------------

/// `layout "<name>": <m>`.
pub open spec fn layout_message(name: Seq<char>, m: Seq<char>) -> Seq<char> {
    "layout "@ + debug_text(name) + ": "@ + m
}

/// Rows that give a height.
pub open spec fn height_count(rows: Seq<Row>) -> nat
    decreases rows.len(),
{
    if rows.len() == 0 {
        0
    } else {
        height_count(rows.drop_last()) + if rows.last().height_given { 1nat } else { 0nat }
    }
}

/// The first row (from `i` on) whose widths are wrong, as its message.
pub open spec fn widths_problem(rows: Seq<Row>, i: int) -> Option<Seq<char>>
    decreases rows.len() - i,
{
    if i < 0 || i >= rows.len() {
        None
    } else {
        let r = rows[i];
        match r.widths_given {
            Some(w) => if w != r.panes {
                Some("row "@ + dec(i as nat) + ": "@ + dec(w as nat) + " widths for "@ + dec(r.panes as nat) + " panes"@)
            } else if !r.widths_sum_to_one {
                Some("row "@ + dec(i as nat) + ": widths must sum to 1"@)
            } else {
                widths_problem(rows, i + 1)
            },
            None => widths_problem(rows, i + 1),
        }
    }
}

/// What is wrong with the rows of a template, if anything.
pub open spec fn rows_problem(rows: Seq<Row>, heights_ok: bool, heights_sum: Seq<char>) -> Option<Seq<char>> {
    if rows.len() == 0 || exists|i: int| 0 <= i < rows.len() && (#[trigger] rows[i]).panes == 0 {
        Some("every row needs at least one pane"@)
    } else if height_count(rows) > 0 && height_count(rows) != rows.len() {
        Some("give a height for every row or for none"@)
    } else if height_count(rows) > 0 && !heights_ok {
        Some("row heights must sum to 1 (got "@ + heights_sum + ")"@)
    } else {
        widths_problem(rows, 0)
    }
}

/// Every slot `0..len` occurs exactly once.
pub open spec fn is_slot_permutation(l: Seq<usize>) -> bool {
    &&& forall|i: int| 0 <= i < l.len() ==> #[trigger] l[i] < l.len()
    &&& l.no_duplicates()
}

/// Position of the first default seat (from `i` on) that names no slot below `n`.
pub open spec fn first_bad_seat(seats: Seq<(String, usize)>, n: nat, i: int) -> Option<int>
    decreases seats.len() - i,
{
    if i < 0 || i >= seats.len() {
        None
    } else if seats[i].1 >= n {
        Some(i)
    } else {
        first_bad_seat(seats, n, i + 1)
    }
}

pub open spec fn dev_slots_ok(ds: Seq<usize>, n: nat) -> bool {
    ds.no_duplicates() && forall|i: int| 0 <= i < ds.len() ==> #[trigger] ds[i] < n
}

/// What is wrong with `dev_slots` or `default_seats` against `n` slots.
pub open spec fn placement_problem(t: Template, n: nat) -> Option<Seq<char>> {
    if !dev_slots_ok(t.dev_slots@, n) {
        Some("dev_slots must be distinct slots below "@ + dec(n))
    } else {
        match first_bad_seat(t.default_seats@, n, 0) {
            Some(k) => Some("default_seats."@ + t.default_seats@[k].0@ + " = "@
                + dec(t.default_seats@[k].1 as nat) + " is not a slot (have "@ + dec(n) + ")"@),
            None => None,
        }
    }
}

/// The message `validate` fails with, or `None` for a valid template.
pub open spec fn validation_error(t: Template) -> Option<Seq<char>> {
    let name = t.name@;
    if name.len() == 0 {
        Some(layout_message(name, "name is required"@))
    } else {
        match (t.rows, t.tree) {
            (Some(_), Some(_)) => Some(layout_message(name, "give rows or tree, not both"@)),
            (None, None) => Some(layout_message(name, "give rows or tree"@)),
            (Some(rows), None) => match rows_problem(rows@, t.heights_sum_to_one, t.heights_sum@) {
                Some(m) => Some(layout_message(name, m)),
                None => match placement_problem(t, total_panes(rows@)) {
                    Some(m) => Some(layout_message(name, m)),
                    None => None,
                },
            },
            (None, Some(tree)) => match tree_leaves(tree) {
                Err(f) => Some(fault_text(f)),
                Ok(l) => if !is_slot_permutation(l) {
                    Some(layout_message(name, "tree slots must be exactly 0.."@
                        + dec(if l.len() == 0 { 0nat } else { (l.len() - 1) as nat }) + " once each"@))
                } else {
                    match placement_problem(t, l.len()) {
                        Some(m) => Some(layout_message(name, m)),
                        None => None,
                    }
                },
            },
        }
    }
}

proof fn lemma_widths_ok(rows: Seq<Row>, i: int)
    requires
        0 <= i,
        widths_problem(rows, i) is None,
    ensures
        forall|j: int| i <= j < rows.len() && (#[trigger] rows[j]).widths_given is Some
            ==> rows[j].widths_given->Some_0 == rows[j].panes && rows[j].widths_sum_to_one,
    decreases rows.len() - i,
{
    if i < rows.len() {
        lemma_widths_ok(rows, i + 1);
    }
}

proof fn lemma_height_count(rows: Seq<Row>)
    ensures
        height_count(rows) <= rows.len(),
        height_count(rows) == rows.len() ==> forall|j: int| 0 <= j < rows.len() ==> (#[trigger] rows[j]).height_given,
        (exists|j: int| 0 <= j < rows.len() && (#[trigger] rows[j]).height_given) ==> height_count(rows) > 0,
    decreases rows.len(),
{
    if rows.len() > 0 {
        let d = rows.drop_last();
        lemma_height_count(d);
        assert forall|j: int| 0 <= j < d.len() implies #[trigger] d[j] == rows[j] by {}
        if height_count(rows) == rows.len() {
            assert(height_count(d) <= d.len());
            assert(rows.last().height_given);
            assert(height_count(d) == d.len());
            assert forall|j: int| 0 <= j < rows.len() implies (#[trigger] rows[j]).height_given by {
                if j < d.len() {
                    assert(d[j].height_given);
                }
            }
        }
        if exists|j: int| 0 <= j < rows.len() && (#[trigger] rows[j]).height_given {
            let j = choose|j: int| 0 <= j < rows.len() && (#[trigger] rows[j]).height_given;
            if j < d.len() {
                assert(d[j].height_given);
            }
        }
    }
}

proof fn lemma_seats_ok(seats: Seq<(String, usize)>, n: nat, i: int)
    requires
        0 <= i,
        first_bad_seat(seats, n, i) is None,
    ensures
        forall|j: int| i <= j < seats.len() ==> (#[trigger] seats[j]).1 < n,
    decreases seats.len() - i,
{
    if i < seats.len() {
        lemma_seats_ok(seats, n, i + 1);
    }
}

/// What a valid `rows` template is: it has a name and no tree; every row has a
/// pane; a row that gives widths gives one per pane and they sum to one;
/// heights are given for every row or none, and when given sum to one; the
/// developer slots are distinct slots; and every default seat is a slot.
pub proof fn lemma_valid_rows_template(t: Template)
    requires
        validation_error(t) is None,
        t.rows is Some,
    ensures
        t.name@.len() > 0,
        t.tree is None,
        ({
            let rows = t.rows->Some_0@;
            &&& rows.len() > 0
            &&& forall|i: int| 0 <= i < rows.len() ==> (#[trigger] rows[i]).panes > 0
            &&& forall|i: int| 0 <= i < rows.len() && (#[trigger] rows[i]).widths_given is Some
                ==> rows[i].widths_given->Some_0 == rows[i].panes && rows[i].widths_sum_to_one
            &&& (exists|i: int| 0 <= i < rows.len() && (#[trigger] rows[i]).height_given) ==> {
                &&& forall|i: int| 0 <= i < rows.len() ==> (#[trigger] rows[i]).height_given
                &&& t.heights_sum_to_one
            }
        }),
        t.dev_slots@.no_duplicates(),
        forall|i: int| 0 <= i < t.dev_slots@.len() ==> #[trigger] t.dev_slots@[i] < slot_count(t),
        forall|i: int| 0 <= i < t.default_seats@.len() ==> (#[trigger] t.default_seats@[i]).1 < slot_count(t),
{
    let rows = t.rows->Some_0@;
    assert(rows_problem(rows, t.heights_sum_to_one, t.heights_sum@) is None);
    lemma_widths_ok(rows, 0);
    lemma_height_count(rows);
    assert(placement_problem(t, total_panes(rows)) is None);
    lemma_seats_ok(t.default_seats@, total_panes(rows), 0);
}

/// A usage error `layout "<name>": <m>`.
fn bad(name: &str, m: &str) -> (e: CmuxError)
    ensures
        e.message@ == layout_message(name@, m@),
        e.code@ == validation_code(),
        e.suggestions@.len() == 0,
{
    let mut s = String::from_str("layout ");
    let q = debug_quote(name);
    push_str(&mut s, q.as_str());
    push_str(&mut s, ": ");
    push_str(&mut s, m);
    assert(s@ =~= layout_message(name@, m@));
    CmuxError::usage(s.as_str())
}

fn rows_check(rows: &Vec<Row>, heights_ok: bool, heights_sum: &str) -> (r: Option<String>)
    ensures
        r matches Some(m) ==> rows_problem(rows@, heights_ok, heights_sum@) == Some(m@),
        r is None ==> rows_problem(rows@, heights_ok, heights_sum@) is None,
{
    let n = rows.len();
    let mut i: usize = 0;
    let mut heights: usize = 0;
    while i < n
        invariant
            n == rows@.len(),
            i <= n,
            heights == height_count(rows@.subrange(0, i as int)),
            heights <= i,
            forall|j: int| 0 <= j < i ==> (#[trigger] rows@[j]).panes != 0,
        decreases n - i,
    {
        let ghost pre = rows@.subrange(0, i as int);
        let ghost post = rows@.subrange(0, i + 1);
        assert(post.drop_last() =~= pre);
        if rows[i].panes == 0 {
            return Some(String::from_str("every row needs at least one pane"));
        }
        if rows[i].height_given {
            heights = heights + 1;
        }
        i = i + 1;
    }
    assert(rows@.subrange(0, n as int) =~= rows@);
    if n == 0 {
        return Some(String::from_str("every row needs at least one pane"));
    }
    if heights > 0 {
        if heights != n {
            return Some(String::from_str("give a height for every row or for none"));
        }
        if !heights_ok {
            let mut m = String::from_str("row heights must sum to 1 (got ");
            push_str(&mut m, heights_sum);
            push_str(&mut m, ")");
            return Some(m);
        }
    }
    assert(rows_problem(rows@, heights_ok, heights_sum@) == widths_problem(rows@, 0)) by {
        if exists|i: int| 0 <= i < rows@.len() && (#[trigger] rows@[i]).panes == 0 {
            let i = choose|i: int| 0 <= i < rows@.len() && (#[trigger] rows@[i]).panes == 0;
            assert(rows@[i].panes != 0);
        }
    }
    let mut k: usize = 0;
    while k < n
        invariant
            n == rows@.len(),
            k <= n,
            rows_problem(rows@, heights_ok, heights_sum@) == widths_problem(rows@, k as int),
        decreases n - k,
    {
        let r = rows[k];
        assert(r == rows@[k as int]);
        match r.widths_given {
            Some(w) => {
                if w != r.panes {
                    let mut m = String::from_str("row ");
                    push_decimal(&mut m, k);
                    push_str(&mut m, ": ");
                    push_decimal(&mut m, w);
                    push_str(&mut m, " widths for ");
                    push_decimal(&mut m, r.panes);
                    push_str(&mut m, " panes");
                    assert(m@ =~= "row "@ + dec(k as nat) + ": "@ + dec(w as nat) + " widths for "@
                        + dec(r.panes as nat) + " panes"@);
                    return Some(m);
                }
                if !r.widths_sum_to_one {
                    let mut m = String::from_str("row ");
                    push_decimal(&mut m, k);
                    push_str(&mut m, ": widths must sum to 1");
                    assert(m@ =~= "row "@ + dec(k as nat) + ": widths must sum to 1"@);
                    return Some(m);
                }
            },
            None => {},
        }
        k = k + 1;
    }
    None
}

fn placement_check(t: &Template, n: usize) -> (r: Option<String>)
    ensures
        r matches Some(m) ==> placement_problem(*t, n as nat) == Some(m@),
        r is None ==> placement_problem(*t, n as nat) is None,
{
    let ds = &t.dev_slots;
    let mut i: usize = 0;
    let mut ok = true;
    while i < ds.len()
        invariant
            i <= ds@.len(),
            ok == (ds@.subrange(0, i as int).no_duplicates()
                && forall|j: int| 0 <= j < i ==> #[trigger] ds@[j] < n),
        decreases ds@.len() - i,
    {
        let ghost pre = ds@.subrange(0, i as int);
        let ghost post = ds@.subrange(0, i + 1);
        let mut fresh = true;
        let mut j: usize = 0;
        while j < i
            invariant
                i < ds@.len(),
                j <= i,
                fresh == forall|k: int| 0 <= k < j ==> ds@[k] != ds@[i as int],
            decreases i - j,
        {
            if ds[j] == ds[i] {
                fresh = false;
            }
            j = j + 1;
        }
        proof {
            if ok && fresh && ds@[i as int] < n {
                assert forall|a: int, b: int| 0 <= a < post.len() && 0 <= b < post.len() && a != b
                    implies post[a] != post[b] by {
                    if a < i && b < i {
                        assert(pre[a] == post[a] && pre[b] == post[b]);
                    }
                }
            }
            if !fresh {
                let k = choose|k: int| 0 <= k < i && ds@[k] == ds@[i as int];
                assert(post[k] == post[i as int]);
            }
            if ok {
            } else {
                if !pre.no_duplicates() {
                    let (a, b) = choose|a: int, b: int| 0 <= a < pre.len() && 0 <= b < pre.len() && a != b
                        && pre[a] == pre[b];
                    assert(post[a] == post[b]);
                }
            }
        }
        ok = ok && fresh && ds[i] < n;
        i = i + 1;
    }
    assert(ds@.subrange(0, ds@.len() as int) =~= ds@);
    if !ok {
        let mut m = String::from_str("dev_slots must be distinct slots below ");
        push_decimal(&mut m, n);
        assert(m@ =~= "dev_slots must be distinct slots below "@ + dec(n as nat));
        return Some(m);
    }
    let seats = &t.default_seats;
    let mut k: usize = 0;
    while k < seats.len()
        invariant
            k <= seats@.len(),
            seats@ == t.default_seats@,
            dev_slots_ok(t.dev_slots@, n as nat),
            first_bad_seat(seats@, n as nat, 0) == first_bad_seat(seats@, n as nat, k as int),
        decreases seats@.len() - k,
    {
        if seats[k].1 >= n {
            let mut m = String::from_str("default_seats.");
            push_str(&mut m, seats[k].0.as_str());
            push_str(&mut m, " = ");
            push_decimal(&mut m, seats[k].1);
            push_str(&mut m, " is not a slot (have ");
            push_decimal(&mut m, n);
            push_str(&mut m, ")");
            assert(m@ =~= "default_seats."@ + seats@[k as int].0@ + " = "@
                + dec(seats@[k as int].1 as nat) + " is not a slot (have "@ + dec(n as nat) + ")"@);
            return Some(m);
        }
        k = k + 1;
    }
    None
}

fn permutation_check(l: &Vec<usize>) -> (r: bool)
    ensures
        r == is_slot_permutation(l@),
{
    let n = l.len();
    let mut seen: Vec<bool> = Vec::new();
    let mut z: usize = 0;
    while z < n
        invariant
            z <= n,
            seen@.len() == z,
            forall|k: int| 0 <= k < z ==> !(#[trigger] seen@[k]),
        decreases n - z,
    {
        seen.push(false);
        z = z + 1;
    }
    let mut i: usize = 0;
    while i < n
        invariant
            n == l@.len(),
            i <= n,
            seen@.len() == n,
            forall|j: int| 0 <= j < i ==> #[trigger] l@[j] < n,
            forall|a: int, b: int| 0 <= a < i && 0 <= b < i && a != b ==> l@[a] != l@[b],
            forall|k: int| 0 <= k < n ==> (#[trigger] seen@[k] <==> exists|j: int| 0 <= j < i && l@[j] == k),
        decreases n - i,
    {
        let s = l[i];
        if s >= n {
            return false;
        }
        if seen[s] {
            proof {
                let j = choose|j: int| 0 <= j < i && l@[j] == s;
                assert(l@[j] == l@[i as int]);
            }
            return false;
        }
        seen.set(s, true);
        i = i + 1;
        proof {
            assert forall|k: int| 0 <= k < n implies (#[trigger] seen@[k] <==> exists|j: int| 0 <= j < i && l@[j] == k) by {
                if k == s {
                    assert(l@[i - 1] == k);
                } else {
                    if exists|j: int| 0 <= j < i && l@[j] == k {
                        let j = choose|j: int| 0 <= j < i && l@[j] == k;
                        assert(j != i - 1);
                    }
                }
            }
        }
    }
    true
}

/// Check a template's structure: exactly one of rows and tree; rows non-empty,
/// heights for all rows or none (summing to one), widths per pane (summing to
/// one); tree slots exactly `0..n` once each; distinct `dev_slots` below the slot
/// count; `default_seats` naming slots.
pub fn validate(t: &Template) -> (r: Result<(), CmuxError>)
    requires
        fits(*t),
    ensures
        r is Ok <==> validation_error(*t) is None,
        r matches Err(e) ==> validation_error(*t) == Some(e.message@) && e.code@ == validation_code()
            && e.suggestions@.len() == 0,
        r is Ok && t.rows is Some ==> forall|i: int| 0 <= i < t.rows->Some_0@.len()
            && (#[trigger] t.rows->Some_0@[i]).widths_given is Some
            ==> t.rows->Some_0@[i].widths_given->Some_0 == t.rows->Some_0@[i].panes
                && t.rows->Some_0@[i].widths_sum_to_one,
{
    proof {
        if validation_error(*t) is None && t.rows is Some {
            lemma_valid_rows_template(*t);
        }
    }
    if t.name.as_str().is_empty() {
        return Err(bad(t.name.as_str(), "name is required"));
    }
    match (&t.rows, &t.tree) {
        (Some(_), Some(_)) => Err(bad(t.name.as_str(), "give rows or tree, not both")),
        (None, None) => Err(bad(t.name.as_str(), "give rows or tree")),
        (Some(rows), None) => {
            match rows_check(rows, t.heights_sum_to_one, t.heights_sum.as_str()) {
                Some(m) => return Err(bad(t.name.as_str(), m.as_str())),
                None => {},
            }
            let n = sum_panes(rows);
            match placement_check(t, n) {
                Some(m) => Err(bad(t.name.as_str(), m.as_str())),
                None => Ok(()),
            }
        },
        (None, Some(tree)) => {
            let leaves = match tree_leaf_order(tree) {
                Ok(l) => l,
                Err(e) => return Err(e),
            };
            if !permutation_check(&leaves) {
                let n = leaves.len();
                let mut m = String::from_str("tree slots must be exactly 0..");
                push_decimal(&mut m, if n == 0 { 0 } else { n - 1 });
                push_str(&mut m, " once each");
                return Err(bad(t.name.as_str(), m.as_str()));
            }
            match placement_check(t, leaves.len()) {
                Some(m) => Err(bad(t.name.as_str(), m.as_str())),
                None => Ok(()),
            }
        },
    }
}

} // verus!

verus! {

// ---------------------------------------------------------------------------
// Built-ins and resolution
// ---------------------------------------------------------------------------

/// `a` sorts before `b` character by character, as the keys of a map keyed by
/// `String` do.
pub open spec fn name_lt(a: Seq<char>, b: Seq<char>) -> bool
    decreases a.len(),
{
    if a.len() == 0 {
        b.len() > 0
    } else if b.len() == 0 {
        false
    } else if a[0] != b[0] {
        (a[0] as u32) < (b[0] as u32)
    } else {
        name_lt(a.drop_first(), b.drop_first())
    }
}

/// The default seats are the entries of a map: in role order, so each role
/// occurs once.
pub open spec fn seats_in_role_order(seats: Seq<(String, usize)>) -> bool {
    forall|i: int, j: int| 0 <= i < j < seats.len() ==> name_lt(seats[i].0@, seats[j].0@)
}

proof fn lemma_name_lt_irreflexive(a: Seq<char>)
    ensures
        !name_lt(a, a),
    decreases a.len(),
{
    if a.len() > 0 {
        lemma_name_lt_irreflexive(a.drop_first());
    }
}

/// Default seats in role order hold each role once.
pub proof fn lemma_roles_once(seats: Seq<(String, usize)>)
    requires
        seats_in_role_order(seats),
    ensures
        forall|i: int, j: int| 0 <= i < seats.len() && 0 <= j < seats.len() && i != j
            ==> #[trigger] seats[i].0@ != #[trigger] seats[j].0@,
{
    assert forall|i: int, j: int| 0 <= i < seats.len() && 0 <= j < seats.len() && i != j
        implies #[trigger] seats[i].0@ != #[trigger] seats[j].0@ by {
        lemma_name_lt_irreflexive(seats[i].0@);
        if i < j {
            assert(name_lt(seats[i].0@, seats[j].0@));
        } else {
            assert(name_lt(seats[j].0@, seats[i].0@));
        }
    }
}

proof fn lemma_builtin_roles_ordered(seats: Seq<(String, usize)>)
    requires
        seats.len() == 3,
        seats[0].0@ == "brainstorm"@,
        seats[1].0@ == "coordinator"@,
        seats[2].0@ == "planner"@,
    ensures
        seats_in_role_order(seats),
{
    reveal_strlit("brainstorm");
    reveal_strlit("coordinator");
    reveal_strlit("planner");
    assert(name_lt(seats[0].0@, seats[1].0@));
    assert(name_lt(seats[0].0@, seats[2].0@));
    assert(name_lt(seats[1].0@, seats[2].0@));
}

/// The built-in `2by2` quad: coordinator and planner share the top-left pane,
/// brainstorm the top-right, developers the bottom row.
pub open spec fn is_2by2(t: Template) -> bool {
    &&& t.name@ == "2by2"@
    &&& t.rows matches Some(rows) && rows@ == seq![
        Row { panes: 2, height_given: false, widths_given: None, widths_sum_to_one: true },
        Row { panes: 2, height_given: false, widths_given: None, widths_sum_to_one: true },
    ]
    &&& t.tree is None
    &&& t.dev_slots@ == seq![2usize, 3]
    &&& t.default_seats@.len() == 3
    &&& t.default_seats@[0].0@ == "brainstorm"@ && t.default_seats@[0].1 == 1
    &&& t.default_seats@[1].0@ == "coordinator"@ && t.default_seats@[1].1 == 0
    &&& t.default_seats@[2].0@ == "planner"@ && t.default_seats@[2].1 == 0
    &&& t.heights_sum_to_one
}

/// The built-in `3by2`: one pane per master across a 60% top row, two developer
/// panes below.
pub open spec fn is_3by2(t: Template) -> bool {
    &&& t.name@ == "3by2"@
    &&& t.rows matches Some(rows) && rows@ == seq![
        Row { panes: 3, height_given: true, widths_given: None, widths_sum_to_one: true },
        Row { panes: 2, height_given: true, widths_given: None, widths_sum_to_one: true },
    ]
    &&& t.tree is None
    &&& t.dev_slots@ == seq![3usize, 4]
    &&& t.default_seats@.len() == 3
    &&& t.default_seats@[0].0@ == "brainstorm"@ && t.default_seats@[0].1 == 2
    &&& t.default_seats@[1].0@ == "coordinator"@ && t.default_seats@[1].1 == 0
    &&& t.default_seats@[2].0@ == "planner"@ && t.default_seats@[2].1 == 1
    &&& t.heights_sum_to_one
    &&& t.heights_sum@ == "1.00"@
}

fn seat_entry(role: &str, slot: usize) -> (r: (String, usize))
    ensures
        r.0@ == role@,
        r.1 == slot,
{
    (String::from_str(role), slot)
}

fn plain_row(panes: usize, height_given: bool) -> (r: Row)
    ensures
        r == (Row { panes, height_given, widths_given: None, widths_sum_to_one: true }),
{
    Row { panes, height_given, widths_given: None, widths_sum_to_one: true }
}

/// The built-in `2by2` quad: coordinator and planner share the top-left pane,
/// brainstorm the top-right, developers the bottom row.
pub fn builtin_2by2() -> (t: Template)
    ensures
        is_2by2(t),
        seats_in_role_order(t.default_seats@),
{
    let mut rows: Vec<Row> = Vec::new();
    rows.push(plain_row(2, false));
    rows.push(plain_row(2, false));
    let mut dev_slots: Vec<usize> = Vec::new();
    dev_slots.push(2);
    dev_slots.push(3);
    let mut seats: Vec<(String, usize)> = Vec::new();
    seats.push(seat_entry("brainstorm", 1));
    seats.push(seat_entry("coordinator", 0));
    seats.push(seat_entry("planner", 0));
    let t = Template {
        name: String::from_str("2by2"),
        summary: String::from_str("2x2 quad: coordinator + planner | brainstorm over two developer panes"),
        rows: Some(rows),
        tree: None,
        dev_slots,
        default_seats: seats,
        heights_sum_to_one: true,
        heights_sum: String::from_str("0.00"),
    };
    assert(t.rows->0@ =~= seq![
        Row { panes: 2, height_given: false, widths_given: None, widths_sum_to_one: true },
        Row { panes: 2, height_given: false, widths_given: None, widths_sum_to_one: true },
    ]);
    assert(t.dev_slots@ =~= seq![2usize, 3]);
    proof {
        lemma_builtin_roles_ordered(t.default_seats@);
    }
    t
}

/// The built-in `3by2` (the default): one pane per master across a 60% top row,
/// two developer panes below.
pub fn builtin_3by2() -> (t: Template)
    ensures
        is_3by2(t),
        seats_in_role_order(t.default_seats@),
{
    let mut rows: Vec<Row> = Vec::new();
    rows.push(plain_row(3, true));
    rows.push(plain_row(2, true));
    let mut dev_slots: Vec<usize> = Vec::new();
    dev_slots.push(3);
    dev_slots.push(4);
    let mut seats: Vec<(String, usize)> = Vec::new();
    seats.push(seat_entry("brainstorm", 2));
    seats.push(seat_entry("coordinator", 0));
    seats.push(seat_entry("planner", 1));
    let t = Template {
        name: String::from_str("3by2"),
        summary: String::from_str("three masters across a 60% top row, two developer panes below"),
        rows: Some(rows),
        tree: None,
        dev_slots,
        default_seats: seats,
        heights_sum_to_one: true,
        heights_sum: String::from_str("1.00"),
    };
    assert(t.rows->0@ =~= seq![
        Row { panes: 3, height_given: true, widths_given: None, widths_sum_to_one: true },
        Row { panes: 2, height_given: true, widths_given: None, widths_sum_to_one: true },
    ]);
    assert(t.dev_slots@ =~= seq![3usize, 4]);
    proof {
        lemma_builtin_roles_ordered(t.default_seats@);
    }
    t
}

/// The built-in templates, `2by2` then `3by2`.
pub fn builtins() -> (r: Vec<Template>)
    ensures
        r@.len() == 2,
        seats_in_role_order(r@[0].default_seats@),
        seats_in_role_order(r@[1].default_seats@),
        is_2by2(r@[0]),
        is_3by2(r@[1]),
{
    let mut v: Vec<Template> = Vec::new();
    v.push(builtin_2by2());
    v.push(builtin_3by2());
    v
}

/// The names of the given templates, in order.
pub fn known_names(templates: &[Template]) -> (r: Vec<String>)
    ensures
        r@.len() == templates@.len(),
        forall|i: int| 0 <= i < r@.len() ==> (#[trigger] r@[i])@ == templates@[i].name@,
{
    let mut out: Vec<String> = Vec::new();
    let mut i: usize = 0;
    while i < templates.len()
        invariant
            i <= templates@.len(),
            out@.len() == i,
            forall|j: int| 0 <= j < i ==> (#[trigger] out@[j])@ == templates@[j].name@,
        decreases templates@.len() - i,
    {
        out.push(templates[i].name.clone());
        i = i + 1;
    }
    out
}

/// How `resolve` reads a name: a path to load, a built-in, a user template to
/// load from the user directory, or nothing known by that name.
pub enum Resolution {
    File,
    Builtin(Template),
    User,
    Unknown,
}

/// A name that is a path: it ends in `.json` or holds a `/`.
pub open spec fn is_path_like(s: Seq<char>) -> bool {
    ends_with(s, ".json"@) || s.contains('/')
}

pub open spec fn is_builtin_name(s: Seq<char>) -> bool {
    s == "2by2"@ || s == "3by2"@
}

/// Resolve a built-in name, a user template name, or a path to a `.json` file.
/// `user_file_exists` says whether `<user dir>/<name>.json` exists.
pub fn resolve(name_or_path: &str, user_file_exists: bool) -> (r: Resolution)
    ensures
        is_path_like(name_or_path@) ==> r is File,
        !is_path_like(name_or_path@) && name_or_path@ == "2by2"@
            ==> (r matches Resolution::Builtin(t) && is_2by2(t)),
        !is_path_like(name_or_path@) && name_or_path@ == "3by2"@
            ==> (r matches Resolution::Builtin(t) && is_3by2(t)),
        !is_path_like(name_or_path@) && !is_builtin_name(name_or_path@) && user_file_exists ==> r is User,
        !is_path_like(name_or_path@) && !is_builtin_name(name_or_path@) && !user_file_exists ==> r is Unknown,
{
    proof {
        reveal_strlit(".json");
        reveal_strlit("2by2");
        reveal_strlit("3by2");
        assert("2by2"@[0] != "3by2"@[0]);
    }
    let v = chars_of(name_or_path);
    let suffix = chars_of(".json");
    let ends = v.len() >= suffix.len() && matches_at(v.as_slice(), suffix.as_slice(), v.len() - suffix.len());
    if ends || has_char(v.as_slice(), '/') {
        proof {
            if ends {
                assert(ends_with(name_or_path@, ".json"@));
            }
        }
        return Resolution::File;
    }
    proof {
        if ends_with(name_or_path@, ".json"@) {
            assert(v@.len() >= suffix@.len());
        }
    }
    if str_eq(name_or_path, "2by2") {
        return Resolution::Builtin(builtin_2by2());
    }
    if str_eq(name_or_path, "3by2") {
        return Resolution::Builtin(builtin_3by2());
    }
    if user_file_exists {
        Resolution::User
    } else {
        Resolution::Unknown
    }
}

pub open spec fn unknown_layout_text(name: Seq<char>, known: Seq<Seq<char>>) -> Seq<char> {
    "unknown layout "@ + debug_text(name) + " — known: "@ + join_with(known, ", "@)
}

/// The error for a name that is no layout: it lists the known ones.
pub fn unknown_layout(name: &str, known: &[String]) -> (e: CmuxError)
    ensures
        e.message@ == unknown_layout_text(name@, views_of(known@)),
        e.code@ == validation_code(),
        e.suggestions@.len() == 1,
        e.suggestions@[0]@ == "Run `cmux-axi layout list`"@,
{
    let mut m = String::from_str("unknown layout ");
    let q = debug_quote(name);
    push_str(&mut m, q.as_str());
    push_str(&mut m, " — known: ");
    let k = join_strings(known, ", ");
    push_str(&mut m, k.as_str());
    assert(m@ =~= unknown_layout_text(name@, views_of(known@)));
    let mut help: Vec<String> = Vec::new();
    help.push(String::from_str("Run `cmux-axi layout list`"));
    CmuxError::usage(m.as_str()).with_suggestions(help)
}

/// `$XDG_CONFIG_HOME/cmux-axi/layouts` where that variable is set and not
/// empty, else `$HOME/.config/cmux-axi/layouts` (`HOME` defaulting to `.`).
pub open spec fn user_dir_text(xdg: Option<Seq<char>>, home: Option<Seq<char>>) -> Seq<char> {
    let h = match home {
        Some(h) => h,
        None => "."@,
    };
    match xdg {
        Some(x) => if x.len() > 0 {
            crate::text::path_join(crate::text::path_join(x, "cmux-axi"@), "layouts"@)
        } else {
            crate::text::path_join(crate::text::path_join(crate::text::path_join(h, ".config"@), "cmux-axi"@), "layouts"@)
        },
        None => crate::text::path_join(crate::text::path_join(crate::text::path_join(h, ".config"@), "cmux-axi"@), "layouts"@),
    }
}

/// The directory of user templates, given `XDG_CONFIG_HOME` and `HOME` (each
/// `None` where unset).
pub fn user_dir_of(xdg: Option<&str>, home: Option<&str>) -> (r: String)
    ensures
        r@ == user_dir_text(
            match xdg { Some(x) => Some(x@), None => None },
            match home { Some(h) => Some(h@), None => None },
        ),
{
    match xdg {
        Some(x) => {
            if !x.is_empty() {
                let a = crate::text::join_path(x, "cmux-axi");
                return crate::text::join_path(a.as_str(), "layouts");
            }
        },
        None => {},
    }
    let h = match home {
        Some(h) => h,
        None => ".",
    };
    let a = crate::text::join_path(h, ".config");
    let b = crate::text::join_path(a.as_str(), "cmux-axi");
    crate::text::join_path(b.as_str(), "layouts")
}

/// `<dir>/<name>.json`, where a user template of that name lives.
pub fn user_file(dir: &str, name: &str) -> (r: String)
    ensures
        r@ == crate::text::path_join(dir@, name@ + ".json"@),
{
    let mut file = String::from_str(name);
    push_str(&mut file, ".json");
    crate::text::join_path(dir, file.as_str())
}

} // verus!

verus! {

/// The built-in templates are valid: `2by2` has four slots, `3by2` five.
pub proof fn lemma_builtins_valid(t: Template)
    requires
        is_2by2(t) || is_3by2(t),
    ensures
        validation_error(t) is None,
        fits(t),
        is_2by2(t) ==> slot_count(t) == 4 && leaf_order_of(t) == seq![0usize, 1, 2, 3],
        is_3by2(t) ==> slot_count(t) == 5 && leaf_order_of(t) == seq![0usize, 1, 2, 3, 4],
{
    reveal_strlit("2by2");
    reveal_strlit("3by2");
    let rows = t.rows->0@;
    assert(rows.drop_last().drop_last() =~= Seq::<Row>::empty());
    assert(total_panes(Seq::<Row>::empty()) == 0);
    assert(total_panes(rows.drop_last()) == rows[0].panes);
    assert(height_count(Seq::<Row>::empty()) == 0);
    assert(height_count(rows.drop_last()) == if rows[0].height_given { 1nat } else { 0nat });
    assert(widths_problem(rows, 2) is None);
    assert(widths_problem(rows, 1) is None);
    assert(widths_problem(rows, 0) is None);
    let n = total_panes(rows);
    let ds = t.dev_slots@;
    assert(ds.no_duplicates());
    let seats = t.default_seats@;
    assert(first_bad_seat(seats, n, 3) is None);
    assert(first_bad_seat(seats, n, 2) is None);
    assert(first_bad_seat(seats, n, 1) is None);
    assert(first_bad_seat(seats, n, 0) is None);
    if !(rows.len() == 0 || exists|i: int| 0 <= i < rows.len() && (#[trigger] rows[i]).panes == 0) {
    } else {
        let i = choose|i: int| 0 <= i < rows.len() && (#[trigger] rows[i]).panes == 0;
        assert(rows[i].panes > 0);
    }
    if is_2by2(t) {
        assert(leaf_order_of(t) =~= seq![0usize, 1, 2, 3]);
    } else {
        assert(leaf_order_of(t) =~= seq![0usize, 1, 2, 3, 4]);
    }
}

} // verus!
