//! What cmux reports about workspaces, panes and surfaces (its `--json`
//! introspection), and the lookups made on it. Running `cmux` is the caller's
//! business.

use vstd::prelude::*;
use crate::error::CmuxError;
use crate::text::{
    chars_of, debug_quote, debug_text, find, find_chars, join_strs, join_with, push_str, str_eq, str_views,
    string_of, sub_chars, trim, trim_chars,
};

verus! {

broadcast use vstd::string::group_string_axioms;

#[derive(Debug)]
pub struct WorkspaceList {
    pub workspaces: Vec<Workspace>,
}

#[derive(Debug, Clone)]
pub struct Workspace {
    /// cmux's `ref` for the workspace.
    pub reference: String,
    pub custom_title: Option<String>,
}

#[derive(Debug)]
pub struct PanesList {
    pub panes: Vec<Pane>,
}

#[derive(Debug, Clone)]
pub struct Pane {
    /// cmux's `ref` for the pane.
    pub reference: String,
    /// cmux's pane index — layout tree leaf order; the only stable geometry signal
    /// for an unfocused workspace (its pixel frames are all zero).
    pub index: Option<i64>,
    pub surface_refs: Vec<String>,
}

#[derive(Debug)]
pub struct PaneSurfaces {
    pub surfaces: Vec<Surface>,
}

#[derive(Debug, Clone)]
pub struct Surface {
    /// cmux's `ref` for the surface.
    pub reference: String,
    pub index: Option<i64>,
}

// ---------------------------------------------------------------------------
// Failures
// ---------------------------------------------------------------------------

/// The first line of `t` as `str::lines` gives it: up to the first `\n`,
/// without a trailing `\r`.
pub open spec fn first_line(t: Seq<char>) -> Seq<char> {
    let l = match find(t, seq!['\n']) {
        Some(i) => t.subrange(0, i),
        None => t,
    };
    if l.len() > 0 && l.last() == '\r' { l.drop_last() } else { l }
}

/// The message of a failed `cmux` call: the command line and the first line of
/// what it wrote to stderr.
pub open spec fn failure_text(args: Seq<Seq<char>>, stderr: Seq<char>) -> Seq<char> {
    let t = trim(stderr);
    "cmux "@ + join_with(args, " "@) + " failed: "@ + if t.len() == 0 {
        "unknown cmux error"@
    } else {
        first_line(t)
    }
}

/// The error message for a `cmux <args>` call that exited non-zero with
/// `stderr`.
pub fn failure_message(args: &[&str], stderr: &str) -> (r: String)
    ensures
        r@ == failure_text(str_views(args@), stderr@),
{
    let mut m = String::from_str("cmux ");
    let a = join_strs(args, " ");
    push_str(&mut m, a.as_str());
    push_str(&mut m, " failed: ");
    let v = chars_of(stderr);
    let t = trim_chars(v.as_slice());
    if t.len() == 0 {
        push_str(&mut m, "unknown cmux error");
        return m;
    }
    let nl = vec!['\n'];
    assert(nl@ =~= seq!['\n']);
    let mut line = match find_chars(t.as_slice(), nl.as_slice()) {
        Some(i) => {
            proof {
                crate::text::lemma_find_from(t@, nl@, 0);
            }
            sub_chars(t.as_slice(), 0, i)
        },
        None => sub_chars(t.as_slice(), 0, t.len()),
    };
    proof {
        assert(t@.subrange(0, t@.len() as int) =~= t@);
    }
    let n = line.len();
    if n > 0 && line[n - 1] == '\r' {
        line = sub_chars(line.as_slice(), 0, n - 1);
    }
    let l = string_of(line.as_slice());
    push_str(&mut m, l.as_str());
    m
}

// ---------------------------------------------------------------------------
// Workspace lookup
// ---------------------------------------------------------------------------

pub open spec fn titled(w: Workspace, title: Seq<char>) -> bool {
    w.custom_title matches Some(t) && t@ == title
}

/// Position of the first workspace titled `title` at or after `i`.
pub open spec fn first_titled(ws: Seq<Workspace>, title: Seq<char>, i: int) -> Option<int>
    decreases ws.len() - i,
{
    if i < 0 || i >= ws.len() {
        None
    } else if titled(ws[i], title) {
        Some(i)
    } else {
        first_titled(ws, title, i + 1)
    }
}

pub open spec fn not_found_text(title: Seq<char>) -> Seq<char> {
    "no workspace titled "@ + debug_text(title)
}

fn copy_workspace(w: &Workspace) -> (r: Workspace)
    ensures
        r.reference@ == w.reference@,
        r.custom_title == w.custom_title,
{
    Workspace {
        reference: w.reference.clone(),
        custom_title: match &w.custom_title {
            Some(t) => Some(t.clone()),
            None => None,
        },
    }
}

/// Find a workspace by exact custom title (the first so titled).
pub fn find_workspace_by_title(list: &WorkspaceList, title: &str) -> (r: Result<Workspace, CmuxError>)
    ensures
        match first_titled(list.workspaces@, title@, 0) {
            Some(k) => r matches Ok(w) && w.reference@ == list.workspaces@[k].reference@
                && w.custom_title == list.workspaces@[k].custom_title,
            None => r matches Err(e) && e.message@ == not_found_text(title@)
                && e.code@ == "WORKSPACE_NOT_FOUND"@ && e.suggestions@.len() == 0,
        },
{
    let ws = &list.workspaces;
    let mut i: usize = 0;
    while i < ws.len()
        invariant
            i <= ws@.len(),
            ws@ == list.workspaces@,
            first_titled(ws@, title@, 0) == first_titled(ws@, title@, i as int),
        decreases ws@.len() - i,
    {
        let hit = match &ws[i].custom_title {
            Some(t) => str_eq(t.as_str(), title),
            None => false,
        };
        if hit {
            return Ok(copy_workspace(&ws[i]));
        }
        i = i + 1;
    }
    let mut m = String::from_str("no workspace titled ");
    let q = debug_quote(title);
    push_str(&mut m, q.as_str());
    assert(m@ =~= not_found_text(title@));
    Err(CmuxError::operational(m.as_str(), "WORKSPACE_NOT_FOUND"))
}

/// Some workspace carries `title`.
pub open spec fn any_titled(ws: Seq<Workspace>, title: Seq<char>) -> bool {
    exists|i: int| 0 <= i < ws.len() && titled(#[trigger] ws[i], title)
}

/// Whether a workspace titled `title` is live.
pub fn has_workspace_titled(list: &WorkspaceList, title: &str) -> (r: bool)
    ensures
        r == any_titled(list.workspaces@, title@),
{
    let ws = &list.workspaces;
    let mut i: usize = 0;
    while i < ws.len()
        invariant
            i <= ws@.len(),
            ws@ == list.workspaces@,
            forall|j: int| 0 <= j < i ==> !titled(#[trigger] ws@[j], title@),
        decreases ws@.len() - i,
    {
        let hit = match &ws[i].custom_title {
            Some(t) => str_eq(t.as_str(), title),
            None => false,
        };
        if hit {
            return true;
        }
        i = i + 1;
    }
    false
}

// ---------------------------------------------------------------------------
// Index order
// ---------------------------------------------------------------------------

/// What a pane report says, as text.
pub struct PaneView {
    pub reference: Seq<char>,
    pub index: Option<i64>,
    pub surface_refs: Seq<Seq<char>>,
}

impl View for Pane {
    type V = PaneView;

    open spec fn view(&self) -> PaneView {
        PaneView {
            reference: self.reference@,
            index: self.index,
            surface_refs: self.surface_refs@.map_values(|s: String| s@),
        }
    }
}

/// What a surface report says, as text.
pub struct SurfaceView {
    pub reference: Seq<char>,
    pub index: Option<i64>,
}

impl View for Surface {
    type V = SurfaceView;

    open spec fn view(&self) -> SurfaceView {
        SurfaceView { reference: self.reference@, index: self.index }
    }
}

pub open spec fn pane_views(ps: Seq<Pane>) -> Seq<PaneView> {
    ps.map_values(|p: Pane| p@)
}

pub open spec fn surface_views(ss: Seq<Surface>) -> Seq<SurfaceView> {
    ss.map_values(|s: Surface| s@)
}

/// The sort key cmux's index gives: a missing index reads as 0.
pub open spec fn index_key(index: Option<i64>) -> i64 {
    match index {
        Some(i) => i,
        None => 0,
    }
}

/// Where a stable sort puts a new last element among already sorted keys:
/// after every element whose key is not greater.
pub open spec fn insert_point(keys: Seq<i64>, k: i64) -> int
    decreases keys.len(),
{
    if keys.len() == 0 {
        0
    } else if keys.last() <= k {
        keys.len() as int
    } else {
        insert_point(keys.drop_last(), k)
    }
}

/// The stable sort of `items` by `key`, as `sort_by_key` leaves it: each element
/// goes after the equal-keyed ones before it.
pub open spec fn stable_sort<T>(items: Seq<T>, key: spec_fn(T) -> i64) -> Seq<T>
    decreases items.len(),
{
    if items.len() == 0 {
        items
    } else {
        let sorted = stable_sort(items.drop_last(), key);
        sorted.insert(insert_point(sorted.map_values(key), key(items.last())), items.last())
    }
}

pub open spec fn pane_key() -> spec_fn(PaneView) -> i64 {
    |p: PaneView| index_key(p.index)
}

pub open spec fn surface_key() -> spec_fn(SurfaceView) -> i64 {
    |s: SurfaceView| index_key(s.index)
}

proof fn lemma_insert_point_bound(keys: Seq<i64>, k: i64)
    ensures
        0 <= insert_point(keys, k) <= keys.len(),
    decreases keys.len(),
{
    if keys.len() > 0 && keys.last() > k {
        lemma_insert_point_bound(keys.drop_last(), k);
    }
}

fn find_insert_point(keys: &Vec<i64>, k: i64) -> (r: usize)
    ensures
        r == insert_point(keys@, k),
{
    let mut j = keys.len();
    assert(keys@.subrange(0, j as int) =~= keys@);
    while j > 0 && keys[j - 1] > k
        invariant
            j <= keys@.len(),
            insert_point(keys@, k) == insert_point(keys@.subrange(0, j as int), k),
        decreases j,
    {
        let ghost pre = keys@.subrange(0, j as int);
        assert(pre.drop_last() =~= keys@.subrange(0, j - 1));
        assert(pre.last() == keys@[j - 1]);
        j = j - 1;
    }
    proof {
        let pre = keys@.subrange(0, j as int);
        if j > 0 {
            assert(pre.last() == keys@[j - 1]);
        }
        assert(keys@.subrange(0, keys@.len() as int) =~= keys@);
    }
    j
}

fn key_of(index: Option<i64>) -> (r: i64)
    ensures
        r == index_key(index),
{
    match index {
        Some(i) => i,
        None => 0,
    }
}

fn copy_strings(v: &Vec<String>) -> (r: Vec<String>)
    ensures
        r@.map_values(|s: String| s@) == v@.map_values(|s: String| s@),
{
    let mut out: Vec<String> = Vec::new();
    let mut i: usize = 0;
    while i < v.len()
        invariant
            i <= v@.len(),
            out@.len() == i,
            forall|j: int| 0 <= j < i ==> (#[trigger] out@[j])@ == v@[j]@,
        decreases v@.len() - i,
    {
        out.push(v[i].clone());
        i = i + 1;
    }
    assert(out@.map_values(|s: String| s@) =~= v@.map_values(|s: String| s@));
    out
}

/// A copy of a pane report.
pub fn copy_pane(p: &Pane) -> (r: Pane)
    ensures
        r@ == p@,
{
    Pane { reference: p.reference.clone(), index: p.index, surface_refs: copy_strings(&p.surface_refs) }
}

/// A copy of a surface report.
pub fn copy_surface(s: &Surface) -> (r: Surface)
    ensures
        r@ == s@,
{
    Surface { reference: s.reference.clone(), index: s.index }
}

/// A workspace's panes in cmux index order (= layout tree leaf order):
/// `sort_by_key(|p| p.index.unwrap_or(0))`.
pub fn sort_panes(panes: &Vec<Pane>) -> (r: Vec<Pane>)
    ensures
        pane_views(r@) == stable_sort(pane_views(panes@), pane_key()),
{
    let mut sorted: Vec<Pane> = Vec::new();
    let mut keys: Vec<i64> = Vec::new();
    let mut i: usize = 0;
    while i < panes.len()
        invariant
            i <= panes@.len(),
            pane_views(sorted@) == stable_sort(pane_views(panes@.subrange(0, i as int)), pane_key()),
            keys@ == pane_views(sorted@).map_values(pane_key()),
        decreases panes@.len() - i,
    {
        let ghost pre = pane_views(panes@.subrange(0, i as int));
        let ghost post = pane_views(panes@.subrange(0, i + 1));
        assert(post.drop_last() =~= pre);
        assert(post.last() == panes@[i as int]@);
        let p = copy_pane(&panes[i]);
        let k = key_of(p.index);
        let at = find_insert_point(&keys, k);
        proof {
            lemma_insert_point_bound(keys@, k);
        }
        let ghost old_sorted = pane_views(sorted@);
        sorted.insert(at, p);
        keys.insert(at, k);
        assert(pane_views(sorted@) =~= old_sorted.insert(at as int, post.last()));
        assert(keys@ =~= pane_views(sorted@).map_values(pane_key()));
        i = i + 1;
    }
    assert(panes@.subrange(0, panes@.len() as int) =~= panes@);
    sorted
}

/// A pane's surfaces in cmux index order: `sort_by_key(|s| s.index.unwrap_or(0))`.
pub fn sort_surfaces(surfaces: &Vec<Surface>) -> (r: Vec<Surface>)
    ensures
        surface_views(r@) == stable_sort(surface_views(surfaces@), surface_key()),
{
    let mut sorted: Vec<Surface> = Vec::new();
    let mut keys: Vec<i64> = Vec::new();
    let mut i: usize = 0;
    while i < surfaces.len()
        invariant
            i <= surfaces@.len(),
            surface_views(sorted@) == stable_sort(surface_views(surfaces@.subrange(0, i as int)), surface_key()),
            keys@ == surface_views(sorted@).map_values(surface_key()),
        decreases surfaces@.len() - i,
    {
        let ghost pre = surface_views(surfaces@.subrange(0, i as int));
        let ghost post = surface_views(surfaces@.subrange(0, i + 1));
        assert(post.drop_last() =~= pre);
        assert(post.last() == surfaces@[i as int]@);
        let s = copy_surface(&surfaces[i]);
        let k = key_of(s.index);
        let at = find_insert_point(&keys, k);
        proof {
            lemma_insert_point_bound(keys@, k);
        }
        let ghost old_sorted = surface_views(sorted@);
        sorted.insert(at, s);
        keys.insert(at, k);
        assert(surface_views(sorted@) =~= old_sorted.insert(at as int, post.last()));
        assert(keys@ =~= surface_views(sorted@).map_values(surface_key()));
        i = i + 1;
    }
    assert(surfaces@.subrange(0, surfaces@.len() as int) =~= surfaces@);
    sorted
}


// ---------------------------------------------------------------------------
// Sorting laws
// ---------------------------------------------------------------------------

/// The keys of `s` never decrease.
pub open spec fn sorted_by<T>(s: Seq<T>, key: spec_fn(T) -> i64) -> bool {
    forall|i: int, j: int| 0 <= i <= j < s.len() ==> key(s[i]) <= key(s[j])
}

proof fn lemma_insert_point_split(keys: Seq<i64>, k: i64)
    requires
        forall|i: int, j: int| 0 <= i <= j < keys.len() ==> keys[i] <= keys[j],
    ensures
        forall|j: int| 0 <= j < insert_point(keys, k) ==> keys[j] <= k,
        forall|j: int| insert_point(keys, k) <= j < keys.len() ==> keys[j] > k,
    decreases keys.len(),
{
    lemma_insert_point_bound(keys, k);
    if keys.len() > 0 {
        if keys.last() > k {
            let d = keys.drop_last();
            lemma_insert_point_split(d, k);
            lemma_insert_point_bound(d, k);
            assert forall|j: int| 0 <= j < insert_point(keys, k) implies keys[j] <= k by {
                assert(keys[j] == d[j]);
            }
            assert forall|j: int| insert_point(keys, k) <= j < keys.len() implies keys[j] > k by {
                if j < d.len() {
                    assert(keys[j] == d[j]);
                }
            }
        } else {
            assert forall|j: int| 0 <= j < insert_point(keys, k) implies keys[j] <= k by {
                assert(keys[j] <= keys[keys.len() - 1]);
            }
        }
    }
}

/// A stable sort by key leaves the items ordered by key, and holds exactly the
/// items it was given: a workspace's panes come out in index order, none lost
/// or repeated.
pub proof fn lemma_stable_sort_sorted<T>(items: Seq<T>, key: spec_fn(T) -> i64)
    ensures
        sorted_by(stable_sort(items, key), key),
        stable_sort(items, key).to_multiset() == items.to_multiset(),
    decreases items.len(),
{
    broadcast use vstd::seq_lib::to_multiset_build, vstd::seq_lib::to_multiset_insert;

    if items.len() == 0 {
    } else {
        let d = items.drop_last();
        lemma_stable_sort_sorted(d, key);
        let sorted = stable_sort(d, key);
        let keys = sorted.map_values(key);
        let x = items.last();
        let p = insert_point(keys, key(x));
        assert forall|i: int, j: int| 0 <= i <= j < keys.len() implies keys[i] <= keys[j] by {
            assert(key(sorted[i]) <= key(sorted[j]));
        }
        lemma_insert_point_split(keys, key(x));
        lemma_insert_point_bound(keys, key(x));
        let r = sorted.insert(p, x);
        assert(r == stable_sort(items, key));
        assert forall|i: int, j: int| 0 <= i <= j < r.len() implies key(r[i]) <= key(r[j]) by {
            if i < p {
                assert(r[i] == sorted[i]);
                assert(keys[i] <= key(x));
                if j < p {
                    assert(r[j] == sorted[j]);
                } else if j > p {
                    assert(r[j] == sorted[j - 1]);
                    assert(keys[i] <= keys[j - 1]);
                }
            } else if i == p {
                if j > p {
                    assert(r[j] == sorted[j - 1]);
                    assert(keys[j - 1] > key(x));
                }
            } else {
                assert(r[i] == sorted[i - 1]);
                assert(r[j] == sorted[j - 1]);
                assert(keys[i - 1] <= keys[j - 1]);
            }
        }
        assert(items =~= d.push(x));
    }
}

} // verus!
