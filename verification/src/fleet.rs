//! The `fleet.md` record — the durable role → surface → session binding.
//!
//! Line grammar:
//! `- <role> - <project> (surface: <ref>; session: <id>; status: <status>; started <date>)`
//!
//! `session` is a session id for resumable roles, or `ephemeral` for disposable
//! developers. cmux-axi is the single writer; agents read it (never a second
//! source of truth). Reading and writing the file is the caller's business: this
//! module turns text into entries and entries into text.

use vstd::prelude::*;
use crate::text::{
    contains_seq, is_ws, lemma_no_char_concat, lemma_not_prefix, lemma_split_char_concat,
    lemma_split_char_none, lemma_split_once_at, lemma_trim_id, lemma_trim_labelled, occurs_at,
    lemma_no_occurrence, chars_of, ends_with, find_chars, lemma_find_from, push_char, push_str, split_char, split_once,
    split_once_chars, starts_with, str_eq, string_of, strip_prefix_chars, sub_chars, trim, trim_chars,
};

verus! {

broadcast use vstd::string::group_string_axioms;

/// One fleet line.
#[derive(Debug, Clone, PartialEq)]
pub struct FleetEntry {
    pub role: String,
    pub project: String,
    pub surface: String,
    pub session: String,
    pub status: String,
    pub started: String,
}

/// The text of a fleet entry, field by field.
pub struct EntryView {
    pub role: Seq<char>,
    pub project: Seq<char>,
    pub surface: Seq<char>,
    pub session: Seq<char>,
    pub status: Seq<char>,
    pub started: Seq<char>,
}

impl View for FleetEntry {
    type V = EntryView;

    open spec fn view(&self) -> EntryView {
        EntryView {
            role: self.role@,
            project: self.project@,
            surface: self.surface@,
            session: self.session@,
            status: self.status@,
            started: self.started@,
        }
    }
}

// ---------------------------------------------------------------------------
// The line grammar
// ---------------------------------------------------------------------------

pub open spec fn lbl_item() -> Seq<char> { "- "@ }
pub open spec fn lbl_sep() -> Seq<char> { " - "@ }
pub open spec fn lbl_open() -> Seq<char> { " ("@ }
pub open spec fn lbl_surface() -> Seq<char> { "surface: "@ }
pub open spec fn lbl_session() -> Seq<char> { "session: "@ }
pub open spec fn lbl_status() -> Seq<char> { "status: "@ }
pub open spec fn lbl_started() -> Seq<char> { "started "@ }
pub open spec fn lbl_unknown() -> Seq<char> { "unknown"@ }

/// The line that records `e`.
pub open spec fn line_of(e: EntryView) -> Seq<char> {
    lbl_item() + e.role + lbl_sep() + e.project + lbl_open() + lbl_surface() + e.surface
        + "; "@ + lbl_session() + e.session + "; "@ + lbl_status() + e.status + "; "@
        + lbl_started() + e.started + ")"@
}

/// What the scan of the parenthesised parts has found so far:
/// (surface, session, status, started), each the last one seen.
pub type Found = (Option<Seq<char>>, Option<Seq<char>>, Option<Seq<char>>, Option<Seq<char>>);

/// Scans the `;`-separated parts in order; each trimmed part is matched against
/// the labels in turn, and a later part overrides an earlier one.
pub open spec fn scan_parts(parts: Seq<Seq<char>>) -> Found
    decreases parts.len(),
{
    if parts.len() == 0 {
        (None, None, None, None)
    } else {
        let prev = scan_parts(parts.drop_last());
        let p = trim(parts.last());
        if starts_with(p, lbl_surface()) {
            (Some(p.subrange(lbl_surface().len() as int, p.len() as int)), prev.1, prev.2, prev.3)
        } else if starts_with(p, lbl_session()) {
            (prev.0, Some(p.subrange(lbl_session().len() as int, p.len() as int)), prev.2, prev.3)
        } else if starts_with(p, lbl_status()) {
            (prev.0, prev.1, Some(p.subrange(lbl_status().len() as int, p.len() as int)), prev.3)
        } else if starts_with(p, lbl_started()) {
            (prev.0, prev.1, prev.2, Some(p.subrange(lbl_started().len() as int, p.len() as int)))
        } else {
            prev
        }
    }
}

pub open spec fn or_else(o: Option<Seq<char>>, d: Seq<char>) -> Seq<char> {
    match o {
        Some(v) => v,
        None => d,
    }
}

/// The entry that a line records, or `None` for a blank, header or unrelated line.
pub open spec fn parse_line(line: Seq<char>) -> Option<EntryView> {
    let l = trim(line);
    if !starts_with(l, lbl_item()) {
        None
    } else {
        let rest = l.subrange(2, l.len() as int);
        match split_once(rest, lbl_sep()) {
            None => None,
            Some((role, rest2)) => match split_once(rest2, lbl_open()) {
                None => None,
                Some((project, parens)) => if !ends_with(parens, ")"@) {
                    None
                } else {
                    let found = scan_parts(split_char(parens.drop_last(), ';'));
                    match found.0 {
                        None => None,
                        Some(surface) => Some(EntryView {
                            role: trim(role),
                            project: trim(project),
                            surface,
                            session: or_else(found.1, Seq::empty()),
                            status: or_else(found.2, lbl_unknown()),
                            started: or_else(found.3, Seq::empty()),
                        }),
                    }
                },
            },
        }
    }
}

/// The header line that opens a fleet file.
pub open spec fn fleet_header() -> Seq<char> {
    "# cmux-axi fleet — role → surface → session"@
}

/// The lines of a sequence of entries, each followed by a newline.
pub open spec fn lines_of(es: Seq<EntryView>) -> Seq<char>
    decreases es.len(),
{
    if es.len() == 0 {
        Seq::empty()
    } else {
        lines_of(es.drop_last()) + line_of(es.last()) + seq!['\n']
    }
}

/// The whole fleet file for `es`.
pub open spec fn fleet_text(es: Seq<EntryView>) -> Seq<char> {
    fleet_header() + seq!['\n'] + lines_of(es)
}

/// The entries recorded in the lines of a text (every line that parses, in order).
pub open spec fn parse_lines(lines: Seq<Seq<char>>) -> Seq<EntryView>
    decreases lines.len(),
{
    if lines.len() == 0 {
        Seq::empty()
    } else {
        match parse_line(lines.last()) {
            Some(e) => parse_lines(lines.drop_last()).push(e),
            None => parse_lines(lines.drop_last()),
        }
    }
}

/// The entries of a fleet file's text. `str::lines` also drops a `\r` before each
/// newline, which the per-line trim removes anyway.
pub open spec fn parse_text(text: Seq<char>) -> Seq<EntryView> {
    parse_lines(split_char(text, '\n'))
}

pub open spec fn views(es: Seq<FleetEntry>) -> Seq<EntryView> {
    es.map_values(|e: FleetEntry| e@)
}

// ---------------------------------------------------------------------------
// Lookup and update, keyed by (project, role)
// ---------------------------------------------------------------------------

pub open spec fn has_key(e: FleetEntry, project: Seq<char>, role: Seq<char>) -> bool {
    e.project@ == project && e.role@ == role
}

/// Position of the first entry keyed (project, role) at or after `i`.
pub open spec fn first_key_from(es: Seq<FleetEntry>, project: Seq<char>, role: Seq<char>, i: int) -> Option<int>
    decreases es.len() - i,
{
    if i < 0 || i >= es.len() {
        None
    } else if has_key(es[i], project, role) {
        Some(i)
    } else {
        first_key_from(es, project, role, i + 1)
    }
}

pub open spec fn first_key(es: Seq<FleetEntry>, project: Seq<char>, role: Seq<char>) -> Option<int> {
    first_key_from(es, project, role, 0)
}

/// `entries.retain(|e| !(e.project == project && e.role == role))`.
pub open spec fn without_key(es: Seq<FleetEntry>, project: Seq<char>, role: Seq<char>) -> Seq<FleetEntry>
    decreases es.len(),
{
    if es.len() == 0 {
        es
    } else if has_key(es.last(), project, role) {
        without_key(es.drop_last(), project, role)
    } else {
        without_key(es.drop_last(), project, role).push(es.last())
    }
}

/// The entries after an upsert of `e`.
pub open spec fn upserted(es: Seq<FleetEntry>, e: FleetEntry) -> Seq<FleetEntry> {
    match first_key(es, e.project@, e.role@) {
        Some(i) => es.update(i, e),
        None => es.push(e),
    }
}

pub proof fn lemma_first_key_from(es: Seq<FleetEntry>, project: Seq<char>, role: Seq<char>, i: int)
    requires
        0 <= i,
    ensures
        match first_key_from(es, project, role, i) {
            Some(k) => i <= k < es.len() && has_key(es[k], project, role)
                && forall|j: int| i <= j < k ==> !has_key(#[trigger] es[j], project, role),
            None => forall|j: int| i <= j < es.len() ==> !has_key(#[trigger] es[j], project, role),
        },
    decreases es.len() - i,
{
    if i < es.len() && !has_key(es[i], project, role) {
        lemma_first_key_from(es, project, role, i + 1);
    }
}

pub proof fn lemma_first_key(es: Seq<FleetEntry>, project: Seq<char>, role: Seq<char>)
    ensures
        match first_key(es, project, role) {
            Some(k) => 0 <= k < es.len() && has_key(es[k], project, role)
                && forall|j: int| 0 <= j < k ==> !has_key(#[trigger] es[j], project, role),
            None => forall|j: int| 0 <= j < es.len() ==> !has_key(#[trigger] es[j], project, role),
        },
{
    lemma_first_key_from(es, project, role, 0);
}

/// `first_key` is characterised by a match at `k` and none before.
pub proof fn lemma_first_key_is(es: Seq<FleetEntry>, project: Seq<char>, role: Seq<char>, k: int)
    requires
        0 <= k < es.len(),
        has_key(es[k], project, role),
        forall|j: int| 0 <= j < k ==> !has_key(#[trigger] es[j], project, role),
    ensures
        first_key(es, project, role) == Some(k),
{
    lemma_first_key(es, project, role);
    match first_key(es, project, role) {
        Some(m) => {
            if m < k {
                assert(!has_key(es[m], project, role));
            } else if m > k {
                assert(!has_key(es[k], project, role));
            }
        },
        None => {
            assert(!has_key(es[k], project, role));
        },
    }
}

pub proof fn lemma_first_key_none(es: Seq<FleetEntry>, project: Seq<char>, role: Seq<char>)
    requires
        forall|j: int| 0 <= j < es.len() ==> !has_key(#[trigger] es[j], project, role),
    ensures
        first_key(es, project, role) is None,
{
    lemma_first_key(es, project, role);
    if let Some(m) = first_key(es, project, role) {
        assert(has_key(es[m], project, role));
    }
}

/// A copy of `e`, field by field.
pub fn copy_entry(e: &FleetEntry) -> (r: FleetEntry)
    ensures
        r == *e,
{
    FleetEntry {
        role: e.role.clone(),
        project: e.project.clone(),
        surface: e.surface.clone(),
        session: e.session.clone(),
        status: e.status.clone(),
        started: e.started.clone(),
    }
}

fn entry_has_key(e: &FleetEntry, project: &str, role: &str) -> (r: bool)
    ensures
        r == has_key(*e, project@, role@),
{
    str_eq(e.project.as_str(), project) && str_eq(e.role.as_str(), role)
}

fn position(entries: &[FleetEntry], project: &str, role: &str) -> (r: Option<usize>)
    ensures
        r matches Some(k) ==> first_key(entries@, project@, role@) == Some(k as int) && k < entries@.len(),
        r is None ==> first_key(entries@, project@, role@) is None,
{
    let mut i: usize = 0;
    while i < entries.len()
        invariant
            i <= entries@.len(),
            forall|j: int| 0 <= j < i ==> !has_key(#[trigger] entries@[j], project@, role@),
        decreases entries@.len() - i,
    {
        if entry_has_key(&entries[i], project, role) {
            proof {
                lemma_first_key_is(entries@, project@, role@, i as int);
            }
            return Some(i);
        }
        i = i + 1;
    }
    proof {
        lemma_first_key_none(entries@, project@, role@);
    }
    None
}

/// Find an entry by (project, role): the first one so keyed.
pub fn find<'a>(entries: &'a [FleetEntry], project: &str, role: &str) -> (r: Option<&'a FleetEntry>)
    ensures
        match first_key(entries@, project@, role@) {
            Some(k) => r == Some(&entries@[k]),
            None => r is None,
        },
{
    match position(entries, project, role) {
        Some(k) => Some(&entries[k]),
        None => None,
    }
}

/// Upsert `entry` into the loaded list, matching on (project, role): the first
/// entry so keyed is replaced, or `entry` is appended.
pub fn upsert(entries: &mut Vec<FleetEntry>, entry: FleetEntry)
    ensures
        final(entries)@ == upserted(old(entries)@, entry),
{
    match position(entries.as_slice(), entry.project.as_str(), entry.role.as_str()) {
        Some(k) => {
            entries.set(k, entry);
        },
        None => {
            entries.push(entry);
        },
    }
}

/// Remove every entry matching (project, role).
pub fn remove(entries: &mut Vec<FleetEntry>, project: &str, role: &str)
    ensures
        final(entries)@ == without_key(old(entries)@, project@, role@),
{
    let ghost old_es = entries@;
    let mut kept: Vec<FleetEntry> = Vec::new();
    let mut i: usize = 0;
    while i < entries.len()
        invariant
            entries@ == old_es,
            i <= old_es.len(),
            kept@ == without_key(old_es.subrange(0, i as int), project@, role@),
        decreases old_es.len() - i,
    {
        let ghost pre = old_es.subrange(0, i as int);
        let ghost post = old_es.subrange(0, i + 1);
        assert(post.drop_last() =~= pre);
        assert(post.last() == old_es[i as int]);
        if !entry_has_key(&entries[i], project, role) {
            kept.push(copy_entry(&entries[i]));
        }
        i = i + 1;
    }
    assert(old_es.subrange(0, old_es.len() as int) =~= old_es);
    *entries = kept;
}

// ---------------------------------------------------------------------------
// Rendering and parsing
// ---------------------------------------------------------------------------

impl FleetEntry {
    /// The fleet line for this entry.
    pub fn to_line(&self) -> (r: String)
        ensures
            r@ == line_of(self@),
    {
        let mut s = String::new();
        push_str(&mut s, "- ");
        push_str(&mut s, self.role.as_str());
        push_str(&mut s, " - ");
        push_str(&mut s, self.project.as_str());
        push_str(&mut s, " (");
        push_str(&mut s, "surface: ");
        push_str(&mut s, self.surface.as_str());
        push_str(&mut s, "; ");
        push_str(&mut s, "session: ");
        push_str(&mut s, self.session.as_str());
        push_str(&mut s, "; ");
        push_str(&mut s, "status: ");
        push_str(&mut s, self.status.as_str());
        push_str(&mut s, "; ");
        push_str(&mut s, "started ");
        push_str(&mut s, self.started.as_str());
        push_str(&mut s, ")");
        assert(s@ =~= line_of(self@));
        s
    }

    /// Parse one fleet line. Returns `None` for blank/header/unrelated lines.
    pub fn from_line(line: &str) -> (r: Option<FleetEntry>)
        ensures
            r is None <==> parse_line(line@) is None,
            r matches Some(e) ==> parse_line(line@) == Some(e@),
    {
        let v = chars_of(line);
        let l = trim_chars(v.as_slice());
        let item = chars_of("- ");
        let rest = match strip_prefix_chars(l.as_slice(), item.as_slice()) {
            Some(r) => r,
            None => return None,
        };
        proof {
            reveal_strlit("- ");
            assert(lbl_item().len() == 2);
        }
        let sep = chars_of(" - ");
        let (role, rest2) = match split_once_chars(rest.as_slice(), sep.as_slice()) {
            Some(p) => p,
            None => return None,
        };
        let open = chars_of(" (");
        let (project, parens) = match split_once_chars(rest2.as_slice(), open.as_slice()) {
            Some(p) => p,
            None => return None,
        };
        proof {
            reveal_strlit(")");
        }
        let n = parens.len();
        if n == 0 || parens[n - 1] != ')' {
            proof {
                if n > 0 {
                    assert(parens@.subrange(n - 1, n as int)[0] == parens@[n - 1]);
                }
            }
            return None;
        }
        proof {
            assert(parens@.subrange(n - 1, n as int) =~= ")"@);
        }
        let inner = sub_chars(parens.as_slice(), 0, n - 1);
        assert(inner@ =~= parens@.drop_last());
        let parts = split_chars(inner.as_slice(), ';');
        assert(parts@.map_values(|v: Vec<char>| v@) =~= split_char(inner@, ';'));
        let found = scan(&parts);
        let surface = match found.0 {
            Some(s) => s,
            None => return None,
        };
        let session = match found.1 {
            Some(s) => string_of(s.as_slice()),
            None => String::new(),
        };
        let status = match found.2 {
            Some(s) => string_of(s.as_slice()),
            None => String::from_str("unknown"),
        };
        let started = match found.3 {
            Some(s) => string_of(s.as_slice()),
            None => String::new(),
        };
        let role_t = trim_chars(role.as_slice());
        let project_t = trim_chars(project.as_slice());
        let e = FleetEntry {
            role: string_of(role_t.as_slice()),
            project: string_of(project_t.as_slice()),
            surface: string_of(surface.as_slice()),
            session,
            status,
            started,
        };
        proof {
            assert(e@.session =~= or_else(scan_parts(split_char(parens@.drop_last(), ';')).1, Seq::empty()));
            assert(e@.started =~= or_else(scan_parts(split_char(parens@.drop_last(), ';')).3, Seq::empty()));
        }
        Some(e)
    }
}

/// `str::split(c)` on characters.
pub fn split_chars(v: &[char], c: char) -> (r: Vec<Vec<char>>)
    ensures
        r@.len() == split_char(v@, c).len(),
        forall|i: int| 0 <= i < r@.len() ==> (#[trigger] r@[i])@ == split_char(v@, c)[i],
{
    let sep = vec![c];
    let mut out: Vec<Vec<char>> = Vec::new();
    let mut rest = sub_chars(v, 0, v.len());
    assert(rest@ =~= v@);
    loop
        invariant
            sep@ == seq![c],
            out@.len() + split_char(rest@, c).len() == split_char(v@, c).len(),
            forall|i: int| 0 <= i < out@.len() ==> (#[trigger] out@[i])@ == split_char(v@, c)[i],
            forall|i: int| 0 <= i < split_char(rest@, c).len() ==>
                #[trigger] split_char(rest@, c)[i] == split_char(v@, c)[out@.len() + i],
        decreases rest@.len(),
    {
        match find_chars(rest.as_slice(), sep.as_slice()) {
            Some(k) => {
                proof {
                    lemma_find_from(rest@, seq![c], 0);
                }
                let n = rest.len();
                let head = sub_chars(rest.as_slice(), 0, k);
                let tail = sub_chars(rest.as_slice(), k + 1, n);
                let ghost old_out = out@;
                let ghost old_rest = rest@;
                assert(split_char(old_rest, c) == seq![head@] + split_char(tail@, c));
                assert(split_char(old_rest, c)[0] == head@);
                out.push(head);
                rest = tail;
                assert forall|i: int| 0 <= i < split_char(rest@, c).len() implies
                    #[trigger] split_char(rest@, c)[i] == split_char(v@, c)[out@.len() + i] by {
                    assert(split_char(old_rest, c)[i + 1] == split_char(rest@, c)[i]);
                }
            },
            None => {
                let ghost old_out = out@;
                assert(split_char(rest@, c) == seq![rest@]);
                assert(split_char(rest@, c)[0] == rest@);
                out.push(rest);
                return out;
            },
        }
    }
}

fn take_label(p: &Vec<char>, label: &str) -> (r: Option<Vec<char>>)
    ensures
        r is Some <==> starts_with(p@, label@),
        r matches Some(t) ==> t@ == p@.subrange(label@.len() as int, p@.len() as int),
{
    let l = chars_of(label);
    strip_prefix_chars(p.as_slice(), l.as_slice())
}

/// Executable `scan_parts`.
fn scan(parts: &Vec<Vec<char>>) -> (r: (Option<Vec<char>>, Option<Vec<char>>, Option<Vec<char>>, Option<Vec<char>>))
    ensures
        ({
            let f = scan_parts(parts@.map_values(|v: Vec<char>| v@));
            &&& (r.0 matches Some(x) ==> f.0 == Some(x@)) && (r.0 is None <==> f.0 is None)
            &&& (r.1 matches Some(x) ==> f.1 == Some(x@)) && (r.1 is None <==> f.1 is None)
            &&& (r.2 matches Some(x) ==> f.2 == Some(x@)) && (r.2 is None <==> f.2 is None)
            &&& (r.3 matches Some(x) ==> f.3 == Some(x@)) && (r.3 is None <==> f.3 is None)
        }),
{
    let ghost all = parts@.map_values(|v: Vec<char>| v@);
    let mut surface: Option<Vec<char>> = None;
    let mut session: Option<Vec<char>> = None;
    let mut status: Option<Vec<char>> = None;
    let mut started: Option<Vec<char>> = None;
    let mut i: usize = 0;
    while i < parts.len()
        invariant
            i <= parts@.len(),
            all == parts@.map_values(|v: Vec<char>| v@),
            ({
                let f = scan_parts(all.subrange(0, i as int));
                &&& (surface matches Some(x) ==> f.0 == Some(x@)) && (surface is None <==> f.0 is None)
                &&& (session matches Some(x) ==> f.1 == Some(x@)) && (session is None <==> f.1 is None)
                &&& (status matches Some(x) ==> f.2 == Some(x@)) && (status is None <==> f.2 is None)
                &&& (started matches Some(x) ==> f.3 == Some(x@)) && (started is None <==> f.3 is None)
            }),
        decreases parts@.len() - i,
    {
        let ghost pre = all.subrange(0, i as int);
        let ghost post = all.subrange(0, i + 1);
        assert(post.drop_last() =~= pre);
        assert(post.last() == parts@[i as int]@);
        let p = trim_chars(parts[i].as_slice());
        if let Some(v) = take_label(&p, "surface: ") {
            surface = Some(v);
        } else if let Some(v) = take_label(&p, "session: ") {
            session = Some(v);
        } else if let Some(v) = take_label(&p, "status: ") {
            status = Some(v);
        } else if let Some(v) = take_label(&p, "started ") {
            started = Some(v);
        }
        i = i + 1;
    }
    assert(all.subrange(0, parts@.len() as int) =~= all);
    (surface, session, status, started)
}

/// The entries recorded in a fleet file's text (missing lines and unrelated
/// lines are skipped).
pub fn parse(text: &str) -> (r: Vec<FleetEntry>)
    ensures
        views(r@) == parse_text(text@),
{
    let v = chars_of(text);
    let lines = split_chars(v.as_slice(), '\n');
    let ghost ls = split_char(v@, '\n');
    let mut out: Vec<FleetEntry> = Vec::new();
    let mut i: usize = 0;
    while i < lines.len()
        invariant
            i <= lines@.len(),
            lines@.len() == ls.len(),
            forall|j: int| 0 <= j < lines@.len() ==> (#[trigger] lines@[j])@ == ls[j],
            views(out@) == parse_lines(ls.subrange(0, i as int)),
        decreases lines@.len() - i,
    {
        let ghost pre = ls.subrange(0, i as int);
        let ghost post = ls.subrange(0, i + 1);
        assert(post.drop_last() =~= pre);
        assert(post.last() == lines@[i as int]@);
        let line = string_of(lines[i].as_slice());
        match FleetEntry::from_line(line.as_str()) {
            Some(e) => {
                let ghost old_out = out@;
                out.push(e);
                assert(views(out@) =~= views(old_out).push(e@));
            },
            None => {},
        }
        i = i + 1;
    }
    assert(ls.subrange(0, lines@.len() as int) =~= ls);
    out
}

/// The fleet file's text for `entries`: the header line, then one line per entry.
pub fn render(entries: &[FleetEntry]) -> (r: String)
    ensures
        r@ == fleet_text(views(entries@)),
{
    let mut body = String::from_str("# cmux-axi fleet — role → surface → session");
    push_char(&mut body, '\n');
    let ghost head = body@;
    let mut i: usize = 0;
    while i < entries.len()
        invariant
            i <= entries@.len(),
            body@ == head + lines_of(views(entries@.subrange(0, i as int))),
        decreases entries@.len() - i,
    {
        let ghost pre = views(entries@.subrange(0, i as int));
        let ghost post = views(entries@.subrange(0, i + 1));
        assert(post.drop_last() =~= pre);
        assert(post.last() == entries@[i as int]@);
        let line = entries[i].to_line();
        push_str(&mut body, line.as_str());
        push_char(&mut body, '\n');
        i = i + 1;
        assert(body@ =~= head + lines_of(post));
    }
    assert(entries@.subrange(0, entries@.len() as int) =~= entries@);
    assert(body@ =~= fleet_text(views(entries@)));
    body
}

} // verus!

verus! {

pub proof fn lemma_labels()
    ensures
        lbl_item() == seq!['-', ' '],
        lbl_sep() == seq![' ', '-', ' '],
        lbl_open() == seq![' ', '('],
        lbl_surface() == seq!['s', 'u', 'r', 'f', 'a', 'c', 'e', ':', ' '],
        lbl_session() == seq!['s', 'e', 's', 's', 'i', 'o', 'n', ':', ' '],
        lbl_status() == seq!['s', 't', 'a', 't', 'u', 's', ':', ' '],
        lbl_started() == seq!['s', 't', 'a', 'r', 't', 'e', 'd', ' '],
        "; "@ == seq![';', ' '],
        ")"@ == seq![')'],
        " -"@ == seq![' ', '-'],
        fleet_header()[0] == '#',
        fleet_header().last() == 'n',
        !fleet_header().contains('\n'),
{
    reveal_strlit("- ");
    reveal_strlit(" - ");
    reveal_strlit(" (");
    reveal_strlit("surface: ");
    reveal_strlit("session: ");
    reveal_strlit("status: ");
    reveal_strlit("started ");
    reveal_strlit("; ");
    reveal_strlit(")");
    reveal_strlit(" -");
    reveal_strlit("# cmux-axi fleet — role → surface → session");
    assert(lbl_item() =~= seq!['-', ' ']);
    assert(lbl_sep() =~= seq![' ', '-', ' ']);
    assert(lbl_open() =~= seq![' ', '(']);
    assert(lbl_surface() =~= seq!['s', 'u', 'r', 'f', 'a', 'c', 'e', ':', ' ']);
    assert(lbl_session() =~= seq!['s', 'e', 's', 's', 'i', 'o', 'n', ':', ' ']);
    assert(lbl_status() =~= seq!['s', 't', 'a', 't', 'u', 's', ':', ' ']);
    assert(lbl_started() =~= seq!['s', 't', 'a', 'r', 't', 'e', 'd', ' ']);
    assert("; "@ =~= seq![';', ' ']);
    assert(")"@ =~= seq![')']);
    assert(" -"@ =~= seq![' ', '-']);
    assert(fleet_header() =~= seq!['#', ' ', 'c', 'm', 'u', 'x', '-', 'a', 'x', 'i', ' ', 'f', 'l', 'e', 'e', 't', ' ', '—', ' ', 'r', 'o', 'l', 'e', ' ', '→', ' ', 's', 'u', 'r', 'f', 'a', 'c', 'e', ' ', '→', ' ', 's', 'e', 's', 's', 'i', 'o', 'n']);
}

} // verus!

verus! {

/// A field value that a fleet line carries intact: no `;`, and no trailing
/// whitespace (the reader trims each part).
pub open spec fn clean_value(v: Seq<char>) -> bool {
    !v.contains(';') && (v.len() > 0 ==> !is_ws(v.last()))
}

/// An entry whose line reads back as the same entry: role and project carry no
/// surrounding whitespace, the role (followed by ` -`) holds no ` - `, the
/// project holds no ` (`, surface and status are non-empty, and no field inside
/// the parentheses holds `;` or ends in whitespace.
pub open spec fn writable(e: EntryView) -> bool {
    &&& trim(e.role) == e.role
    &&& !contains_seq(e.role + " -"@, lbl_sep())
    &&& trim(e.project) == e.project
    &&& !contains_seq(e.project, lbl_open())
    &&& e.surface.len() > 0 && clean_value(e.surface)
    &&& clean_value(e.session)
    &&& e.status.len() > 0 && clean_value(e.status)
    &&& clean_value(e.started)
}

proof fn lemma_project_open(project: Seq<char>)
    requires
        !contains_seq(project, lbl_open()),
        lbl_open() == seq![' ', '('],
    ensures
        !contains_seq(project + lbl_open().drop_last(), lbl_open()),
{
    let t = project + lbl_open().drop_last();
    lemma_no_occurrence(project, lbl_open());
    assert forall|j: int| 0 <= j implies !occurs_at(t, lbl_open(), j) by {
        if occurs_at(t, lbl_open(), j) {
            if j + 2 <= project.len() {
                assert(project.subrange(j, j + 2) =~= t.subrange(j, j + 2));
                assert(occurs_at(project, lbl_open(), j));
            } else {
                assert(t.subrange(j, j + 2)[1] == t[j + 1]);
                assert(t[j + 1] == ' ');
            }
        }
    }
    crate::text::lemma_find_none(t, lbl_open());
}

/// The text between the parentheses of an entry's line.
pub open spec fn inner_of(e: EntryView) -> Seq<char> {
    lbl_surface() + e.surface + "; "@ + lbl_session() + e.session + "; "@ + lbl_status()
        + e.status + "; "@ + lbl_started() + e.started
}

/// The `;`-separated parts of `inner_of(e)`.
pub open spec fn parts_of(e: EntryView) -> Seq<Seq<char>> {
    seq![
        lbl_surface() + e.surface,
        seq![' '] + lbl_session() + e.session,
        seq![' '] + lbl_status() + e.status,
        seq![' '] + lbl_started() + e.started,
    ]
}

proof fn lemma_parts_of(e: EntryView)
    requires
        writable(e),
    ensures
        split_char(inner_of(e), ';') == parts_of(e),
{
    lemma_labels();
    let p0 = lbl_surface() + e.surface;
    let p1 = seq![' '] + lbl_session() + e.session;
    let p2 = seq![' '] + lbl_status() + e.status;
    let p3 = seq![' '] + lbl_started() + e.started;
    assert(inner_of(e) =~= p0 + seq![';'] + (p1 + seq![';'] + (p2 + seq![';'] + p3)));
    assert(!lbl_surface().contains(';'));
    assert(!(seq![' '] + lbl_session()).contains(';'));
    assert(!(seq![' '] + lbl_status()).contains(';'));
    assert(!(seq![' '] + lbl_started()).contains(';'));
    lemma_no_char_concat(lbl_surface(), e.surface, ';');
    lemma_no_char_concat(seq![' '] + lbl_session(), e.session, ';');
    lemma_no_char_concat(seq![' '] + lbl_status(), e.status, ';');
    lemma_no_char_concat(seq![' '] + lbl_started(), e.started, ';');
    lemma_split_char_none(p0, ';');
    lemma_split_char_none(p1, ';');
    lemma_split_char_none(p2, ';');
    lemma_split_char_none(p3, ';');
    lemma_split_char_concat(p2, ';', p3);
    lemma_split_char_concat(p1, ';', p2 + seq![';'] + p3);
    lemma_split_char_concat(p0, ';', p1 + seq![';'] + (p2 + seq![';'] + p3));
    assert(split_char(inner_of(e), ';') =~= parts_of(e));
}

proof fn lemma_scan_parts_of(e: EntryView)
    requires
        writable(e),
    ensures
        scan_parts(parts_of(e)).0 == Some(e.surface),
        or_else(scan_parts(parts_of(e)).1, Seq::empty()) == e.session,
        scan_parts(parts_of(e)).2 == Some(e.status),
        or_else(scan_parts(parts_of(e)).3, Seq::empty()) == e.started,
{
    lemma_labels();
    let parts = parts_of(e);
    let p0 = parts[0];
    let p1 = parts[1];
    let p2 = parts[2];
    let p3 = parts[3];
    assert(forall|i: int| 0 <= i < 1 ==> is_ws(#[trigger] seq![' '][i]));
    assert(forall|i: int| 0 <= i < 0 ==> is_ws(#[trigger] Seq::<char>::empty()[i]));
    lemma_trim_labelled(Seq::empty(), lbl_surface(), e.surface);
    assert(Seq::<char>::empty() + lbl_surface() + e.surface =~= p0);
    lemma_trim_labelled(seq![' '], lbl_session(), e.session);
    lemma_trim_labelled(seq![' '], lbl_status(), e.status);
    lemma_trim_labelled(seq![' '], lbl_started(), e.started);
    let t0 = trim(p0);
    let t1 = trim(p1);
    let t2 = trim(p2);
    let t3 = trim(p3);
    assert(t0.subrange(0, 9) =~= lbl_surface());
    assert(t0.subrange(9, t0.len() as int) =~= e.surface);
    lemma_not_prefix(t1, lbl_surface(), 1);
    lemma_not_prefix(t2, lbl_surface(), 1);
    lemma_not_prefix(t2, lbl_session(), 1);
    assert(t2.subrange(0, 8) =~= lbl_status());
    assert(t2.subrange(8, t2.len() as int) =~= e.status);
    lemma_not_prefix(t3, lbl_surface(), 1);
    lemma_not_prefix(t3, lbl_session(), 1);
    lemma_not_prefix(t3, lbl_status(), 3);
    if e.session.len() > 0 {
        assert(t1.subrange(0, 9) =~= lbl_session());
        assert(t1.subrange(9, t1.len() as int) =~= e.session);
    } else {
        lemma_not_prefix(t1, lbl_session(), 8);
        lemma_not_prefix(t1, lbl_status(), 1);
        lemma_not_prefix(t1, lbl_started(), 1);
    }
    if e.started.len() > 0 {
        assert(t3.subrange(0, 8) =~= lbl_started());
        assert(t3.subrange(8, t3.len() as int) =~= e.started);
    } else {
        lemma_not_prefix(t3, lbl_started(), 7);
    }
    let s1 = seq![p0];
    let s2 = seq![p0, p1];
    let s3 = seq![p0, p1, p2];
    assert(s1.drop_last() =~= Seq::<Seq<char>>::empty());
    assert(s2.drop_last() =~= s1);
    assert(s3.drop_last() =~= s2);
    assert(parts.drop_last() =~= s3);
    assert(s1.last() == p0 && s2.last() == p1 && s3.last() == p2 && parts.last() == p3);
    let f0 = scan_parts(Seq::<Seq<char>>::empty());
    let f1 = scan_parts(s1);
    assert(f1 == (Some(e.surface), f0.1, f0.2, f0.3));
    let f2 = scan_parts(s2);
    assert(f2.0 == Some(e.surface));
    assert(or_else(f2.1, Seq::empty()) == e.session);
    let f3 = scan_parts(s3);
    assert(f3.0 == Some(e.surface));
    assert(or_else(f3.1, Seq::empty()) == e.session);
    assert(f3.2 == Some(e.status));
    let f4 = scan_parts(parts);
    assert(f4.0 == Some(e.surface));
}

/// The line written for a writable entry reads back as that entry.
pub proof fn lemma_line_round_trip(e: EntryView)
    requires
        writable(e),
    ensures
        parse_line(line_of(e)) == Some(e),
{
    lemma_labels();
    let inner = inner_of(e);
    let parens = inner + ")"@;
    let x1 = e.project + lbl_open() + parens;
    let rest = e.role + lbl_sep() + x1;
    let l = line_of(e);
    assert(l =~= lbl_item() + rest);
    assert(l[0] == '-');
    assert(l.last() == ')');
    lemma_trim_id(l);
    assert(l.subrange(0, 2) =~= lbl_item());
    assert(l.subrange(2, l.len() as int) =~= rest);
    assert(lbl_sep().drop_last() =~= " -"@);
    lemma_split_once_at(e.role, lbl_sep(), x1);
    lemma_project_open(e.project);
    lemma_split_once_at(e.project, lbl_open(), parens);
    assert(parens.subrange(parens.len() - 1, parens.len() as int) =~= ")"@);
    assert(parens.drop_last() =~= inner);
    lemma_parts_of(e);
    lemma_scan_parts_of(e);
}

} // verus!

verus! {

/// A writable entry none of whose fields holds a newline: its line is one line
/// of the file.
pub open spec fn writable_in_file(e: EntryView) -> bool {
    &&& writable(e)
    &&& !e.role.contains('\n')
    &&& !e.project.contains('\n')
    &&& !e.surface.contains('\n')
    &&& !e.session.contains('\n')
    &&& !e.status.contains('\n')
    &&& !e.started.contains('\n')
}

proof fn lemma_line_one_line(e: EntryView)
    requires
        writable_in_file(e),
    ensures
        !line_of(e).contains('\n'),
{
    lemma_labels();
    reveal_strlit("unknown");
    let nl = '\n';
    assert(!lbl_item().contains(nl));
    assert(!lbl_sep().contains(nl));
    assert(!lbl_open().contains(nl));
    assert(!lbl_surface().contains(nl));
    assert(!lbl_session().contains(nl));
    assert(!lbl_status().contains(nl));
    assert(!lbl_started().contains(nl));
    assert(!"; "@.contains(nl));
    assert(!")"@.contains(nl));
    let mut acc = lbl_item();
    lemma_no_char_concat(acc, e.role, nl);
    acc = acc + e.role;
    lemma_no_char_concat(acc, lbl_sep(), nl);
    acc = acc + lbl_sep();
    lemma_no_char_concat(acc, e.project, nl);
    acc = acc + e.project;
    lemma_no_char_concat(acc, lbl_open(), nl);
    acc = acc + lbl_open();
    lemma_no_char_concat(acc, lbl_surface(), nl);
    acc = acc + lbl_surface();
    lemma_no_char_concat(acc, e.surface, nl);
    acc = acc + e.surface;
    lemma_no_char_concat(acc, "; "@, nl);
    acc = acc + "; "@;
    lemma_no_char_concat(acc, lbl_session(), nl);
    acc = acc + lbl_session();
    lemma_no_char_concat(acc, e.session, nl);
    acc = acc + e.session;
    lemma_no_char_concat(acc, "; "@, nl);
    acc = acc + "; "@;
    lemma_no_char_concat(acc, lbl_status(), nl);
    acc = acc + lbl_status();
    lemma_no_char_concat(acc, e.status, nl);
    acc = acc + e.status;
    lemma_no_char_concat(acc, "; "@, nl);
    acc = acc + "; "@;
    lemma_no_char_concat(acc, lbl_started(), nl);
    acc = acc + lbl_started();
    lemma_no_char_concat(acc, e.started, nl);
    acc = acc + e.started;
    lemma_no_char_concat(acc, ")"@, nl);
    acc = acc + ")"@;
    assert(acc == line_of(e));
}

pub open spec fn lines_view(es: Seq<EntryView>) -> Seq<Seq<char>> {
    es.map_values(|e: EntryView| line_of(e))
}

#[verifier::spinoff_prover]
#[verifier::rlimit(40)]
proof fn lemma_split_fleet_text(es: Seq<EntryView>)
    requires
        forall|i: int| 0 <= i < es.len() ==> writable_in_file(#[trigger] es[i]),
    ensures
        split_char(fleet_text(es), '\n') == seq![fleet_header()] + lines_view(es) + seq![Seq::<char>::empty()],
    decreases es.len(),
{
    lemma_labels();
    let e0 = Seq::<char>::empty();
    assert(!e0.contains('\n'));
    lemma_split_char_none(e0, '\n');
    if es.len() == 0 {
        lemma_split_char_none(fleet_header(), '\n');
        assert(fleet_text(es) =~= fleet_header() + seq!['\n'] + e0);
        lemma_split_char_concat(fleet_header(), '\n', e0);
        assert(lines_view(es) =~= Seq::<Seq<char>>::empty());
        assert(split_char(fleet_text(es), '\n') =~= seq![fleet_header()] + lines_view(es) + seq![e0]);
    } else {
        let prev = es.drop_last();
        let e = es.last();
        assert forall|i: int| 0 <= i < prev.len() implies writable_in_file(#[trigger] prev[i]) by {
            assert(prev[i] == es[i]);
        }
        lemma_split_fleet_text(prev);
        let t = fleet_text(prev);
        let a = t.drop_last();
        assert(t.len() > 0);
        assert(t.last() == '\n') by {
            if prev.len() == 0 {
                assert(t =~= fleet_header() + seq!['\n']);
            } else {
                assert(t =~= fleet_header() + seq!['\n'] + lines_of(prev.drop_last()) + line_of(prev.last()) + seq!['\n']);
            }
        }
        assert(t =~= a + seq!['\n'] + e0);
        lemma_split_char_concat(a, '\n', e0);
        // split(a) is the header and the earlier lines.
        let sa = split_char(a, '\n');
        assert(sa + seq![e0] == seq![fleet_header()] + lines_view(prev) + seq![e0]);
        assert(sa =~= (sa + seq![e0]).drop_last());
        assert(sa =~= seq![fleet_header()] + lines_view(prev));
        let l = line_of(e);
        lemma_line_one_line(e);
        lemma_split_char_none(l, '\n');
        assert(fleet_text(es) =~= a + seq!['\n'] + (l + seq!['\n'] + e0));
        lemma_split_char_concat(a, '\n', l + seq!['\n'] + e0);
        lemma_split_char_concat(l, '\n', e0);
        assert(lines_view(es) =~= lines_view(prev).push(l));
        assert(split_char(fleet_text(es), '\n') =~= seq![fleet_header()] + lines_view(es) + seq![e0]);
    }
}

proof fn lemma_parse_lines_append(a: Seq<Seq<char>>, b: Seq<Seq<char>>)
    ensures
        parse_lines(a + b) == parse_lines(a) + parse_lines(b),
    decreases b.len(),
{
    if b.len() == 0 {
        assert(a + b =~= a);
        assert(parse_lines(b) =~= Seq::<EntryView>::empty());
        assert(parse_lines(a) + parse_lines(b) =~= parse_lines(a));
    } else {
        lemma_parse_lines_append(a, b.drop_last());
        assert((a + b).drop_last() =~= a + b.drop_last());
        assert((a + b).last() == b.last());
        match parse_line(b.last()) {
            Some(e) => {
                assert(parse_lines(a + b) =~= parse_lines(a) + parse_lines(b));
            },
            None => {
                assert(parse_lines(a + b) =~= parse_lines(a) + parse_lines(b));
            },
        }
    }
}

proof fn lemma_parse_lines_view(es: Seq<EntryView>)
    requires
        forall|i: int| 0 <= i < es.len() ==> writable_in_file(#[trigger] es[i]),
    ensures
        parse_lines(lines_view(es)) == es,
    decreases es.len(),
{
    if es.len() > 0 {
        let prev = es.drop_last();
        assert forall|i: int| 0 <= i < prev.len() implies writable_in_file(#[trigger] prev[i]) by {
            assert(prev[i] == es[i]);
        }
        lemma_parse_lines_view(prev);
        assert(lines_view(es).drop_last() =~= lines_view(prev));
        lemma_line_round_trip(es.last());
        assert(parse_lines(lines_view(es)) =~= es);
    } else {
        assert(lines_view(es) =~= Seq::<Seq<char>>::empty());
        assert(parse_lines(lines_view(es)) =~= es);
    }
}

/// Reading back a written fleet file gives the entries that were written, for
/// entries that are writable and hold no newline.
pub proof fn lemma_fleet_round_trip(es: Seq<EntryView>)
    requires
        forall|i: int| 0 <= i < es.len() ==> writable_in_file(#[trigger] es[i]),
    ensures
        parse_text(fleet_text(es)) == es,
{
    lemma_labels();
    lemma_split_fleet_text(es);
    let h = fleet_header();
    let e0 = Seq::<char>::empty();
    // The header line records nothing.
    lemma_trim_id(h);
    crate::text::lemma_not_prefix(h, lbl_item(), 0);
    assert(parse_line(h) is None);
    assert(seq![h].drop_last() =~= Seq::<Seq<char>>::empty());
    assert(seq![h].last() == h);
    assert(parse_lines(Seq::<Seq<char>>::empty()) =~= Seq::<EntryView>::empty());
    assert(parse_lines(seq![h]) =~= Seq::<EntryView>::empty());
    // Nor does the empty piece after the last newline.
    lemma_trim_id(e0);
    assert(!starts_with(e0, lbl_item()));
    assert(seq![e0].drop_last() =~= Seq::<Seq<char>>::empty());
    assert(seq![e0].last() == e0);
    assert(parse_lines(seq![e0]) =~= Seq::<EntryView>::empty());
    lemma_parse_lines_append(seq![h], lines_view(es));
    lemma_parse_lines_append(seq![h] + lines_view(es), seq![e0]);
    lemma_parse_lines_view(es);
    assert(parse_text(fleet_text(es)) =~= es);
}

} // verus!

verus! {

/// The entry that `find` returns for (project, role).
pub open spec fn lookup(es: Seq<FleetEntry>, project: Seq<char>, role: Seq<char>) -> Option<FleetEntry> {
    match first_key(es, project, role) {
        Some(k) => Some(es[k]),
        None => None,
    }
}

/// No two entries share a (project, role) key.
pub open spec fn keys_distinct(es: Seq<FleetEntry>) -> bool {
    forall|i: int, j: int|
        0 <= i < es.len() && 0 <= j < es.len() && i != j
            ==> !has_key(es[i], es[j].project@, es[j].role@)
}

proof fn lemma_lookup_push(s: Seq<FleetEntry>, x: FleetEntry, project: Seq<char>, role: Seq<char>)
    ensures
        lookup(s.push(x), project, role) == match lookup(s, project, role) {
            Some(y) => Some(y),
            None => if has_key(x, project, role) { Some(x) } else { None },
        },
{
    let t = s.push(x);
    lemma_first_key(s, project, role);
    match first_key(s, project, role) {
        Some(k) => {
            assert forall|j: int| 0 <= j < k implies !has_key(#[trigger] t[j], project, role) by {
                assert(t[j] == s[j]);
            }
            assert(t[k] == s[k]);
            lemma_first_key_is(t, project, role, k);
        },
        None => {
            if has_key(x, project, role) {
                assert forall|j: int| 0 <= j < s.len() implies !has_key(#[trigger] t[j], project, role) by {
                    assert(t[j] == s[j]);
                }
                lemma_first_key_is(t, project, role, s.len() as int);
            } else {
                assert forall|j: int| 0 <= j < t.len() implies !has_key(#[trigger] t[j], project, role) by {
                    if j < s.len() {
                        assert(t[j] == s[j]);
                    }
                }
                lemma_first_key_none(t, project, role);
            }
        },
    }
}

proof fn lemma_lookup_same_keys(s: Seq<FleetEntry>, t: Seq<FleetEntry>, project: Seq<char>, role: Seq<char>)
    requires
        s.len() == t.len(),
        forall|j: int| 0 <= j < s.len() ==> (has_key(#[trigger] s[j], project, role) <==> has_key(t[j], project, role)),
        forall|j: int| 0 <= j < s.len() && has_key(#[trigger] s[j], project, role) ==> s[j] == t[j],
    ensures
        lookup(s, project, role) == lookup(t, project, role),
{
    lemma_first_key(s, project, role);
    match first_key(s, project, role) {
        Some(k) => {
            assert forall|j: int| 0 <= j < k implies !has_key(#[trigger] t[j], project, role) by {
                assert(!has_key(s[j], project, role));
            }
            lemma_first_key_is(t, project, role, k);
        },
        None => {
            assert forall|j: int| 0 <= j < t.len() implies !has_key(#[trigger] t[j], project, role) by {
                assert(!has_key(s[j], project, role));
            }
            lemma_first_key_none(t, project, role);
        },
    }
}

/// After an upsert, `find` on the upserted key returns the upserted entry, and
/// `find` on any other key returns what it returned before.
pub proof fn lemma_upsert_lookup(es: Seq<FleetEntry>, e: FleetEntry, project: Seq<char>, role: Seq<char>)
    ensures
        lookup(upserted(es, e), e.project@, e.role@) == Some(e),
        !(project == e.project@ && role == e.role@)
            ==> lookup(upserted(es, e), project, role) == lookup(es, project, role),
{
    lemma_first_key(es, e.project@, e.role@);
    match first_key(es, e.project@, e.role@) {
        Some(i) => {
            let t = es.update(i, e);
            assert forall|j: int| 0 <= j < i implies !has_key(#[trigger] t[j], e.project@, e.role@) by {
                assert(t[j] == es[j]);
            }
            lemma_first_key_is(t, e.project@, e.role@, i);
            if !(project == e.project@ && role == e.role@) {
                assert forall|j: int| 0 <= j < es.len() implies
                    (has_key(#[trigger] es[j], project, role) <==> has_key(t[j], project, role)) by {
                    if j == i {
                        assert(has_key(es[i], e.project@, e.role@));
                    }
                }
                lemma_lookup_same_keys(es, t, project, role);
            }
        },
        None => {
            lemma_lookup_push(es, e, e.project@, e.role@);
            lemma_lookup_push(es, e, project, role);
        },
    }
}

/// An upsert replaces an entry of the same key, or appends when there is none.
pub proof fn lemma_upsert_len(es: Seq<FleetEntry>, e: FleetEntry)
    ensures
        upserted(es, e).len() == es.len() + if lookup(es, e.project@, e.role@) is Some { 0int } else { 1int },
{
    lemma_first_key(es, e.project@, e.role@);
}

/// Upserts keep the keys of a fleet distinct.
pub proof fn lemma_upsert_keys_distinct(es: Seq<FleetEntry>, e: FleetEntry)
    requires
        keys_distinct(es),
    ensures
        keys_distinct(upserted(es, e)),
{
    lemma_first_key(es, e.project@, e.role@);
    let t = upserted(es, e);
    match first_key(es, e.project@, e.role@) {
        Some(i) => {
            assert forall|a: int, b: int|
                0 <= a < t.len() && 0 <= b < t.len() && a != b
                    implies !has_key(t[a], t[b].project@, t[b].role@) by {
                if a == i {
                    assert(!has_key(es[b], es[i].project@, es[i].role@));
                } else if b == i {
                    assert(!has_key(es[a], es[i].project@, es[i].role@));
                }
            }
        },
        None => {
            assert forall|a: int, b: int|
                0 <= a < t.len() && 0 <= b < t.len() && a != b
                    implies !has_key(t[a], t[b].project@, t[b].role@) by {
                if a == es.len() {
                    assert(!has_key(es[b], e.project@, e.role@));
                } else if b == es.len() {
                    assert(!has_key(es[a], e.project@, e.role@));
                }
            }
        },
    }
}

/// After a removal, `find` on the removed key returns nothing, and `find` on any
/// other key returns what it returned before.
pub proof fn lemma_remove_lookup(es: Seq<FleetEntry>, p: Seq<char>, r: Seq<char>, project: Seq<char>, role: Seq<char>)
    ensures
        lookup(without_key(es, p, r), p, r) is None,
        !(project == p && role == r) ==> lookup(without_key(es, p, r), project, role) == lookup(es, project, role),
    decreases es.len(),
{
    if es.len() == 0 {
        lemma_first_key_none(es, p, r);
        lemma_first_key_none(es, project, role);
    } else {
        let prev = es.drop_last();
        let x = es.last();
        lemma_remove_lookup(prev, p, r, project, role);
        assert(es =~= prev.push(x));
        lemma_lookup_push(prev, x, project, role);
        if has_key(x, p, r) {
        } else {
            lemma_lookup_push(without_key(prev, p, r), x, p, r);
            lemma_lookup_push(without_key(prev, p, r), x, project, role);
        }
    }
}


/// Upserting the same entry twice leaves the fleet as one upsert does.
pub proof fn lemma_upsert_idempotent(es: Seq<FleetEntry>, e: FleetEntry)
    ensures
        upserted(upserted(es, e), e) == upserted(es, e),
{
    let t = upserted(es, e);
    lemma_upsert_lookup(es, e, e.project@, e.role@);
    lemma_first_key(t, e.project@, e.role@);
    let k = first_key(t, e.project@, e.role@)->Some_0;
    assert(t.update(k, e) =~= t);
}

/// Removing a key twice leaves the fleet as one removal does.
pub proof fn lemma_remove_idempotent(es: Seq<FleetEntry>, project: Seq<char>, role: Seq<char>)
    ensures
        without_key(without_key(es, project, role), project, role) == without_key(es, project, role),
    decreases es.len(),
{
    if es.len() > 0 {
        let prev = es.drop_last();
        lemma_remove_idempotent(prev, project, role);
        let w = without_key(prev, project, role);
        if !has_key(es.last(), project, role) {
            let ww = w.push(es.last());
            assert(ww.drop_last() =~= w);
        }
    }
}

} // verus!
