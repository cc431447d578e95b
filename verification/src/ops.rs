//! The decisions behind the commands: provision, status, send, read, dev add/rm,
//! teardown, and the layout listing. Running cmux, touching files and printing
//! are the caller's business; everything they decide on is here.

use vstd::prelude::*;
use crate::cmux::{Pane, PaneView, Surface, SurfaceView, pane_views, surface_views};
use crate::error::CmuxError;
use crate::fleet::{FleetEntry, copy_entry, lookup};
use crate::layout::{Seat, seats_in};
use crate::templates::{Template, slot_count, fits, slots};
use crate::text::{
    chars_of, dec, join_path, join_strings, parse_unsigned, parse_usize_chars, path_join, push_decimal,
    push_str, starts_with, str_eq, strip_prefix_chars, sub_chars, views_of,
};

verus! {

broadcast use vstd::string::group_string_axioms;

pub const DESCRIPTION: &'static str = "Provision the codefactory crew layout in cmux";
pub const BIN: &'static str = "cmux-axi";

// ---------------------------------------------------------------------------
// Names and paths
// ---------------------------------------------------------------------------

/// The crew workspace's title: `cf-<project>`.
pub open spec fn ws_title_text(project: Seq<char>) -> Seq<char> {
    "cf-"@ + project
}

pub fn ws_title(project: &str) -> (r: String)
    ensures
        r@ == ws_title_text(project@),
{
    let mut s = String::from_str("cf-");
    push_str(&mut s, project);
    s
}

/// The tab title for a role: `Coordinator`, `Planner`, `Brainstorm`, `Developer 3`
/// (plus ` · <specialty>` for a non-empty specialty).
pub open spec fn title_text(role: Seq<char>, specialty: Option<Seq<char>>) -> Seq<char> {
    let base = if role == "coordinator"@ {
        "Coordinator"@
    } else if role == "planner"@ {
        "Planner"@
    } else if role == "brainstorm"@ {
        "Brainstorm"@
    } else if starts_with(role, "dev-"@) {
        "Developer "@ + role.subrange(4, role.len() as int)
    } else {
        role
    };
    match specialty {
        Some(s) => if s.len() > 0 { base + " · "@ + s } else { base },
        None => base,
    }
}

pub open spec fn opt_view(o: Option<&str>) -> Option<Seq<char>> {
    match o {
        Some(s) => Some(s@),
        None => None,
    }
}

/// The tab title for a role.
pub fn title_for(role: &str, specialty: Option<&str>) -> (r: String)
    ensures
        r@ == title_text(role@, opt_view(specialty)),
{
    proof {
        reveal_strlit("dev-");
    }
    let mut base = if str_eq(role, "coordinator") {
        String::from_str("Coordinator")
    } else if str_eq(role, "planner") {
        String::from_str("Planner")
    } else if str_eq(role, "brainstorm") {
        String::from_str("Brainstorm")
    } else {
        let v = chars_of(role);
        let p = chars_of("dev-");
        match strip_prefix_chars(v.as_slice(), p.as_slice()) {
            Some(rest) => {
                let mut b = String::from_str("Developer ");
                crate::text::push_chars(&mut b, rest.as_slice());
                b
            },
            None => String::from_str(role),
        }
    };
    match specialty {
        Some(s) => {
            if !s.is_empty() {
                push_str(&mut base, " · ");
                push_str(&mut base, s);
            }
        },
        None => {},
    }
    base
}

/// The `session` field for a role: a session dir for resumable roles under
/// `omp`, or `ephemeral`.
pub open spec fn session_text(state: Seq<char>, role: Seq<char>, harness: Seq<char>) -> Seq<char> {
    if harness == "omp"@ {
        state + "/sessions/"@ + role
    } else {
        "ephemeral"@
    }
}

pub fn session_id(state_str: &str, role: &str, harness: &str) -> (r: String)
    ensures
        r@ == session_text(state_str@, role@, harness@),
{
    if str_eq(harness, "omp") {
        let mut s = String::from_str(state_str);
        push_str(&mut s, "/sessions/");
        push_str(&mut s, role);
        s
    } else {
        String::from_str("ephemeral")
    }
}

/// An absolute path as `absolute` makes it: the path itself when it starts
/// with `/`, else joined onto the working directory.
pub open spec fn absolute_path(path: Seq<char>, cwd: Seq<char>) -> Seq<char> {
    if path.len() > 0 && path[0] == '/' { path } else { path_join(cwd, path) }
}

pub open spec fn cwd_error_text(detail: Seq<char>) -> Seq<char> {
    "cannot resolve cwd: "@ + detail
}

/// `path` made absolute against the process's working directory (`cwd`, or
/// the reason it could not be had).
pub fn absolute(path: &str, cwd: &Result<String, String>) -> (r: Result<String, CmuxError>)
    ensures
        path@.len() > 0 && path@[0] == '/' ==> (r matches Ok(p) && p@ == path@),
        !(path@.len() > 0 && path@[0] == '/') ==> match cwd {
            Ok(c) => r matches Ok(p) && p@ == path_join(c@, path@),
            Err(d) => r matches Err(e) && e.message@ == cwd_error_text(d@) && e.code@ == "CWD"@,
        },
{
    let v = chars_of(path);
    if v.len() > 0 && v[0] == '/' {
        return Ok(String::from_str(path));
    }
    match cwd {
        Ok(c) => Ok(join_path(c.as_str(), path)),
        Err(d) => {
            let mut m = String::from_str("cannot resolve cwd: ");
            push_str(&mut m, d.as_str());
            Err(CmuxError::operational(m.as_str(), "CWD"))
        },
    }
}

/// `absolute` as text: the absolute path, or the message of its error.
pub open spec fn absolute_of(path: Seq<char>, cwd: Result<String, String>) -> Result<Seq<char>, Seq<char>> {
    if path.len() > 0 && path[0] == '/' {
        Ok(path)
    } else {
        match cwd {
            Ok(c) => Ok(path_join(c@, path)),
            Err(d) => Err(cwd_error_text(d@)),
        }
    }
}

/// The state root: an explicit `--state-dir` made absolute, else
/// `<cwd>/.omp/state` with `cwd` made absolute.
pub open spec fn state_root_of(cwd: Seq<char>, explicit: Option<Seq<char>>, process_cwd: Result<String, String>) -> Result<Seq<char>, Seq<char>> {
    match explicit {
        Some(p) => absolute_of(p, process_cwd),
        None => match absolute_of(cwd, process_cwd) {
            Ok(b) => Ok(path_join(path_join(b, ".omp"@), "state"@)),
            Err(m) => Err(m),
        },
    }
}

/// The state root: an explicit `--state-dir` made absolute, else
/// `<cwd>/.omp/state` with `cwd` made absolute.
pub fn state_root(cwd: &str, explicit: Option<&str>, process_cwd: &Result<String, String>) -> (r: Result<String, CmuxError>)
    ensures
        match state_root_of(cwd@, opt_view(explicit), *process_cwd) {
            Ok(s) => r matches Ok(x) && x@ == s,
            Err(m) => r matches Err(e) && e.message@ == m && e.code@ == "CWD"@,
        },
{
    match explicit {
        Some(p) => absolute(p, process_cwd),
        None => {
            let base = match absolute(cwd, process_cwd) {
                Ok(b) => b,
                Err(e) => return Err(e),
            };
            let omp = join_path(base.as_str(), ".omp");
            Ok(join_path(omp.as_str(), "state"))
        },
    }
}

/// The last component of a path (`Path::file_name`), as text.
pub uninterp spec fn file_name_of(p: Seq<char>) -> Option<Seq<char>>;

/// The path without its last component (`Path::parent`), as text.
pub uninterp spec fn parent_of(p: Seq<char>) -> Option<Seq<char>>;

/// `Path::file_name`: the result depends on the path's components (repeated and
/// trailing separators and `.` components are normalised away), which is named
/// here rather than described. Paths are read as on Unix (`/` separates), as
/// `text::path_join` reads them.
#[verifier::external_body]
fn path_file_name(p: &str) -> (r: Option<String>)
    ensures
        r is None <==> file_name_of(p@) is None,
        r matches Some(s) ==> file_name_of(p@) == Some(s@),
{
    std::path::Path::new(p).file_name().map(|s| s.to_string_lossy().to_string())
}

/// `Path::parent`, named for the same reason; Unix paths likewise.
#[verifier::external_body]
fn path_parent(p: &str) -> (r: Option<String>)
    ensures
        r is None <==> parent_of(p@) is None,
        r matches Some(s) ==> parent_of(p@) == Some(s@),
{
    std::path::Path::new(p).parent().map(|s| s.to_string_lossy().to_string())
}

/// The Chief-of-Staff home from the parts of the state root: its last
/// component `name`, its parent's last component `parent_name` and its
/// grandparent `grandparent`. `<home>/.omp/state` gives `<home>`; anything else
/// gives `cwd`.
pub open spec fn cof_home_from_text(
    name: Option<Seq<char>>,
    parent_name: Option<Seq<char>>,
    grandparent: Option<Seq<char>>,
    cwd: Seq<char>,
) -> Seq<char> {
    match (name, parent_name, grandparent) {
        (Some(s), Some(o), Some(home)) => if s == "state"@ && o == ".omp"@ { home } else { cwd },
        _ => cwd,
    }
}

/// `<home>/.omp/state` → `<home>`; anything else → `cwd`.
pub open spec fn cof_home_text(state: Seq<char>, cwd: Seq<char>) -> Seq<char> {
    let parent = parent_of(state);
    cof_home_from_text(
        file_name_of(state),
        match parent { Some(p) => file_name_of(p), None => None },
        match parent { Some(p) => parent_of(p), None => None },
        cwd,
    )
}

pub open spec fn opt_string_view(o: Option<String>) -> Option<Seq<char>> {
    match o {
        Some(s) => Some(s@),
        None => None,
    }
}

/// The decision of `cof_home_of`, on the path parts it reads.
pub fn cof_home_from(
    name: Option<String>,
    parent_name: Option<String>,
    grandparent: Option<String>,
    cwd: &str,
) -> (r: String)
    ensures
        r@ == cof_home_from_text(
            opt_string_view(name),
            opt_string_view(parent_name),
            opt_string_view(grandparent),
            cwd@,
        ),
{
    match (name, parent_name, grandparent) {
        (Some(s), Some(o), Some(home)) => {
            if str_eq(s.as_str(), "state") && str_eq(o.as_str(), ".omp") {
                home
            } else {
                String::from_str(cwd)
            }
        },
        _ => String::from_str(cwd),
    }
}

/// The Chief-of-Staff home of a state root: `<home>/.omp/state` → `<home>`,
/// anything else → the launch cwd.
pub fn cof_home_of(state: &str, cwd: &str) -> (r: String)
    ensures
        r@ == cof_home_text(state@, cwd@),
{
    let name = path_file_name(state);
    let parent = path_parent(state);
    let (parent_name, grandparent) = match &parent {
        Some(p) => (path_file_name(p.as_str()), path_parent(p.as_str())),
        None => (None, None),
    };
    cof_home_from(name, parent_name, grandparent, cwd)
}

/// The layouts directory: the one given, else the user directory.
pub fn layouts_dir(dir: Option<&str>, user_dir: &str) -> (r: String)
    ensures
        r@ == match dir {
            Some(d) => d@,
            None => user_dir@,
        },
{
    match dir {
        Some(d) => String::from_str(d),
        None => String::from_str(user_dir),
    }
}

} // verus!

verus! {

// ---------------------------------------------------------------------------
// send / read
// ---------------------------------------------------------------------------

/// Position of the first entry with role `role` (any project).
pub open spec fn first_role(es: Seq<FleetEntry>, role: Seq<char>, i: int) -> Option<int>
    decreases es.len() - i,
{
    if i < 0 || i >= es.len() {
        None
    } else if es[i].role@ == role {
        Some(i)
    } else {
        first_role(es, role, i + 1)
    }
}

/// The entry that addresses (project, role): the fleet entry so keyed, else, for
/// `cof` (the Chief of Staff, one row for the whole home), the first `cof` row.
pub open spec fn addressed(es: Seq<FleetEntry>, project: Seq<char>, role: Seq<char>) -> Option<FleetEntry> {
    match lookup(es, project, role) {
        Some(e) => Some(e),
        None => if role == "cof"@ {
            match first_role(es, role, 0) {
                Some(k) => Some(es[k]),
                None => None,
            }
        } else {
            None
        },
    }
}

pub open spec fn no_entry_text(project: Seq<char>, role: Seq<char>) -> Seq<char> {
    "no fleet entry for "@ + project + "/"@ + role
}

fn role_position(es: &[FleetEntry], role: &str) -> (r: Option<usize>)
    ensures
        r matches Some(k) ==> first_role(es@, role@, 0) == Some(k as int) && k < es@.len(),
        r is None ==> first_role(es@, role@, 0) is None,
{
    let mut i: usize = 0;
    while i < es.len()
        invariant
            i <= es@.len(),
            first_role(es@, role@, 0) == first_role(es@, role@, i as int),
        decreases es@.len() - i,
    {
        if str_eq(es[i].role.as_str(), role) {
            return Some(i);
        }
        i = i + 1;
    }
    None
}

/// The surface that (project, role) is recorded at, or the error that says it
/// has no fleet entry.
pub fn resolve_surface(rows: &[FleetEntry], project: &str, role: &str) -> (r: Result<String, CmuxError>)
    ensures
        match addressed(rows@, project@, role@) {
            Some(e) => r matches Ok(s) && s@ == e.surface@,
            None => r matches Err(e) && e.message@ == no_entry_text(project@, role@)
                && e.code@ == "ROLE_NOT_FOUND"@ && e.suggestions@.len() == 2
                && e.suggestions@[0]@ == "Run `cmux-axi status --project "@ + project@ + "`"@
                && e.suggestions@[1]@ == "Or `cmux-axi provision "@ + project@ + "` if not yet provisioned"@,
        },
{
    match crate::fleet::find(rows, project, role) {
        Some(e) => return Ok(e.surface.clone()),
        None => {},
    }
    if str_eq(role, "cof") {
        match role_position(rows, role) {
            Some(k) => return Ok(rows[k].surface.clone()),
            None => {},
        }
    }
    let mut m = String::from_str("no fleet entry for ");
    push_str(&mut m, project);
    push_str(&mut m, "/");
    push_str(&mut m, role);
    let mut s1 = String::from_str("Run `cmux-axi status --project ");
    push_str(&mut s1, project);
    push_str(&mut s1, "`");
    let mut s2 = String::from_str("Or `cmux-axi provision ");
    push_str(&mut s2, project);
    push_str(&mut s2, "` if not yet provisioned");
    let mut help: Vec<String> = Vec::new();
    help.push(s1);
    help.push(s2);
    assert(m@ =~= no_entry_text(project@, role@));
    Err(CmuxError::operational(m.as_str(), "ROLE_NOT_FOUND").with_suggestions(help))
}

/// The `cmux` arguments of a `send`: the text, then the `enter` key, each
/// scoped to the workspace when there is one.
pub open spec fn send_args_text(ws: Option<Seq<char>>, surface: Seq<char>, last: Seq<char>, verb: Seq<char>) -> Seq<Seq<char>> {
    match ws {
        Some(w) => seq![verb, "--workspace"@, w, "--surface"@, surface, last],
        None => seq![verb, "--surface"@, surface, last],
    }
}

fn scoped_args(verb: &str, ws: Option<&str>, surface: &str, last: &str) -> (r: Vec<String>)
    ensures
        views_of(r@) == send_args_text(opt_view(ws), surface@, last@, verb@),
{
    let mut v: Vec<String> = Vec::new();
    v.push(String::from_str(verb));
    match ws {
        Some(w) => {
            v.push(String::from_str("--workspace"));
            v.push(String::from_str(w));
        },
        None => {},
    }
    v.push(String::from_str("--surface"));
    v.push(String::from_str(surface));
    v.push(String::from_str(last));
    assert(views_of(v@) =~= send_args_text(opt_view(ws), surface@, last@, verb@));
    v
}

/// The two `cmux` calls of `send`: `send … <text>` and `send-key … enter`. The
/// Chief of Staff's surface lives outside the crew workspace, so it is addressed
/// by surface alone.
pub fn send_args(role: &str, ws: Option<&str>, surface: &str, text: &str) -> (r: (Vec<String>, Vec<String>))
    ensures
        ({
            let w = if role@ == "cof"@ { None } else { opt_view(ws) };
            &&& views_of(r.0@) == send_args_text(w, surface@, text@, "send"@)
            &&& views_of(r.1@) == send_args_text(w, surface@, "enter"@, "send-key"@)
        }),
{
    let w = if str_eq(role, "cof") { None } else { ws };
    (scoped_args("send", w, surface, text), scoped_args("send-key", w, surface, "enter"))
}

// ---------------------------------------------------------------------------
// status
// ---------------------------------------------------------------------------

/// A surface's next status: dead when cmux cannot read it, active again when it
/// was dead or unknown, otherwise unchanged.
pub open spec fn next_status_text(alive: bool, status: Seq<char>) -> Seq<char> {
    if !alive {
        "dead"@
    } else if status == "dead"@ || status == "unknown"@ {
        "active"@
    } else {
        status
    }
}

pub fn next_status(alive: bool, status: &str) -> (r: String)
    ensures
        r@ == next_status_text(alive, status@),
{
    if !alive {
        String::from_str("dead")
    } else if str_eq(status, "dead") || str_eq(status, "unknown") {
        String::from_str("active")
    } else {
        String::from_str(status)
    }
}

/// Apply the liveness of each entry's surface (`alive[i]` for entry `i`) to its
/// status; says whether any status changed (and the file needs rewriting).
pub fn refresh_statuses(rows: &mut Vec<FleetEntry>, alive: &[bool]) -> (changed: bool)
    requires
        alive@.len() == old(rows)@.len(),
    ensures
        final(rows)@.len() == old(rows)@.len(),
        forall|i: int| 0 <= i < old(rows)@.len() ==> {
            &&& (#[trigger] final(rows)@[i]).status@ == next_status_text(alive@[i], old(rows)@[i].status@)
            &&& final(rows)@[i].role == old(rows)@[i].role
            &&& final(rows)@[i].project == old(rows)@[i].project
            &&& final(rows)@[i].surface == old(rows)@[i].surface
            &&& final(rows)@[i].session == old(rows)@[i].session
            &&& final(rows)@[i].started == old(rows)@[i].started
        },
        changed == exists|i: int| 0 <= i < old(rows)@.len()
            && next_status_text(alive@[i], old(rows)@[i].status@) != #[trigger] old(rows)@[i].status@,
{
    let ghost before = rows@;
    let mut changed = false;
    let mut i: usize = 0;
    while i < rows.len()
        invariant
            i <= rows@.len(),
            rows@.len() == before.len(),
            alive@.len() == before.len(),
            forall|j: int| 0 <= j < rows@.len() ==> {
                &&& (#[trigger] rows@[j]).role == before[j].role
                &&& rows@[j].project == before[j].project
                &&& rows@[j].surface == before[j].surface
                &&& rows@[j].session == before[j].session
                &&& rows@[j].started == before[j].started
                &&& if j < i {
                    rows@[j].status@ == next_status_text(alive@[j], before[j].status@)
                } else {
                    rows@[j].status == before[j].status
                }
            },
            changed == exists|j: int| 0 <= j < i
                && next_status_text(alive@[j], before[j].status@) != #[trigger] before[j].status@,
        decreases rows@.len() - i,
    {
        let next = next_status(alive[i], rows[i].status.as_str());
        let differs = !str_eq(next.as_str(), rows[i].status.as_str());
        let mut e = copy_entry(&rows[i]);
        e.status = next;
        rows.set(i, e);
        if differs {
            changed = true;
        }
        proof {
            if !differs && !changed {
                assert forall|j: int| 0 <= j < i + 1 implies
                    !(next_status_text(alive@[j], before[j].status@) != #[trigger] before[j].status@) by {
                    if j < i {
                    }
                }
            }
        }
        i = i + 1;
    }
    changed
}

/// The entries of `project` (all of them without one), in order.
pub open spec fn in_project(es: Seq<FleetEntry>, project: Option<Seq<char>>) -> Seq<FleetEntry>
    decreases es.len(),
{
    if es.len() == 0 {
        es
    } else {
        let prev = in_project(es.drop_last(), project);
        match project {
            Some(p) => if es.last().project@ == p { prev.push(es.last()) } else { prev },
            None => prev.push(es.last()),
        }
    }
}

/// The entries shown for a project filter.
pub fn entries_of_project(rows: &[FleetEntry], project: Option<&str>) -> (r: Vec<FleetEntry>)
    ensures
        r@ == in_project(rows@, opt_view(project)),
{
    let mut out: Vec<FleetEntry> = Vec::new();
    let mut i: usize = 0;
    while i < rows.len()
        invariant
            i <= rows@.len(),
            out@ == in_project(rows@.subrange(0, i as int), opt_view(project)),
        decreases rows@.len() - i,
    {
        let ghost pre = rows@.subrange(0, i as int);
        let ghost post = rows@.subrange(0, i + 1);
        assert(post.drop_last() =~= pre);
        assert(post.last() == rows@[i as int]);
        let keep = match project {
            Some(p) => str_eq(rows[i].project.as_str(), p),
            None => true,
        };
        if keep {
            out.push(copy_entry(&rows[i]));
        }
        i = i + 1;
    }
    assert(rows@.subrange(0, rows@.len() as int) =~= rows@);
    out
}

/// The entries of every project but `project` (`retain(|e| e.project != project)`).
pub open spec fn outside_project(es: Seq<FleetEntry>, project: Seq<char>) -> Seq<FleetEntry>
    decreases es.len(),
{
    if es.len() == 0 {
        es
    } else {
        let prev = outside_project(es.drop_last(), project);
        if es.last().project@ != project { prev.push(es.last()) } else { prev }
    }
}

/// Drop a torn-down project's entries from the fleet.
pub fn remove_project(rows: &mut Vec<FleetEntry>, project: &str)
    ensures
        final(rows)@ == outside_project(old(rows)@, project@),
{
    let ghost before = rows@;
    let mut kept: Vec<FleetEntry> = Vec::new();
    let mut i: usize = 0;
    while i < rows.len()
        invariant
            rows@ == before,
            i <= before.len(),
            kept@ == outside_project(before.subrange(0, i as int), project@),
        decreases before.len() - i,
    {
        let ghost pre = before.subrange(0, i as int);
        let ghost post = before.subrange(0, i + 1);
        assert(post.drop_last() =~= pre);
        assert(post.last() == before[i as int]);
        if !str_eq(rows[i].project.as_str(), project) {
            kept.push(copy_entry(&rows[i]));
        }
        i = i + 1;
    }
    assert(before.subrange(0, before.len() as int) =~= before);
    *rows = kept;
}

} // verus!

verus! {

// ---------------------------------------------------------------------------
// Fleet rendering
// ---------------------------------------------------------------------------

/// The five columns of a fleet row.
pub open spec fn fleet_schema() -> Seq<Seq<char>> {
    seq!["role"@, "project"@, "surface"@, "session"@, "status"@]
}

pub open spec fn fleet_row(e: FleetEntry) -> Seq<Seq<char>> {
    seq![e.role@, e.project@, e.surface@, e.session@, e.status@]
}

pub open spec fn fleet_rows(es: Seq<FleetEntry>) -> Seq<Seq<Seq<char>>> {
    es.map_values(|e: FleetEntry| fleet_row(e))
}

fn fleet_schema_strs() -> (r: Vec<&'static str>)
    ensures
        crate::text::str_views(r@) == fleet_schema(),
{
    let v = vec!["role", "project", "surface", "session", "status"];
    assert(crate::text::str_views(v@) =~= fleet_schema());
    v
}

fn rows_of(es: &[FleetEntry]) -> (r: Vec<Vec<String>>)
    ensures
        crate::toon::row_views(r@) == fleet_rows(es@),
{
    let mut out: Vec<Vec<String>> = Vec::new();
    let mut i: usize = 0;
    while i < es.len()
        invariant
            i <= es@.len(),
            out@.len() == i,
            forall|j: int| 0 <= j < i ==> views_of((#[trigger] out@[j])@) == fleet_row(es@[j]),
        decreases es@.len() - i,
    {
        let e = &es[i];
        let row = vec![e.role.clone(), e.project.clone(), e.surface.clone(), e.session.clone(), e.status.clone()];
        assert(views_of(row@) =~= fleet_row(es@[i as int]));
        out.push(row);
        i = i + 1;
    }
    assert(crate::toon::row_views(out@) =~= fleet_rows(es@));
    out
}

/// The fleet table: the report header, then one row per entry.
pub open spec fn fleet_report_text(es: Seq<FleetEntry>) -> Seq<char> {
    crate::toon::join_text(seq![
        crate::toon::header_text(BIN@, DESCRIPTION@),
        crate::toon::list_text("fleet"@, fleet_schema(), fleet_rows(es)),
    ])
}

/// The TOON fleet table (what `provision` prints without `--json`).
pub fn fleet_report(es: &[FleetEntry]) -> (r: String)
    ensures
        r@ == fleet_report_text(es@),
{
    let blocks = vec![
        crate::toon::header(BIN, DESCRIPTION),
        crate::toon::list("fleet", fleet_schema_strs().as_slice(), rows_of(es).as_slice()),
    ];
    let r = crate::toon::join(blocks.as_slice());
    assert(views_of(blocks@) =~= seq![
        crate::toon::header_text(BIN@, DESCRIPTION@),
        crate::toon::list_text("fleet"@, fleet_schema(), fleet_rows(es@)),
    ]);
    r
}

/// The next step that `status` suggests.
pub open spec fn status_help_text(provisioned: bool, project: Option<Seq<char>>) -> Seq<char> {
    if provisioned {
        "Run `cmux-axi teardown <project>` to remove the crew"@
    } else {
        match project {
            Some(p) => "Not provisioned — run `cmux-axi provision "@ + p + "`"@,
            None => "Run `cmux-axi provision <project>` to provision a crew"@,
        }
    }
}

/// The blocks of the `status` report.
pub open spec fn status_blocks(es: Seq<FleetEntry>, layout: Option<Seq<char>>, provisioned: bool, project: Option<Seq<char>>) -> Seq<Seq<char>> {
    let head = seq![
        crate::toon::header_text(BIN@, DESCRIPTION@),
        crate::toon::list_text("fleet"@, fleet_schema(), fleet_rows(es)),
    ];
    let with_layout = match layout {
        Some(l) => head.push(crate::toon::kv_text("layout"@, l)),
        None => head,
    };
    with_layout.push(crate::toon::help_text(seq![status_help_text(provisioned, project)]))
}

} // verus!

verus! {

/// The TOON `status` report: header, fleet table, the layout when the crew
/// record names one, and the next step.
pub fn status_report(es: &[FleetEntry], layout: Option<&str>, provisioned: bool, project: Option<&str>) -> (r: String)
    ensures
        r@ == crate::toon::join_text(status_blocks(es@, opt_view(layout), provisioned, opt_view(project))),
{
    let mut blocks: Vec<String> = Vec::new();
    blocks.push(crate::toon::header(BIN, DESCRIPTION));
    blocks.push(crate::toon::list("fleet", fleet_schema_strs().as_slice(), rows_of(es).as_slice()));
    match layout {
        Some(l) => blocks.push(crate::toon::kv("layout", l)),
        None => {},
    }
    let line = if provisioned {
        String::from_str("Run `cmux-axi teardown <project>` to remove the crew")
    } else {
        match project {
            Some(p) => {
                let mut s = String::from_str("Not provisioned — run `cmux-axi provision ");
                push_str(&mut s, p);
                push_str(&mut s, "`");
                s
            },
            None => String::from_str("Run `cmux-axi provision <project>` to provision a crew"),
        }
    };
    let help_lines = vec![line];
    assert(views_of(help_lines@) =~= seq![status_help_text(provisioned, opt_view(project))]);
    blocks.push(crate::toon::help(help_lines.as_slice()));
    assert(views_of(blocks@) =~= status_blocks(es@, opt_view(layout), provisioned, opt_view(project)));
    crate::toon::join(blocks.as_slice())
}

} // verus!

verus! {

// ---------------------------------------------------------------------------
// dev add
// ---------------------------------------------------------------------------

/// Whether the pane at position `i` of the index-ordered panes sits at a
/// developer slot, per the crew record's `leaf_order` and `dev_slots`.
pub open spec fn is_dev_pane(i: int, leaf_order: Seq<usize>, dev_slots: Seq<usize>) -> bool {
    0 <= i < leaf_order.len() && dev_slots.contains(leaf_order[i])
}

/// The positions of developer panes among the first `n` panes, in order.
pub open spec fn dev_positions(n: nat, leaf_order: Seq<usize>, dev_slots: Seq<usize>) -> Seq<int>
    decreases n,
{
    if n == 0 {
        Seq::empty()
    } else {
        let prev = dev_positions((n - 1) as nat, leaf_order, dev_slots);
        if is_dev_pane(n - 1, leaf_order, dev_slots) { prev.push(n - 1) } else { prev }
    }
}

/// The panes that take developers: those at developer slots per the crew record,
/// or, for a crew provisioned before records existed, the last two panes
/// (refused when there are fewer than four).
pub open spec fn dev_candidates_of(panes: Seq<PaneView>, record: Option<(Seq<usize>, Seq<usize>)>) -> Option<Seq<PaneView>> {
    match record {
        Some((leaf_order, dev_slots)) => Some(
            dev_positions(panes.len(), leaf_order, dev_slots).map_values(|i: int| panes[i]),
        ),
        None => if panes.len() < 4 {
            None
        } else {
            Some(panes.subrange(panes.len() - 2, panes.len() as int))
        },
    }
}

pub open spec fn record_view(r: Option<(&[usize], &[usize])>) -> Option<(Seq<usize>, Seq<usize>)> {
    match r {
        Some((a, b)) => Some((a@, b@)),
        None => None,
    }
}

fn slice_contains(v: &[usize], x: usize) -> (r: bool)
    ensures
        r == v@.contains(x),
{
    let mut i: usize = 0;
    while i < v.len()
        invariant
            i <= v@.len(),
            forall|j: int| 0 <= j < i ==> v@[j] != x,
        decreases v@.len() - i,
    {
        if v[i] == x {
            return true;
        }
        i = i + 1;
    }
    false
}

/// The candidate panes for a new developer (see `dev_candidates_of`).
pub fn dev_candidates(panes: &[Pane], record: Option<(&[usize], &[usize])>) -> (r: Result<Vec<Pane>, CmuxError>)
    ensures
        match dev_candidates_of(pane_views(panes@), record_view(record)) {
            Some(c) => r matches Ok(v) && pane_views(v@) == c,
            None => r matches Err(e) && e.message@ == "crew layout not fully provisioned"@
                && e.code@ == "LAYOUT_UNEXPECTED"@,
        },
{
    match record {
        Some((leaf_order, dev_slots)) => {
            let mut out: Vec<Pane> = Vec::new();
            let mut i: usize = 0;
            while i < panes.len()
                invariant
                    i <= panes@.len(),
                    pane_views(out@) == dev_positions(i as nat, leaf_order@, dev_slots@)
                        .map_values(|k: int| pane_views(panes@)[k]),
                decreases panes@.len() - i,
            {
                let at_dev = i < leaf_order.len() && slice_contains(dev_slots, leaf_order[i]);
                let ghost before = pane_views(out@);
                if at_dev {
                    let c = crate::cmux::copy_pane(&panes[i]);
                    out.push(c);
                    assert(pane_views(out@) =~= before.push(pane_views(panes@)[i as int]));
                }
                proof {
                    let prev = dev_positions(i as nat, leaf_order@, dev_slots@);
                    let next = dev_positions((i + 1) as nat, leaf_order@, dev_slots@);
                    assert(at_dev == is_dev_pane(i as int, leaf_order@, dev_slots@));
                    if at_dev {
                        assert(next =~= prev.push(i as int));
                    } else {
                        assert(next =~= prev);
                    }
                    assert(pane_views(out@) =~= next.map_values(|k: int| pane_views(panes@)[k]));
                }
                i = i + 1;
            }
            Ok(out)
        },
        None => {
            let n = panes.len();
            if n < 4 {
                return Err(CmuxError::operational("crew layout not fully provisioned", "LAYOUT_UNEXPECTED"));
            }
            let mut out: Vec<Pane> = Vec::new();
            out.push(crate::cmux::copy_pane(&panes[n - 2]));
            out.push(crate::cmux::copy_pane(&panes[n - 1]));
            assert(pane_views(out@) =~= pane_views(panes@).subrange(n - 2, n as int));
            Ok(out)
        },
    }
}

/// Position of the first pane with the fewest surfaces (`min_by_key`).
pub open spec fn least_loaded_at(ps: Seq<PaneView>) -> int
    decreases ps.len(),
{
    if ps.len() <= 1 {
        0
    } else {
        let k = least_loaded_at(ps.drop_last());
        if ps.last().surface_refs.len() < ps[k].surface_refs.len() { ps.len() - 1 } else { k }
    }
}

/// The candidate pane with the fewest surfaces (the first of them on a tie).
pub fn least_loaded(candidates: &[Pane]) -> (r: Result<Pane, CmuxError>)
    ensures
        candidates@.len() == 0 ==> (r matches Err(e) && e.message@ == "layout has no developer slots"@
            && e.code@ == "LAYOUT_UNEXPECTED"@),
        candidates@.len() > 0 ==> (r matches Ok(p)
            && p@ == pane_views(candidates@)[least_loaded_at(pane_views(candidates@))]),
{
    if candidates.len() == 0 {
        return Err(CmuxError::operational("layout has no developer slots", "LAYOUT_UNEXPECTED"));
    }
    let ghost all = pane_views(candidates@);
    let mut best: usize = 0;
    let mut i: usize = 1;
    while i < candidates.len()
        invariant
            1 <= i <= candidates@.len(),
            all == pane_views(candidates@),
            best as int == least_loaded_at(all.subrange(0, i as int)),
            best < i,
        decreases candidates@.len() - i,
    {
        let ghost pre = all.subrange(0, i as int);
        let ghost post = all.subrange(0, i + 1);
        assert(post.drop_last() =~= pre);
        assert(post[best as int] == all[best as int]);
        assert(post.last() == all[i as int]);
        assert(all[i as int].surface_refs.len() == candidates@[i as int].surface_refs@.len());
        assert(all[best as int].surface_refs.len() == candidates@[best as int].surface_refs@.len());
        if candidates[i].surface_refs.len() < candidates[best].surface_refs.len() {
            best = i;
        }
        i = i + 1;
    }
    assert(all.subrange(0, candidates@.len() as int) =~= all);
    Ok(crate::cmux::copy_pane(&candidates[best]))
}

/// Position of the surface with the highest index (`max_by_key`: the last of
/// them on a tie).
pub open spec fn newest_at(ss: Seq<SurfaceView>) -> int
    decreases ss.len(),
{
    if ss.len() <= 1 {
        0
    } else {
        let k = newest_at(ss.drop_last());
        if crate::cmux::index_key(ss.last().index) >= crate::cmux::index_key(ss[k].index) { ss.len() - 1 } else { k }
    }
}

/// The newest surface of a pane: the one with the highest index.
pub fn newest_surface(surfaces: &[Surface]) -> (r: Result<Surface, CmuxError>)
    ensures
        surfaces@.len() == 0 ==> (r matches Err(e) && e.message@ == "no surface created"@ && e.code@ == "SURFACE"@),
        surfaces@.len() > 0 ==> (r matches Ok(s)
            && s@ == surface_views(surfaces@)[newest_at(surface_views(surfaces@))]),
{
    if surfaces.len() == 0 {
        return Err(CmuxError::operational("no surface created", "SURFACE"));
    }
    let ghost all = surface_views(surfaces@);
    let mut best: usize = 0;
    let mut i: usize = 1;
    while i < surfaces.len()
        invariant
            1 <= i <= surfaces@.len(),
            all == surface_views(surfaces@),
            best as int == newest_at(all.subrange(0, i as int)),
            best < i,
        decreases surfaces@.len() - i,
    {
        let ghost pre = all.subrange(0, i as int);
        let ghost post = all.subrange(0, i + 1);
        assert(post.drop_last() =~= pre);
        assert(post[best as int] == all[best as int]);
        assert(post.last() == all[i as int]);
        let a = match surfaces[i].index { Some(x) => x, None => 0 };
        let b = match surfaces[best].index { Some(x) => x, None => 0 };
        if a >= b {
            best = i;
        }
        i = i + 1;
    }
    assert(all.subrange(0, surfaces@.len() as int) =~= all);
    Ok(crate::cmux::copy_surface(&surfaces[best]))
}

/// `s.trim_start_matches("dev-")`: every leading `dev-` removed.
pub open spec fn strip_dev_prefixes(s: Seq<char>) -> Seq<char>
    decreases s.len(),
{
    if starts_with(s, "dev-"@) && s.len() >= 4 {
        strip_dev_prefixes(s.subrange(4, s.len() as int))
    } else {
        s
    }
}

/// The developer numbers already used in `project`: the roles starting with
/// `dev-` whose remainder (after every leading `dev-`) parses as a `usize`.
pub open spec fn dev_number_in(e: FleetEntry, project: Seq<char>) -> Option<nat> {
    if e.project@ == project && starts_with(e.role@, "dev-"@) {
        parse_unsigned(strip_dev_prefixes(e.role@), usize::MAX as nat)
    } else {
        None
    }
}

/// The largest developer number used in `project` among the first `n` entries (0 if none).
pub open spec fn max_dev_number(es: Seq<FleetEntry>, project: Seq<char>, n: nat) -> nat
    decreases n,
{
    if n == 0 || n > es.len() {
        0
    } else {
        let prev = max_dev_number(es, project, (n - 1) as nat);
        match dev_number_in(es[n - 1], project) {
            Some(k) => if k > prev { k } else { prev },
            None => prev,
        }
    }
}

/// No developer number recorded for the project exceeds the largest one: for
/// every entry of `project` whose role starts with `dev-` and whose remainder
/// (after every leading `dev-`) reads as a number `k`, `k` is at most
/// `max_dev_number`; and the largest is one of them, or 0.
pub proof fn lemma_max_dev_number_bounds(es: Seq<FleetEntry>, project: Seq<char>, n: nat)
    requires
        n <= es.len(),
    ensures
        forall|i: int| 0 <= i < n && es[i].project@ == project && starts_with(es[i].role@, "dev-"@)
            && (#[trigger] parse_unsigned(strip_dev_prefixes(es[i].role@), usize::MAX as nat)) is Some
            ==> parse_unsigned(strip_dev_prefixes(es[i].role@), usize::MAX as nat)->Some_0
                <= max_dev_number(es, project, n),
        max_dev_number(es, project, n) == 0 || exists|i: int| 0 <= i < n && es[i].project@ == project
            && starts_with(es[i].role@, "dev-"@)
            && #[trigger] parse_unsigned(strip_dev_prefixes(es[i].role@), usize::MAX as nat)
                == Some(max_dev_number(es, project, n)),
    decreases n,
{
    if n > 0 {
        lemma_max_dev_number_bounds(es, project, (n - 1) as nat);
        let prev = max_dev_number(es, project, (n - 1) as nat);
        assert forall|i: int| 0 <= i < n && es[i].project@ == project && starts_with(es[i].role@, "dev-"@)
            && (#[trigger] parse_unsigned(strip_dev_prefixes(es[i].role@), usize::MAX as nat)) is Some
            implies parse_unsigned(strip_dev_prefixes(es[i].role@), usize::MAX as nat)->Some_0
                <= max_dev_number(es, project, n) by {
            if i < n - 1 {
            }
        }
    }
}

/// The decimal text of a number never starts with `dev-`, so stripping the
/// prefixes of `dev-<m>` leaves `<m>`.
proof fn lemma_strip_dev_dec(m: nat)
    ensures
        strip_dev_prefixes("dev-"@ + dec(m)) == dec(m),
{
    reveal_strlit("dev-");
    crate::text::lemma_dec_value(m);
    let r = "dev-"@ + dec(m);
    assert(r.subrange(0, 4) =~= "dev-"@);
    assert(r.subrange(4, r.len() as int) =~= dec(m));
    assert(crate::text::is_digit(dec(m)[0]));
    assert(!starts_with(dec(m), "dev-"@)) by {
        if starts_with(dec(m), "dev-"@) {
            assert(dec(m)[0] == dec(m).subrange(0, 4)[0]);
            assert(dec(m).subrange(0, 4)[0] == 'd');
        }
    }
    assert(strip_dev_prefixes(dec(m)) == dec(m));
    assert(starts_with(r, "dev-"@) && r.len() >= 4);
    assert(strip_dev_prefixes(r) == strip_dev_prefixes(r.subrange(4, r.len() as int)));
}

/// A minted developer id is new: its number exceeds every developer number
/// recorded for the project, so it equals the role of no entry of the project.
pub proof fn lemma_next_dev_id_fresh(es: Seq<FleetEntry>, project: Seq<char>)
    requires
        max_dev_number(es, project, es.len()) < usize::MAX,
    ensures
        forall|i: int| 0 <= i < es.len() && es[i].project@ == project && starts_with(es[i].role@, "dev-"@)
            && (#[trigger] parse_unsigned(strip_dev_prefixes(es[i].role@), usize::MAX as nat)) is Some
            ==> parse_unsigned(strip_dev_prefixes(es[i].role@), usize::MAX as nat)->Some_0
                < max_dev_number(es, project, es.len()) + 1,
        forall|i: int| 0 <= i < es.len() && es[i].project@ == project
            ==> (#[trigger] es[i].role@) != "dev-"@ + dec(max_dev_number(es, project, es.len()) + 1),
{
    let m = max_dev_number(es, project, es.len()) + 1;
    lemma_max_dev_number_bounds(es, project, es.len());
    lemma_strip_dev_dec(m);
    crate::text::lemma_parse_dec(m, usize::MAX as nat);
    reveal_strlit("dev-");
    let r = "dev-"@ + dec(m);
    assert(r.subrange(0, 4) =~= "dev-"@);
    assert(starts_with(r, "dev-"@));
    assert forall|i: int| 0 <= i < es.len() && es[i].project@ == project
        implies (#[trigger] es[i].role@) != r by {
        if es[i].role@ == r {
            assert(parse_unsigned(strip_dev_prefixes(es[i].role@), usize::MAX as nat) == Some(m));
        }
    }
}

fn strip_dev_prefixes_exec(v: &Vec<char>) -> (r: Vec<char>)
    ensures
        r@ == strip_dev_prefixes(v@),
{
    proof {
        reveal_strlit("dev-");
    }
    let p = chars_of("dev-");
    let mut cur = sub_chars(v.as_slice(), 0, v.len());
    assert(cur@ =~= v@);
    loop
        invariant
            p@ == "dev-"@,
            strip_dev_prefixes(v@) == strip_dev_prefixes(cur@),
        decreases cur@.len(),
    {
        proof {
            reveal_strlit("dev-");
        }
        match strip_prefix_chars(cur.as_slice(), p.as_slice()) {
            Some(rest) => {
                cur = rest;
            },
            None => {
                return cur;
            },
        }
    }
}

/// The largest developer number used in `project` (0 if none).
pub fn largest_dev_number(all: &[FleetEntry], project: &str) -> (r: usize)
    ensures
        r == max_dev_number(all@, project@, all@.len()),
        forall|i: int| 0 <= i < all@.len() && all@[i].project@ == project@ && starts_with(all@[i].role@, "dev-"@)
            && (#[trigger] parse_unsigned(strip_dev_prefixes(all@[i].role@), usize::MAX as nat)) is Some
            ==> parse_unsigned(strip_dev_prefixes(all@[i].role@), usize::MAX as nat)->Some_0 <= r,
{
    proof {
        lemma_max_dev_number_bounds(all@, project@, all@.len());
    }
    proof {
        reveal_strlit("dev-");
    }
    let p = chars_of("dev-");
    let mut max: usize = 0;
    let mut i: usize = 0;
    while i < all.len()
        invariant
            i <= all@.len(),
            p@ == "dev-"@,
            max == max_dev_number(all@, project@, i as nat),
        decreases all@.len() - i,
    {
        if str_eq(all[i].project.as_str(), project) {
            let role = chars_of(all[i].role.as_str());
            if crate::text::matches_at(role.as_slice(), p.as_slice(), 0) {
                let rest = strip_dev_prefixes_exec(&role);
                match parse_usize_chars(rest.as_slice()) {
                    Some(k) => {
                        if k > max {
                            max = k;
                        }
                    },
                    None => {},
                }
            }
        }
        i = i + 1;
    }
    max
}

/// The id for a new developer: the one given, else `dev-<largest number used in
/// the project + 1>`.
pub fn next_dev_id(all: &[FleetEntry], project: &str, id: Option<&str>) -> (r: String)
    requires
        max_dev_number(all@, project@, all@.len()) < usize::MAX,
    ensures
        match id {
            Some(i) => r@ == i@,
            None => r@ == "dev-"@ + dec(max_dev_number(all@, project@, all@.len()) + 1),
        },
        id is None ==> forall|i: int| 0 <= i < all@.len() && all@[i].project@ == project@
            ==> (#[trigger] all@[i].role@) != r@,
{
    match id {
        Some(i) => return String::from_str(i),
        None => {},
    }
    proof {
        lemma_next_dev_id_fresh(all@, project@);
    }
    let max = largest_dev_number(all, project);
    let mut s = String::from_str("dev-");
    push_decimal(&mut s, max + 1);
    s
}

/// The worktree a developer gets: `<cwd>/.omp/worktrees/<id>` on branch
/// `cmux-axi/<id>` (id `dev` when none is given).
pub open spec fn worktree_text(cwd: Seq<char>, id: Option<Seq<char>>) -> (Seq<char>, Seq<char>) {
    let name = match id {
        Some(i) => i,
        None => "dev"@,
    };
    (path_join(path_join(path_join(cwd, ".omp"@), "worktrees"@), name), "cmux-axi/"@ + name)
}

pub fn worktree_plan(cwd_abs: &str, id: Option<&str>) -> (r: (String, String))
    ensures
        (r.0@, r.1@) == worktree_text(cwd_abs@, opt_view(id)),
{
    let name = match id {
        Some(i) => i,
        None => "dev",
    };
    let a = join_path(cwd_abs, ".omp");
    let b = join_path(a.as_str(), "worktrees");
    let path = join_path(b.as_str(), name);
    let mut branch = String::from_str("cmux-axi/");
    push_str(&mut branch, name);
    (path, branch)
}

/// The developer's launch command, with ` @<seed prompt>` when one is given.
pub fn with_seed(cmd: String, seed_abs: Option<&str>) -> (r: String)
    ensures
        r@ == match seed_abs {
            Some(s) => cmd@ + " @"@ + s@,
            None => cmd@,
        },
{
    match seed_abs {
        Some(s) => {
            let mut c = cmd;
            push_str(&mut c, " @");
            push_str(&mut c, s);
            c
        },
        None => cmd,
    }
}

/// The line `dev add` prints without `--json`.
pub open spec fn dev_added_text(project: Seq<char>, dev_id: Seq<char>, surface: Seq<char>, specialty: Option<Seq<char>>, worktree: Option<Seq<char>>) -> Seq<char> {
    let sp = match specialty {
        Some(s) => s,
        None => "general"@,
    };
    let note = match worktree {
        Some(p) => "worktree="@ + p,
        None => "no-worktree"@,
    };
    "ok: dev add "@ + project + "/"@ + dev_id + " -> "@ + surface + " ("@ + sp + ", "@ + note + ")"@
}

pub fn dev_added_line(project: &str, dev_id: &str, surface: &str, specialty: Option<&str>, worktree: Option<&str>) -> (r: String)
    ensures
        r@ == dev_added_text(project@, dev_id@, surface@, opt_view(specialty), opt_view(worktree)),
{
    let mut s = String::from_str("ok: dev add ");
    push_str(&mut s, project);
    push_str(&mut s, "/");
    push_str(&mut s, dev_id);
    push_str(&mut s, " -> ");
    push_str(&mut s, surface);
    push_str(&mut s, " (");
    match specialty {
        Some(sp) => push_str(&mut s, sp),
        None => push_str(&mut s, "general"),
    }
    push_str(&mut s, ", ");
    match worktree {
        Some(p) => {
            push_str(&mut s, "worktree=");
            push_str(&mut s, p);
        },
        None => push_str(&mut s, "no-worktree"),
    }
    push_str(&mut s, ")");
    proof {
        assert(s@ =~= dev_added_text(project@, dev_id@, surface@, opt_view(specialty), opt_view(worktree)));
    }
    s
}

} // verus!

verus! {

// ---------------------------------------------------------------------------
// provision
// ---------------------------------------------------------------------------

pub open spec fn pane_count_text(expected: nat, workspace: Seq<char>, found: nat) -> Seq<char> {
    "expected "@ + dec(expected) + " panes in "@ + workspace + ", found "@ + dec(found)
}

/// The freshly provisioned workspace must have one pane per leaf of the layout.
pub fn check_pane_count(found: usize, expected: usize, workspace: &str) -> (r: Result<(), CmuxError>)
    ensures
        found == expected ==> r is Ok,
        found != expected ==> (r matches Err(e) && e.message@ == pane_count_text(expected as nat, workspace@, found as nat)
            && e.code@ == "LAYOUT_UNEXPECTED"@),
{
    if found == expected {
        return Ok(());
    }
    let mut m = String::from_str("expected ");
    push_decimal(&mut m, expected);
    push_str(&mut m, " panes in ");
    push_str(&mut m, workspace);
    push_str(&mut m, ", found ");
    push_decimal(&mut m, found);
    assert(m@ =~= pane_count_text(expected as nat, workspace@, found as nat));
    Err(CmuxError::operational(m.as_str(), "LAYOUT_UNEXPECTED"))
}

/// The seats in `slot`, in seat order.
pub fn seats_at(seating: &[Seat], slot: usize) -> (r: Vec<Seat>)
    ensures
        r@ == seats_in(seating@, slot),
{
    let mut out: Vec<Seat> = Vec::new();
    let mut i: usize = 0;
    while i < seating.len()
        invariant
            i <= seating@.len(),
            out@ == seats_in(seating@.subrange(0, i as int), slot),
        decreases seating@.len() - i,
    {
        let ghost pre = seating@.subrange(0, i as int);
        let ghost post = seating@.subrange(0, i + 1);
        assert(post.drop_last() =~= pre);
        assert(post.last() == seating@[i as int]);
        if seating[i].slot == slot {
            out.push(copy_seat(&seating[i]));
        }
        i = i + 1;
    }
    assert(seating@.subrange(0, seating@.len() as int) =~= seating@);
    out
}

/// A copy of a seat.
pub fn copy_seat(s: &Seat) -> (r: Seat)
    ensures
        r == *s,
{
    Seat {
        role: s.role.clone(),
        slot: s.slot,
        resumable: s.resumable,
        title: match &s.title {
            Some(t) => Some(t.clone()),
            None => None,
        },
        command: match &s.command {
            Some(c) => Some(c.clone()),
            None => None,
        },
    }
}

pub open spec fn surfaces_short_text(slot: nat, pane: Seq<char>, surfaces: nat, seats: nat) -> Seq<char> {
    "slot "@ + dec(slot) + " ("@ + pane + ") has "@ + dec(surfaces) + " surfaces for "@ + dec(seats) + " seats"@
}

/// The fleet entry of a seat placed at a surface.
pub open spec fn placed_entry(seat: Seat, surface: Seq<char>, project: Seq<char>, state: Seq<char>, harness: Seq<char>, started: Seq<char>) -> crate::fleet::EntryView {
    crate::fleet::EntryView {
        role: seat.role@,
        project,
        surface,
        session: if seat.resumable { session_text(state, seat.role@, harness) } else { "ephemeral"@ },
        status: "active"@,
        started,
    }
}

/// The fleet entries of one slot's pane: the slot's seats, in seat order, take
/// the pane's surfaces in index order (fewer surfaces than seats is refused).
pub fn entries_for_pane(
    slot: usize,
    pane: &str,
    seats: &[Seat],
    surfaces: &[Surface],
    project: &str,
    state_str: &str,
    harness: &str,
    started: &str,
) -> (r: Result<Vec<FleetEntry>, CmuxError>)
    ensures
        surfaces@.len() < seats@.len() ==> (r matches Err(e)
            && e.message@ == surfaces_short_text(slot as nat, pane@, surfaces@.len(), seats@.len())
            && e.code@ == "LAYOUT_UNEXPECTED"@),
        surfaces@.len() >= seats@.len() ==> (r matches Ok(v) && v@.len() == seats@.len()
            && forall|i: int| 0 <= i < seats@.len() ==> (#[trigger] v@[i])@
                == placed_entry(seats@[i], surfaces@[i].reference@, project@, state_str@, harness@, started@)),
{
    if surfaces.len() < seats.len() {
        let mut m = String::from_str("slot ");
        push_decimal(&mut m, slot);
        push_str(&mut m, " (");
        push_str(&mut m, pane);
        push_str(&mut m, ") has ");
        push_decimal(&mut m, surfaces.len());
        push_str(&mut m, " surfaces for ");
        push_decimal(&mut m, seats.len());
        push_str(&mut m, " seats");
        assert(m@ =~= surfaces_short_text(slot as nat, pane@, surfaces@.len(), seats@.len()));
        return Err(CmuxError::operational(m.as_str(), "LAYOUT_UNEXPECTED"));
    }
    let mut out: Vec<FleetEntry> = Vec::new();
    let mut i: usize = 0;
    while i < seats.len()
        invariant
            i <= seats@.len(),
            seats@.len() <= surfaces@.len(),
            out@.len() == i,
            forall|j: int| 0 <= j < i ==> (#[trigger] out@[j])@
                == placed_entry(seats@[j], surfaces@[j].reference@, project@, state_str@, harness@, started@),
        decreases seats@.len() - i,
    {
        let seat = &seats[i];
        let session = if seat.resumable {
            session_id(state_str, seat.role.as_str(), harness)
        } else {
            String::from_str("ephemeral")
        };
        out.push(FleetEntry {
            role: seat.role.clone(),
            project: String::from_str(project),
            surface: surfaces[i].reference.clone(),
            session,
            status: String::from_str("active"),
            started: String::from_str(started),
        });
        i = i + 1;
    }
    Ok(out)
}

/// The tab title of a seated role: the seat's own title, else `title_for`.
pub open spec fn seat_title_text(seating: Seq<Seat>, role: Seq<char>) -> Seq<char> {
    match first_seat_of(seating, role, 0) {
        Some(k) => match seating[k].title {
            Some(t) => t@,
            None => title_text(role, None),
        },
        None => title_text(role, None),
    }
}

pub open spec fn first_seat_of(seating: Seq<Seat>, role: Seq<char>, i: int) -> Option<int>
    decreases seating.len() - i,
{
    if i < 0 || i >= seating.len() {
        None
    } else if seating[i].role@ == role {
        Some(i)
    } else {
        first_seat_of(seating, role, i + 1)
    }
}

pub fn seat_title(seating: &[Seat], role: &str) -> (r: String)
    ensures
        r@ == seat_title_text(seating@, role@),
{
    let mut i: usize = 0;
    while i < seating.len()
        invariant
            i <= seating@.len(),
            first_seat_of(seating@, role@, 0) == first_seat_of(seating@, role@, i as int),
        decreases seating@.len() - i,
    {
        if str_eq(seating[i].role.as_str(), role) {
            return match &seating[i].title {
                Some(t) => t.clone(),
                None => title_for(role, None),
            };
        }
        i = i + 1;
    }
    title_for(role, None)
}

pub open spec fn seat_view(s: Seat) -> (Seq<char>, usize, bool, Option<Seq<char>>, Option<Seq<char>>) {
    (s.role@, s.slot, s.resumable,
        match s.title { Some(t) => Some(t@), None => None },
        match s.command { Some(c) => Some(c@), None => None })
}

pub open spec fn seating_view(s: Seq<Seat>) -> Seq<(Seq<char>, usize, bool, Option<Seq<char>>, Option<Seq<char>>)> {
    s.map_values(|x: Seat| seat_view(x))
}

fn opt_str_eq(a: &Option<String>, b: &Option<String>) -> (r: bool)
    ensures
        r == (match a { Some(t) => Some(t@), None => None } == match b { Some(t) => Some(t@), None => None }),
{
    match (a, b) {
        (Some(x), Some(y)) => str_eq(x.as_str(), y.as_str()),
        (None, None) => true,
        _ => false,
    }
}

/// Whether an already provisioned crew differs from the spec asked for (its
/// layout or its seating): reported, never applied.
pub fn crew_drifted(record_layout: &str, record_seats: &[Seat], layout: &str, seating: &[Seat]) -> (r: bool)
    ensures
        r == (record_layout@ != layout@ || seating_view(record_seats@) != seating_view(seating@)),
{
    if !str_eq(record_layout, layout) {
        return true;
    }
    if record_seats.len() != seating.len() {
        proof {
            assert(seating_view(record_seats@).len() != seating_view(seating@).len());
        }
        return true;
    }
    let mut i: usize = 0;
    while i < seating.len()
        invariant
            i <= seating@.len(),
            record_seats@.len() == seating@.len(),
            forall|j: int| 0 <= j < i ==> seat_view(record_seats@[j]) == seat_view(#[trigger] seating@[j]),
        decreases seating@.len() - i,
    {
        let a = &record_seats[i];
        let b = &seating[i];
        let same = str_eq(a.role.as_str(), b.role.as_str()) && a.slot == b.slot && a.resumable == b.resumable
            && opt_str_eq(&a.title, &b.title) && opt_str_eq(&a.command, &b.command);
        if !same {
            proof {
                assert(seating_view(record_seats@)[i as int] != seating_view(seating@)[i as int]);
            }
            return true;
        }
        i = i + 1;
    }
    assert(seating_view(record_seats@) =~= seating_view(seating@));
    false
}

/// The next steps `provision` suggests.
pub fn provision_help(project: &str) -> (r: Vec<String>)
    ensures
        views_of(r@) == seq![
            "Run `cmux-axi send "@ + project@ + " planner \"…\"` to steer"@,
            "Run `cmux-axi status` for drift"@,
        ],
{
    let mut a = String::from_str("Run `cmux-axi send ");
    push_str(&mut a, project);
    push_str(&mut a, " planner \"…\"` to steer");
    let v = vec![a, String::from_str("Run `cmux-axi status` for drift")];
    assert(views_of(v@) =~= seq![
        "Run `cmux-axi send "@ + project@ + " planner \"…\"` to steer"@,
        "Run `cmux-axi status` for drift"@,
    ]);
    v
}

} // verus!

verus! {

// ---------------------------------------------------------------------------
// layout list / show
// ---------------------------------------------------------------------------

/// The roles whose default seat is slot `s`, in role order.
pub open spec fn roles_at(seats: Seq<(String, usize)>, s: usize) -> Seq<Seq<char>>
    decreases seats.len(),
{
    if seats.len() == 0 {
        Seq::empty()
    } else {
        let prev = roles_at(seats.drop_last(), s);
        if seats.last().1 == s { prev.push(seats.last().0@) } else { prev }
    }
}

/// Slot `s`'s label in a diagram: `0 coordinator`, `3 devs`, or just the number.
pub open spec fn slot_label_text(t: Template, s: usize) -> Seq<char> {
    let who = roles_at(t.default_seats@, s) + if t.dev_slots@.contains(s) { seq!["devs"@] } else { Seq::empty() };
    if who.len() == 0 {
        dec(s as nat)
    } else {
        dec(s as nat) + " "@ + crate::text::join_with(who, "+"@)
    }
}

fn slot_label(t: &Template, s: usize) -> (r: String)
    ensures
        r@ == slot_label_text(*t, s),
{
    let mut who: Vec<String> = Vec::new();
    let mut i: usize = 0;
    while i < t.default_seats.len()
        invariant
            i <= t.default_seats@.len(),
            views_of(who@) == roles_at(t.default_seats@.subrange(0, i as int), s),
        decreases t.default_seats@.len() - i,
    {
        let ghost pre = t.default_seats@.subrange(0, i as int);
        let ghost post = t.default_seats@.subrange(0, i + 1);
        assert(post.drop_last() =~= pre);
        assert(post.last() == t.default_seats@[i as int]);
        if t.default_seats[i].1 == s {
            who.push(t.default_seats[i].0.clone());
            assert(views_of(who@) =~= roles_at(post, s));
        }
        i = i + 1;
    }
    assert(t.default_seats@.subrange(0, t.default_seats@.len() as int) =~= t.default_seats@);
    let ghost base = views_of(who@);
    let mut dev = false;
    let mut k: usize = 0;
    while k < t.dev_slots.len()
        invariant
            k <= t.dev_slots@.len(),
            dev == exists|j: int| 0 <= j < k && t.dev_slots@[j] == s,
        decreases t.dev_slots@.len() - k,
    {
        if t.dev_slots[k] == s {
            dev = true;
        }
        k = k + 1;
    }
    if dev {
        who.push(String::from_str("devs"));
    }
    proof {
        if dev {
            let j = choose|j: int| 0 <= j < t.dev_slots@.len() && t.dev_slots@[j] == s;
            assert(t.dev_slots@.contains(s));
            assert(views_of(who@) =~= base + seq!["devs"@]);
        } else {
            if t.dev_slots@.contains(s) {
                let j = choose|j: int| 0 <= j < t.dev_slots@.len() && t.dev_slots@[j] == s;
                assert(false);
            }
            assert(views_of(who@) =~= base + Seq::<Seq<char>>::empty());
        }
    }
    let mut out = crate::text::decimal(s);
    if who.len() > 0 {
        push_str(&mut out, " ");
        let j = join_strings(who.as_slice(), "+");
        push_str(&mut out, j.as_str());
    }
    out
}

/// Slot labels for a diagram: `0 coordinator`, `3 devs`, or just the number.
pub fn slot_labels(t: &Template) -> (r: Vec<String>)
    requires
        fits(*t),
    ensures
        r@.len() == slot_count(*t),
        forall|s: int| 0 <= s < r@.len() ==> (#[trigger] r@[s])@ == slot_label_text(*t, s as usize),
{
    let n = slots(t);
    let mut out: Vec<String> = Vec::new();
    let mut s: usize = 0;
    while s < n
        invariant
            s <= n,
            out@.len() == s,
            forall|j: int| 0 <= j < s ==> (#[trigger] out@[j])@ == slot_label_text(*t, j as usize),
        decreases n - s,
    {
        out.push(slot_label(t, s));
        s = s + 1;
    }
    out
}

/// The `+`-joined developer slots of a template.
pub open spec fn dev_slots_text(ds: Seq<usize>) -> Seq<char> {
    crate::text::join_with(ds.map_values(|d: usize| dec(d as nat)), "+"@)
}

/// One row of `layout list`: name, source, slot count, developer slots, whether
/// it is the default, summary.
pub fn layout_row(t: &Template, source: &str) -> (r: Vec<String>)
    requires
        fits(*t),
    ensures
        views_of(r@) == seq![
            t.name@,
            source@,
            dec(slot_count(*t)),
            dev_slots_text(t.dev_slots@),
            if t.name@ == crate::templates::DEFAULT@ { "yes"@ } else { Seq::empty() },
            t.summary@,
        ],
{
    let mut parts: Vec<String> = Vec::new();
    let mut i: usize = 0;
    while i < t.dev_slots.len()
        invariant
            i <= t.dev_slots@.len(),
            parts@.len() == i,
            forall|j: int| 0 <= j < i ==> (#[trigger] parts@[j])@ == dec(t.dev_slots@[j] as nat),
        decreases t.dev_slots@.len() - i,
    {
        parts.push(crate::text::decimal(t.dev_slots[i]));
        i = i + 1;
    }
    assert(views_of(parts@) =~= t.dev_slots@.map_values(|d: usize| dec(d as nat)));
    let ds = join_strings(parts.as_slice(), "+");
    let is_default = str_eq(t.name.as_str(), crate::templates::DEFAULT);
    let row = vec![
        t.name.clone(),
        String::from_str(source),
        crate::text::decimal(slots(t)),
        ds,
        if is_default { String::from_str("yes") } else { String::new() },
        t.summary.clone(),
    ];
    assert(views_of(row@) =~= seq![
        t.name@,
        source@,
        dec(slot_count(*t)),
        dev_slots_text(t.dev_slots@),
        if t.name@ == crate::templates::DEFAULT@ { "yes"@ } else { Seq::empty() },
        t.summary@,
    ]);
    row
}


// ---------------------------------------------------------------------------
// layout create
// ---------------------------------------------------------------------------

/// The options of `layout create`.
pub struct CreateOpts {
    pub rows: Option<String>,
    pub heights: Option<String>,
    pub widths: Option<String>,
    pub from_file: Option<String>,
    pub from_workspace: Option<String>,
    pub dev_slots: Option<String>,
    pub seats: Option<String>,
    pub summary: Option<String>,
    pub dir: Option<String>,
    pub force: bool,
}

/// How many of `--rows`, `--from-file` and `--from-workspace` are given.
pub open spec fn source_count(o: CreateOpts) -> nat {
    (if o.rows is Some { 1nat } else { 0nat }) + (if o.from_file is Some { 1nat } else { 0nat }) + (
    if o.from_workspace is Some { 1nat } else { 0nat })
}

/// A template is built from exactly one source.
pub fn check_create_source(o: &CreateOpts) -> (r: Result<(), CmuxError>)
    ensures
        r is Ok <==> source_count(*o) == 1,
        r matches Err(e) ==> {
            &&& e.message@ == "give exactly one of --rows <a,b,\u{2026}>, --from-file <path>, --from-workspace <ref>"@
            &&& e.code@ == crate::error::validation_code()
        },
{
    let mut n: usize = 0;
    if o.rows.is_some() {
        n = n + 1;
    }
    if o.from_file.is_some() {
        n = n + 1;
    }
    if o.from_workspace.is_some() {
        n = n + 1;
    }
    if n != 1 {
        return Err(
            CmuxError::usage("give exactly one of --rows <a,b,\u{2026}>, --from-file <path>, --from-workspace <ref>"),
        );
    }
    Ok(())
}

/// The slots of the last row of a `rows` template: where developers go when
/// the template names no `dev_slots`.
pub open spec fn last_row_slots_of(t: Template) -> Seq<usize> {
    let rows = t.rows->Some_0@;
    let n = slot_count(t);
    let last: nat = if rows.len() == 0 { 0 } else { rows.last().panes as nat };
    Seq::new(last, |i: int| (n - last + i) as usize)
}

/// The slots of the last row of a `rows` template.
pub fn last_row_slots(t: &Template) -> (r: Vec<usize>)
    requires
        fits(*t),
        t.rows is Some,
    ensures
        r@ == last_row_slots_of(*t),
{
    let n = slots(t);
    let rows = match &t.rows {
        Some(rows) => rows,
        None => return Vec::new(),
    };
    let last: usize = if rows.len() == 0 { 0 } else { rows[rows.len() - 1].panes };
    proof {
        if rows@.len() > 0 {
            assert(rows@.drop_last() == rows@.subrange(0, rows@.len() - 1));
            assert(crate::templates::total_panes(rows@) == crate::templates::total_panes(rows@.drop_last())
                + rows@.last().panes as nat);
        }
    }
    let mut v: Vec<usize> = Vec::new();
    let mut i: usize = 0;
    while i < last
        invariant
            last <= n,
            i <= last,
            v@.len() == i,
            forall|j: int| 0 <= j < i ==> v@[j] == (n - last + j) as usize,
        decreases last - i,
    {
        v.push(n - last + i);
        i = i + 1;
    }
    assert(v@ =~= last_row_slots_of(*t));
    v
}


// ---------------------------------------------------------------------------
// No-op steps
// ---------------------------------------------------------------------------

/// What `provision` does once it has looked for the crew workspace.
pub enum ProvisionStep {
    /// The workspace exists: report the crew as it stands (this line after the
    /// fleet) and change nothing.
    Already(String),
    /// No such workspace: build the crew.
    Create,
}

/// `already: cf-<project> (<workspace ref>)`.
pub open spec fn already_provisioned_text(project: Seq<char>, reference: Seq<char>) -> Seq<char> {
    crate::toon::kv_text("already"@, ws_title_text(project) + " ("@ + reference + ")"@)
}

/// `provision` is idempotent: where the crew workspace already exists it is a
/// no-op that reports it, and only where none exists does it build one.
pub fn provision_step(project: &str, existing: Option<&crate::cmux::Workspace>) -> (r: ProvisionStep)
    ensures
        existing is None <==> r is Create,
        existing matches Some(w) ==> (r matches ProvisionStep::Already(line)
            && line@ == already_provisioned_text(project@, w.reference@)),
{
    match existing {
        None => ProvisionStep::Create,
        Some(w) => {
            let mut v = ws_title(project);
            push_str(&mut v, " (");
            push_str(&mut v, w.reference.as_str());
            push_str(&mut v, ")");
            let line = crate::toon::kv("already", v.as_str());
            ProvisionStep::Already(line)
        },
    }
}

/// What `teardown` does once it has looked for the crew workspace.
pub enum TeardownStep {
    /// No such workspace: nothing to do; print this line.
    Already(String),
    /// Close this workspace, then drop the project's fleet entries and record.
    Close(String),
}

/// `already: true (no workspace cf-<project>)`.
pub open spec fn already_torn_down_text(project: Seq<char>) -> Seq<char> {
    "already: true (no workspace "@ + ws_title_text(project) + ")"@
}

/// `teardown` is idempotent: where the crew workspace is gone it is a no-op
/// that says so, and only a live workspace is closed.
pub fn teardown_step(project: &str, existing: Option<&crate::cmux::Workspace>) -> (r: TeardownStep)
    ensures
        existing is None <==> r is Already,
        existing is None ==> (r matches TeardownStep::Already(line) && line@ == already_torn_down_text(project@)),
        existing matches Some(w) ==> (r matches TeardownStep::Close(reference) && reference@ == w.reference@),
{
    match existing {
        None => {
            let mut line = String::from_str("already: true (no workspace ");
            let t = ws_title(project);
            push_str(&mut line, t.as_str());
            push_str(&mut line, ")");
            TeardownStep::Already(line)
        },
        Some(w) => TeardownStep::Close(w.reference.clone()),
    }
}

// ---------------------------------------------------------------------------
// Laws
// ---------------------------------------------------------------------------

/// Under `omp`, two different roles never share a session directory, so a
/// resumed master cannot pick up a neighbour's session.
pub proof fn lemma_session_dirs_distinct(state: Seq<char>, a: Seq<char>, b: Seq<char>)
    requires
        a != b,
    ensures
        session_text(state, a, "omp"@) != session_text(state, b, "omp"@),
{
    let pre = state + "/sessions/"@;
    if session_text(state, a, "omp"@) == session_text(state, b, "omp"@) {
        assert((pre + a).subrange(pre.len() as int, (pre + a).len() as int) =~= a);
        assert((pre + b).subrange(pre.len() as int, (pre + b).len() as int) =~= b);
    }
}

/// Tearing a project down twice leaves the fleet as tearing it down once, and
/// no entry of the project is left.
pub proof fn lemma_remove_project_idempotent(es: Seq<FleetEntry>, project: Seq<char>)
    ensures
        outside_project(outside_project(es, project), project) == outside_project(es, project),
        forall|i: int| 0 <= i < outside_project(es, project).len()
            ==> (#[trigger] outside_project(es, project)[i]).project@ != project,
    decreases es.len(),
{
    if es.len() > 0 {
        let prev = es.drop_last();
        lemma_remove_project_idempotent(prev, project);
        let w = outside_project(prev, project);
        if es.last().project@ != project {
            let ww = w.push(es.last());
            assert(ww.drop_last() =~= w);
            assert forall|i: int| 0 <= i < ww.len() implies (#[trigger] ww[i]).project@ != project by {
                if i < w.len() {
                    assert(ww[i] == w[i]);
                }
            }
        }
    }
}

} // verus!
