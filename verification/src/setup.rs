//! `setup skill` / `setup hooks`: where the skill file and the agent settings
//! live, and how an existing settings file is amended with the SessionStart
//! hook. Both commands are idempotent: a hook whose command names `cmux-axi` is
//! recognised and left alone. Reading and writing the files is the caller's.

use vstd::prelude::*;
use crate::text::{chars_of, contains_seq, find_chars, join_path, path_join, push_str};

verus! {

broadcast use vstd::string::group_string_axioms;

/// The word that marks a hook command as ours.
pub const MARKER: &'static str = "cmux-axi";

/// `<base>/<agent dir>/skills/cmux-axi/SKILL.md`.
pub open spec fn skill_path(base: Seq<char>, agent_dir: Seq<char>) -> Seq<char> {
    path_join(path_join(path_join(path_join(base, agent_dir), "skills"@), "cmux-axi"@), "SKILL.md"@)
}

/// `<base>/<agent dir>/settings.json`.
pub open spec fn settings_path(base: Seq<char>, agent_dir: Seq<char>) -> Seq<char> {
    path_join(path_join(base, agent_dir), "settings.json"@)
}

/// Where the skill goes under `base` (the home directory, or the project's);
/// `agent_dir` is the name of the agent's settings directory.
pub fn skill_target(base: &str, agent_dir: &str) -> (r: String)
    ensures
        r@ == skill_path(base@, agent_dir@),
{
    let a = join_path(base, agent_dir);
    let b = join_path(a.as_str(), "skills");
    let c = join_path(b.as_str(), "cmux-axi");
    join_path(c.as_str(), "SKILL.md")
}

/// Where the agent settings live under `base`.
pub fn settings_target(base: &str, agent_dir: &str) -> (r: String)
    ensures
        r@ == settings_path(base@, agent_dir@),
{
    let a = join_path(base, agent_dir);
    join_path(a.as_str(), "settings.json")
}

/// One entry of `hooks.SessionStart`, as far as the presence test reads it: where the
/// entry has a `hooks` array, the `command` string of each hook in it (`None`
/// for a hook whose `command` is missing or not a string).
pub struct HookEntry {
    pub commands: Option<Vec<Option<String>>>,
}

/// The value at `hooks.SessionStart` of the settings.
pub enum SessionStart {
    /// No such key (or no `hooks` object at all).
    Absent,
    /// An array of entries.
    Entries(Vec<HookEntry>),
    /// Some other value.
    Other,
}

/// A hook command that names `cmux-axi`.
pub open spec fn is_ours(c: Option<String>) -> bool {
    c matches Some(s) && contains_seq(s@, MARKER@)
}

/// The entry has one of our hook commands.
pub open spec fn entry_has_ours(e: HookEntry) -> bool {
    match e.commands {
        Some(cs) => exists|j: int| 0 <= j < cs@.len() && is_ours(#[trigger] cs@[j]),
        None => false,
    }
}

/// Some entry has one of our hook commands.
pub open spec fn entries_have_ours(es: Seq<HookEntry>) -> bool {
    exists|i: int| 0 <= i < es.len() && entry_has_ours(#[trigger] es[i])
}

/// Some entry of `hooks.SessionStart` has one of our hook commands.
pub open spec fn hook_present(ss: SessionStart) -> bool {
    match ss {
        SessionStart::Entries(es) => entries_have_ours(es@),
        _ => false,
    }
}

/// `str::contains` for the marker word.
fn names_marker(c: &Option<String>) -> (r: bool)
    ensures
        r == is_ours(*c),
{
    match c {
        Some(s) => {
            let v = chars_of(s.as_str());
            let m = chars_of(MARKER);
            find_chars(v.as_slice(), m.as_slice()).is_some()
        },
        None => false,
    }
}

fn entry_names_marker(e: &HookEntry) -> (r: bool)
    ensures
        r == entry_has_ours(*e),
{
    match &e.commands {
        Some(cs) => {
            let mut j: usize = 0;
            while j < cs.len()
                invariant
                    j <= cs@.len(),
                    e.commands == Some(*cs),
                    forall|k: int| 0 <= k < j ==> !is_ours(#[trigger] cs@[k]),
                decreases cs@.len() - j,
            {
                if names_marker(&cs[j]) {
                    let ghost w: Vec<Option<String>> = *cs;
                    assert(is_ours(w@[j as int]));
                    assert(e.commands == Some(w));
                    assert(e.commands->Some_0@[j as int] == w@[j as int]);
                    assert(entry_has_ours(*e));
                    return true;
                }
                j = j + 1;
            }
            false
        },
        None => false,
    }
}

/// True if a cmux-axi SessionStart command is already present.
pub fn hook_already_present(session_start: &SessionStart) -> (r: bool)
    ensures
        r == hook_present(*session_start),
{
    match session_start {
        SessionStart::Entries(es) => {
            let mut i: usize = 0;
            while i < es.len()
                invariant
                    i <= es@.len(),
                    *session_start == SessionStart::Entries(*es),
                    forall|k: int| 0 <= k < i ==> !entry_has_ours(#[trigger] es@[k]),
                decreases es@.len() - i,
            {
                if entry_names_marker(&es[i]) {
                    let ghost w: Vec<HookEntry> = *es;
                    assert(entry_has_ours(w@[i as int]));
                    assert(*session_start == SessionStart::Entries(w));
                    assert(session_start->Entries_0@[i as int] == w@[i as int]);
                    assert(hook_present(*session_start));
                    return true;
                }
                i = i + 1;
            }
            false
        },
        _ => false,
    }
}

/// How the settings are amended to hold the hook.
pub struct HookEdit {
    /// `hooks` is not an object: it is replaced by an empty one first.
    pub reset_hooks: bool,
    /// Our entry is appended to `hooks.SessionStart` (made an empty array
    /// where it is absent). Where that value is something else, nothing is
    /// appended, and the settings are written back as they were read.
    pub append: bool,
}

/// The edit that installs the hook, or `None` where it is already present.
pub fn hook_edit(hooks_is_object: bool, session_start: &SessionStart) -> (r: Option<HookEdit>)
    requires
        !hooks_is_object ==> *session_start is Absent,
    ensures
        r is None <==> hook_present(*session_start),
        r matches Some(e) ==> {
            &&& e.reset_hooks == !hooks_is_object
            &&& e.append == !(*session_start is Other)
        },
{
    if hook_already_present(session_start) {
        return None;
    }
    let append = match session_start {
        SessionStart::Other => false,
        _ => true,
    };
    Some(HookEdit { reset_hooks: !hooks_is_object, append })
}

/// The report line of `setup skill`.
pub fn skill_done_line(path: &str, existed: bool) -> (r: String)
    ensures
        r@ == "ok: setup skill -> "@ + path@ + (if existed { " (updated)"@ } else { ""@ }),
{
    proof {
        reveal_strlit("");
    }
    let mut out = String::from_str("ok: setup skill -> ");
    push_str(&mut out, path);
    if existed {
        push_str(&mut out, " (updated)");
    }
    proof {
        if !existed {
            assert(out@ =~= "ok: setup skill -> "@ + path@ + ""@);
        }
    }
    out
}


/// The entry that `setup hooks` appends, as the presence test reads it: one hook whose
/// command is `cmux-axi`.
pub fn installed_entry() -> (r: HookEntry)
    ensures
        r.commands is Some,
        r.commands->Some_0@.len() == 1,
        r.commands->Some_0@[0] is Some,
        r.commands->Some_0@[0]->Some_0@ == MARKER@,
        entry_has_ours(r),
{
    let mut cs: Vec<Option<String>> = Vec::new();
    cs.push(Some(String::from_str(MARKER)));
    let r = HookEntry { commands: Some(cs) };
    proof {
        reveal_strlit("cmux-axi");
        crate::text::lemma_find_is(MARKER@, MARKER@, 0);
        assert(MARKER@.subrange(0, MARKER@.len() as int) =~= MARKER@);
        assert(is_ours(cs@[0]));
    }
    r
}

/// Installing the hook is idempotent: once the entry is appended, the hook is
/// found, so a second `setup hooks` changes nothing.
pub proof fn lemma_hook_install_idempotent(es: Seq<HookEntry>, ours: HookEntry)
    requires
        entry_has_ours(ours),
    ensures
        entries_have_ours(es.push(ours)),
{
    assert(es.push(ours)[es.len() as int] == ours);
}

} // verus!
