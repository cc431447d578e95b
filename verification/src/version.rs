//! Version comparison and the update decision.
//!
//! `version` prints the version; `update --check` compares against the version on
//! the default branch; `update` reinstalls only when a newer version exists.
//! Fetching the remote manifest and reinstalling are the caller's business.

use std::cmp::Ordering;
use vstd::prelude::*;
use crate::error::CmuxError;
use crate::text::{
    chars_of, parse_u64_chars, parse_unsigned, split_char, starts_with, string_of, strip_prefix_chars,
    trim, trim_chars, pos,
};
use crate::fleet::split_chars;

verus! {

broadcast use vstd::string::group_string_axioms;

pub const REPO: &'static str = "https://github.com/thalixinc/cmux-axi";
pub const VERSION: &'static str = "0.3.0";

/// The numeric value of one dotted part: `str::parse::<u64>()`, or 0 where it fails.
pub open spec fn part_value(p: Seq<char>) -> nat {
    match parse_unsigned(p, u64::MAX as nat) {
        Some(v) => v,
        None => 0,
    }
}

pub open spec fn version_parts(s: Seq<char>) -> Seq<nat> {
    split_char(s, '.').map_values(|p: Seq<char>| part_value(p))
}

/// Part `i`, with missing parts read as 0.
pub open spec fn part_at(v: Seq<nat>, i: int) -> nat {
    if 0 <= i < v.len() { v[i] } else { 0 }
}

pub open spec fn longer(a: Seq<nat>, b: Seq<nat>) -> nat {
    if a.len() >= b.len() { a.len() } else { b.len() }
}

/// Element-wise order of two part lists from position `i` on.
pub open spec fn parts_order(a: Seq<nat>, b: Seq<nat>, i: int) -> Ordering
    decreases longer(a, b) - i,
{
    if i < 0 || i >= longer(a, b) {
        Ordering::Equal
    } else if part_at(a, i) < part_at(b, i) {
        Ordering::Less
    } else if part_at(a, i) > part_at(b, i) {
        Ordering::Greater
    } else {
        parts_order(a, b, i + 1)
    }
}

/// The order of two dotted version strings.
pub open spec fn version_order(a: Seq<char>, b: Seq<char>) -> Ordering {
    parts_order(version_parts(a), version_parts(b), 0)
}

fn parts_of(s: &str) -> (r: Vec<u64>)
    ensures
        r@.len() == version_parts(s@).len(),
        forall|i: int| 0 <= i < r@.len() ==> (#[trigger] r@[i]) as nat == version_parts(s@)[i],
{
    let v = chars_of(s);
    let pieces = split_chars(v.as_slice(), '.');
    let mut out: Vec<u64> = Vec::new();
    let mut i: usize = 0;
    while i < pieces.len()
        invariant
            i <= pieces@.len(),
            v@ == s@,
            pieces@.len() == split_char(v@, '.').len(),
            forall|j: int| 0 <= j < pieces@.len() ==> (#[trigger] pieces@[j])@ == split_char(v@, '.')[j],
            out@.len() == i,
            forall|j: int| 0 <= j < i ==> (#[trigger] out@[j]) as nat == part_value(split_char(v@, '.')[j]),
        decreases pieces@.len() - i,
    {
        let x: u64 = match parse_u64_chars(pieces[i].as_slice()) {
            Some(x) => x,
            None => 0,
        };
        out.push(x);
        i = i + 1;
    }
    out
}

/// Compare dotted version strings element-wise ("0.2.0" vs "0.10.1").
pub fn semver_cmp(a: &str, b: &str) -> (r: Ordering)
    ensures
        r == version_order(a@, b@),
{
    let pa = parts_of(a);
    let pb = parts_of(b);
    let ghost va = version_parts(a@);
    let ghost vb = version_parts(b@);
    let n = if pa.len() >= pb.len() { pa.len() } else { pb.len() };
    let mut i: usize = 0;
    while i < n
        invariant
            i <= n,
            va == version_parts(a@),
            vb == version_parts(b@),
            n == longer(va, vb),
            pa@.len() == va.len(),
            pb@.len() == vb.len(),
            forall|j: int| 0 <= j < pa@.len() ==> (#[trigger] pa@[j]) == va[j],
            forall|j: int| 0 <= j < pb@.len() ==> (#[trigger] pb@[j]) == vb[j],
            parts_order(va, vb, 0) == parts_order(va, vb, pos(i)),
        decreases n - i,
    {
        let x: u64 = if i < pa.len() { pa[i] } else { 0 };
        let y: u64 = if i < pb.len() { pb[i] } else { 0 };
        assert(x == part_at(va, pos(i)));
        assert(y == part_at(vb, pos(i)));
        if x < y {
            return Ordering::Less;
        }
        if x > y {
            return Ordering::Greater;
        }
        i = i + 1;
    }
    Ordering::Equal
}

/// Every version is equal to itself.
pub proof fn lemma_version_order_refl(a: Seq<char>)
    ensures
        version_order(a, a) == Ordering::Equal,
{
    lemma_parts_order_refl(version_parts(a), 0);
}

proof fn lemma_parts_order_refl(v: Seq<nat>, i: int)
    requires
        0 <= i,
    ensures
        parts_order(v, v, i) == Ordering::Equal,
    decreases longer(v, v) - i,
{
    if i < longer(v, v) {
        lemma_parts_order_refl(v, i + 1);
    }
}

proof fn lemma_parts_order_flip(a: Seq<nat>, b: Seq<nat>, i: int)
    requires
        0 <= i,
    ensures
        parts_order(a, b, i) == Ordering::Less <==> parts_order(b, a, i) == Ordering::Greater,
        parts_order(a, b, i) == Ordering::Equal <==> parts_order(b, a, i) == Ordering::Equal,
    decreases longer(a, b) - i,
{
    if i < longer(a, b) {
        lemma_parts_order_flip(a, b, i + 1);
    }
}

/// Swapping the two versions reverses their order.
pub proof fn lemma_version_order_antisymmetric(a: Seq<char>, b: Seq<char>)
    ensures
        version_order(a, b) == Ordering::Less <==> version_order(b, a) == Ordering::Greater,
        version_order(a, b) == Ordering::Equal <==> version_order(b, a) == Ordering::Equal,
{
    lemma_parts_order_flip(version_parts(a), version_parts(b), 0);
}

// ---------------------------------------------------------------------------
// The remote manifest
// ---------------------------------------------------------------------------

/// The version a manifest line declares: `version = "<v>"` after trimming.
pub open spec fn line_version(line: Seq<char>) -> Option<Seq<char>> {
    let l = trim(line);
    if starts_with(l, "version = \""@) {
        let rest = l.subrange(11, l.len() as int);
        if rest.len() > 0 && rest.last() == '"' {
            Some(rest.drop_last())
        } else {
            None
        }
    } else {
        None
    }
}

/// The first declared version among the lines from `i` on.
pub open spec fn first_version(lines: Seq<Seq<char>>, i: int) -> Option<Seq<char>>
    decreases lines.len() - i,
{
    if i < 0 || i >= lines.len() {
        None
    } else {
        match line_version(lines[i]) {
            Some(v) => Some(v),
            None => first_version(lines, i + 1),
        }
    }
}

/// The version declared in a manifest's text: the first line reading
/// `version = "<v>"`.
pub open spec fn manifest_version(text: Seq<char>) -> Option<Seq<char>> {
    first_version(split_char(text, '\n'), 0)
}

/// The version declared in the text of a `Cargo.toml`.
pub fn version_from_manifest(text: &str) -> (r: Result<String, CmuxError>)
    ensures
        manifest_version(text@) matches Some(v) ==> (r matches Ok(s) && s@ == v),
        manifest_version(text@) is None ==> (r matches Err(e)
            && e.message@ == "version not found in remote Cargo.toml"@ && e.code@ == "UPDATE_CHECK"@),
{
    proof {
        reveal_strlit("version = \"");
    }
    let v = chars_of(text);
    let lines = split_chars(v.as_slice(), '\n');
    let prefix = chars_of("version = \"");
    let mut i: usize = 0;
    while i < lines.len()
        invariant
            i <= lines@.len(),
            v@ == text@,
            prefix@ == "version = \""@,
            lines@.len() == split_char(v@, '\n').len(),
            forall|j: int| 0 <= j < lines@.len() ==> (#[trigger] lines@[j])@ == split_char(v@, '\n')[j],
            manifest_version(text@) == first_version(split_char(v@, '\n'), i as int),
        decreases lines@.len() - i,
    {
        let l = trim_chars(lines[i].as_slice());
        let ghost line = split_char(v@, '\n')[i as int];
        assert(l@ == trim(line));
        proof {
            reveal_strlit("version = \"");
        }
        assert(prefix@.len() == 11);
        match strip_prefix_chars(l.as_slice(), prefix.as_slice()) {
            Some(rest) => {
                let n = rest.len();
                if n > 0 && rest[n - 1] == '"' {
                    let out = crate::text::sub_chars(rest.as_slice(), 0, n - 1);
                    assert(out@ =~= rest@.drop_last());
                    assert(line_version(line) == Some(out@));
                    return Ok(string_of(out.as_slice()));
                }
                assert(line_version(line) is None);
            },
            None => {
                assert(line_version(line) is None);
            },
        }
        i = i + 1;
    }
    Err(CmuxError::operational("version not found in remote Cargo.toml", "UPDATE_CHECK"))
}

// ---------------------------------------------------------------------------
// The update decision
// ---------------------------------------------------------------------------

/// What `version` does after printing the version line.
pub enum UpdateStep {
    /// Offline, or already at the latest version: nothing more.
    Nothing,
    /// Reinstall now (`--yes`), to `latest`.
    Upgrade(String),
    /// Tell the user about `latest` (asking on a terminal, reporting otherwise).
    Offer(String),
}

/// The update-available logic once the version line is printed and the latest
/// version is resolved: a failed fetch is not fatal, a version that is not newer
/// needs nothing, a newer one is installed with `--yes` and offered otherwise.
pub fn version_update_surface(yes: bool, fetched: Result<String, CmuxError>) -> (r: UpdateStep)
    ensures
        match fetched {
            Err(_) => r is Nothing,
            Ok(latest) => if version_order(latest@, VERSION@) != Ordering::Greater {
                r is Nothing
            } else if yes {
                r matches UpdateStep::Upgrade(v) && v == latest
            } else {
                r matches UpdateStep::Offer(v) && v == latest
            },
        },
{
    let latest = match fetched {
        Ok(v) => v,
        Err(_) => return UpdateStep::Nothing,
    };
    let ord = semver_cmp(latest.as_str(), VERSION);
    match ord {
        Ordering::Greater => {},
        _ => return UpdateStep::Nothing,
    }
    if yes {
        UpdateStep::Upgrade(latest)
    } else {
        UpdateStep::Offer(latest)
    }
}

/// A newer version than this one is available.
pub fn update_available(latest: &str) -> (r: bool)
    ensures
        r == (version_order(latest@, VERSION@) == Ordering::Greater),
{
    match semver_cmp(latest, VERSION) {
        Ordering::Greater => true,
        _ => false,
    }
}

/// An answer to the update prompt that accepts it: `y`, `Y`, `yes` or `YES`
/// after trimming.
pub open spec fn accepts(answer: Seq<char>) -> bool {
    let a = trim(answer);
    a == "y"@ || a == "Y"@ || a == "yes"@ || a == "YES"@
}

/// Whether the answer to the `[y/N]` prompt accepts the update.
pub fn is_yes(answer: &str) -> (r: bool)
    ensures
        r == accepts(answer@),
{
    let v = chars_of(answer);
    let t = trim_chars(v.as_slice());
    let s = string_of(t.as_slice());
    let a = s.as_str();
    crate::text::str_eq(a, "y") || crate::text::str_eq(a, "Y") || crate::text::str_eq(a, "yes")
        || crate::text::str_eq(a, "YES")
}


/// The `update --check` report without `--json`: the current and latest versions,
/// and the next step.
pub open spec fn update_check_text(latest: Seq<char>, available: bool) -> Seq<char> {
    crate::toon::join_text(seq![
        "update:\n  package: cmux-axi\n  current: "@ + VERSION@ + "\n  latest: "@ + latest + "\n  available: "@
            + (if available { "true"@ } else { "false"@ }),
        crate::toon::help_text(seq![
            if available { "Run `cmux-axi update` to upgrade"@ } else { "Already up to date"@ },
        ]),
    ])
}

/// What `update --check` prints without `--json`.
pub fn update_check_report(latest: &str) -> (r: String)
    ensures
        r@ == update_check_text(latest@, version_order(latest@, VERSION@) == Ordering::Greater),
{
    let available = update_available(latest);
    let mut head = String::from_str("update:\n  package: cmux-axi\n  current: ");
    crate::text::push_str(&mut head, VERSION);
    crate::text::push_str(&mut head, "\n  latest: ");
    crate::text::push_str(&mut head, latest);
    crate::text::push_str(&mut head, "\n  available: ");
    crate::text::push_str(&mut head, if available { "true" } else { "false" });
    let next = if available {
        String::from_str("Run `cmux-axi update` to upgrade")
    } else {
        String::from_str("Already up to date")
    };
    let lines = vec![next];
    let help = crate::toon::help(lines.as_slice());
    let blocks = vec![head, help];
    let r = crate::toon::join(blocks.as_slice());
    proof {
        assert(crate::text::views_of(lines@) =~= seq![
            if available { "Run `cmux-axi update` to upgrade"@ } else { "Already up to date"@ },
        ]);
        assert(crate::text::views_of(blocks@) =~= seq![
            "update:\n  package: cmux-axi\n  current: "@ + VERSION@ + "\n  latest: "@ + latest@ + "\n  available: "@
                + (if available { "true"@ } else { "false"@ }),
            crate::toon::help_text(crate::text::views_of(lines@)),
        ]);
    }
    r
}

} // verus!
