//! Seating + the launch commands for a crew.
//!
//! The geometry comes from a `templates::Template` (structure only: slots in spatial
//! order, `dev_slots`, `default_seats`). This module decides *who sits where*
//! (`Seating`) and what each surface runs.
//!
//! Placement rules (crew spec seats without a `slot`, and the default crew): a master
//! takes the template's `default_seats[role]`, else round-robin over the non-dev slots;
//! `dev-k` goes to `dev_slots[(k-1) % len]`. Several seats in one slot are tabs, in seat
//! order. A slot nobody sits in gets one bare terminal so the pane exists.

use vstd::prelude::*;
use crate::crew::SeatRequest;
use crate::error::{CmuxError, validation_code};
use crate::templates::{Template, first_bad_seat, fits, slot_count, slots, validation_error};
use crate::text::{
    chars_of, debug_quote, debug_text, dec, join_path, parse_unsigned, parse_usize_chars,
    path_join, push_decimal, push_str, replace_char, replace_chars, starts_with, str_eq,
    strip_prefix_chars,
};

verus! {

broadcast use vstd::string::group_string_axioms;

/// The inputs required to launch a harness in a pane.
pub struct CrewSpec<'a> {
    /// Absolute state root (session dirs + fleet.md live under it).
    pub state_root: &'a str,
    /// Harness binary (`omp`, or another agent's binary).
    pub harness: &'a str,
    /// Project the crew works on (exported to every pane as `CF_PROJECT`).
    pub project: &'a str,
    /// The Chief-of-Staff home (exported as `CF_COF_HOME`).
    pub cof_home: &'a str,
    /// The home holds codefactory's session-start extension
    /// (`.omp/extensions/cf-session-start.ts`).
    pub has_extension: bool,
    /// The home holds the crew config overlay (`.omp/crew-config.yml`).
    pub has_crew_config: bool,
}

/// One agent in one slot. Persisted verbatim in the crew record.
#[derive(Debug, Clone, PartialEq)]
pub struct Seat {
    pub role: String,
    pub slot: usize,
    pub resumable: bool,
    pub title: Option<String>,
    pub command: Option<String>,
}

pub type Seating = Vec<Seat>;

/// The master roles, in seating order.
pub const MASTERS: [&'static str; 3] = ["coordinator", "planner", "brainstorm"];

// ---------------------------------------------------------------------------
// dev-N
// ---------------------------------------------------------------------------

/// `dev-N` → N (N as `str::parse::<usize>` reads it).
pub open spec fn dev_number_of(role: Seq<char>) -> Option<nat> {
    if starts_with(role, "dev-"@) {
        parse_unsigned(role.subrange(4, role.len() as int), usize::MAX as nat)
    } else {
        None
    }
}

proof fn lemma_default_seat_from_at(seats: Seq<(String, usize)>, i: int, k: int)
    requires
        0 <= k <= i < seats.len(),
        forall|j: int| 0 <= j < seats.len() && j != i ==> seats[j].0@ != seats[i].0@,
    ensures
        default_seat_from(seats, seats[i].0@, k) == Some(seats[i].1),
    decreases i - k,
{
    if k < i {
        lemma_default_seat_from_at(seats, i, k + 1);
    }
}

/// With the default seats in role order (as a map keeps them), each role's
/// default seat is the slot of its own entry.
pub proof fn lemma_default_seat_of_role(seats: Seq<(String, usize)>, i: int)
    requires
        crate::templates::seats_in_role_order(seats),
        0 <= i < seats.len(),
    ensures
        default_seat(seats, seats[i].0@) == Some(seats[i].1),
{
    crate::templates::lemma_roles_once(seats);
    assert forall|j: int| 0 <= j < seats.len() && j != i implies seats[j].0@ != seats[i].0@ by {
        assert(seats[j].0@ != seats[i].0@);
    }
    lemma_default_seat_from_at(seats, i, 0);
}

/// `dev_number` reads the role `dev-<k>` back as `k`.
pub proof fn lemma_dev_number_of_dev(k: usize)
    ensures
        dev_number_of("dev-"@ + dec(k as nat)) == Some(k as nat),
{
    reveal_strlit("dev-");
    let r = "dev-"@ + dec(k as nat);
    assert(r.subrange(0, 4) =~= "dev-"@);
    assert(r.subrange(4, r.len() as int) =~= dec(k as nat));
    crate::text::lemma_parse_dec(k as nat, usize::MAX as nat);
}

/// `dev-N` → N.
pub fn dev_number(role: &str) -> (r: Option<usize>)
    ensures
        r matches Some(k) ==> dev_number_of(role@) == Some(k as nat),
        r is None <==> dev_number_of(role@) is None,
{
    proof {
        reveal_strlit("dev-");
    }
    let v = chars_of(role);
    let p = chars_of("dev-");
    match strip_prefix_chars(v.as_slice(), p.as_slice()) {
        Some(rest) => parse_usize_chars(rest.as_slice()),
        None => None,
    }
}

// ---------------------------------------------------------------------------
// Seating
// ---------------------------------------------------------------------------

/// The slot that `default_seats` gives `role`, if any (the first entry for it).
pub open spec fn default_seat_from(seats: Seq<(String, usize)>, role: Seq<char>, i: int) -> Option<usize>
    decreases seats.len() - i,
{
    if i < 0 || i >= seats.len() {
        None
    } else if seats[i].0@ == role {
        Some(seats[i].1)
    } else {
        default_seat_from(seats, role, i + 1)
    }
}

pub open spec fn default_seat(seats: Seq<(String, usize)>, role: Seq<char>) -> Option<usize> {
    default_seat_from(seats, role, 0)
}

/// The slots below `n` that are not developer slots, in order.
pub open spec fn non_dev_slots(ds: Seq<usize>, n: nat) -> Seq<usize>
    decreases n,
{
    if n == 0 {
        Seq::empty()
    } else {
        let prev = non_dev_slots(ds, (n - 1) as nat);
        if ds.contains((n - 1) as usize) { prev } else { prev.push((n - 1) as usize) }
    }
}

/// All slots below `n`.
pub open spec fn all_slots(n: nat) -> Seq<usize> {
    Seq::new(n, |i: int| i as usize)
}

/// The slots masters round-robin over: the non-dev slots, or all slots when
/// every slot takes developers.
pub open spec fn master_pool(ds: Seq<usize>, n: nat) -> Seq<usize> {
    if non_dev_slots(ds, n).len() == 0 { all_slots(n) } else { non_dev_slots(ds, n) }
}

/// Where seating stands: the seats so far with the two round-robin counters, a
/// refusal with its message, or a master with nowhere to go (no slots at all).
pub enum Placed {
    Done(Seq<Seat>, nat, nat),
    Refused(Seq<char>),
    Stuck,
}

pub open spec fn seat_for(r: SeatRequest, slot: usize, is_dev: bool) -> Seat {
    Seat {
        role: r.role,
        slot,
        resumable: match r.resumable { Some(b) => b, None => !is_dev },
        title: r.title,
        command: r.command,
    }
}

pub open spec fn slot_refusal(role: Seq<char>, s: nat, name: Seq<char>, n: nat) -> Seq<char> {
    "crew spec: "@ + role + " slot "@ + dec(s) + " is not a slot of "@ + debug_text(name) + " (have "@
        + dec(n) + ")"@
}

pub open spec fn no_dev_slots_refusal(name: Seq<char>, role: Seq<char>) -> Seq<char> {
    "layout "@ + debug_text(name) + " has no dev_slots for "@ + role
}

pub open spec fn dev_slots_refusal(bad: nat, name: Seq<char>, n: nat) -> Seq<char> {
    "crew spec: dev_slots entry "@ + dec(bad) + " is not a slot of "@ + debug_text(name) + " (have "@
        + dec(n) + ")"@
}

/// Seat one request after `seats`, with round-robin counters `rr` (masters) and
/// `drr` (developers without a number).
pub open spec fn place_one(t: Template, r: SeatRequest, ds: Seq<usize>, n: nat, seats: Seq<Seat>, rr: nat, drr: nat) -> Placed {
    let dn = dev_number_of(r.role@);
    let is_dev = dn is Some;
    match r.slot {
        Some(s) => if s >= n {
            Placed::Refused(slot_refusal(r.role@, s as nat, t.name@, n))
        } else {
            Placed::Done(seats.push(seat_for(r, s, is_dev)), rr, drr)
        },
        None => if is_dev {
            if ds.len() == 0 {
                Placed::Refused(no_dev_slots_refusal(t.name@, r.role@))
            } else {
                let k = if dn->0 > 0 { dn->0 } else { drr + 1 };
                let drr2 = if dn->0 > 0 { drr } else { drr + 1 };
                Placed::Done(seats.push(seat_for(r, ds[((k - 1) as nat % ds.len()) as int], true)), rr, drr2)
            }
        } else {
            match default_seat(t.default_seats@, r.role@) {
                Some(s) => Placed::Done(seats.push(seat_for(r, s, false)), rr, drr),
                None => {
                    let pool = master_pool(ds, n);
                    if pool.len() == 0 {
                        Placed::Stuck
                    } else {
                        Placed::Done(seats.push(seat_for(r, pool[(rr % pool.len()) as int], false)), rr + 1, drr)
                    }
                },
            }
        },
    }
}

/// Seat the requests in order; the first refusal stops it.
pub open spec fn place_all(t: Template, reqs: Seq<SeatRequest>, ds: Seq<usize>, n: nat) -> Placed
    decreases reqs.len(),
{
    if reqs.len() == 0 {
        Placed::Done(Seq::empty(), 0, 0)
    } else {
        match place_all(t, reqs.drop_last(), ds, n) {
            Placed::Done(seats, rr, drr) => place_one(t, reqs.last(), ds, n, seats, rr, drr),
            other => other,
        }
    }
}

/// The first developer slot that is not a slot of the template, if any.
pub open spec fn first_bad_dev_slot(ds: Seq<usize>, n: nat, i: int) -> Option<usize>
    decreases ds.len() - i,
{
    if i < 0 || i >= ds.len() {
        None
    } else if ds[i] >= n {
        Some(ds[i])
    } else {
        first_bad_dev_slot(ds, n, i + 1)
    }
}

/// What `seat` does: the developer slots in use are the override or the
/// template's own.
pub open spec fn seating_of(t: Template, reqs: Seq<SeatRequest>, ds: Seq<usize>) -> Placed {
    let n = slot_count(t);
    match first_bad_dev_slot(ds, n, 0) {
        Some(bad) => Placed::Refused(dev_slots_refusal(bad as nat, t.name@, n)),
        None => place_all(t, reqs, ds, n),
    }
}

pub open spec fn slots_override(o: Option<&[usize]>) -> Option<Seq<usize>> {
    match o {
        Some(d) => Some(d@),
        None => None,
    }
}

pub open spec fn dev_slots_in_use(t: Template, over: Option<Seq<usize>>) -> Seq<usize> {
    match over {
        Some(d) => d,
        None => t.dev_slots@,
    }
}

fn copy_request(r: &SeatRequest) -> (c: SeatRequest)
    ensures
        c == *r,
{
    SeatRequest {
        role: r.role.clone(),
        slot: r.slot,
        resumable: r.resumable,
        title: match &r.title {
            Some(s) => Some(s.clone()),
            None => None,
        },
        command: match &r.command {
            Some(s) => Some(s.clone()),
            None => None,
        },
    }
}

fn lookup_default_seat(seats: &Vec<(String, usize)>, role: &str) -> (r: Option<usize>)
    ensures
        r == default_seat(seats@, role@),
{
    let mut i: usize = 0;
    while i < seats.len()
        invariant
            i <= seats@.len(),
            default_seat(seats@, role@) == default_seat_from(seats@, role@, i as int),
        decreases seats@.len() - i,
    {
        if str_eq(seats[i].0.as_str(), role) {
            return Some(seats[i].1);
        }
        i = i + 1;
    }
    None
}

fn vec_contains(v: &Vec<usize>, x: usize) -> (r: bool)
    ensures
        r == v@.contains(x),
{
    let mut i: usize = 0;
    while i < v.len()
        invariant
            i <= v@.len(),
            forall|j: int| 0 <= j < i ==> v@[j] != x,
        decreases v@.len() - i,
    {
        if v[i] == x {
            return true;
        }
        i = i + 1;
    }
    false
}

fn pool_of(ds: &Vec<usize>, n: usize) -> (r: Vec<usize>)
    ensures
        r@ == master_pool(ds@, n as nat),
{
    let mut non_dev: Vec<usize> = Vec::new();
    let mut s: usize = 0;
    while s < n
        invariant
            s <= n,
            non_dev@ == non_dev_slots(ds@, s as nat),
        decreases n - s,
    {
        if !vec_contains(ds, s) {
            non_dev.push(s);
        }
        s = s + 1;
    }
    if non_dev.len() == 0 {
        let mut all: Vec<usize> = Vec::new();
        let mut k: usize = 0;
        while k < n
            invariant
                k <= n,
                all@ == all_slots(k as nat),
            decreases n - k,
        {
            all.push(k);
            k = k + 1;
            assert(all@ =~= all_slots(k as nat));
        }
        all
    } else {
        non_dev
    }
}

fn refuse_slot(role: &str, s: usize, name: &str, n: usize) -> (e: CmuxError)
    ensures
        e.message@ == slot_refusal(role@, s as nat, name@, n as nat),
        e.code@ == validation_code(),
        e.suggestions@.len() == 0,
{
    let mut m = String::from_str("crew spec: ");
    push_str(&mut m, role);
    push_str(&mut m, " slot ");
    push_decimal(&mut m, s);
    push_str(&mut m, " is not a slot of ");
    let q = debug_quote(name);
    push_str(&mut m, q.as_str());
    push_str(&mut m, " (have ");
    push_decimal(&mut m, n);
    push_str(&mut m, ")");
    assert(m@ =~= slot_refusal(role@, s as nat, name@, n as nat));
    CmuxError::usage(m.as_str())
}

fn refuse_no_dev_slots(name: &str, role: &str) -> (e: CmuxError)
    ensures
        e.message@ == no_dev_slots_refusal(name@, role@),
        e.code@ == validation_code(),
        e.suggestions@.len() == 0,
{
    let mut m = String::from_str("layout ");
    let q = debug_quote(name);
    push_str(&mut m, q.as_str());
    push_str(&mut m, " has no dev_slots for ");
    push_str(&mut m, role);
    assert(m@ =~= no_dev_slots_refusal(name@, role@));
    CmuxError::usage(m.as_str())
}

fn refuse_dev_slot(bad: usize, name: &str, n: usize) -> (e: CmuxError)
    ensures
        e.message@ == dev_slots_refusal(bad as nat, name@, n as nat),
        e.code@ == validation_code(),
        e.suggestions@.len() == 0,
{
    let mut m = String::from_str("crew spec: dev_slots entry ");
    push_decimal(&mut m, bad);
    push_str(&mut m, " is not a slot of ");
    let q = debug_quote(name);
    push_str(&mut m, q.as_str());
    push_str(&mut m, " (have ");
    push_decimal(&mut m, n);
    push_str(&mut m, ")");
    assert(m@ =~= dev_slots_refusal(bad as nat, name@, n as nat));
    CmuxError::usage(m.as_str())
}

/// Seat the requested crew into the template. `dev_slots` overrides the template's.
pub fn seat(t: &Template, requests: &[SeatRequest], dev_slots: Option<&[usize]>) -> (r: Result<Seating, CmuxError>)
    requires
        fits(*t),
        !(seating_of(*t, requests@, dev_slots_in_use(*t, slots_override(dev_slots))) is Stuck),
    ensures
        match seating_of(*t, requests@, dev_slots_in_use(*t, slots_override(dev_slots))) {
            Placed::Done(s, _, _) => r matches Ok(v) && v@ == s,
            Placed::Refused(m) => r matches Err(e) && e.message@ == m && e.code@ == validation_code()
                && e.suggestions@.len() == 0,
            Placed::Stuck => false,
        },
{
    let n = slots(t);
    let ds: Vec<usize> = match dev_slots {
        Some(d) => {
            let mut v: Vec<usize> = Vec::new();
            let mut i: usize = 0;
            while i < d.len()
                invariant
                    i <= d@.len(),
                    v@ == d@.subrange(0, i as int),
                decreases d@.len() - i,
            {
                v.push(d[i]);
                i = i + 1;
                assert(v@ =~= d@.subrange(0, i as int));
            }
            assert(v@ =~= d@);
            v
        },
        None => t.dev_slots.clone(),
    };
    let ghost dsv = dev_slots_in_use(*t, slots_override(dev_slots));
    assert(ds@ == dsv);
    let mut b: usize = 0;
    while b < ds.len()
        invariant
            b <= ds@.len(),
            n == slot_count(*t),
            ds@ == dsv,
            dsv == dev_slots_in_use(*t, slots_override(dev_slots)),
            first_bad_dev_slot(ds@, n as nat, 0) == first_bad_dev_slot(ds@, n as nat, b as int),
        decreases ds@.len() - b,
    {
        if ds[b] >= n {
            assert(first_bad_dev_slot(ds@, n as nat, b as int) == Some(ds@[b as int]));
            assert(seating_of(*t, requests@, dsv) == Placed::Refused(dev_slots_refusal(ds@[b as int] as nat, t.name@, n as nat)));
            let e = refuse_dev_slot(ds[b], t.name.as_str(), n);
            assert(seating_of(*t, requests@, dev_slots_in_use(*t, slots_override(dev_slots))) is Refused);
            return Err(e);
        }
        b = b + 1;
    }
    let pool = pool_of(&ds, n);
    let mut seats: Seating = Vec::new();
    let mut rr: usize = 0;
    let mut dev_rr: usize = 0;
    let mut i: usize = 0;
    while i < requests.len()
        invariant
            i <= requests@.len(),
            n == slot_count(*t),
            ds@ == dsv,
            dsv == dev_slots_in_use(*t, slots_override(dev_slots)),
            pool@ == master_pool(dsv, n as nat),
            first_bad_dev_slot(dsv, n as nat, 0) is None,
            !(seating_of(*t, requests@, dsv) is Stuck),
            place_all(*t, requests@.subrange(0, i as int), dsv, n as nat) == Placed::Done(seats@, rr as nat, dev_rr as nat),
            rr <= i,
            dev_rr <= i,
        decreases requests@.len() - i,
    {
        let ghost pre = requests@.subrange(0, i as int);
        let ghost post = requests@.subrange(0, i + 1);
        assert(post.drop_last() =~= pre);
        assert(post.last() == requests@[i as int]);
        assert(place_all(*t, post, dsv, n as nat)
            == place_one(*t, requests@[i as int], dsv, n as nat, seats@, rr as nat, dev_rr as nat));
        assert(seating_of(*t, requests@, dsv) == place_all(*t, requests@, dsv, n as nat));
        proof {
            lemma_place_all_prefix_not_stuck(*t, requests@, dsv, n as nat, i + 1);
        }
        let r = &requests[i];
        let dn = dev_number(r.role.as_str());
        let is_dev = dn.is_some();
        let slot: usize = match r.slot {
            Some(s) => {
                if s >= n {
                    proof {
                        lemma_place_all_prefix_refused(*t, requests@, dsv, n as nat, i + 1);
                    }
                    assert(seating_of(*t, requests@, dev_slots_in_use(*t, slots_override(dev_slots)))
                        == Placed::Refused(slot_refusal(r.role@, s as nat, t.name@, n as nat)));
                    return Err(refuse_slot(r.role.as_str(), s, t.name.as_str(), n));
                }
                s
            },
            None => {
                if is_dev {
                    if ds.len() == 0 {
                        proof {
                            lemma_place_all_prefix_refused(*t, requests@, dsv, n as nat, i + 1);
                        }
                        assert(seating_of(*t, requests@, dev_slots_in_use(*t, slots_override(dev_slots)))
                            == Placed::Refused(no_dev_slots_refusal(t.name@, r.role@)));
                        return Err(refuse_no_dev_slots(t.name.as_str(), r.role.as_str()));
                    }
                    let k: usize = match dn {
                        Some(k) if k > 0 => k,
                        _ => {
                            dev_rr = dev_rr + 1;
                            dev_rr
                        },
                    };
                    ds[(k - 1) % ds.len()]
                } else {
                    match lookup_default_seat(&t.default_seats, r.role.as_str()) {
                        Some(s) => s,
                        None => {
                            let s = pool[rr % pool.len()];
                            rr = rr + 1;
                            s
                        },
                    }
                }
            },
        };
        let c = copy_request(r);
        seats.push(Seat {
            role: c.role,
            slot,
            resumable: match r.resumable {
                Some(b) => b,
                None => !is_dev,
            },
            title: c.title,
            command: c.command,
        });
        i = i + 1;
    }
    assert(requests@.subrange(0, requests@.len() as int) =~= requests@);
    Ok(seats)
}

proof fn lemma_place_all_prefix_not_stuck(t: Template, reqs: Seq<SeatRequest>, ds: Seq<usize>, n: nat, k: int)
    requires
        0 <= k <= reqs.len(),
        !(place_all(t, reqs, ds, n) is Stuck),
    ensures
        !(place_all(t, reqs.subrange(0, k), ds, n) is Stuck),
    decreases reqs.len() - k,
{
    if k < reqs.len() {
        lemma_place_all_prefix_not_stuck(t, reqs, ds, n, k + 1);
        assert(reqs.subrange(0, k + 1).drop_last() =~= reqs.subrange(0, k));
    } else {
        assert(reqs.subrange(0, k) =~= reqs);
    }
}

proof fn lemma_place_all_prefix_refused(t: Template, reqs: Seq<SeatRequest>, ds: Seq<usize>, n: nat, k: int)
    requires
        0 <= k <= reqs.len(),
        place_all(t, reqs.subrange(0, k), ds, n) is Refused,
    ensures
        place_all(t, reqs, ds, n) == place_all(t, reqs.subrange(0, k), ds, n),
    decreases reqs.len() - k,
{
    if k < reqs.len() {
        assert(reqs.subrange(0, k + 1).drop_last() =~= reqs.subrange(0, k));
        lemma_place_all_prefix_refused(t, reqs, ds, n, k + 1);
    } else {
        assert(reqs.subrange(0, k) =~= reqs);
    }
}

} // verus!

verus! {

// ---------------------------------------------------------------------------
// The default crew
// ---------------------------------------------------------------------------

/// The default crew's roles: the masters, then `dev-1` .. `dev-<devs>`.
pub open spec fn default_roles(devs: nat) -> Seq<Seq<char>> {
    seq!["coordinator"@, "planner"@, "brainstorm"@] + Seq::new(devs, |i: int| "dev-"@ + dec((i + 1) as nat))
}

/// Requests for the default crew: the roles above, nothing else asked.
pub open spec fn is_default_request_list(reqs: Seq<SeatRequest>, devs: nat) -> bool {
    &&& reqs.len() == 3 + devs
    &&& forall|i: int| 0 <= i < reqs.len() ==> {
        &&& (#[trigger] reqs[i]).role@ == default_roles(devs)[i]
        &&& reqs[i].slot is None
        &&& reqs[i].resumable is None
        &&& reqs[i].title is None
        &&& reqs[i].command is None
    }
}

pub open spec fn no_dev_slots_for_devs(name: Seq<char>) -> Seq<char> {
    "layout "@ + debug_text(name) + " has no dev_slots; use --devs 0 or another layout"@
}

/// Seating never stalls while the template has a slot: the masters' pool is
/// then never empty.
proof fn lemma_place_all_no_stall(t: Template, reqs: Seq<SeatRequest>, ds: Seq<usize>, n: nat)
    requires
        n > 0,
    ensures
        !(place_all(t, reqs, ds, n) is Stuck),
    decreases reqs.len(),
{
    if reqs.len() > 0 {
        lemma_place_all_no_stall(t, reqs.drop_last(), ds, n);
        assert(all_slots(n).len() == n);
    }
}

/// Once seating a prefix of the requests is refused or stalls, seating them all
/// ends the same way.
proof fn lemma_place_all_stops(t: Template, reqs: Seq<SeatRequest>, ds: Seq<usize>, n: nat, k: int)
    requires
        0 <= k <= reqs.len(),
        !(place_all(t, reqs.subrange(0, k), ds, n) is Done),
    ensures
        place_all(t, reqs, ds, n) == place_all(t, reqs.subrange(0, k), ds, n),
    decreases reqs.len() - k,
{
    if k < reqs.len() {
        assert(reqs.drop_last().subrange(0, k) =~= reqs.subrange(0, k));
        lemma_place_all_stops(t, reqs.drop_last(), ds, n, k);
    } else {
        assert(reqs.subrange(0, k) =~= reqs);
    }
}

/// Whether seating these requests would find a master with nowhere to go: the
/// template has no slot at all, and a master without a default seat comes
/// before any request that is refused.
pub fn seating_stalls(t: &Template, requests: &[SeatRequest], dev_slots: Option<&[usize]>) -> (r: bool)
    requires
        fits(*t),
    ensures
        r == (seating_of(*t, requests@, dev_slots_in_use(*t, slots_override(dev_slots))) is Stuck),
{
    let ghost ds = dev_slots_in_use(*t, slots_override(dev_slots));
    let n = slots(t);
    if n > 0 {
        proof {
            lemma_place_all_no_stall(*t, requests@, ds, n as nat);
        }
        return false;
    }
    let ds_len = match dev_slots {
        Some(d) => d.len(),
        None => t.dev_slots.len(),
    };
    if ds_len > 0 {
        proof {
            assert(ds[0] >= n);
            assert(first_bad_dev_slot(ds, n as nat, 0) is Some);
        }
        return false;
    }
    proof {
        assert(first_bad_dev_slot(ds, n as nat, 0) is None);
    }
    let mut i: usize = 0;
    while i < requests.len()
        invariant
            n == 0,
            ds == dev_slots_in_use(*t, slots_override(dev_slots)),
            ds.len() == 0,
            i <= requests@.len(),
            place_all(*t, requests@.subrange(0, i as int), ds, 0) is Done,
            seating_of(*t, requests@, ds) == place_all(*t, requests@, ds, 0),
        decreases requests@.len() - i,
    {
        let ghost pre = requests@.subrange(0, i as int);
        let ghost post = requests@.subrange(0, i + 1);
        assert(post.drop_last() =~= pre);
        assert(post.last() == requests@[i as int]);
        let r = &requests[i];
        let dev = dev_number(r.role.as_str());
        if r.slot.is_some() || dev.is_some() {
            proof {
                assert(place_all(*t, post, ds, 0) is Refused);
                lemma_place_all_stops(*t, requests@, ds, 0, i + 1);
            }
            return false;
        }
        if lookup_default_seat(&t.default_seats, r.role.as_str()).is_none() {
            proof {
                assert(non_dev_slots(ds, 0).len() == 0);
                assert(master_pool(ds, 0).len() == 0);
                assert(place_all(*t, post, ds, 0) is Stuck);
                lemma_place_all_stops(*t, requests@, ds, 0, i + 1);
            }
            return true;
        }
        i = i + 1;
    }
    assert(requests@.subrange(0, requests@.len() as int) =~= requests@);
    false
}

/// Whether every master role has a default seat.
pub open spec fn masters_have_default_seats(t: Template) -> bool {
    &&& default_seat(t.default_seats@, "coordinator"@) is Some
    &&& default_seat(t.default_seats@, "planner"@) is Some
    &&& default_seat(t.default_seats@, "brainstorm"@) is Some
}

/// Whether seating the default crew would find a master with nowhere to go:
/// the template has no slot, no developer slots, no developers are asked for,
/// and some master has no default seat.
pub fn default_seating_stalls(t: &Template, devs: usize) -> (r: bool)
    requires
        fits(*t),
    ensures
        r == !(slot_count(*t) > 0 || t.dev_slots@.len() > 0 || devs > 0 || masters_have_default_seats(*t)),
{
    let n = slots(t);
    if n > 0 || t.dev_slots.len() > 0 || devs > 0 {
        return false;
    }
    let c = lookup_default_seat(&t.default_seats, "coordinator");
    let p = lookup_default_seat(&t.default_seats, "planner");
    let b = lookup_default_seat(&t.default_seats, "brainstorm");
    !(c.is_some() && p.is_some() && b.is_some())
}

fn plain_request(role: String) -> (r: SeatRequest)
    ensures
        r.role == role,
        r.slot is None,
        r.resumable is None,
        r.title is None,
        r.command is None,
{
    SeatRequest { role, slot: None, resumable: None, title: None, command: None }
}

/// Today's crew, seated by the template's defaults.
pub fn default_seating(t: &Template, devs: usize) -> (r: Result<Seating, CmuxError>)
    requires
        fits(*t),
        devs <= usize::MAX - 3,
        slot_count(*t) > 0 || t.dev_slots@.len() > 0 || devs > 0 || masters_have_default_seats(*t),
    ensures
        devs > 0 && t.dev_slots@.len() == 0 ==> (r matches Err(e) && e.message@ == no_dev_slots_for_devs(t.name@)
            && e.code@ == validation_code() && e.suggestions@.len() == 0),
        !(devs > 0 && t.dev_slots@.len() == 0) ==> exists|reqs: Seq<SeatRequest>| {
            &&& is_default_request_list(reqs, devs as nat)
            &&& match #[trigger] seating_of(*t, reqs, t.dev_slots@) {
                Placed::Done(s, _, _) => r matches Ok(v) && v@ == s,
                Placed::Refused(m) => r matches Err(e) && e.message@ == m && e.code@ == validation_code()
                    && e.suggestions@.len() == 0,
                Placed::Stuck => false,
            }
        },
{
    if devs > 0 && t.dev_slots.len() == 0 {
        let mut m = String::from_str("layout ");
        let q = debug_quote(t.name.as_str());
        push_str(&mut m, q.as_str());
        push_str(&mut m, " has no dev_slots; use --devs 0 or another layout");
        assert(m@ =~= no_dev_slots_for_devs(t.name@));
        return Err(CmuxError::usage(m.as_str()));
    }
    let mut requests: Vec<SeatRequest> = Vec::new();
    requests.push(plain_request(String::from_str("coordinator")));
    requests.push(plain_request(String::from_str("planner")));
    requests.push(plain_request(String::from_str("brainstorm")));
    let ghost roles = default_roles(devs as nat);
    let mut k: usize = 1;
    while k <= devs
        invariant
            1 <= k <= devs + 1,
            devs <= usize::MAX - 3,
            roles == default_roles(devs as nat),
            requests@.len() == 2 + k,
            forall|i: int| 0 <= i < requests@.len() ==> {
                &&& (#[trigger] requests@[i]).role@ == roles[i]
                &&& requests@[i].slot is None
                &&& requests@[i].resumable is None
                &&& requests@[i].title is None
                &&& requests@[i].command is None
            },
        decreases devs + 1 - k,
    {
        let mut role = String::from_str("dev-");
        push_decimal(&mut role, k);
        assert(roles[2 + k] == "dev-"@ + dec(k as nat));
        requests.push(plain_request(role));
        k = k + 1;
    }
    assert(is_default_request_list(requests@, devs as nat));
    proof {
        lemma_default_not_stuck(*t, requests@, devs as nat);
    }
    let r = seat(t, requests.as_slice(), None);
    r
}

proof fn lemma_pool_not_stuck(t: Template, reqs: Seq<SeatRequest>, ds: Seq<usize>, n: nat)
    requires
        master_pool(ds, n).len() > 0,
    ensures
        !(place_all(t, reqs, ds, n) is Stuck),
    decreases reqs.len(),
{
    if reqs.len() > 0 {
        lemma_pool_not_stuck(t, reqs.drop_last(), ds, n);
    }
}

proof fn lemma_default_not_stuck(t: Template, reqs: Seq<SeatRequest>, devs: nat)
    requires
        is_default_request_list(reqs, devs),
        slot_count(t) > 0 || t.dev_slots@.len() > 0 || masters_have_default_seats(t),
        !(devs > 0 && t.dev_slots@.len() == 0),
    ensures
        !(seating_of(t, reqs, t.dev_slots@) is Stuck),
{
    let n = slot_count(t);
    let ds = t.dev_slots@;
    if n > 0 {
        if non_dev_slots(ds, n).len() == 0 {
            assert(all_slots(n).len() == n);
        }
        lemma_pool_not_stuck(t, reqs, ds, n);
    } else if ds.len() > 0 {
        assert(first_bad_dev_slot(ds, n, 0) == Some(ds[0]));
    } else {
        reveal_strlit("dev-");
        reveal_strlit("coordinator");
        reveal_strlit("planner");
        reveal_strlit("brainstorm");
        assert(reqs.len() == 3);
        let r0 = reqs[0];
        let r1 = reqs[1];
        let r2 = reqs[2];
        assert(r0.role@ == "coordinator"@);
        assert(r1.role@ == "planner"@);
        assert(r2.role@ == "brainstorm"@);
        assert(!starts_with(r0.role@, "dev-"@)) by {
            crate::text::lemma_not_prefix(r0.role@, "dev-"@, 0);
        }
        assert(!starts_with(r1.role@, "dev-"@)) by {
            crate::text::lemma_not_prefix(r1.role@, "dev-"@, 0);
        }
        assert(!starts_with(r2.role@, "dev-"@)) by {
            crate::text::lemma_not_prefix(r2.role@, "dev-"@, 1);
        }
        let s1 = reqs.subrange(0, 1);
        let s2 = reqs.subrange(0, 2);
        assert(s1.drop_last() =~= Seq::<SeatRequest>::empty());
        assert(s2.drop_last() =~= s1);
        assert(reqs.drop_last() =~= s2);
        assert(s1.last() == r0);
        assert(s2.last() == r1);
        assert(dev_number_of(r0.role@) is None);
        assert(dev_number_of(r1.role@) is None);
        assert(dev_number_of(r2.role@) is None);
        assert(default_seat(t.default_seats@, r0.role@) is Some);
        assert(default_seat(t.default_seats@, r1.role@) is Some);
        assert(default_seat(t.default_seats@, r2.role@) is Some);
        assert(place_all(t, Seq::<SeatRequest>::empty(), ds, n) == Placed::Done(Seq::<Seat>::empty(), 0, 0));
        assert(place_all(t, s1, ds, n) is Done);
        assert(place_all(t, s2, ds, n) is Done);
        assert(place_all(t, reqs, ds, n) is Done);
    }
}

} // verus!

verus! {

// ---------------------------------------------------------------------------
// Launch commands
// ---------------------------------------------------------------------------

/// `'<s>'`, with each `'` written as `'\''`.
pub open spec fn sh_quoted(s: Seq<char>) -> Seq<char> {
    "'"@ + replace_char(s, '\'', "'\\''"@) + "'"@
}

/// Single-quote a string for the pane's shell command line.
pub fn sh_quote(s: &str) -> (r: String)
    ensures
        r@ == sh_quoted(s@),
{
    let mut out = String::from_str("'");
    let inner = replace_chars(s, '\'', "'\\''");
    push_str(&mut out, inner.as_str());
    push_str(&mut out, "'");
    assert(out@ =~= sh_quoted(s@));
    out
}

/// The launch command of a surface (see `harness_command`).
pub open spec fn harness_text(
    state_root: Seq<char>,
    harness: Seq<char>,
    project: Seq<char>,
    cof_home: Seq<char>,
    has_extension: bool,
    has_crew_config: bool,
    role: Seq<char>,
    resumable: bool,
) -> Seq<char> {
    if harness == "omp"@ {
        "CF_ROLE="@ + sh_quoted(role) + " CF_PROJECT="@ + sh_quoted(project) + " CF_COF_HOME="@
            + sh_quoted(cof_home) + " omp"@
            + (if has_extension {
                " -e "@ + sh_quoted(path_join(cof_home, ".omp/extensions/cf-session-start.ts"@))
            } else {
                Seq::empty()
            })
            + (if has_crew_config {
                " --config "@ + sh_quoted(path_join(cof_home, ".omp/crew-config.yml"@))
            } else {
                Seq::empty()
            })
            + (if resumable {
                " --session-dir "@ + sh_quoted(state_root + "/sessions/"@ + role)
            } else {
                " --no-session"@
            })
    } else {
        harness
    }
}

pub open spec fn spec_command(spec: CrewSpec, role: Seq<char>, resumable: bool) -> Seq<char> {
    harness_text(
        spec.state_root@,
        spec.harness@,
        spec.project@,
        spec.cof_home@,
        spec.has_extension,
        spec.has_crew_config,
        role,
        resumable,
    )
}

/// The harness launch command for a surface, honoring the session model:
/// masters are resumable (`--session-dir <role>`), developers ephemeral
/// (`--no-session`). Every `omp` pane is told who it is (`CF_ROLE`, `CF_PROJECT`,
/// `CF_COF_HOME`) and, when the Chief-of-Staff home provides them, loads codefactory's
/// session-start extension (`-e`) and crew config overlay (`--config`). Other
/// harnesses launch bare.
pub fn harness_command(spec: &CrewSpec, role: &str, resumable: bool) -> (r: String)
    ensures
        r@ == spec_command(*spec, role@, resumable),
{
    if !str_eq(spec.harness, "omp") {
        return String::from_str(spec.harness);
    }
    let mut cmd = String::from_str("CF_ROLE=");
    let q = sh_quote(role);
    push_str(&mut cmd, q.as_str());
    push_str(&mut cmd, " CF_PROJECT=");
    let q = sh_quote(spec.project);
    push_str(&mut cmd, q.as_str());
    push_str(&mut cmd, " CF_COF_HOME=");
    let q = sh_quote(spec.cof_home);
    push_str(&mut cmd, q.as_str());
    push_str(&mut cmd, " omp");
    let ghost base = cmd@;
    if spec.has_extension {
        let ext = join_path(spec.cof_home, ".omp/extensions/cf-session-start.ts");
        push_str(&mut cmd, " -e ");
        let q = sh_quote(ext.as_str());
        push_str(&mut cmd, q.as_str());
    }
    let ghost with_ext = cmd@;
    if spec.has_crew_config {
        let cfg = join_path(spec.cof_home, ".omp/crew-config.yml");
        push_str(&mut cmd, " --config ");
        let q = sh_quote(cfg.as_str());
        push_str(&mut cmd, q.as_str());
    }
    let ghost with_cfg = cmd@;
    if resumable {
        let mut dir = String::from_str(spec.state_root);
        push_str(&mut dir, "/sessions/");
        push_str(&mut dir, role);
        push_str(&mut cmd, " --session-dir ");
        let q = sh_quote(dir.as_str());
        push_str(&mut cmd, q.as_str());
    } else {
        push_str(&mut cmd, " --no-session");
    }
    proof {
        assert(with_ext =~= base + (if spec.has_extension {
            " -e "@ + sh_quoted(path_join(spec.cof_home@, ".omp/extensions/cf-session-start.ts"@))
        } else {
            Seq::empty()
        }));
        assert(with_cfg =~= with_ext + (if spec.has_crew_config {
            " --config "@ + sh_quoted(path_join(spec.cof_home@, ".omp/crew-config.yml"@))
        } else {
            Seq::empty()
        }));
        assert(cmd@ =~= spec_command(*spec, role@, resumable));
    }
    cmd
}

// ---------------------------------------------------------------------------
// What each slot runs
// ---------------------------------------------------------------------------

/// The seats in `slot`, in seat order.
pub open spec fn seats_in(seating: Seq<Seat>, slot: usize) -> Seq<Seat>
    decreases seating.len(),
{
    if seating.len() == 0 {
        Seq::empty()
    } else if seating.last().slot == slot {
        seats_in(seating.drop_last(), slot).push(seating.last())
    } else {
        seats_in(seating.drop_last(), slot)
    }
}

/// The command of a seat's surface: its own, or the harness launch command.
pub open spec fn seat_command(spec: CrewSpec, s: Seat) -> Seq<char> {
    match s.command {
        Some(c) => c@,
        None => spec_command(spec, s.role@, s.resumable),
    }
}

/// What slot `k` holds: one surface per seat seated there, in seat order, each
/// running its seat's command; a slot nobody sits in holds one bare terminal
/// (a surface with no command) so the pane exists.
pub open spec fn slot_surfaces_of(spec: CrewSpec, seating: Seq<Seat>, k: usize) -> Seq<Option<Seq<char>>> {
    let seats = seats_in(seating, k);
    if seats.len() == 0 {
        seq![None]
    } else {
        seats.map_values(|s: Seat| Some(seat_command(spec, s)))
    }
}

pub open spec fn opt_views(v: Seq<Option<String>>) -> Seq<Option<Seq<char>>> {
    v.map_values(|o: Option<String>| match o {
        Some(s) => Some(s@),
        None => None,
    })
}

/// The surfaces of each slot below `n` (see `slot_surfaces_of`): `Some` of a
/// command, or `None` for the bare terminal of an empty slot.
pub fn slot_surfaces(spec: &CrewSpec, n: usize, seating: &[Seat]) -> (r: Vec<Vec<Option<String>>>)
    ensures
        r@.len() == n,
        forall|k: int| 0 <= k < n ==> opt_views((#[trigger] r@[k])@) == slot_surfaces_of(*spec, seating@, k as usize),
{
    let mut out: Vec<Vec<Option<String>>> = Vec::new();
    let mut k: usize = 0;
    while k < n
        invariant
            k <= n,
            out@.len() == k,
            forall|a: int| 0 <= a < k ==> opt_views((#[trigger] out@[a])@) == slot_surfaces_of(*spec, seating@, a as usize),
        decreases n - k,
    {
        let mut cmds: Vec<Option<String>> = Vec::new();
        let mut i: usize = 0;
        while i < seating.len()
            invariant
                i <= seating@.len(),
                opt_views(cmds@) == seats_in(seating@.subrange(0, i as int), k).map_values(
                    |s: Seat| Some(seat_command(*spec, s)),
                ),
            decreases seating@.len() - i,
        {
            let ghost pre = seating@.subrange(0, i as int);
            let ghost post = seating@.subrange(0, i + 1);
            assert(post.drop_last() =~= pre);
            assert(post.last() == seating@[i as int]);
            let s = &seating[i];
            if s.slot == k {
                let c = match &s.command {
                    Some(c) => c.clone(),
                    None => harness_command(spec, s.role.as_str(), s.resumable),
                };
                let ghost before = opt_views(cmds@);
                cmds.push(Some(c));
                assert(opt_views(cmds@) =~= before.push(Some(seat_command(*spec, *s))));
                assert(seats_in(post, k) == seats_in(pre, k).push(*s));
                assert(seats_in(post, k).map_values(|s: Seat| Some(seat_command(*spec, s)))
                    =~= seats_in(pre, k).map_values(|s: Seat| Some(seat_command(*spec, s))).push(
                    Some(seat_command(*spec, *s)),
                ));
            }
            i = i + 1;
        }
        assert(seating@.subrange(0, seating@.len() as int) =~= seating@);
        if cmds.len() == 0 {
            cmds.push(None);
            assert(opt_views(cmds@) =~= seq![None]);
        }
        out.push(cmds);
        k = k + 1;
    }
    out
}

} // verus!

verus! {

// ---------------------------------------------------------------------------
// Seating laws
// ---------------------------------------------------------------------------

/// The placement rules, for one request and the seat it got.
pub open spec fn follows_rules(t: Template, r: SeatRequest, ds: Seq<usize>, seat: Seat) -> bool {
    &&& seat.role == r.role
    &&& seat.title == r.title
    &&& seat.command == r.command
    &&& seat.resumable == match r.resumable {
        Some(b) => b,
        None => dev_number_of(r.role@) is None,
    }
    &&& (r.slot matches Some(k) ==> seat.slot == k)
    &&& (r.slot is None && dev_number_of(r.role@) is Some && dev_number_of(r.role@)->0 > 0
        ==> seat.slot == ds[((dev_number_of(r.role@)->0 - 1) as nat % ds.len()) as int])
    &&& (r.slot is None && dev_number_of(r.role@) is None && default_seat(t.default_seats@, r.role@) is Some
        ==> seat.slot == default_seat(t.default_seats@, r.role@)->0)
}

/// Seating gives one seat per request, in request order, carrying its role,
/// title and command: an explicit slot is kept, `dev-k` (k > 0) without one sits
/// at `dev_slots[(k-1) % len]`, a master with a default seat sits there, and a
/// seat resumes its session unless asked otherwise exactly when it is not a
/// developer.
pub proof fn lemma_seating_rules(t: Template, reqs: Seq<SeatRequest>, ds: Seq<usize>, n: nat)
    ensures
        place_all(t, reqs, ds, n) matches Placed::Done(s, _, _) ==> {
            &&& s.len() == reqs.len()
            &&& forall|i: int| 0 <= i < reqs.len() ==> follows_rules(t, reqs[i], ds, #[trigger] s[i])
        },
    decreases reqs.len(),
{
    if reqs.len() > 0 {
        let prev = reqs.drop_last();
        lemma_seating_rules(t, prev, ds, n);
        if let Placed::Done(s, _, _) = place_all(t, reqs, ds, n) {
            if let Placed::Done(sp, rr, drr) = place_all(t, prev, ds, n) {
                assert(s.drop_last() =~= sp);
                assert forall|i: int| 0 <= i < reqs.len() implies follows_rules(t, reqs[i], ds, #[trigger] s[i]) by {
                    if i < prev.len() {
                        assert(reqs[i] == prev[i]);
                        assert(s[i] == sp[i]);
                    }
                }
            }
        }
    }
}

/// A request that takes its slot from the masters' round-robin: no explicit
/// slot, not a developer, and no default seat for its role.
pub open spec fn takes_pool(t: Template, r: SeatRequest) -> bool {
    &&& r.slot is None
    &&& dev_number_of(r.role@) is None
    &&& default_seat(t.default_seats@, r.role@) is None
}

/// How many of the requests take their slot from the round-robin.
pub open spec fn pool_count(t: Template, reqs: Seq<SeatRequest>) -> nat
    decreases reqs.len(),
{
    if reqs.len() == 0 {
        0
    } else {
        pool_count(t, reqs.drop_last()) + if takes_pool(t, reqs.last()) { 1nat } else { 0nat }
    }
}

/// The masters' round-robin counts only the masters that use it: the `j`-th
/// request (0-based, in request order) without an explicit slot, a developer
/// number or a default seat sits at `master_pool[j % len]`, whatever
/// developers or explicitly seated requests come between; and the counter
/// after seating is the number of such requests.
pub proof fn lemma_master_round_robin(t: Template, reqs: Seq<SeatRequest>, ds: Seq<usize>, n: nat)
    ensures
        place_all(t, reqs, ds, n) matches Placed::Done(s, rr, _) ==> {
            &&& rr == pool_count(t, reqs)
            &&& s.len() == reqs.len()
            &&& forall|i: int| 0 <= i < reqs.len() && #[trigger] takes_pool(t, reqs[i]) ==> {
                &&& master_pool(ds, n).len() > 0
                &&& s[i].slot == master_pool(ds, n)[(pool_count(t, reqs.subrange(0, i)) % master_pool(ds, n).len()) as int]
            }
        },
    decreases reqs.len(),
{
    if reqs.len() > 0 {
        let prev = reqs.drop_last();
        lemma_master_round_robin(t, prev, ds, n);
        if let Placed::Done(s, rr, _) = place_all(t, reqs, ds, n) {
            if let Placed::Done(sp, rrp, drrp) = place_all(t, prev, ds, n) {
                let x = reqs.last();
                assert(place_all(t, reqs, ds, n) == place_one(t, x, ds, n, sp, rrp, drrp));
                assert(s.drop_last() =~= sp);
                assert(reqs.subrange(0, reqs.len() - 1) =~= prev);
                assert forall|i: int| 0 <= i < reqs.len() && #[trigger] takes_pool(t, reqs[i]) implies {
                    &&& master_pool(ds, n).len() > 0
                    &&& s[i].slot == master_pool(ds, n)[(pool_count(t, reqs.subrange(0, i)) % master_pool(ds, n).len()) as int]
                } by {
                    if i < prev.len() {
                        assert(reqs[i] == prev[i]);
                        assert(s[i] == sp[i]);
                        assert(reqs.subrange(0, i) =~= prev.subrange(0, i));
                    }
                }
            }
        }
    }
}

proof fn lemma_non_dev_below(ds: Seq<usize>, n: nat)
    ensures
        forall|i: int| 0 <= i < non_dev_slots(ds, n).len() ==> #[trigger] non_dev_slots(ds, n)[i] < n,
    decreases n,
{
    if n > 0 {
        lemma_non_dev_below(ds, (n - 1) as nat);
        let prev = non_dev_slots(ds, (n - 1) as nat);
        assert forall|i: int| 0 <= i < non_dev_slots(ds, n).len() implies #[trigger] non_dev_slots(ds, n)[i] < n by {
            if i < prev.len() {
                assert(non_dev_slots(ds, n)[i] == prev[i]);
            }
        }
    }
}

proof fn lemma_default_seat_from_below(seats: Seq<(String, usize)>, role: Seq<char>, n: nat, i: int)
    requires
        0 <= i,
        first_bad_seat(seats, n, i) is None,
    ensures
        default_seat_from(seats, role, i) matches Some(s) ==> s < n,
    decreases seats.len() - i,
{
    if i < seats.len() && seats[i].0@ != role {
        lemma_default_seat_from_below(seats, role, n, i + 1);
    }
}

proof fn lemma_place_all_below(t: Template, reqs: Seq<SeatRequest>, ds: Seq<usize>, n: nat)
    requires
        forall|i: int| 0 <= i < ds.len() ==> #[trigger] ds[i] < n,
        first_bad_seat(t.default_seats@, n, 0) is None,
    ensures
        place_all(t, reqs, ds, n) matches Placed::Done(s, _, _) ==> forall|i: int| 0 <= i < s.len() ==> #[trigger] s[i].slot < n,
    decreases reqs.len(),
{
    if reqs.len() > 0 {
        let prev = reqs.drop_last();
        lemma_place_all_below(t, prev, ds, n);
        lemma_non_dev_below(ds, n);
        lemma_default_seat_from_below(t.default_seats@, reqs.last().role@, n, 0);
        if let Placed::Done(s, _, _) = place_all(t, reqs, ds, n) {
            if let Placed::Done(sp, rr, drr) = place_all(t, prev, ds, n) {
                assert(s.drop_last() =~= sp);
                assert forall|i: int| 0 <= i < s.len() implies #[trigger] s[i].slot < n by {
                    if i < sp.len() {
                        assert(s[i] == sp[i]);
                    }
                }
            }
        }
    }
}

proof fn lemma_first_bad_dev_slot_none(ds: Seq<usize>, n: nat, i: int)
    requires
        0 <= i,
        first_bad_dev_slot(ds, n, i) is None,
    ensures
        forall|j: int| i <= j < ds.len() ==> #[trigger] ds[j] < n,
    decreases ds.len() - i,
{
    if i < ds.len() {
        lemma_first_bad_dev_slot_none(ds, n, i + 1);
    }
}

/// For a valid template, every seat of a successful seating is a slot of the
/// template.
pub proof fn lemma_valid_template_seats_in_slots(t: Template, reqs: Seq<SeatRequest>, ds: Seq<usize>)
    requires
        validation_error(t) is None,
    ensures
        seating_of(t, reqs, ds) matches Placed::Done(s, _, _)
            ==> forall|i: int| 0 <= i < s.len() ==> #[trigger] s[i].slot < slot_count(t),
{
    let n = slot_count(t);
    if first_bad_dev_slot(ds, n, 0) is None {
        lemma_first_bad_dev_slot_none(ds, n, 0);
        lemma_place_all_below(t, reqs, ds, n);
    }
}

} // verus!
