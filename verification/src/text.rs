//! Text primitives shared by the renderers and parsers: the character-level
//! model of `str` operations (trim, prefix, first occurrence, split) as spec
//! functions, and executable versions proved against them.

use vstd::prelude::*;

verus! {

broadcast use vstd::string::group_string_axioms;

// ---------------------------------------------------------------------------
// Specification model
// ---------------------------------------------------------------------------

/// Unicode `White_Space`, the set `char::is_whitespace` answers for.
pub open spec fn is_ws(c: char) -> bool {
    let u = c as u32;
    ||| 0x9 <= u <= 0xd
    ||| u == 0x20
    ||| u == 0x85
    ||| u == 0xa0
    ||| u == 0x1680
    ||| 0x2000 <= u <= 0x200a
    ||| u == 0x2028
    ||| u == 0x2029
    ||| u == 0x202f
    ||| u == 0x205f
    ||| u == 0x3000
}

/// Number of leading whitespace characters.
pub open spec fn lead_ws(s: Seq<char>) -> nat
    decreases s.len(),
{
    if s.len() > 0 && is_ws(s[0]) {
        1 + lead_ws(s.drop_first())
    } else {
        0
    }
}

/// Number of trailing whitespace characters.
pub open spec fn trail_ws(s: Seq<char>) -> nat
    decreases s.len(),
{
    if s.len() > 0 && is_ws(s.last()) {
        1 + trail_ws(s.drop_last())
    } else {
        0
    }
}

/// `str::trim`: both ends stripped of whitespace.
pub open spec fn trim(s: Seq<char>) -> Seq<char> {
    let a = lead_ws(s) as int;
    if a == s.len() {
        Seq::empty()
    } else {
        s.subrange(a, s.len() - trail_ws(s))
    }
}

pub open spec fn starts_with(s: Seq<char>, p: Seq<char>) -> bool {
    p.len() <= s.len() && s.subrange(0, p.len() as int) == p
}

pub open spec fn ends_with(s: Seq<char>, p: Seq<char>) -> bool {
    p.len() <= s.len() && s.subrange(s.len() - p.len(), s.len() as int) == p
}

/// `p` occurs in `s` at position `i`.
pub open spec fn occurs_at(s: Seq<char>, p: Seq<char>, i: int) -> bool {
    0 <= i && i + p.len() <= s.len() && s.subrange(i, i + p.len()) == p
}

/// First position at or after `i` where `p` occurs in `s`.
pub open spec fn find_from(s: Seq<char>, p: Seq<char>, i: int) -> Option<int>
    decreases s.len() + 1 - i,
{
    if i < 0 || i + p.len() > s.len() {
        None
    } else if s.subrange(i, i + p.len()) == p {
        Some(i)
    } else {
        find_from(s, p, i + 1)
    }
}

/// `str::find`: the first occurrence of `p` in `s`.
pub open spec fn find(s: Seq<char>, p: Seq<char>) -> Option<int> {
    find_from(s, p, 0)
}

pub open spec fn contains_seq(s: Seq<char>, p: Seq<char>) -> bool {
    find(s, p) is Some
}

/// `str::split_once`: the text before and after the first occurrence of `p`.
pub open spec fn split_once(s: Seq<char>, p: Seq<char>) -> Option<(Seq<char>, Seq<char>)> {
    match find(s, p) {
        Some(i) => Some((s.subrange(0, i), s.subrange(i + p.len(), s.len() as int))),
        None => None,
    }
}

/// `str::split(c)`: the pieces between the occurrences of `c` (always at least one).
pub open spec fn split_char(s: Seq<char>, c: char) -> Seq<Seq<char>>
    decreases s.len(),
{
    match find(s, seq![c]) {
        Some(i) => {
            proof {
                lemma_find_from(s, seq![c], 0);
            }
            seq![s.subrange(0, i)] + split_char(s.subrange(i + 1, s.len() as int), c)
        },
        None => seq![s],
    }
}

/// `str::replace(c, r)` for a single character `c`.
pub open spec fn replace_char(s: Seq<char>, c: char, r: Seq<char>) -> Seq<char>
    decreases s.len(),
{
    if s.len() == 0 {
        Seq::empty()
    } else {
        let tail = if s.last() == c { r } else { seq![s.last()] };
        replace_char(s.drop_last(), c, r) + tail
    }
}

/// Views of a sequence of strings.
pub open spec fn views_of(v: Seq<String>) -> Seq<Seq<char>> {
    v.map_values(|s: String| s@)
}

/// Views of a sequence of string slices.
pub open spec fn str_views(v: Seq<&str>) -> Seq<Seq<char>> {
    v.map_values(|s: &str| s@)
}

/// `sep`-joined concatenation of `parts` (`[T]::join`).
pub open spec fn join_with(parts: Seq<Seq<char>>, sep: Seq<char>) -> Seq<char>
    decreases parts.len(),
{
    if parts.len() == 0 {
        Seq::empty()
    } else if parts.len() == 1 {
        parts[0]
    } else {
        join_with(parts.drop_last(), sep) + sep + parts.last()
    }
}

pub open spec fn digit_char(d: nat) -> char {
    if d == 0 { '0' }
    else if d == 1 { '1' }
    else if d == 2 { '2' }
    else if d == 3 { '3' }
    else if d == 4 { '4' }
    else if d == 5 { '5' }
    else if d == 6 { '6' }
    else if d == 7 { '7' }
    else if d == 8 { '8' }
    else { '9' }
}

pub open spec fn is_digit(c: char) -> bool {
    '0' <= c && c <= '9'
}

pub open spec fn digit_value(c: char) -> nat {
    (c as u32 - '0' as u32) as nat
}

/// Decimal text of `n` (`Display` for unsigned integers).
pub open spec fn dec(n: nat) -> Seq<char>
    decreases n,
{
    if n < 10 {
        seq![digit_char(n)]
    } else {
        dec(n / 10).push(digit_char(n % 10))
    }
}

pub open spec fn all_digits(s: Seq<char>) -> bool {
    forall|i: int| 0 <= i < s.len() ==> is_digit(#[trigger] s[i])
}

/// Value of a string of decimal digits.
pub open spec fn digits_value(s: Seq<char>) -> nat
    decreases s.len(),
{
    if s.len() == 0 {
        0
    } else {
        digits_value(s.drop_last()) * 10 + digit_value(s.last())
    }
}

/// The digits that `str::parse` reads for an unsigned integer: an optional `+`
/// sign is dropped.
pub open spec fn unsigned_digits(s: Seq<char>) -> Seq<char> {
    if s.len() > 0 && s[0] == '+' { s.drop_first() } else { s }
}

/// `str::parse::<uN>()` with `uN::MAX == max`: `None` where it returns `Err`.
pub open spec fn parse_unsigned(s: Seq<char>, max: nat) -> Option<nat> {
    let d = unsigned_digits(s);
    if d.len() > 0 && all_digits(d) && digits_value(d) <= max {
        Some(digits_value(d))
    } else {
        None
    }
}

// ---------------------------------------------------------------------------
// Lemmas
// ---------------------------------------------------------------------------

pub proof fn lemma_find_from(s: Seq<char>, p: Seq<char>, i: int)
    requires 0 <= i,
    ensures
        match find_from(s, p, i) {
            Some(k) => i <= k && occurs_at(s, p, k)
                && forall|j: int| i <= j < k ==> !occurs_at(s, p, j),
            None => forall|j: int| i <= j ==> !occurs_at(s, p, j),
        },
    decreases s.len() + 1 - i,
{
    if i + p.len() > s.len() {
    } else if s.subrange(i, i + p.len()) == p {
    } else {
        lemma_find_from(s, p, i + 1);
    }
}

/// `find` is characterised by: a match at `k`, and none before.
pub proof fn lemma_find_is(s: Seq<char>, p: Seq<char>, k: int)
    requires
        occurs_at(s, p, k),
        forall|j: int| 0 <= j < k ==> !occurs_at(s, p, j),
    ensures
        find(s, p) == Some(k),
{
    lemma_find_from(s, p, 0);
    match find(s, p) {
        Some(m) => {
            if m < k {
                assert(!occurs_at(s, p, m));
            } else if m > k {
                assert(!occurs_at(s, p, k));
            }
        },
        None => {
            assert(!occurs_at(s, p, k));
        },
    }
}

pub proof fn lemma_find_none(s: Seq<char>, p: Seq<char>)
    requires
        forall|j: int| 0 <= j ==> !occurs_at(s, p, j),
    ensures
        find(s, p) is None,
{
    lemma_find_from(s, p, 0);
    if let Some(m) = find(s, p) {
        assert(occurs_at(s, p, m));
    }
}

/// A one-character pattern occurs exactly where that character stands.
pub proof fn lemma_occurs_char(s: Seq<char>, c: char, i: int)
    ensures
        occurs_at(s, seq![c], i) <==> (0 <= i < s.len() && s[i] == c),
{
    if 0 <= i < s.len() && s[i] == c {
        assert(s.subrange(i, i + 1) =~= seq![c]);
    }
    if occurs_at(s, seq![c], i) {
        assert(s.subrange(i, i + 1)[0] == s[i]);
    }
}

proof fn lemma_digit_char(d: nat)
    requires
        d < 10,
    ensures
        is_digit(digit_char(d)),
        digit_value(digit_char(d)) == d,
        digit_char(d) != '+',
{
}

/// The decimal text of `n` is all digits and reads back as `n`.
pub proof fn lemma_dec_value(n: nat)
    ensures
        dec(n).len() > 0,
        all_digits(dec(n)),
        digits_value(dec(n)) == n,
        dec(n)[0] != '+',
    decreases n,
{
    if n < 10 {
        lemma_digit_char(n);
        assert(dec(n).drop_last() =~= Seq::<char>::empty());
        assert(digits_value(Seq::<char>::empty()) == 0);
        assert(digits_value(dec(n)) == digits_value(dec(n).drop_last()) * 10 + digit_value(dec(n).last()));
    } else {
        lemma_dec_value(n / 10);
        lemma_digit_char(n % 10);
        let d = dec(n / 10);
        assert(dec(n) == d.push(digit_char(n % 10)));
        assert(dec(n).drop_last() =~= d);
        assert forall|i: int| 0 <= i < dec(n).len() implies is_digit(#[trigger] dec(n)[i]) by {
            if i < d.len() {
                assert(dec(n)[i] == d[i]);
            }
        }
        assert((n / 10) * 10 + n % 10 == n) by (nonlinear_arith);
        assert(digits_value(dec(n)) == digits_value(d) * 10 + digit_value(digit_char(n % 10)));
    }
}

/// `str::parse` reads the decimal text of a number that fits back as that number.
pub proof fn lemma_parse_dec(n: nat, max: nat)
    requires
        n <= max,
    ensures
        parse_unsigned(dec(n), max) == Some(n),
{
    lemma_dec_value(n);
}

// ---------------------------------------------------------------------------
// Executable primitives
// ---------------------------------------------------------------------------

/// `String::push`: appends one character.
#[verifier::external_body]
pub(crate) fn push_char(s: &mut String, c: char)
    ensures
        final(s)@ == old(s)@.push(c),
{
    s.push(c);
}

/// Appends `t` to `s`.
pub fn push_str(s: &mut String, t: &str)
    ensures
        final(s)@ == old(s)@ + t@,
{
    s.append(t);
}

/// Appends the characters of `v` to `s`.
pub fn push_chars(s: &mut String, v: &[char])
    ensures
        final(s)@ == old(s)@ + v@,
{
    let ghost s0 = s@;
    let mut i: usize = 0;
    while i < v.len()
        invariant
            i <= v@.len(),
            s@ == s0 + v@.subrange(0, i as int),
        decreases v@.len() - i,
    {
        push_char(s, v[i]);
        i = i + 1;
        assert(v@.subrange(0, i as int) =~= v@.subrange(0, i - 1).push(v@[i - 1]));
    }
    assert(v@.subrange(0, v@.len() as int) =~= v@);
}

/// The characters of `s`.
pub fn chars_of(s: &str) -> (v: Vec<char>)
    ensures
        v@ == s@,
{
    let n = s.unicode_len();
    let mut v: Vec<char> = Vec::new();
    let mut i: usize = 0;
    while i < n
        invariant
            n == s@.len(),
            i <= n,
            v@ == s@.subrange(0, i as int),
        decreases n - i,
    {
        v.push(s.get_char(i));
        i = i + 1;
        assert(v@ =~= s@.subrange(0, i as int));
    }
    assert(v@ =~= s@);
    v
}

/// A `String` holding the characters of `v`.
pub fn string_of(v: &[char]) -> (s: String)
    ensures
        s@ == v@,
{
    let mut s = String::new();
    push_chars(&mut s, v);
    assert(s@ =~= v@);
    s
}

/// Character-wise equality of two strings.
pub fn str_eq(a: &str, b: &str) -> (r: bool)
    ensures
        r == (a@ == b@),
{
    let x = String::from_str(a);
    let y = String::from_str(b);
    x == y
}

/// `char::is_whitespace`.
pub fn is_whitespace(c: char) -> (r: bool)
    ensures
        r == is_ws(c),
{
    let u = c as u32;
    (0x9 <= u && u <= 0xd) || u == 0x20 || u == 0x85 || u == 0xa0 || u == 0x1680
        || (0x2000 <= u && u <= 0x200a) || u == 0x2028 || u == 0x2029 || u == 0x202f
        || u == 0x205f || u == 0x3000
}

/// Copy of `v[lo..hi]`.
pub fn sub_chars(v: &[char], lo: usize, hi: usize) -> (r: Vec<char>)
    requires
        lo <= hi <= v@.len(),
    ensures
        r@ == v@.subrange(lo as int, hi as int),
{
    let mut r: Vec<char> = Vec::new();
    let mut i = lo;
    while i < hi
        invariant
            lo <= i <= hi,
            hi <= v@.len(),
            r@ == v@.subrange(lo as int, i as int),
        decreases hi - i,
    {
        r.push(v[i]);
        i = i + 1;
        assert(r@ =~= v@.subrange(lo as int, i as int));
    }
    r
}

/// A sequence whose first `k` characters are whitespace and whose `k`-th is not
/// (or that ends there) has `k` leading whitespace characters.
pub proof fn lemma_lead_ws_is(s: Seq<char>, k: nat)
    requires
        k <= s.len(),
        forall|i: int| 0 <= i < k ==> is_ws(#[trigger] s[i]),
        k < s.len() ==> !is_ws(s[k as int]),
    ensures
        lead_ws(s) == k,
    decreases k,
{
    if k > 0 {
        let t = s.drop_first();
        assert forall|i: int| 0 <= i < k - 1 implies is_ws(#[trigger] t[i]) by {
            assert(t[i] == s[i + 1]);
        }
        if k - 1 < t.len() {
            assert(t[k - 1] == s[k as int]);
        }
        lemma_lead_ws_is(t, (k - 1) as nat);
    }
}

pub proof fn lemma_trail_ws_is(s: Seq<char>, k: nat)
    requires
        k <= s.len(),
        forall|i: int| s.len() - k <= i < s.len() ==> is_ws(#[trigger] s[i]),
        k < s.len() ==> !is_ws(s[s.len() - k - 1]),
    ensures
        trail_ws(s) == k,
    decreases k,
{
    if k > 0 {
        let t = s.drop_last();
        assert forall|i: int| t.len() - (k - 1) <= i < t.len() implies is_ws(#[trigger] t[i]) by {
            assert(t[i] == s[i]);
        }
        if k - 1 < t.len() {
            assert(t[t.len() - (k - 1) - 1] == s[s.len() - k - 1]);
        }
        lemma_trail_ws_is(t, (k - 1) as nat);
    }
}

/// A sequence that neither starts nor ends with whitespace is its own trim.
pub proof fn lemma_trim_id(s: Seq<char>)
    requires
        s.len() > 0 ==> !is_ws(s[0]) && !is_ws(s.last()),
    ensures
        trim(s) == s,
{
    lemma_lead_ws_is(s, 0);
    lemma_trail_ws_is(s, 0);
    if s.len() > 0 {
        assert(s.subrange(0, s.len() as int) =~= s);
    }
}

/// `str::trim`, as the range of `v` that it keeps.
pub fn trim_range(v: &[char]) -> (r: (usize, usize))
    ensures
        r.0 <= r.1 <= v@.len(),
        v@.subrange(r.0 as int, r.1 as int) == trim(v@),
{
    let n = v.len();
    let mut a: usize = 0;
    while a < n && is_whitespace(v[a])
        invariant
            a <= n,
            n == v@.len(),
            forall|i: int| 0 <= i < a ==> is_ws(#[trigger] v@[i]),
        decreases n - a,
    {
        a = a + 1;
    }
    proof {
        lemma_lead_ws_is(v@, a as nat);
    }
    if a == n {
        assert(v@.subrange(a as int, a as int) =~= Seq::<char>::empty());
        return (a, a);
    }
    let mut b: usize = n;
    while b > a && is_whitespace(v[b - 1])
        invariant
            a < n,
            a <= b <= n,
            n == v@.len(),
            !is_ws(v@[a as int]),
            forall|i: int| b <= i < n ==> is_ws(#[trigger] v@[i]),
        decreases b,
    {
        b = b - 1;
    }
    proof {
        lemma_trail_ws_is(v@, (n - b) as nat);
    }
    (a, b)
}

/// `str::trim` on characters.
pub fn trim_chars(v: &[char]) -> (r: Vec<char>)
    ensures
        r@ == trim(v@),
{
    let (a, b) = trim_range(v);
    sub_chars(v, a, b)
}

/// Whether `v` holds `p` at position `i`.
pub fn matches_at(v: &[char], p: &[char], i: usize) -> (r: bool)
    ensures
        r == occurs_at(v@, p@, i as int),
{
    let n = v.len();
    if i > n || p.len() > n - i {
        return false;
    }
    let mut j: usize = 0;
    while j < p.len()
        invariant
            n == v@.len(),
            i <= v@.len(),
            i + p@.len() <= v@.len(),
            j <= p@.len(),
            forall|k: int| 0 <= k < j ==> v@[i + k] == p@[k],
        decreases p@.len() - j,
    {
        if v[i + j] != p[j] {
            assert(v@.subrange(i as int, i + p@.len())[j as int] != p@[j as int]);
            return false;
        }
        j = j + 1;
    }
    assert(v@.subrange(i as int, i + p@.len()) =~= p@);
    true
}

/// `str::find` on characters.
pub fn find_chars(v: &[char], p: &[char]) -> (r: Option<usize>)
    ensures
        r matches Some(k) ==> find(v@, p@) == Some(k as int),
        r is None ==> find(v@, p@) is None,
{
    if p.len() == 0 {
        proof {
            assert(v@.subrange(0, 0) =~= p@);
            lemma_find_is(v@, p@, 0);
        }
        return Some(0);
    }
    let mut i: usize = 0;
    while i < v.len() && p.len() <= v.len() - i
        invariant
            p@.len() > 0,
            i <= v@.len(),
            forall|j: int| 0 <= j < i ==> !occurs_at(v@, p@, j),
        decreases v@.len() - i,
    {
        if matches_at(v, p, i) {
            proof {
                lemma_find_is(v@, p@, i as int);
            }
            return Some(i);
        }
        i = i + 1;
    }
    proof {
        assert forall|j: int| 0 <= j implies !occurs_at(v@, p@, j) by {
            if j >= i {
                if occurs_at(v@, p@, j) {
                    assert(j + p@.len() <= v@.len());
                }
            }
        }
        lemma_find_none(v@, p@);
    }
    None
}

/// Whether the character `c` occurs in `v`.
pub fn has_char(v: &[char], c: char) -> (r: bool)
    ensures
        r == v@.contains(c),
{
    let mut i: usize = 0;
    while i < v.len()
        invariant
            i <= v@.len(),
            forall|j: int| 0 <= j < i ==> v@[j] != c,
        decreases v@.len() - i,
    {
        if v[i] == c {
            return true;
        }
        i = i + 1;
    }
    false
}

/// `str::strip_prefix` on characters.
pub fn strip_prefix_chars(v: &[char], p: &[char]) -> (r: Option<Vec<char>>)
    ensures
        r is Some <==> starts_with(v@, p@),
        r matches Some(t) ==> t@ == v@.subrange(p@.len() as int, v@.len() as int),
{
    if matches_at(v, p, 0) {
        Some(sub_chars(v, p.len(), v.len()))
    } else {
        None
    }
}

/// `str::split_once` on characters.
pub fn split_once_chars(v: &[char], p: &[char]) -> (r: Option<(Vec<char>, Vec<char>)>)
    ensures
        r is Some <==> split_once(v@, p@) is Some,
        r matches Some((a, b)) ==> split_once(v@, p@) == Some((a@, b@)),
{
    match find_chars(v, p) {
        Some(i) => {
            let n = v.len();
            proof {
                lemma_find_from(v@, p@, 0);
                assert(occurs_at(v@, p@, i as int));
            }
            Some((sub_chars(v, 0, i), sub_chars(v, i + p.len(), n)))
        },
        None => None,
    }
}

/// Appends the decimal text of `n`.
pub fn push_decimal(s: &mut String, n: usize)
    ensures
        final(s)@ == old(s)@ + dec(n as nat),
    decreases n,
{
    let ghost s0 = s@;
    if n >= 10 {
        push_decimal(s, n / 10);
    }
    let d = n % 10;
    let c = if d == 0 { '0' }
        else if d == 1 { '1' }
        else if d == 2 { '2' }
        else if d == 3 { '3' }
        else if d == 4 { '4' }
        else if d == 5 { '5' }
        else if d == 6 { '6' }
        else if d == 7 { '7' }
        else if d == 8 { '8' }
        else { '9' };
    push_char(s, c);
    proof {
        if n >= 10 {
            assert(s@ =~= s0 + dec(n as nat));
        } else {
            assert(s@ =~= s0 + dec(n as nat));
        }
    }
}

/// The decimal text of `n`.
pub fn decimal(n: usize) -> (s: String)
    ensures
        s@ == dec(n as nat),
{
    let mut s = String::new();
    push_decimal(&mut s, n);
    assert(s@ =~= dec(n as nat));
    s
}

/// `str::parse::<u64>()` on characters; `None` where the parse fails.
pub fn parse_u64_chars(v: &[char]) -> (r: Option<u64>)
    ensures
        r matches Some(x) ==> parse_unsigned(v@, u64::MAX as nat) == Some(x as nat),
        r is None ==> parse_unsigned(v@, u64::MAX as nat) is None,
{
    let start: usize = if v.len() > 0 && v[0] == '+' { 1 } else { 0 };
    let ghost d = unsigned_digits(v@);
    assert(d =~= v@.subrange(start as int, v@.len() as int));
    if start >= v.len() {
        assert(d.len() == 0);
        return None;
    }
    let mut acc: u64 = 0;
    let mut i = start;
    while i < v.len()
        invariant
            start <= i <= v@.len(),
            d == unsigned_digits(v@),
            d == v@.subrange(start as int, v@.len() as int),
            all_digits(v@.subrange(start as int, i as int)),
            acc as nat == digits_value(v@.subrange(start as int, i as int)),
        decreases v@.len() - i,
    {
        let c = v[i];
        if !('0' <= c && c <= '9') {
            assert(d[i - start] == c);
            assert(!is_digit(d[i - start]));
            assert(!all_digits(d));
            return None;
        }
        let dv = (c as u32 - '0' as u32) as u64;
        let ghost pre = v@.subrange(start as int, i as int);
        let ghost post = v@.subrange(start as int, i + 1);
        assert(post.drop_last() =~= pre);
        assert(post.last() == c);
        assert(post =~= d.subrange(0, i + 1 - start));
        assert(digits_value(post) == digits_value(pre) * 10 + dv);
        match acc.checked_mul(10) {
            Some(m) => match m.checked_add(dv) {
                Some(t) => {
                    acc = t;
                },
                None => {
                    proof { lemma_digits_value_mono(d, (i + 1 - start) as int); }
                    return None;
                },
            },
            None => {
                proof { lemma_digits_value_mono(d, (i + 1 - start) as int); }
                return None;
            },
        }
        i = i + 1;
    }
    assert(v@.subrange(start as int, i as int) =~= d);
    Some(acc)
}

/// The value of a prefix of a digit string never exceeds the value of the whole.
pub proof fn lemma_digits_value_mono(d: Seq<char>, k: int)
    requires
        0 <= k <= d.len(),
    ensures
        digits_value(d.subrange(0, k)) <= digits_value(d),
    decreases d.len() - k,
{
    if k < d.len() {
        lemma_digits_value_mono(d, k + 1);
        let a = d.subrange(0, k);
        let b = d.subrange(0, k + 1);
        assert(b.drop_last() =~= a);
        assert(digits_value(b) == digits_value(a) * 10 + digit_value(b.last()));
        assert(digits_value(a) <= digits_value(a) * 10) by (nonlinear_arith);
    } else {
        assert(d.subrange(0, k) =~= d);
    }
}

/// `str::parse::<usize>()` on characters; `None` where the parse fails.
pub fn parse_usize_chars(v: &[char]) -> (r: Option<usize>)
    ensures
        r matches Some(x) ==> parse_unsigned(v@, usize::MAX as nat) == Some(x as nat),
        r is None ==> parse_unsigned(v@, usize::MAX as nat) is None,
{
    match parse_u64_chars(v) {
        Some(x) => {
            if x as u128 <= usize::MAX as u128 {
                Some(x as usize)
            } else {
                None
            }
        },
        None => {
            proof {
                if parse_unsigned(v@, usize::MAX as nat) is Some {
                    assert(usize::MAX <= u64::MAX);
                }
            }
            None
        },
    }
}

} // verus!

verus! {

/// No occurrence of `p` anywhere in `s`.
pub proof fn lemma_no_occurrence(s: Seq<char>, p: Seq<char>)
    requires
        !contains_seq(s, p),
    ensures
        forall|j: int| !occurs_at(s, p, j),
{
    lemma_find_from(s, p, 0);
}

/// Splitting at the first occurrence of `p`, when `p` occurs nowhere before the
/// end of `a`.
pub proof fn lemma_split_once_at(a: Seq<char>, p: Seq<char>, b: Seq<char>)
    requires
        p.len() > 0,
        !contains_seq(a + p.drop_last(), p),
    ensures
        split_once(a + p + b, p) == Some((a, b)),
{
    let s = a + p + b;
    let t = a + p.drop_last();
    lemma_no_occurrence(t, p);
    assert(s.subrange(a.len() as int, (a.len() + p.len()) as int) =~= p);
    assert forall|j: int| 0 <= j < a.len() implies !occurs_at(s, p, j) by {
        if occurs_at(s, p, j) {
            assert(t.subrange(j, j + p.len()) =~= s.subrange(j, j + p.len()));
            assert(occurs_at(t, p, j));
        }
    }
    lemma_find_is(s, p, a.len() as int);
    assert(s.subrange(0, a.len() as int) =~= a);
    assert(s.subrange((a.len() + p.len()) as int, s.len() as int) =~= b);
}

/// A text without `c` splits into itself alone.
pub proof fn lemma_split_char_none(a: Seq<char>, c: char)
    requires
        !a.contains(c),
    ensures
        split_char(a, c) == seq![a],
{
    assert forall|j: int| 0 <= j implies !occurs_at(a, seq![c], j) by {
        lemma_occurs_char(a, c, j);
        if 0 <= j < a.len() && a[j] == c {
            assert(a.contains(c));
        }
    }
    lemma_find_none(a, seq![c]);
}

/// Splitting distributes over a separator.
pub proof fn lemma_split_char_concat(a: Seq<char>, c: char, b: Seq<char>)
    ensures
        split_char(a + seq![c] + b, c) == split_char(a, c) + split_char(b, c),
    decreases a.len(),
{
    let s = a + seq![c] + b;
    lemma_find_from(a, seq![c], 0);
    match find(a, seq![c]) {
        Some(i) => {
            assert(occurs_at(a, seq![c], i));
            assert(s.subrange(i, i + 1) =~= a.subrange(i, i + 1));
            assert forall|j: int| 0 <= j < i implies !occurs_at(s, seq![c], j) by {
                lemma_occurs_char(s, c, j);
                lemma_occurs_char(a, c, j);
            }
            lemma_find_is(s, seq![c], i);
            let a1 = a.subrange(i + 1, a.len() as int);
            assert(s.subrange(i + 1, s.len() as int) =~= a1 + seq![c] + b);
            assert(s.subrange(0, i) =~= a.subrange(0, i));
            lemma_split_char_concat(a1, c, b);
            assert(split_char(s, c) =~= seq![a.subrange(0, i)] + (split_char(a1, c) + split_char(b, c)));
            assert(split_char(a, c) =~= seq![a.subrange(0, i)] + split_char(a1, c));
            assert(split_char(s, c) =~= split_char(a, c) + split_char(b, c));
        },
        None => {
            assert(s.subrange(a.len() as int, a.len() + 1int) =~= seq![c]);
            assert forall|j: int| 0 <= j < a.len() implies !occurs_at(s, seq![c], j) by {
                if occurs_at(s, seq![c], j) {
                    assert(a.subrange(j, j + 1) =~= s.subrange(j, j + 1));
                    assert(occurs_at(a, seq![c], j));
                }
            }
            lemma_find_is(s, seq![c], a.len() as int);
            assert(s.subrange(0, a.len() as int) =~= a);
            assert(s.subrange(a.len() + 1int, s.len() as int) =~= b);
            assert(split_char(a, c) == seq![a]);
            assert(split_char(s, c) =~= split_char(a, c) + split_char(b, c));
        },
    }
}

/// Neither part holds `c`, so neither does their concatenation.
pub proof fn lemma_no_char_concat(a: Seq<char>, b: Seq<char>, c: char)
    requires
        !a.contains(c),
        !b.contains(c),
    ensures
        !(a + b).contains(c),
{
    if (a + b).contains(c) {
        let i = choose|i: int| 0 <= i < (a + b).len() && (a + b)[i] == c;
        if i < a.len() {
            assert(a[i] == c);
        } else {
            assert(b[i - a.len()] == c);
        }
    }
}

/// A whitespace prefix and a label ending in whitespace: the trim keeps the label
/// and the value, or the label without its last character when the value is empty.
pub proof fn lemma_trim_labelled(pre: Seq<char>, lbl: Seq<char>, v: Seq<char>)
    requires
        forall|i: int| 0 <= i < pre.len() ==> is_ws(#[trigger] pre[i]),
        lbl.len() >= 2,
        !is_ws(lbl[0]),
        !is_ws(lbl[lbl.len() - 2]),
        is_ws(lbl.last()),
        v.len() > 0 ==> !is_ws(v.last()),
    ensures
        trim(pre + lbl + v) == if v.len() > 0 { lbl + v } else { lbl.drop_last() },
{
    let s = pre + lbl + v;
    assert forall|i: int| 0 <= i < pre.len() implies is_ws(#[trigger] s[i]) by {
        assert(s[i] == pre[i]);
    }
    assert(s[pre.len() as int] == lbl[0]);
    lemma_lead_ws_is(s, pre.len());
    if v.len() > 0 {
        assert(s[s.len() - 1] == v.last());
        lemma_trail_ws_is(s, 0);
        assert(s.subrange(pre.len() as int, s.len() as int) =~= lbl + v);
    } else {
        assert(s[s.len() - 1] == lbl.last());
        assert(s[s.len() - 2] == lbl[lbl.len() - 2]);
        lemma_trail_ws_is(s, 1);
        assert(s.subrange(pre.len() as int, s.len() - 1) =~= lbl.drop_last());
    }
}

/// `t` cannot start with `p` where the two differ at position `k`.
pub proof fn lemma_not_prefix(t: Seq<char>, p: Seq<char>, k: int)
    requires
        0 <= k < p.len(),
        k < t.len() ==> t[k] != p[k],
    ensures
        !starts_with(t, p),
{
    if starts_with(t, p) {
        assert(t.subrange(0, p.len() as int)[k] == t[k]);
    }
}

} // verus!

verus! {

/// `s.replace(c, r)` for a single character `c`.
pub fn replace_chars(s: &str, c: char, r: &str) -> (out: String)
    ensures
        out@ == replace_char(s@, c, r@),
{
    let v = chars_of(s);
    let mut out = String::new();
    let mut i: usize = 0;
    while i < v.len()
        invariant
            i <= v@.len(),
            v@ == s@,
            out@ == replace_char(v@.subrange(0, i as int), c, r@),
        decreases v@.len() - i,
    {
        let ghost pre = v@.subrange(0, i as int);
        let ghost post = v@.subrange(0, i + 1);
        assert(post.drop_last() =~= pre);
        assert(post.last() == v@[i as int]);
        if v[i] == c {
            push_str(&mut out, r);
        } else {
            push_char(&mut out, v[i]);
            assert(out@ =~= replace_char(pre, c, r@) + seq![v@[i as int]]);
        }
        i = i + 1;
    }
    assert(v@.subrange(0, v@.len() as int) =~= v@);
    out
}

/// `parts.join(sep)`.
pub fn join_strings(parts: &[String], sep: &str) -> (out: String)
    ensures
        out@ == join_with(views_of(parts@), sep@),
{
    let mut out = String::new();
    let mut i: usize = 0;
    while i < parts.len()
        invariant
            i <= parts@.len(),
            out@ == join_with(views_of(parts@.subrange(0, i as int)), sep@),
        decreases parts@.len() - i,
    {
        let ghost pre = views_of(parts@.subrange(0, i as int));
        let ghost post = views_of(parts@.subrange(0, i + 1));
        assert(post.drop_last() =~= pre);
        assert(post.last() == parts@[i as int]@);
        if i > 0 {
            push_str(&mut out, sep);
        }
        push_str(&mut out, parts[i].as_str());
        i = i + 1;
        if i == 1 {
            assert(out@ =~= join_with(post, sep@));
        }
    }
    assert(parts@.subrange(0, parts@.len() as int) =~= parts@);
    out
}

/// `parts.join(sep)` for string slices.
pub fn join_strs(parts: &[&str], sep: &str) -> (out: String)
    ensures
        out@ == join_with(str_views(parts@), sep@),
{
    let mut out = String::new();
    let mut i: usize = 0;
    while i < parts.len()
        invariant
            i <= parts@.len(),
            out@ == join_with(str_views(parts@.subrange(0, i as int)), sep@),
        decreases parts@.len() - i,
    {
        let ghost pre = str_views(parts@.subrange(0, i as int));
        let ghost post = str_views(parts@.subrange(0, i + 1));
        assert(post.drop_last() =~= pre);
        assert(post.last() == parts@[i as int]@);
        if i > 0 {
            push_str(&mut out, sep);
        }
        push_str(&mut out, parts[i]);
        i = i + 1;
        if i == 1 {
            assert(out@ =~= join_with(post, sep@));
        }
    }
    assert(parts@.subrange(0, parts@.len() as int) =~= parts@);
    out
}

} // verus!

verus! {

/// What `format!("{:?}", s)` writes for a string slice: the text in double
/// quotes, with the escapes of `str::escape_debug`.
pub uninterp spec fn debug_text(s: Seq<char>) -> Seq<char>;

/// The `Debug` rendering of a string slice (`<str as Debug>::fmt`, through
/// `format!`). Its result is named, not described: the escaping rules depend on
/// Unicode property tables.
#[verifier::external_body]
pub(crate) fn debug_quote(s: &str) -> (r: String)
    ensures
        r@ == debug_text(s@),
{
    format!("{:?}", s)
}

} // verus!

verus! {

/// `Path::join` on a Unix target (`/` separates components): an absolute
/// `rel` replaces `base`; otherwise a `/` is put between them unless `base` is
/// empty or already ends in one.
pub open spec fn path_join(base: Seq<char>, rel: Seq<char>) -> Seq<char> {
    if rel.len() > 0 && rel[0] == '/' {
        rel
    } else if base.len() == 0 || base.last() == '/' {
        base + rel
    } else {
        base + "/"@ + rel
    }
}

/// `Path::new(base).join(rel)`, as a string.
pub fn join_path(base: &str, rel: &str) -> (r: String)
    ensures
        r@ == path_join(base@, rel@),
{
    let rc = chars_of(rel);
    if rc.len() > 0 && rc[0] == '/' {
        return String::from_str(rel);
    }
    let bc = chars_of(base);
    let mut out = String::from_str(base);
    if !(bc.len() == 0 || bc[bc.len() - 1] == '/') {
        push_char(&mut out, '/');
    }
    push_str(&mut out, rel);
    proof {
        reveal_strlit("/");
        if !(bc@.len() == 0 || bc@.last() == '/') {
            assert(out@ =~= base@ + "/"@ + rel@);
        }
    }
    out
}

} // verus!

verus! {

/// A `usize` position as an integer.
pub open spec fn pos(i: usize) -> int {
    i as int
}

} // verus!
