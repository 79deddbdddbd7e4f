//! Character-level helpers over `str` and `String`, with their meaning stated on `Seq<char>`.
use vstd::prelude::*;
use vstd::string::StringExecFns;

verus! {

/// Appends one character to a `String` (std `String::push`).
#[verifier::external_body]
pub(crate) fn push_char(s: &mut String, c: char)
    ensures
        final(s)@ == old(s)@.push(c),
{
    s.push(c);
}

/// The characters of a string slice, in order.
pub fn chars_of(s: &str) -> (v: Vec<char>)
    ensures
        v@ == s@,
{
    let mut v: Vec<char> = Vec::new();
    for c in it: s.chars()
        invariant
            v@ == it.seq().take(it.index() as int),
    {
        v.push(c);
    }
    v
}

/// Builds a `String` from a character sequence.
pub fn string_of(v: &Vec<char>) -> (s: String)
    ensures
        s@ == v@,
{
    string_of_range(v, 0, v.len())
}

/// Builds a `String` from `v[from..to]`.
pub fn string_of_range(v: &Vec<char>, from: usize, to: usize) -> (s: String)
    requires
        from <= to <= v.len(),
    ensures
        s@ == v@.subrange(from as int, to as int),
{
    let mut s = String::new();
    let mut i: usize = from;
    while i < to
        invariant
            from <= i <= to <= v.len(),
            s@ == v@.subrange(from as int, i as int),
        decreases to - i,
    {
        push_char(&mut s, v[i]);
        assert(v@.subrange(from as int, i as int).push(v@[i as int]) =~= v@.subrange(from as int, i + 1));
        i += 1;
    }
    s
}

/// `a + b + c` as a new `String`.
pub fn concat3(a: &str, b: &str, c: &str) -> (r: String)
    ensures
        r@ == a@ + b@ + c@,
{
    let mut r = String::from_str(a);
    r.append(b);
    r.append(c);
    r
}

/// Equality of two character vectors.
pub fn chars_eq(a: &Vec<char>, b: &Vec<char>) -> (r: bool)
    ensures
        r == (a@ == b@),
{
    if a.len() != b.len() {
        return false;
    }
    let mut i: usize = 0;
    while i < a.len()
        invariant
            i <= a.len() == b.len(),
            forall|j: int| 0 <= j < i ==> a@[j] == b@[j],
        decreases a.len() - i,
    {
        if a[i] != b[i] {
            return false;
        }
        i += 1;
    }
    assert(a@ =~= b@);
    true
}

/// Equality of two string slices.
pub fn str_eq(a: &str, b: &str) -> (r: bool)
    ensures
        r == (a@ == b@),
{
    chars_eq(&chars_of(a), &chars_of(b))
}

/// The status words of both systems are pairwise distinct.
pub proof fn lemma_status_words()
    ensures
        "pending"@ != "waiting"@,
        "pending"@ != "recurring"@,
        "pending"@ != "completed"@,
        "pending"@ != "deleted"@,
        "pending"@ != "NEEDS-ACTION"@,
        "pending"@ != "COMPLETED"@,
        "pending"@ != "CANCELLED"@,
        "pending"@ != "IN-PROCESS"@,
        "waiting"@ != "recurring"@,
        "waiting"@ != "completed"@,
        "waiting"@ != "deleted"@,
        "waiting"@ != "NEEDS-ACTION"@,
        "waiting"@ != "COMPLETED"@,
        "waiting"@ != "CANCELLED"@,
        "waiting"@ != "IN-PROCESS"@,
        "recurring"@ != "completed"@,
        "recurring"@ != "deleted"@,
        "recurring"@ != "NEEDS-ACTION"@,
        "recurring"@ != "COMPLETED"@,
        "recurring"@ != "CANCELLED"@,
        "recurring"@ != "IN-PROCESS"@,
        "completed"@ != "deleted"@,
        "completed"@ != "NEEDS-ACTION"@,
        "completed"@ != "COMPLETED"@,
        "completed"@ != "CANCELLED"@,
        "completed"@ != "IN-PROCESS"@,
        "deleted"@ != "NEEDS-ACTION"@,
        "deleted"@ != "COMPLETED"@,
        "deleted"@ != "CANCELLED"@,
        "deleted"@ != "IN-PROCESS"@,
        "NEEDS-ACTION"@ != "COMPLETED"@,
        "NEEDS-ACTION"@ != "CANCELLED"@,
        "NEEDS-ACTION"@ != "IN-PROCESS"@,
        "COMPLETED"@ != "CANCELLED"@,
        "COMPLETED"@ != "IN-PROCESS"@,
        "CANCELLED"@ != "IN-PROCESS"@,
{
        reveal_strlit("pending");
        assert("pending"@.len() == 7 && "pending"@[0] == 'p' && "pending"@[1] == 'e');
        reveal_strlit("waiting");
        assert("waiting"@.len() == 7 && "waiting"@[0] == 'w' && "waiting"@[1] == 'a');
        reveal_strlit("recurring");
        assert("recurring"@.len() == 9 && "recurring"@[0] == 'r' && "recurring"@[1] == 'e');
        reveal_strlit("completed");
        assert("completed"@.len() == 9 && "completed"@[0] == 'c' && "completed"@[1] == 'o');
        reveal_strlit("deleted");
        assert("deleted"@.len() == 7 && "deleted"@[0] == 'd' && "deleted"@[1] == 'e');
        reveal_strlit("NEEDS-ACTION");
        assert("NEEDS-ACTION"@.len() == 12 && "NEEDS-ACTION"@[0] == 'N' && "NEEDS-ACTION"@[1] == 'E');
        reveal_strlit("COMPLETED");
        assert("COMPLETED"@.len() == 9 && "COMPLETED"@[0] == 'C' && "COMPLETED"@[1] == 'O');
        reveal_strlit("CANCELLED");
        assert("CANCELLED"@.len() == 9 && "CANCELLED"@[0] == 'C' && "CANCELLED"@[1] == 'A');
        reveal_strlit("IN-PROCESS");
        assert("IN-PROCESS"@.len() == 10 && "IN-PROCESS"@[0] == 'I' && "IN-PROCESS"@[1] == 'N');
}

// ---------------------------------------------------------------------------
// ASCII case
// ---------------------------------------------------------------------------

pub open spec fn ascii_upper_char(c: char) -> char {
    if 'a' <= c && c <= 'z' {
        ((c as u32) - 32) as char
    } else {
        c
    }
}

pub open spec fn ascii_lower_char(c: char) -> char {
    if 'A' <= c && c <= 'Z' {
        ((c as u32) + 32) as char
    } else {
        c
    }
}

pub open spec fn ascii_upper(s: Seq<char>) -> Seq<char> {
    s.map_values(|c: char| ascii_upper_char(c))
}

pub open spec fn ascii_lower(s: Seq<char>) -> Seq<char> {
    s.map_values(|c: char| ascii_lower_char(c))
}

pub fn upper_char(c: char) -> (r: char)
    ensures
        r == ascii_upper_char(c),
{
    if 'a' <= c && c <= 'z' {
        let u = ((c as u32) - 32) as u8;
        u as char
    } else {
        c
    }
}

pub fn lower_char(c: char) -> (r: char)
    ensures
        r == ascii_lower_char(c),
{
    if 'A' <= c && c <= 'Z' {
        let u = ((c as u32) + 32) as u8;
        u as char
    } else {
        c
    }
}

/// `str::to_ascii_uppercase`.
pub fn to_ascii_upper(s: &str) -> (r: String)
    ensures
        r@ == ascii_upper(s@),
{
    let v = chars_of(s);
    let mut r = String::new();
    let mut i: usize = 0;
    while i < v.len()
        invariant
            i <= v.len(),
            v@ == s@,
            r@ == ascii_upper(s@).take(i as int),
        decreases v.len() - i,
    {
        push_char(&mut r, upper_char(v[i]));
        assert(ascii_upper(s@).take(i + 1) =~= ascii_upper(s@).take(i as int).push(ascii_upper_char(v@[i as int])));
        i += 1;
    }
    assert(ascii_upper(s@).take(v.len() as int) =~= ascii_upper(s@));
    r
}

/// `str::to_ascii_lowercase`.
pub fn to_ascii_lower(s: &str) -> (r: String)
    ensures
        r@ == ascii_lower(s@),
{
    let v = chars_of(s);
    let mut r = String::new();
    let mut i: usize = 0;
    while i < v.len()
        invariant
            i <= v.len(),
            v@ == s@,
            r@ == ascii_lower(s@).take(i as int),
        decreases v.len() - i,
    {
        push_char(&mut r, lower_char(v[i]));
        assert(ascii_lower(s@).take(i + 1) =~= ascii_lower(s@).take(i as int).push(ascii_lower_char(v@[i as int])));
        i += 1;
    }
    assert(ascii_lower(s@).take(v.len() as int) =~= ascii_lower(s@));
    r
}

/// `str::eq_ignore_ascii_case`.
pub fn eq_ignore_ascii_case(a: &str, b: &str) -> (r: bool)
    ensures
        r == (ascii_lower(a@) == ascii_lower(b@)),
{
    let x = to_ascii_lower(a);
    let y = to_ascii_lower(b);
    str_eq(x.as_str(), y.as_str())
}

// ---------------------------------------------------------------------------
// Whitespace and trimming
// ---------------------------------------------------------------------------

/// `char::is_whitespace`: the Unicode `White_Space` property.
pub open spec fn is_ws(c: char) -> bool {
    c == ' ' || ('\t' <= c && c <= '\r') || c == '\u{85}' || c == '\u{a0}' || c == '\u{1680}' || (
    '\u{2000}' <= c && c <= '\u{200a}') || c == '\u{2028}' || c == '\u{2029}' || c == '\u{202f}' || c
        == '\u{205f}' || c == '\u{3000}'
}

pub fn is_whitespace(c: char) -> (r: bool)
    ensures
        r == is_ws(c),
{
    c == ' ' || ('\t' <= c && c <= '\r') || c == '\u{85}' || c == '\u{a0}' || c == '\u{1680}' || (
    '\u{2000}' <= c && c <= '\u{200a}') || c == '\u{2028}' || c == '\u{2029}' || c == '\u{202f}' || c
        == '\u{205f}' || c == '\u{3000}'
}

/// Number of leading characters satisfying whitespace.
pub open spec fn lead_ws(s: Seq<char>) -> int
    decreases s.len(),
{
    if s.len() > 0 && is_ws(s[0]) {
        1 + lead_ws(s.drop_first())
    } else {
        0
    }
}

/// Number of trailing whitespace characters.
pub open spec fn trail_ws(s: Seq<char>) -> int
    decreases s.len(),
{
    if s.len() > 0 && is_ws(s.last()) {
        1 + trail_ws(s.drop_last())
    } else {
        0
    }
}

/// `str::trim_end`.
pub open spec fn trim_end(s: Seq<char>) -> Seq<char> {
    s.take(s.len() - trail_ws(s))
}

/// `str::trim_start`.
pub open spec fn trim_start(s: Seq<char>) -> Seq<char> {
    s.skip(lead_ws(s))
}

/// `str::trim`.
pub open spec fn trim(s: Seq<char>) -> Seq<char> {
    trim_end(trim_start(s))
}

proof fn lemma_lead_ws(s: Seq<char>)
    ensures
        0 <= lead_ws(s) <= s.len(),
        forall|k: int| 0 <= k < lead_ws(s) ==> is_ws(#[trigger] s[k]),
        lead_ws(s) < s.len() ==> !is_ws(s[lead_ws(s)]),
    decreases s.len(),
{
    if s.len() > 0 && is_ws(s[0]) {
        lemma_lead_ws(s.drop_first());
        assert forall|k: int| 0 <= k < lead_ws(s) implies is_ws(#[trigger] s[k]) by {
            if k > 0 {
                assert(s[k] == s.drop_first()[k - 1]);
            }
        }
    }
}

proof fn lemma_trail_ws(s: Seq<char>)
    ensures
        0 <= trail_ws(s) <= s.len(),
        forall|k: int| s.len() - trail_ws(s) <= k < s.len() ==> is_ws(#[trigger] s[k]),
        trail_ws(s) < s.len() ==> !is_ws(s[s.len() - trail_ws(s) - 1]),
    decreases s.len(),
{
    if s.len() > 0 && is_ws(s.last()) {
        lemma_trail_ws(s.drop_last());
        assert forall|k: int| s.len() - trail_ws(s) <= k < s.len() implies is_ws(#[trigger] s[k]) by {
            if k < s.len() - 1 {
                assert(s[k] == s.drop_last()[k]);
            }
        }
        if trail_ws(s) < s.len() {
            assert(s[s.len() - trail_ws(s) - 1] == s.drop_last()[s.drop_last().len() - trail_ws(s.drop_last()) - 1]);
        }
    }
}

/// Characterises `lead_ws` by the first non-whitespace position.
proof fn lemma_lead_ws_unique(s: Seq<char>, n: int)
    requires
        0 <= n <= s.len(),
        forall|k: int| 0 <= k < n ==> is_ws(#[trigger] s[k]),
        n < s.len() ==> !is_ws(s[n]),
    ensures
        lead_ws(s) == n,
    decreases s.len(),
{
    if n > 0 {
        assert(is_ws(s[0]));
        assert forall|k: int| 0 <= k < n - 1 implies is_ws(#[trigger] s.drop_first()[k]) by {
            assert(is_ws(s[k + 1]));
        }
        if n - 1 < s.drop_first().len() {
            assert(s.drop_first()[n - 1] == s[n]);
        }
        lemma_lead_ws_unique(s.drop_first(), n - 1);
    } else if s.len() > 0 {
        assert(!is_ws(s[0]));
    }
}

/// Characterises `trail_ws` by the last non-whitespace position.
proof fn lemma_trail_ws_unique(s: Seq<char>, n: int)
    requires
        0 <= n <= s.len(),
        forall|k: int| s.len() - n <= k < s.len() ==> is_ws(#[trigger] s[k]),
        n < s.len() ==> !is_ws(s[s.len() - n - 1]),
    ensures
        trail_ws(s) == n,
    decreases s.len(),
{
    if n > 0 {
        assert(is_ws(s[s.len() - 1]));
        let t = s.drop_last();
        assert forall|k: int| t.len() - (n - 1) <= k < t.len() implies is_ws(#[trigger] t[k]) by {
            assert(is_ws(s[k]));
        }
        if n - 1 < t.len() {
            assert(t[t.len() - (n - 1) - 1] == s[s.len() - n - 1]);
        }
        lemma_trail_ws_unique(t, n - 1);
    } else if s.len() > 0 {
        assert(!is_ws(s[s.len() - 1]));
    }
}

/// A text that neither starts nor ends with whitespace is its own trim.
pub proof fn lemma_trim_id(s: Seq<char>)
    requires
        s.len() > 0 ==> !is_ws(s[0]) && !is_ws(s.last()),
    ensures
        trim(s) == s,
{
    lemma_lead_ws_unique(s, 0);
    assert(trim_start(s) =~= s);
    lemma_trail_ws_unique(s, 0);
    assert(trim_end(s) =~= s);
}

/// `str::trim` on a character vector, as the bounds of the kept slice.
pub fn trim_bounds(v: &Vec<char>) -> (r: (usize, usize))
    ensures
        r.0 <= r.1 <= v.len(),
        v@.subrange(r.0 as int, r.1 as int) == trim(v@),
{
    let mut a: usize = 0;
    while a < v.len() && is_whitespace(v[a])
        invariant
            a <= v.len(),
            forall|k: int| 0 <= k < a ==> is_ws(#[trigger] v@[k]),
        decreases v.len() - a,
    {
        a += 1;
    }
    proof {
        lemma_lead_ws_unique(v@, a as int);
    }
    let mut b: usize = v.len();
    while b > a && is_whitespace(v[b - 1])
        invariant
            a <= b <= v.len(),
            forall|k: int| b <= k < v.len() ==> is_ws(#[trigger] v@[k]),
        decreases b,
    {
        b -= 1;
    }
    proof {
        let t = trim_start(v@);
        assert(t =~= v@.skip(a as int));
        let n = v.len() - b;
        assert forall|k: int| t.len() - n <= k < t.len() implies is_ws(#[trigger] t[k]) by {
            assert(t[k] == v@[k + a]);
        }
        if n < t.len() {
            assert(t[t.len() - n - 1] == v@[b - 1]);
        }
        lemma_trail_ws_unique(t, n as int);
        assert(v@.subrange(a as int, b as int) =~= trim(v@));
    }
    (a, b)
}

/// `str::trim`, as a new `String`.
pub fn trim_str(s: &str) -> (r: String)
    ensures
        r@ == trim(s@),
{
    let v = chars_of(s);
    let (a, b) = trim_bounds(&v);
    string_of_range(&v, a, b)
}

// ---------------------------------------------------------------------------
// Searching
// ---------------------------------------------------------------------------

/// `s` contains the character `c`.
pub open spec fn has_char(s: Seq<char>, c: char) -> bool {
    exists|k: int| 0 <= k < s.len() && s[k] == c
}

pub fn contains_char(v: &Vec<char>, c: char) -> (r: bool)
    ensures
        r == has_char(v@, c),
{
    let mut i: usize = 0;
    while i < v.len()
        invariant
            i <= v.len(),
            forall|k: int| 0 <= k < i ==> v@[k] != c,
        decreases v.len() - i,
    {
        if v[i] == c {
            return true;
        }
        i += 1;
    }
    false
}

/// `pat` occurs in `s` at position `k`.
pub open spec fn occurs_at(s: Seq<char>, pat: Seq<char>, k: int) -> bool {
    0 <= k && k + pat.len() <= s.len() && s.subrange(k, k + pat.len()) == pat
}

/// First occurrence of `pat` in `s` at or after `from` (as `str::find` on the suffix).
pub open spec fn find_from(s: Seq<char>, pat: Seq<char>, from: int) -> Option<int> {
    if exists|k: int| from <= k && #[trigger] occurs_at(s, pat, k) {
        Some(choose|k: int| from <= k && occurs_at(s, pat, k) && forall|j: int| from <= j < k ==> !occurs_at(s, pat, j))
    } else {
        None
    }
}

fn occurs_at_exec(v: &Vec<char>, pat: &Vec<char>, k: usize) -> (r: bool)
    requires
        k <= v.len(),
    ensures
        r == occurs_at(v@, pat@, k as int),
{
    if pat.len() > v.len() - k {
        return false;
    }
    let mut j: usize = 0;
    while j < pat.len()
        invariant
            j <= pat.len(),
            k + pat.len() <= v.len(),
            forall|m: int| 0 <= m < j ==> v@[k + m] == pat@[m],
        decreases pat.len() - j,
    {
        if v[k + j] != pat[j] {
            assert(v@.subrange(k as int, k + pat.len())[j as int] != pat@[j as int]);
            return false;
        }
        j += 1;
    }
    assert(v@.subrange(k as int, k + pat.len()) =~= pat@);
    true
}

/// The first position at or after `from` where `pat` occurs.
pub fn find_chars(v: &Vec<char>, pat: &Vec<char>, from: usize) -> (r: Option<usize>)
    requires
        from <= v.len(),
    ensures
        match r {
            Some(k) => find_from(v@, pat@, from as int) == Some(k as int) && from <= k && k + pat.len() <= v.len(),
            None => find_from(v@, pat@, from as int) is None,
        },
{
    let mut k: usize = from;
    loop
        invariant
            from <= k <= v.len(),
            forall|j: int| from <= j < k ==> !occurs_at(v@, pat@, j),
        ensures
            k == v.len(),
            forall|j: int| from <= j <= k ==> !occurs_at(v@, pat@, j),
        decreases v.len() - k,
    {
        if occurs_at_exec(v, pat, k) {
            proof {
                let w = choose|w: int| from <= w && occurs_at(v@, pat@, w) && forall|j: int| from <= j < w ==> !occurs_at(v@, pat@, j);
                if w < k {
                } else if w > k {
                    assert(!occurs_at(v@, pat@, k as int));
                }
            }
            return Some(k);
        }
        if k == v.len() {
            break;
        }
        k += 1;
    }
    assert forall|j: int| from <= j implies !#[trigger] occurs_at(v@, pat@, j) by {
        if j > k {
            assert(j + pat@.len() > v@.len());
        } else {
            assert(from <= j <= k);
        }
    }
    None
}

/// `needle` occurs somewhere in `hay`.
pub open spec fn has_substring(hay: Seq<char>, needle: Seq<char>) -> bool {
    exists|k: int| #[trigger] occurs_at(hay, needle, k)
}

/// `str::contains` for a string needle.
pub fn str_contains(hay: &str, needle: &str) -> (r: bool)
    ensures
        r == has_substring(hay@, needle@),
{
    let h = chars_of(hay);
    let n = chars_of(needle);
    let found = find_chars(&h, &n, 0);
    assert(found is Some <==> find_from(h@, n@, 0) is Some);
    found.is_some()
}

/// `str::starts_with` for a string prefix.
pub fn str_starts_with(s: &str, prefix: &str) -> (r: bool)
    ensures
        r == (prefix@.len() <= s@.len() && s@.take(prefix@.len() as int) == prefix@),
{
    let v = chars_of(s);
    let p = chars_of(prefix);
    if p.len() > v.len() {
        return false;
    }
    let mut i: usize = 0;
    while i < p.len()
        invariant
            i <= p.len() <= v.len(),
            v@ == s@,
            p@ == prefix@,
            forall|j: int| 0 <= j < i ==> v@[j] == p@[j],
        decreases p.len() - i,
    {
        if v[i] != p[i] {
            assert(v@.take(p.len() as int)[i as int] != p@[i as int]);
            return false;
        }
        i += 1;
    }
    assert(v@.take(p.len() as int) =~= p@);
    true
}

// ---------------------------------------------------------------------------
// Decimal rendering
// ---------------------------------------------------------------------------

/// Decimal digits of a natural number (no sign, no leading zeros; "0" for zero).
pub open spec fn decimal(n: nat) -> Seq<char>
    decreases n,
{
    if n < 10 {
        seq![(('0' as u32) + n) as char]
    } else {
        decimal(n / 10).push((('0' as u32) + (n % 10)) as char)
    }
}

fn digit_char(d: u64) -> (c: char)
    requires
        d < 10,
    ensures
        c == (('0' as u32) + d) as char,
{
    let u = 48u8 + d as u8;
    u as char
}

/// Decimal rendering of an unsigned integer (`u64`'s `Display`).
pub fn u64_to_decimal(n: u64) -> (s: String)
    ensures
        s@ == decimal(n as nat),
    decreases n,
{
    if n < 10 {
        let mut s = String::new();
        push_char(&mut s, digit_char(n));
        s
    } else {
        let mut s = u64_to_decimal(n / 10);
        push_char(&mut s, digit_char(n % 10));
        s
    }
}

} // verus!
