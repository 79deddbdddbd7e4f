//! Reading one unfolded content line: `NAME[;PARAM=VALUE]*:VALUE`.
use vstd::prelude::*;
use vstd::string::StringExecFns;
use crate::text::{chars_of, push_char, string_of_range, trim, trim_str};
use crate::trusted::{to_uppercase, upper_text};

verus! {

/// Index of the first `:` outside double quotes, scanning with quote state `q`.
pub open spec fn colon_scan(s: Seq<char>, q: bool) -> Option<int>
    decreases s.len(),
{
    if s.len() == 0 {
        None
    } else if s[0] == '"' {
        shift(colon_scan(s.drop_first(), !q), 1)
    } else if s[0] == ':' && !q {
        Some(0)
    } else {
        shift(colon_scan(s.drop_first(), q), 1)
    }
}

/// An optional position moved right by `n`.
pub open spec fn shift(o: Option<int>, n: int) -> Option<int> {
    match o {
        Some(k) => Some(k + n),
        None => None,
    }
}

/// Position of the first `:` that is not inside a double-quoted string.
pub open spec fn colon_outside_quotes(s: Seq<char>) -> Option<int> {
    colon_scan(s, false)
}

/// `find_colon_outside_quotes`: the (character) position of the first `:` outside
/// double quotes.
pub fn find_colon_outside_quotes(s: &str) -> (r: Option<usize>)
    ensures
        match r {
            Some(k) => colon_outside_quotes(s@) == Some(k as int),
            None => colon_outside_quotes(s@) is None,
        },
{
    let v = chars_of(s);
    let mut q = false;
    let mut i: usize = 0;
    assert(v@.skip(0) =~= v@);
    while i < v.len()
        invariant
            i <= v.len(),
            v@ == s@,
            colon_outside_quotes(v@) == shift(colon_scan(v@.skip(i as int), q), i as int),
        decreases v.len() - i,
    {
        assert(v@.skip(i as int).drop_first() =~= v@.skip(i + 1));
        if v[i] == '"' {
            q = !q;
        } else if v[i] == ':' && !q {
            return Some(i);
        }
        i += 1;
    }
    None
}

/// Splitting on `;` outside double quotes, each piece trimmed; `cur` is the piece read so
/// far, `q` the quote state and `acc` the pieces already closed. A final piece is kept
/// when it is not blank or when some piece came before it.
pub open spec fn split_params_from(s: Seq<char>, cur: Seq<char>, q: bool, acc: Seq<Seq<char>>) -> Seq<Seq<char>>
    decreases s.len(),
{
    if s.len() == 0 {
        if trim(cur).len() > 0 || acc.len() > 0 {
            acc.push(trim(cur))
        } else {
            acc
        }
    } else if s[0] == '"' {
        split_params_from(s.drop_first(), cur.push('"'), !q, acc)
    } else if s[0] == ';' && !q {
        split_params_from(s.drop_first(), Seq::empty(), q, acc.push(trim(cur)))
    } else {
        split_params_from(s.drop_first(), cur.push(s[0]), q, acc)
    }
}

/// The `;`-separated segments of a property's name-and-parameters part.
pub open spec fn split_params_spec(s: Seq<char>) -> Seq<Seq<char>> {
    split_params_from(s, Seq::empty(), false, Seq::empty())
}

/// `split_params`: splits on `;` outside double quotes, trimming each segment.
pub fn split_params(s: &str) -> (r: Vec<String>)
    ensures
        crate::types::str_seq(r@) == split_params_spec(s@),
{
    let v = chars_of(s);
    let mut r: Vec<String> = Vec::new();
    let mut cur = String::new();
    let mut q = false;
    let mut i: usize = 0;
    assert(v@.skip(0) =~= v@);
    assert(crate::types::str_seq(r@) =~= Seq::<Seq<char>>::empty());
    while i < v.len()
        invariant
            i <= v.len(),
            v@ == s@,
            split_params_spec(v@) == split_params_from(v@.skip(i as int), cur@, q, crate::types::str_seq(r@)),
        decreases v.len() - i,
    {
        assert(v@.skip(i as int).drop_first() =~= v@.skip(i + 1));
        let c = v[i];
        if c == '"' {
            q = !q;
            push_char(&mut cur, c);
        } else if c == ';' && !q {
            let t = trim_str(cur.as_str());
            let ghost prev = crate::types::str_seq(r@);
            r.push(t);
            assert(crate::types::str_seq(r@) =~= prev.push(trim(cur@)));
            cur = String::new();
        } else {
            push_char(&mut cur, c);
        }
        i += 1;
    }
    assert(v@.skip(v.len() as int) =~= Seq::<char>::empty());
    let t = trim_str(cur.as_str());
    if !t.as_str().is_empty() || r.len() > 0 {
        let ghost prev = crate::types::str_seq(r@);
        r.push(t);
        assert(crate::types::str_seq(r@) =~= prev.push(trim(cur@)));
    }
    r
}

/// Position of the first occurrence of a character.
pub open spec fn char_pos(s: Seq<char>, c: char) -> Option<int>
    decreases s.len(),
{
    if s.len() == 0 {
        None
    } else if s[0] == c {
        Some(0)
    } else {
        shift(char_pos(s.drop_first(), c), 1)
    }
}

pub proof fn lemma_char_pos(s: Seq<char>, c: char, i: int)
    requires
        0 <= i <= s.len(),
        forall|j: int| 0 <= j < i ==> s[j] != c,
        i < s.len() ==> s[i] == c,
    ensures
        char_pos(s, c) == (if i < s.len() {
            Some(i)
        } else {
            None
        }),
    decreases s.len(),
{
    if s.len() > 0 && i > 0 {
        assert forall|j: int| 0 <= j < i - 1 implies s.drop_first()[j] != c by {
            assert(s.drop_first()[j] == s[j + 1]);
        }
        if i < s.len() {
            assert(s.drop_first()[i - 1] == s[i]);
        }
        lemma_char_pos(s.drop_first(), c, i - 1);
    }
}

/// Where a character first occurs in a vector.
pub fn find_char(v: &Vec<char>, c: char) -> (r: Option<usize>)
    ensures
        match r {
            Some(k) => char_pos(v@, c) == Some(k as int) && k < v.len(),
            None => char_pos(v@, c) is None,
        },
{
    let mut i: usize = 0;
    while i < v.len()
        invariant
            i <= v.len(),
            forall|j: int| 0 <= j < i ==> v@[j] != c,
        decreases v.len() - i,
    {
        if v[i] == c {
            proof {
                lemma_char_pos(v@, c, i as int);
            }
            return Some(i);
        }
        i += 1;
    }
    proof {
        lemma_char_pos(v@, c, v.len() as int);
    }
    None
}

/// The text without leading occurrences of `c`.
pub open spec fn strip_leading(s: Seq<char>, c: char) -> Seq<char>
    decreases s.len(),
{
    if s.len() > 0 && s[0] == c {
        strip_leading(s.drop_first(), c)
    } else {
        s
    }
}

/// `str::trim_matches(c)`: the text without leading and trailing occurrences of `c`.
pub open spec fn trim_char(s: Seq<char>, c: char) -> Seq<char> {
    crate::mapper::fields::strip_trailing(strip_leading(s, c), c)
}

/// `trim_matches(c)` on `v[from..to]`, as a new `String`.
pub fn trim_char_range(v: &Vec<char>, from: usize, to: usize, c: char) -> (r: String)
    requires
        from <= to <= v.len(),
    ensures
        r@ == trim_char(v@.subrange(from as int, to as int), c),
{
    let ghost whole = v@.subrange(from as int, to as int);
    let mut a = from;
    assert(v@.subrange(a as int, to as int) =~= whole);
    while a < to && v[a] == c
        invariant
            from <= a <= to <= v.len(),
            whole == v@.subrange(from as int, to as int),
            strip_leading(whole, c) == strip_leading(v@.subrange(a as int, to as int), c),
        decreases to - a,
    {
        assert(v@.subrange(a as int, to as int).drop_first() =~= v@.subrange(a + 1, to as int));
        a += 1;
    }
    let ghost lead = v@.subrange(a as int, to as int);
    assert(strip_leading(lead, c) == lead);
    let mut b = to;
    assert(v@.subrange(a as int, b as int) =~= lead);
    while b > a && v[b - 1] == c
        invariant
            a <= b <= to <= v.len(),
            lead == v@.subrange(a as int, to as int),
            crate::mapper::fields::strip_trailing(lead, c) == crate::mapper::fields::strip_trailing(
                v@.subrange(a as int, b as int),
                c,
            ),
        decreases b,
    {
        assert(v@.subrange(a as int, b as int).drop_last() =~= v@.subrange(a as int, b - 1));
        b -= 1;
    }
    let ghost kept = v@.subrange(a as int, b as int);
    assert(crate::mapper::fields::strip_trailing(kept, c) == kept);
    string_of_range(v, a, b)
}

/// A parameter segment read as `(KEY, value)`: the key upper-cased and the value's
/// surrounding quotes removed; a segment without `=` is a key with an empty value.
pub open spec fn param_of(seg: Seq<char>) -> (Seq<char>, Seq<char>) {
    match char_pos(seg, '=') {
        Some(e) => (upper_text(seg.take(e)), trim_char(seg.skip(e + 1), '"')),
        None => (upper_text(seg), Seq::empty()),
    }
}

/// The parameters of segments after the name.
pub open spec fn params_of(segs: Seq<Seq<char>>) -> Seq<(Seq<char>, Seq<char>)> {
    segs.map_values(|g: Seq<char>| param_of(g))
}

/// A content line read as (upper-cased name, parameters, value), or nothing when it has no
/// `:` outside quotes or no name part.
pub open spec fn property_line_spec(line: Seq<char>) -> Option<(Seq<char>, Seq<(Seq<char>, Seq<char>)>, Seq<char>)> {
    match colon_outside_quotes(line) {
        None => None,
        Some(c) => {
            let segs = split_params_spec(line.take(c));
            if segs.len() == 0 {
                None
            } else {
                Some((upper_text(segs[0]), params_of(segs.drop_first()), line.skip(c + 1)))
            }
        },
    }
}

/// View of a parsed property line.
pub open spec fn parsed_line_view(r: Option<(String, Vec<(String, String)>, String)>) -> Option<
    (Seq<char>, Seq<(Seq<char>, Seq<char>)>, Seq<char>),
> {
    match r {
        Some(t) => Some((t.0@, crate::types::params_view(t.1@), t.2@)),
        None => None,
    }
}

/// `parse_property_line`: splits an unfolded content line into its upper-cased name, its
/// parameters and its value.
pub fn parse_property_line(line: &str) -> (r: Option<(String, Vec<(String, String)>, String)>)
    ensures
        parsed_line_view(r) == property_line_spec(line@),
{
    let colon = match find_colon_outside_quotes(line) {
        Some(c) => c,
        None => return None,
    };
    let v = chars_of(line);
    proof {
        assert(colon_scan(v@, false) is Some);
        lemma_colon_in_range(v@, false);
    }
    let left = string_of_range(&v, 0, colon);
    let value = string_of_range(&v, colon + 1, v.len());
    assert(v@.subrange(0, colon as int) =~= v@.take(colon as int));
    assert(v@.subrange(colon + 1, v.len() as int) =~= v@.skip(colon + 1));
    let segments = split_params(left.as_str());
    if segments.len() == 0 {
        return None;
    }
    let name = to_uppercase(segments[0].as_str());
    let ghost segs = crate::types::str_seq(segments@);
    let mut params: Vec<(String, String)> = Vec::new();
    let mut i: usize = 1;
    while i < segments.len()
        invariant
            1 <= i <= segments.len(),
            segs == crate::types::str_seq(segments@),
            crate::types::params_view(params@) == params_of(segs.drop_first().take(i - 1)),
        decreases segments.len() - i,
    {
        let sv = chars_of(segments[i].as_str());
        let p = match find_char(&sv, '=') {
            Some(e) => {
                let k = string_of_range(&sv, 0, e);
                assert(sv@.subrange(0, e as int) =~= sv@.take(e as int));
                let key = to_uppercase(k.as_str());
                let val = trim_char_range(&sv, e + 1, sv.len(), '"');
                assert(sv@.subrange(e + 1, sv.len() as int) =~= sv@.skip(e + 1));
                (key, val)
            },
            None => (to_uppercase(segments[i].as_str()), String::new()),
        };
        let ghost prev = crate::types::params_view(params@);
        params.push(p);
        assert(segs.drop_first().take(i as int) =~= segs.drop_first().take(i - 1).push(segs[i as int]));
        assert(crate::types::params_view(params@) =~= prev.push(param_of(segs[i as int])));
        assert(params_of(segs.drop_first().take(i as int)) =~= params_of(segs.drop_first().take(i - 1)).push(
            param_of(segs[i as int]),
        ));
        i += 1;
    }
    assert(segs.drop_first().take(segments.len() - 1) =~= segs.drop_first());
    Some((name, params, value))
}

proof fn lemma_colon_in_range(s: Seq<char>, q: bool)
    ensures
        colon_scan(s, q) matches Some(k) ==> 0 <= k < s.len() && s[k] == ':',
    decreases s.len(),
{
    if s.len() > 0 {
        if s[0] == '"' {
            lemma_colon_in_range(s.drop_first(), !q);
        } else if !(s[0] == ':' && !q) {
            lemma_colon_in_range(s.drop_first(), q);
        }
    }
}

} // verus!
