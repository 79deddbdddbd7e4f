//! RFC 5545 content-line text handling: TEXT escaping, line folding and unfolding,
//! and the splitting of comma-separated values.
use vstd::prelude::*;
use vstd::string::StringExecFns;
use crate::text::{chars_of, push_char, string_of_range};

verus! {

// ---------------------------------------------------------------------------
// TEXT escaping
// ---------------------------------------------------------------------------

/// How one character is written in an iCalendar TEXT value.
pub open spec fn escape_char(c: char) -> Seq<char> {
    if c == '\\' {
        seq!['\\', '\\']
    } else if c == ';' {
        seq!['\\', ';']
    } else if c == ',' {
        seq!['\\', ',']
    } else if c == '\n' {
        seq!['\\', 'n']
    } else if c == '\r' {
        Seq::empty()
    } else {
        seq![c]
    }
}

/// RFC 5545 TEXT escaping: `\` to `\\`, `;` to `\;`, `,` to `\,`, newline to `\n`;
/// a bare carriage return is dropped.
pub open spec fn escape_spec(s: Seq<char>) -> Seq<char>
    decreases s.len(),
{
    if s.len() == 0 {
        Seq::empty()
    } else {
        escape_char(s[0]) + escape_spec(s.drop_first())
    }
}

/// What an escape pair `\d` stands for.
pub open spec fn unescape_pair(d: char) -> Seq<char> {
    if d == 'n' || d == 'N' {
        seq!['\n']
    } else if d == ',' {
        seq![',']
    } else if d == ';' {
        seq![';']
    } else if d == '\\' {
        seq!['\\']
    } else {
        seq!['\\', d]
    }
}

/// RFC 5545 TEXT unescaping: `\n` and `\N` to newline, `\,` `\;` `\\` to the character;
/// any other pair is kept as written and a lone trailing `\` stays.
pub open spec fn unescape_spec(s: Seq<char>) -> Seq<char>
    decreases s.len(),
{
    if s.len() == 0 {
        Seq::empty()
    } else if s[0] == '\\' {
        if s.len() == 1 {
            seq!['\\']
        } else {
            unescape_pair(s[1]) + unescape_spec(s.skip(2))
        }
    } else {
        seq![s[0]] + unescape_spec(s.drop_first())
    }
}

/// The text with every carriage return removed.
pub open spec fn without_cr(s: Seq<char>) -> Seq<char>
    decreases s.len(),
{
    if s.len() == 0 {
        Seq::empty()
    } else if s[0] == '\r' {
        without_cr(s.drop_first())
    } else {
        seq![s[0]] + without_cr(s.drop_first())
    }
}

proof fn lemma_skip_step<A>(s: Seq<A>, i: int)
    requires
        0 <= i < s.len(),
    ensures
        s.skip(i).drop_first() == s.skip(i + 1),
        s.skip(i)[0] == s[i],
{
    assert(s.skip(i).drop_first() =~= s.skip(i + 1));
}

proof fn lemma_skip_two<A>(s: Seq<A>, i: int)
    requires
        0 <= i,
        i + 2 <= s.len(),
    ensures
        s.skip(i).skip(2) == s.skip(i + 2),
        s.skip(i)[1] == s[i + 1],
{
    assert(s.skip(i).skip(2) =~= s.skip(i + 2));
}

/// `escape_text`: RFC 5545 TEXT escaping.
pub fn escape_text(s: &str) -> (r: String)
    ensures
        r@ == escape_spec(s@),
{
    let v = chars_of(s);
    let mut r = String::new();
    let mut i: usize = 0;
    assert(v@.skip(0) =~= v@);
    while i < v.len()
        invariant
            i <= v.len(),
            v@ == s@,
            escape_spec(v@) == r@ + escape_spec(v@.skip(i as int)),
        decreases v.len() - i,
    {
        let c = v[i];
        let ghost before = r@;
        proof {
            lemma_skip_step(v@, i as int);
        }
        if c == '\\' {
            push_char(&mut r, '\\');
            push_char(&mut r, '\\');
        } else if c == ';' {
            push_char(&mut r, '\\');
            push_char(&mut r, ';');
        } else if c == ',' {
            push_char(&mut r, '\\');
            push_char(&mut r, ',');
        } else if c == '\n' {
            push_char(&mut r, '\\');
            push_char(&mut r, 'n');
        } else if c == '\r' {
        } else {
            push_char(&mut r, c);
        }
        assert(r@ =~= before + escape_char(c));
        assert(before + escape_spec(v@.skip(i as int)) =~= r@ + escape_spec(v@.skip(i + 1)));
        i += 1;
    }
    assert(r@ + escape_spec(v@.skip(v.len() as int)) =~= r@);
    r
}

/// `unescape_text`: RFC 5545 TEXT unescaping.
pub fn unescape_text(s: &str) -> (r: String)
    ensures
        r@ == unescape_spec(s@),
{
    let v = chars_of(s);
    let mut r = String::new();
    let mut i: usize = 0;
    assert(v@.skip(0) =~= v@);
    while i < v.len()
        invariant
            i <= v.len(),
            v@ == s@,
            unescape_spec(v@) == r@ + unescape_spec(v@.skip(i as int)),
        decreases v.len() - i,
    {
        let c = v[i];
        let ghost before = r@;
        proof {
            lemma_skip_step(v@, i as int);
        }
        if c == '\\' {
            if i + 1 < v.len() {
                let d = v[i + 1];
                proof {
                    lemma_skip_two(v@, i as int);
                }
                if d == 'n' || d == 'N' {
                    push_char(&mut r, '\n');
                } else if d == ',' {
                    push_char(&mut r, ',');
                } else if d == ';' {
                    push_char(&mut r, ';');
                } else if d == '\\' {
                    push_char(&mut r, '\\');
                } else {
                    push_char(&mut r, '\\');
                    push_char(&mut r, d);
                }
                assert(r@ =~= before + unescape_pair(d));
                assert(before + unescape_spec(v@.skip(i as int)) =~= r@ + unescape_spec(v@.skip(i + 2)));
                i += 2;
            } else {
                push_char(&mut r, '\\');
                assert(v@.skip(i + 1) =~= Seq::<char>::empty());
                assert(before + unescape_spec(v@.skip(i as int)) =~= r@ + unescape_spec(v@.skip(i + 1)));
                i += 1;
            }
        } else {
            push_char(&mut r, c);
            assert(before + unescape_spec(v@.skip(i as int)) =~= r@ + unescape_spec(v@.skip(i + 1)));
            i += 1;
        }
    }
    assert(r@ + unescape_spec(v@.skip(v.len() as int)) =~= r@);
    r
}

proof fn lemma_unescape_escaped_char(c: char, t: Seq<char>)
    ensures
        unescape_spec(escape_char(c) + t) == (if c == '\r' {
            Seq::<char>::empty()
        } else {
            seq![c]
        }) + unescape_spec(t),
{
    let e = escape_char(c);
    let s = e + t;
    if c == '\r' {
        assert(s =~= t);
        assert(Seq::<char>::empty() + unescape_spec(t) =~= unescape_spec(t));
    } else if e.len() == 1 {
        assert(s[0] == c);
        assert(s.drop_first() =~= t);
    } else {
        assert(s[0] == '\\');
        assert(s[1] == e[1]);
        assert(s.skip(2) =~= t);
    }
}

/// Unescaping undoes escaping, except that carriage returns, which escaping drops,
/// do not come back.
pub proof fn lemma_unescape_escape(s: Seq<char>)
    ensures
        unescape_spec(escape_spec(s)) == without_cr(s),
    decreases s.len(),
{
    if s.len() > 0 {
        lemma_unescape_escape(s.drop_first());
        lemma_unescape_escaped_char(s[0], escape_spec(s.drop_first()));
        if s[0] == '\r' {
            assert(Seq::<char>::empty() + without_cr(s.drop_first()) =~= without_cr(s.drop_first()));
        }
    }
}

// ---------------------------------------------------------------------------
// Line unfolding
// ---------------------------------------------------------------------------

/// Characters that continue a folded line.
pub open spec fn is_fold_space(c: char) -> bool {
    c == ' ' || c == '\t'
}

/// RFC 5545 unfolding: a line break (CRLF, lone CR or lone LF) followed by a space or tab
/// is removed together with that space or tab; any other line break becomes one `\n`.
pub open spec fn unfold_spec(s: Seq<char>) -> Seq<char>
    decreases s.len(),
{
    if s.len() == 0 {
        Seq::empty()
    } else {
        let t = s.drop_first();
        if s[0] == '\r' {
            let t2 = if t.len() > 0 && t[0] == '\n' {
                t.drop_first()
            } else {
                t
            };
            if t2.len() > 0 && is_fold_space(t2[0]) {
                unfold_spec(t2.drop_first())
            } else {
                seq!['\n'] + unfold_spec(t2)
            }
        } else if s[0] == '\n' {
            if t.len() > 0 && is_fold_space(t[0]) {
                unfold_spec(t.drop_first())
            } else {
                seq!['\n'] + unfold_spec(t)
            }
        } else {
            seq![s[0]] + unfold_spec(t)
        }
    }
}

/// `unfold_lines`: RFC 5545 §3.1 unfolding of CRLF (or LF) followed by a space or tab;
/// other line breaks come out as `\n`.
pub fn unfold_lines(s: &str) -> (r: String)
    ensures
        r@ == unfold_spec(s@),
{
    let v = chars_of(s);
    let n = v.len();
    let mut r = String::new();
    let mut i: usize = 0;
    assert(v@.skip(0) =~= v@);
    while i < n
        invariant
            i <= n == v.len(),
            v@ == s@,
            unfold_spec(v@) == r@ + unfold_spec(v@.skip(i as int)),
        decreases n - i,
    {
        let c = v[i];
        let ghost before = r@;
        let ghost rest = v@.skip(i as int);
        proof {
            lemma_skip_step(v@, i as int);
        }
        if c == '\r' {
            let mut j = i + 1;
            if j < n && v[j] == '\n' {
                proof {
                    lemma_skip_step(v@, j as int);
                }
                j += 1;
            }
            assert(v@.skip(j as int) == (if rest.drop_first().len() > 0 && rest.drop_first()[0] == '\n' {
                rest.drop_first().drop_first()
            } else {
                rest.drop_first()
            }));
            if j < n && (v[j] == ' ' || v[j] == '\t') {
                proof {
                    lemma_skip_step(v@, j as int);
                }
                i = j + 1;
            } else {
                push_char(&mut r, '\n');
                assert(before + unfold_spec(rest) =~= r@ + unfold_spec(v@.skip(j as int)));
                i = j;
            }
        } else if c == '\n' {
            if i + 1 < n && (v[i + 1] == ' ' || v[i + 1] == '\t') {
                proof {
                    lemma_skip_step(v@, i + 1);
                }
                i = i + 2;
            } else {
                push_char(&mut r, '\n');
                assert(before + unfold_spec(rest) =~= r@ + unfold_spec(v@.skip(i + 1)));
                i = i + 1;
            }
        } else {
            push_char(&mut r, c);
            assert(before + unfold_spec(rest) =~= r@ + unfold_spec(v@.skip(i + 1)));
            i = i + 1;
        }
    }
    assert(r@ + unfold_spec(v@.skip(n as int)) =~= r@);
    r
}

// ---------------------------------------------------------------------------
// Line folding
// ---------------------------------------------------------------------------

/// Number of UTF-8 bytes that encode a character.
pub open spec fn utf8_width(c: char) -> nat {
    if (c as u32) < 0x80 {
        1
    } else if (c as u32) < 0x800 {
        2
    } else if (c as u32) < 0x10000 {
        3
    } else {
        4
    }
}

/// Length in UTF-8 bytes.
pub open spec fn byte_len(s: Seq<char>) -> nat
    decreases s.len(),
{
    if s.len() == 0 {
        0
    } else {
        utf8_width(s[0]) + byte_len(s.drop_first())
    }
}

/// How many leading characters fit, whole, in `max` bytes.
pub open spec fn fit_count(s: Seq<char>, max: nat) -> nat
    decreases s.len(),
{
    if s.len() == 0 || utf8_width(s[0]) > max {
        0
    } else {
        1 + fit_count(s.drop_first(), (max - utf8_width(s[0])) as nat)
    }
}

/// Folding of the text that starts a physical line of at most `max` bytes: when it does not
/// fit, it is cut at the last character boundary within `max` bytes, and the rest follows
/// after CRLF and one space, in physical lines of at most 75 bytes.
pub open spec fn fold_body(s: Seq<char>, max: nat) -> Seq<char>
    decreases s.len(),
{
    let k = fit_count(s, max);
    if k >= s.len() || k == 0 {
        s
    } else {
        s.take(k as int) + seq!['\r', '\n', ' '] + fold_body(s.skip(k as int), 74)
    }
}

/// RFC 5545 folding of a content line at 75 octets.
pub open spec fn fold_spec(line: Seq<char>) -> Seq<char> {
    fold_body(line, 75)
}

/// UTF-8 width of a character.
pub fn char_width(c: char) -> (w: usize)
    ensures
        w == utf8_width(c),
{
    let n = c as u32;
    if n < 0x80 {
        1
    } else if n < 0x800 {
        2
    } else if n < 0x10000 {
        3
    } else {
        4
    }
}

proof fn lemma_fit_count_le(s: Seq<char>, max: nat)
    ensures
        fit_count(s, max) <= s.len(),
    decreases s.len(),
{
    if s.len() > 0 && utf8_width(s[0]) <= max {
        lemma_fit_count_le(s.drop_first(), (max - utf8_width(s[0])) as nat);
    }
}

/// `fold_line`: folds a content line at 75 octets, inserting CRLF and a space at UTF-8
/// character boundaries (75 bytes in the first physical line, 74 after the space).
pub fn fold_line(line: &str) -> (r: String)
    ensures
        r@ == fold_spec(line@),
{
    let v = chars_of(line);
    let n = v.len();
    let mut r = String::new();
    let mut pos: usize = 0;
    let mut max: usize = 75;
    assert(v@.skip(0) =~= v@);
    loop
        invariant
            pos <= n == v.len(),
            v@ == line@,
            max == 75 || max == 74,
            fold_spec(v@) == r@ + fold_body(v@.skip(pos as int), max as nat),
        decreases n - pos,
    {
        let ghost rest = v@.skip(pos as int);
        let mut j: usize = pos;
        let mut budget: usize = max;
        while j < n && char_width(v[j]) <= budget
            invariant
                pos <= j <= n == v.len(),
                budget <= max,
                rest == v@.skip(pos as int),
                fit_count(rest, max as nat) == (j - pos) + fit_count(v@.skip(j as int), budget as nat),
            decreases n - j,
        {
            proof {
                lemma_skip_step(v@, j as int);
            }
            budget = budget - char_width(v[j]);
            j += 1;
        }
        proof {
            if j < n {
                lemma_skip_step(v@, j as int);
            }
            assert(fit_count(v@.skip(j as int), budget as nat) == 0);
            lemma_fit_count_le(rest, max as nat);
        }
        let k = j - pos;
        if k >= n - pos || k == 0 {
            let seg = string_of_range(&v, pos, n);
            assert(v@.subrange(pos as int, n as int) =~= rest);
            r.append(seg.as_str());
            return r;
        }
        let seg = string_of_range(&v, pos, j);
        assert(v@.subrange(pos as int, j as int) =~= rest.take(k as int));
        assert(rest.skip(k as int) =~= v@.skip(j as int));
        let ghost before = r@;
        r.append(seg.as_str());
        push_char(&mut r, '\r');
        push_char(&mut r, '\n');
        push_char(&mut r, ' ');
        assert(before + fold_body(rest, max as nat) =~= r@ + fold_body(v@.skip(j as int), 74));
        pos = j;
        max = 74;
    }
}

proof fn lemma_unfold_plain_prefix(a: Seq<char>, b: Seq<char>)
    requires
        forall|i: int| 0 <= i < a.len() ==> a[i] != '\r' && a[i] != '\n',
    ensures
        unfold_spec(a + b) == a + unfold_spec(b),
    decreases a.len(),
{
    if a.len() > 0 {
        let s = a + b;
        assert(s[0] == a[0]);
        assert(s.drop_first() =~= a.drop_first() + b);
        lemma_unfold_plain_prefix(a.drop_first(), b);
        assert(seq![a[0]] + (a.drop_first() + unfold_spec(b)) =~= a + unfold_spec(b));
    } else {
        assert(a + b =~= b);
    }
}

proof fn lemma_unfold_fold_break(b: Seq<char>)
    ensures
        unfold_spec(seq!['\r', '\n', ' '] + b) == unfold_spec(b),
{
    let s = seq!['\r', '\n', ' '] + b;
    assert(s.drop_first().drop_first().drop_first() =~= b);
}

proof fn lemma_unfold_fold_body(s: Seq<char>, max: nat)
    requires
        forall|i: int| 0 <= i < s.len() ==> s[i] != '\r' && s[i] != '\n',
    ensures
        unfold_spec(fold_body(s, max)) == s,
    decreases s.len(),
{
    let k = fit_count(s, max);
    if k >= s.len() || k == 0 {
        lemma_unfold_plain_prefix(s, Seq::empty());
        assert(s + Seq::<char>::empty() =~= s);
    } else {
        let rest = s.skip(k as int);
        lemma_unfold_fold_body(rest, 74);
        lemma_unfold_fold_break(fold_body(rest, 74));
        let a = s.take(k as int);
        assert(s.take(k as int) + seq!['\r', '\n', ' '] + fold_body(rest, 74) =~= a + (seq!['\r', '\n', ' '] + fold_body(rest, 74)));
        lemma_unfold_plain_prefix(a, seq!['\r', '\n', ' '] + fold_body(rest, 74));
        assert(a + rest =~= s);
    }
}

/// Unfolding gives back a folded line, for any line without line breaks of its own.
pub proof fn lemma_unfold_fold(line: Seq<char>)
    requires
        forall|i: int| 0 <= i < line.len() ==> line[i] != '\r' && line[i] != '\n',
    ensures
        unfold_spec(fold_spec(line)) == line,
{
    lemma_unfold_fold_body(line, 75);
}

// ---------------------------------------------------------------------------
// Comma-separated values
// ---------------------------------------------------------------------------

/// Splitting on unescaped commas, with `cur` the piece read so far: a backslash keeps the
/// character after it in the piece.
pub open spec fn split_commas_from(s: Seq<char>, cur: Seq<char>) -> Seq<Seq<char>>
    decreases s.len(),
{
    if s.len() == 0 {
        seq![cur]
    } else if s[0] == '\\' {
        if s.len() >= 2 {
            split_commas_from(s.skip(2), cur + s.take(2))
        } else {
            split_commas_from(s.skip(1), cur + s.take(1))
        }
    } else if s[0] == ',' {
        seq![cur] + split_commas_from(s.drop_first(), Seq::empty())
    } else {
        split_commas_from(s.drop_first(), cur.push(s[0]))
    }
}

/// The pieces of a value between unescaped commas, escapes kept as written.
pub open spec fn split_commas_spec(s: Seq<char>) -> Seq<Seq<char>> {
    split_commas_from(s, Seq::empty())
}

/// `split_on_unescaped_commas`: splits a value on commas not escaped by a backslash; the
/// pieces keep their escapes.
pub fn split_on_unescaped_commas(s: &str) -> (r: Vec<String>)
    ensures
        crate::types::str_seq(r@) == split_commas_spec(s@),
{
    let v = chars_of(s);
    let n = v.len();
    let mut r: Vec<String> = Vec::new();
    let mut start: usize = 0;
    let mut i: usize = 0;
    assert(v@.skip(0) =~= v@);
    assert(v@.subrange(0, 0) =~= Seq::<char>::empty());
    while i < n
        invariant
            start <= i <= n == v.len(),
            v@ == s@,
            split_commas_spec(v@) == crate::types::str_seq(r@) + split_commas_from(
                v@.skip(i as int),
                v@.subrange(start as int, i as int),
            ),
        decreases n - i,
    {
        let ghost rest = v@.skip(i as int);
        let ghost cur = v@.subrange(start as int, i as int);
        proof {
            lemma_skip_step(v@, i as int);
        }
        if v[i] == '\\' {
            if i + 1 < n {
                proof {
                    lemma_skip_two(v@, i as int);
                }
                assert(cur + rest.take(2) =~= v@.subrange(start as int, i + 2));
                i += 2;
            } else {
                assert(rest.skip(1) =~= v@.skip(i + 1));
                assert(cur + rest.take(1) =~= v@.subrange(start as int, i + 1));
                i += 1;
            }
        } else if v[i] == ',' {
            let piece = string_of_range(&v, start, i);
            let ghost prev = crate::types::str_seq(r@);
            r.push(piece);
            assert(crate::types::str_seq(r@) =~= prev.push(cur));
            assert(v@.subrange((i + 1) as int, (i + 1) as int) =~= Seq::<char>::empty());
            assert(prev + (seq![cur] + split_commas_from(v@.skip(i + 1), Seq::empty())) =~= prev.push(cur)
                + split_commas_from(v@.skip(i + 1), Seq::empty()));
            i += 1;
            start = i;
        } else {
            assert(cur.push(v@[i as int]) =~= v@.subrange(start as int, i + 1));
            i += 1;
        }
    }
    let piece = string_of_range(&v, start, n);
    let ghost prev = crate::types::str_seq(r@);
    r.push(piece);
    assert(v@.skip(n as int) =~= Seq::<char>::empty());
    assert(crate::types::str_seq(r@) =~= prev + seq![v@.subrange(start as int, n as int)]);
    r
}

/// Commas joining pieces.
pub open spec fn join_commas(ps: Seq<Seq<char>>) -> Seq<char>
    decreases ps.len(),
{
    if ps.len() == 0 {
        Seq::empty()
    } else if ps.len() == 1 {
        ps[0]
    } else {
        ps[0] + seq![','] + join_commas(ps.drop_first())
    }
}

/// Each piece escaped.
pub open spec fn escape_all(ps: Seq<Seq<char>>) -> Seq<Seq<char>> {
    ps.map_values(|p: Seq<char>| escape_spec(p))
}

proof fn lemma_split_over_escaped(p: Seq<char>, t: Seq<char>, cur: Seq<char>)
    ensures
        split_commas_from(escape_spec(p) + t, cur) == split_commas_from(t, cur + escape_spec(p)),
    decreases p.len(),
{
    if p.len() == 0 {
        assert(escape_spec(p) + t =~= t);
        assert(cur + escape_spec(p) =~= cur);
    } else {
        let c = p[0];
        let e = escape_char(c);
        let rest = escape_spec(p.drop_first()) + t;
        let s = escape_spec(p) + t;
        assert(s =~= e + rest);
        if c == '\r' {
            assert(e + rest =~= rest);
            lemma_split_over_escaped(p.drop_first(), t, cur);
            assert(cur + escape_spec(p) =~= cur + escape_spec(p.drop_first()));
        } else if e.len() == 1 {
            assert(s[0] == c);
            assert(s.drop_first() =~= rest);
            lemma_split_over_escaped(p.drop_first(), t, cur.push(c));
            assert(cur.push(c) + escape_spec(p.drop_first()) =~= cur + escape_spec(p));
        } else {
            assert(s[0] == '\\');
            assert(s.skip(2) =~= rest);
            assert(s.take(2) =~= e);
            lemma_split_over_escaped(p.drop_first(), t, cur + e);
            assert(cur + e + escape_spec(p.drop_first()) =~= cur + escape_spec(p));
        }
    }
}

/// Escaped pieces joined by commas split back into the same escaped pieces: an escaped
/// comma never splits a piece.
pub proof fn lemma_split_join_escaped(ps: Seq<Seq<char>>)
    requires
        ps.len() > 0,
    ensures
        split_commas_spec(join_commas(escape_all(ps))) == escape_all(ps),
    decreases ps.len(),
{
    let es = escape_all(ps);
    if ps.len() == 1 {
        lemma_split_over_escaped(ps[0], Seq::empty(), Seq::empty());
        assert(escape_spec(ps[0]) + Seq::<char>::empty() =~= escape_spec(ps[0]));
        assert(Seq::<char>::empty() + escape_spec(ps[0]) =~= escape_spec(ps[0]));
        assert(es =~= seq![escape_spec(ps[0])]);
    } else {
        let tail = ps.drop_first();
        lemma_split_join_escaped(tail);
        assert(escape_all(tail) =~= es.drop_first());
        let t = seq![','] + join_commas(escape_all(tail));
        assert(join_commas(es) =~= escape_spec(ps[0]) + t);
        lemma_split_over_escaped(ps[0], t, Seq::empty());
        assert(Seq::<char>::empty() + escape_spec(ps[0]) =~= escape_spec(ps[0]));
        assert(t.drop_first() =~= join_commas(escape_all(tail)));
        assert(es =~= seq![escape_spec(ps[0])] + escape_all(tail));
    }
}

} // verus!
