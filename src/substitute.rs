use vstd::prelude::*;
use vstd::string::*;

use crate::text::chars_of;

verus! {

/// The attribute assignment that stands for "use the palette color here".
pub open spec fn marker() -> Seq<char> {
    "fill=\"currentColor\""@
}

/// `c` without one leading `#`, if it has one.
pub open spec fn strip_hash(c: Seq<char>) -> Seq<char> {
    if c.len() > 0 && c[0] == '#' {
        c.skip(1)
    } else {
        c
    }
}

/// The attribute assignment that takes the marker's place for color `c`.
pub open spec fn replacement(c: Seq<char>) -> Seq<char> {
    "fill=\"#"@ + strip_hash(c) + "\""@
}

/// Whether `m` occurs in `t` at position `i`.
pub open spec fn occurs_at(t: Seq<char>, m: Seq<char>, i: int) -> bool {
    0 <= i && i + m.len() <= t.len() && t.subrange(i, i + m.len()) == m
}

/// Whether `m` occurs anywhere in `t`.
pub open spec fn occurs(t: Seq<char>, m: Seq<char>) -> bool {
    exists|i: int| occurs_at(t, m, i)
}

/// `t` with every occurrence of `m` replaced by `r`, scanning left to right
/// and never looking inside a replaced occurrence again.
pub open spec fn replace_all(t: Seq<char>, m: Seq<char>, r: Seq<char>) -> Seq<char>
    decreases t.len(),
{
    if m.len() == 0 || t.len() < m.len() {
        t
    } else if t.take(m.len() as int) == m {
        r + replace_all(t.skip(m.len() as int), m, r)
    } else {
        seq![t[0]] + replace_all(t.skip(1), m, r)
    }
}

/// The document text `t` with the marker replaced by color `c` everywhere.
pub open spec fn substituted(t: Seq<char>, c: Seq<char>) -> Seq<char> {
    replace_all(t, marker(), replacement(c))
}

/// Where `m` does not occur in `t`, replacing it changes nothing.
pub proof fn lemma_replace_absent(t: Seq<char>, m: Seq<char>, r: Seq<char>)
    requires
        !occurs(t, m),
    ensures
        replace_all(t, m, r) == t,
    decreases t.len(),
{
    if m.len() > 0 && t.len() >= m.len() {
        assert(!occurs_at(t, m, 0));
        assert(t.subrange(0, m.len() as int) =~= t.take(m.len() as int));
        assert(!occurs(t.skip(1), m)) by {
            if occurs(t.skip(1), m) {
                let i = choose|i: int| occurs_at(t.skip(1), m, i);
                assert(t.skip(1).subrange(i, i + m.len()) =~= t.subrange(i + 1, i + 1 + m.len()));
                assert(occurs_at(t, m, i + 1));
            }
        }
        lemma_replace_absent(t.skip(1), m, r);
        assert(seq![t[0]] + t.skip(1) =~= t);
    }
}

/// A document without the marker comes out of the substitution unchanged.
pub proof fn law_substitution_without_marker(t: Seq<char>, c: Seq<char>)
    requires
        !occurs(t, marker()),
    ensures
        substituted(t, c) == t,
{
    lemma_replace_absent(t, marker(), replacement(c));
}

/// A marker at the front is replaced by the color's assignment, and the
/// substitution goes on with the text after it.
pub proof fn law_substitution_replaces_marker(rest: Seq<char>, c: Seq<char>)
    ensures
        substituted(marker() + rest, c) == replacement(c) + substituted(rest, c),
{
    reveal_strlit("fill=\"currentColor\"");
    let t = marker() + rest;
    assert(t.take(marker().len() as int) =~= marker());
    assert(t.skip(marker().len() as int) =~= rest);
}

/// Where no marker starts at the front, the first character is kept and the
/// substitution goes on with the text after it.
pub proof fn law_substitution_keeps_other_text(t: Seq<char>, c: Seq<char>)
    requires
        t.len() > 0,
        !occurs_at(t, marker(), 0),
    ensures
        substituted(t, c) == seq![t[0]] + substituted(t.skip(1), c),
{
    reveal_strlit("fill=\"currentColor\"");
    if t.len() < marker().len() {
        assert(seq![t[0]] + t.skip(1) =~= t);
        assert(substituted(t.skip(1), c) == t.skip(1));
    } else {
        assert(t.subrange(0, marker().len() as int) =~= t.take(marker().len() as int));
    }
}

/// Whether `ch` is a hexadecimal digit.
pub open spec fn is_hex_digit(ch: char) -> bool {
    ('0' <= ch && ch <= '9') || ('a' <= ch && ch <= 'f') || ('A' <= ch && ch <= 'F')
}

/// Whether every character of `c` is a hexadecimal digit.
pub open spec fn is_hex(c: Seq<char>) -> bool {
    forall|i: int| 0 <= i < c.len() ==> is_hex_digit(#[trigger] c[i])
}

proof fn lemma_marker_chars()
    ensures
        marker().len() == 19,
        marker()[0] == 'f',
        marker()[1] == 'i',
        marker()[6] == 'c',
        forall|k: int| 1 <= k < 19 ==> #[trigger] marker()[k] != 'f',
{
    reveal_strlit("fill=\"currentColor\"");
}

proof fn lemma_replacement_chars(c: Seq<char>)
    requires
        is_hex(strip_hash(c)),
    ensures
        replacement(c).len() == 8 + strip_hash(c).len(),
        replacement(c)[0] == 'f',
        replacement(c)[6] == '#',
        forall|p: int|
            1 <= p < replacement(c).len() && #[trigger] replacement(c)[p] == 'f' ==> p + 1
                < replacement(c).len() && replacement(c)[p + 1] != 'i',
{
    reveal_strlit("fill=\"#");
    reveal_strlit("\"");
    let h = strip_hash(c);
    let r = replacement(c);
    assert forall|p: int| 1 <= p < r.len() && #[trigger] r[p] == 'f' implies p + 1 < r.len()
        && r[p + 1] != 'i' by {
        if p < 7 {
            assert(r[p] == "fill=\"#"@[p]);
        } else if p < 7 + h.len() {
            assert(r[p] == h[p - 7]);
            if p + 1 < 7 + h.len() {
                assert(r[p + 1] == h[p + 1 - 7]);
                assert(is_hex_digit(h[p + 1 - 7]));
            } else {
                assert(r[p + 1] == "\""@[0]);
            }
        } else {
            assert(r[p] == "\""@[0]);
        }
    }
}

/// No marker starts inside the replacement, whatever follows it.
proof fn lemma_no_marker_in_replacement(c: Seq<char>, rest: Seq<char>, p: int)
    requires
        is_hex(strip_hash(c)),
        0 <= p < replacement(c).len(),
    ensures
        !occurs_at(replacement(c) + rest, marker(), p),
{
    lemma_marker_chars();
    lemma_replacement_chars(c);
    let r = replacement(c);
    let o = r + rest;
    if occurs_at(o, marker(), p) {
        let w = o.subrange(p, p + 19);
        if p == 0 {
            assert(w[6] == o[6]);
        } else {
            assert(w[0] == o[p]);
            assert(w[1] == o[p + 1]);
        }
    }
}

/// Where the substituted text begins with the marker's tail from `j` on, the
/// text itself began so.
proof fn lemma_tail_comes_from_text(s: Seq<char>, c: Seq<char>, j: int)
    requires
        is_hex(strip_hash(c)),
        1 <= j <= 19,
        substituted(s, c).len() >= 19 - j,
        substituted(s, c).take(19 - j) == marker().skip(j),
    ensures
        s.len() >= 19 - j,
        s.take(19 - j) == marker().skip(j),
    decreases 19 - j,
{
    lemma_marker_chars();
    lemma_replacement_chars(c);
    let m = marker();
    let o = substituted(s, c);
    if j < 19 && s.len() >= 19 {
        if s.take(19) == m {
            assert(o[0] == replacement(c)[0]);
            assert(o.take(19 - j)[0] == m.skip(j)[0]);
        } else {
            let o1 = substituted(s.skip(1), c);
            assert(o == seq![s[0]] + o1);
            assert(o.take(19 - j)[0] == m.skip(j)[0]);
            assert(o1.take(19 - j - 1) =~= o.take(19 - j).skip(1));
            assert(m.skip(j).skip(1) =~= m.skip(j + 1));
            lemma_tail_comes_from_text(s.skip(1), c, j + 1);
            assert(s.take(19 - j) =~= seq![s[0]] + s.skip(1).take(19 - j - 1));
            assert(m.skip(j) =~= seq![m[j]] + m.skip(j + 1));
        }
    } else if j == 19 {
        assert(s.take(0) =~= m.skip(19));
    }
}

/// With a hexadecimal color, the substitution leaves no marker anywhere.
pub proof fn law_substitution_leaves_no_marker(t: Seq<char>, c: Seq<char>)
    requires
        is_hex(strip_hash(c)),
    ensures
        !occurs(substituted(t, c), marker()),
    decreases t.len(),
{
    lemma_marker_chars();
    lemma_replacement_chars(c);
    let m = marker();
    let r = replacement(c);
    let o = substituted(t, c);
    if t.len() >= 19 {
        if t.take(19) == m {
            let o1 = substituted(t.skip(19), c);
            law_substitution_leaves_no_marker(t.skip(19), c);
            assert(o == r + o1);
            assert forall|p: int| !occurs_at(o, m, p) by {
                if 0 <= p < r.len() {
                    lemma_no_marker_in_replacement(c, o1, p);
                } else if p >= r.len() && occurs_at(o, m, p) {
                    assert(o.subrange(p, p + 19) =~= o1.subrange(p - r.len(), p - r.len() + 19));
                    assert(occurs_at(o1, m, p - r.len()));
                }
            }
        } else {
            let o1 = substituted(t.skip(1), c);
            law_substitution_leaves_no_marker(t.skip(1), c);
            assert(o == seq![t[0]] + o1);
            assert forall|p: int| !occurs_at(o, m, p) by {
                if p >= 1 && occurs_at(o, m, p) {
                    assert(o.subrange(p, p + 19) =~= o1.subrange(p - 1, p - 1 + 19));
                    assert(occurs_at(o1, m, p - 1));
                } else if p == 0 && occurs_at(o, m, p) {
                    assert(o.take(19) =~= o.subrange(0, 19));
                    assert(o1.take(18) =~= o.take(19).skip(1));
                    assert(m.skip(1) =~= o.take(19).skip(1));
                    lemma_tail_comes_from_text(t.skip(1), c, 1);
                    assert(o[0] == m[0]);
                    assert(t.take(19) =~= seq![t[0]] + t.skip(1).take(18));
                    assert(m =~= seq![m[0]] + m.skip(1));
                }
            }
        }
    }
}

/// Whether `m` occurs in `t` at position `i`, with `i + m.len()` within `t`.
fn matches_at(t: &Vec<char>, m: &Vec<char>, i: usize) -> (r: bool)
    requires
        i + m@.len() <= t@.len(),
    ensures
        r == (t@.subrange(i as int, i + m@.len()) == m@),
{
    let tl = t.len();
    let mut j: usize = 0;
    while j < m.len()
        invariant
            i + m@.len() <= t@.len(),
            tl == t@.len(),
            j <= m@.len(),
            forall|k: int| 0 <= k < j ==> t@[i + k] == m@[k],
        decreases m@.len() - j,
    {
        if t[i + j] != m[j] {
            assert(t@.subrange(i as int, i + m@.len())[j as int] != m@[j as int]);
            return false;
        }
        j = j + 1;
    }
    assert(t@.subrange(i as int, i + m@.len()) =~= m@);
    true
}

/// `color` without one leading `#`.
fn strip_hash_exec(color: &str) -> (r: &str)
    ensures
        r@ == strip_hash(color@),
{
    let n = color.unicode_len();
    if n > 0 && color.get_char(0) == '#' {
        color.substring_char(1, n)
    } else {
        color
    }
}

/// Replaces every `fill="currentColor"` in `document` by `fill="#<color>"`,
/// where `<color>` is `color` without a leading `#`.
pub fn apply(document: &str, color: &str) -> (r: String)
    ensures
        r@ == substituted(document@, color@),
        !occurs(document@, marker()) ==> r@ == document@,
{
    let marker_text = "fill=\"currentColor\"";
    proof {
        reveal_strlit("fill=\"currentColor\"");
    }
    let t = chars_of(document);
    let m = chars_of(marker_text);
    let mut rep = String::from_str("fill=\"#");
    rep.append(strip_hash_exec(color));
    rep.append("\"");
    let ghost tv = document@;
    let ghost rv = replacement(color@);
    assert(rep@ == rv);
    let n = t.len();
    let mlen = m.len();
    assert(mlen > 0);
    let mut out = String::new();
    let mut start: usize = 0;
    let mut i: usize = 0;
    assert(tv.skip(0) =~= tv);
    assert(out@ + tv.subrange(0, 0) =~= Seq::<char>::empty());
    while i < n && mlen <= n - i
        invariant
            t@ == tv,
            document@ == tv,
            m@ == marker(),
            rep@ == rv,
            n == t@.len(),
            mlen == m@.len(),
            mlen > 0,
            start <= i <= n,
            out@ + tv.subrange(start as int, i as int) + replace_all(tv.skip(i as int), marker(), rv)
                == replace_all(tv, marker(), rv),
        decreases n - i,
    {
        let ghost rest = tv.skip(i as int);
        assert(rest.take(mlen as int) =~= tv.subrange(i as int, i + mlen));
        if matches_at(&t, &m, i) {
            let ghost prev_out = out@;
            out.append(document.substring_char(start, i));
            out.append(rep.as_str());
            assert(rest.skip(mlen as int) =~= tv.skip(i + mlen));
            assert(tv.subrange(i + mlen, i + mlen) =~= Seq::<char>::empty());
            assert(out@ + tv.subrange(i + mlen, i + mlen) + replace_all(tv.skip(i + mlen), marker(), rv)
                =~= prev_out + tv.subrange(start as int, i as int) + (rv + replace_all(tv.skip(i + mlen), marker(), rv)));
            i = i + mlen;
            start = i;
        } else {
            assert(rest.skip(1) =~= tv.skip(i + 1));
            assert(rest[0] == tv[i as int]);
            assert(tv.subrange(start as int, i + 1) =~= tv.subrange(start as int, i as int).push(tv[i as int]));
            assert(tv.subrange(start as int, i + 1) + replace_all(tv.skip(i + 1), marker(), rv)
                =~= tv.subrange(start as int, i as int) + (seq![tv[i as int]] + replace_all(tv.skip(i + 1), marker(), rv)));
            i = i + 1;
        }
    }
    assert(replace_all(tv.skip(i as int), marker(), rv) == tv.skip(i as int));
    out.append(document.substring_char(start, n));
    assert(tv.subrange(start as int, i as int) + tv.skip(i as int) =~= tv.subrange(start as int, n as int));
    proof {
        if !occurs(tv, marker()) {
            lemma_replace_absent(tv, marker(), rv);
        }
    }
    out
}

} // verus!
