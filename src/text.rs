use vstd::prelude::*;
use vstd::string::*;

verus! {

/// The pieces of `s` between occurrences of `d`, as `str::split` yields them:
/// always at least one piece, possibly empty ones.
pub open spec fn split_on(s: Seq<char>, d: char) -> Seq<Seq<char>>
    decreases s.len(),
{
    if s.len() == 0 {
        seq![Seq::empty()]
    } else {
        let rest = split_on(s.drop_last(), d);
        if s.last() == d {
            rest.push(Seq::empty())
        } else {
            rest.update(rest.len() - 1, rest.last().push(s.last()))
        }
    }
}

/// The views of a vector of strings.
pub open spec fn views(v: Seq<String>) -> Seq<Seq<char>> {
    v.map_values(|s: String| s@)
}

pub proof fn lemma_split_nonempty(s: Seq<char>, d: char)
    ensures
        split_on(s, d).len() >= 1,
    decreases s.len(),
{
    if s.len() > 0 {
        lemma_split_nonempty(s.drop_last(), d);
    }
}

/// The characters of `s`, in order, as a vector.
pub fn chars_of(s: &str) -> (r: Vec<char>)
    ensures
        r@ == s@,
{
    let mut out: Vec<char> = Vec::new();
    for c in it: s.chars()
        invariant
            it.seq() == s@,
            out@ == it.seq().take(it.index() as int),
    {
        out.push(c);
    }
    out
}

/// Splits `s` at every `d`, as `str::split` does.
pub fn split(s: &str, d: char) -> (r: Vec<String>)
    ensures
        views(r@) == split_on(s@, d),
{
    let cs = chars_of(s);
    let n = cs.len();
    let mut out: Vec<String> = Vec::new();
    let mut start: usize = 0;
    let mut i: usize = 0;
    assert(s@.take(0) =~= Seq::<char>::empty());
    assert(views(out@).push(s@.subrange(0, 0)) =~= seq![Seq::<char>::empty()]);
    while i < n
        invariant
            cs@ == s@,
            n == cs.len(),
            start <= i <= n,
            views(out@).push(s@.subrange(start as int, i as int)) == split_on(
                s@.take(i as int),
                d,
            ),
        decreases n - i,
    {
        let ghost prev = s@.take(i as int);
        assert(s@.take(i + 1).drop_last() =~= prev);
        assert(s@.take(i + 1).last() == cs@[i as int]);
        if cs[i] == d {
            let piece = String::from_str(s.substring_char(start, i));
            out.push(piece);
            assert(views(out@) =~= views(out@.drop_last()).push(piece@));
            assert(s@.subrange(i + 1, i + 1) =~= Seq::<char>::empty());
            start = i + 1;
        } else {
            proof {
                lemma_split_nonempty(prev, d);
                let v = views(out@).push(s@.subrange(start as int, i as int));
                assert(s@.subrange(start as int, i + 1) =~= s@.subrange(start as int, i as int).push(cs@[i as int]));
                assert(v.update(v.len() - 1, v.last().push(cs@[i as int])) =~= views(out@).push(
                    s@.subrange(start as int, i + 1),
                ));
            }
        }
        i = i + 1;
    }
    let piece = String::from_str(s.substring_char(start, n));
    out.push(piece);
    assert(s@.take(n as int) =~= s@);
    assert(views(out@) =~= views(out@.drop_last()).push(piece@));
    out
}

} // verus!
