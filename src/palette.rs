use vstd::prelude::*;

use crate::text::{chars_of, split, split_on, views};

verus! {

/// One color target: the name of its output folder and the color it applies.
pub struct PaletteEntry {
    pub label: String,
    pub color: String,
}

/// The color targets of a run, in the order they were given.
pub enum Palette {
    /// Bare colors; each color is its own label.
    Array(Vec<String>),
    /// Explicit `label:color` pairs.
    Object(Vec<PaletteEntry>),
}

/// The `(label, color)` views of a vector of entries.
pub open spec fn entry_views(v: Seq<PaletteEntry>) -> Seq<(Seq<char>, Seq<char>)> {
    v.map_values(|e: PaletteEntry| (e.label@, e.color@))
}

/// The pair that a `label:color` token stands for, if it has exactly one `:`.
pub open spec fn pair_of(tok: Seq<char>) -> Option<(Seq<char>, Seq<char>)> {
    let parts = split_on(tok, ':');
    if parts.len() == 2 {
        Some((parts[0], parts[1]))
    } else {
        None
    }
}

/// The pairs of the well-formed tokens among `toks`, in order.
pub open spec fn object_entries(toks: Seq<Seq<char>>) -> Seq<(Seq<char>, Seq<char>)>
    decreases toks.len(),
{
    if toks.len() == 0 {
        Seq::empty()
    } else {
        let rest = object_entries(toks.drop_last());
        match pair_of(toks.last()) {
            Some(p) => rest.push(p),
            None => rest,
        }
    }
}

/// Each color paired with itself as label.
pub open spec fn self_labelled(cs: Seq<Seq<char>>) -> Seq<(Seq<char>, Seq<char>)> {
    cs.map_values(|c: Seq<char>| (c, c))
}

/// The entries that the palette text `raw` describes: pairs where it holds a
/// `:` anywhere, bare colors otherwise.
pub open spec fn parsed_entries(raw: Seq<char>) -> Seq<(Seq<char>, Seq<char>)> {
    if raw.contains(':') {
        object_entries(split_on(raw, ','))
    } else {
        self_labelled(split_on(raw, ','))
    }
}

/// A palette text without `:` gives one entry per comma-separated token, in
/// order, each labelled with its own color.
pub proof fn law_bare_colors_label_themselves(raw: Seq<char>)
    requires
        !raw.contains(':'),
    ensures
        parsed_entries(raw).len() == split_on(raw, ',').len(),
        forall|i: int|
            0 <= i < parsed_entries(raw).len() ==> #[trigger] parsed_entries(raw)[i] == (
                split_on(raw, ',')[i],
                split_on(raw, ',')[i],
            ),
{
}

/// Every entry kept from `toks` is the pair of one of its tokens, and every
/// well-formed token's pair is kept.
pub proof fn lemma_object_entries(toks: Seq<Seq<char>>)
    ensures
        forall|k: int|
            0 <= k < object_entries(toks).len() ==> exists|j: int|
                0 <= j < toks.len() && pair_of(toks[j]) == Some(#[trigger] object_entries(toks)[k]),
        forall|j: int|
            0 <= j < toks.len() && #[trigger] pair_of(toks[j]) is Some ==> exists|k: int|
                0 <= k < object_entries(toks).len() && object_entries(toks)[k] == pair_of(
                    toks[j],
                )->Some_0,
    decreases toks.len(),
{
    if toks.len() > 0 {
        let init = toks.drop_last();
        lemma_object_entries(init);
        let rest = object_entries(init);
        let out = object_entries(toks);
        assert forall|k: int| 0 <= k < out.len() implies exists|j: int|
            0 <= j < toks.len() && pair_of(toks[j]) == Some(#[trigger] out[k]) by {
            if k < rest.len() {
                assert(out[k] == rest[k]);
                let j = choose|j: int| 0 <= j < init.len() && pair_of(init[j]) == Some(rest[k]);
                assert(toks[j] == init[j]);
            } else {
                assert(pair_of(toks[toks.len() - 1]) == Some(out[k]));
            }
        }
        assert forall|j: int| 0 <= j < toks.len() && #[trigger] pair_of(toks[j]) is Some implies exists|k: int|
            0 <= k < out.len() && out[k] == pair_of(toks[j])->Some_0 by {
            if j < init.len() {
                assert(toks[j] == init[j]);
                let k = choose|k: int| 0 <= k < rest.len() && rest[k] == pair_of(init[j])->Some_0;
                assert(out[k] == rest[k]);
            } else {
                assert(out[rest.len() as int] == pair_of(toks[j])->Some_0);
            }
        }
    }
}

/// A palette text with a `:` anywhere gives exactly the pairs of its
/// well-formed `label:color` tokens: each entry comes from one such token, and
/// each such token gives an entry; the others are dropped.
pub proof fn law_pairs_keep_well_formed_tokens(raw: Seq<char>)
    requires
        raw.contains(':'),
    ensures
        forall|k: int|
            0 <= k < parsed_entries(raw).len() ==> exists|j: int|
                0 <= j < split_on(raw, ',').len() && pair_of(split_on(raw, ',')[j]) == Some(
                    #[trigger] parsed_entries(raw)[k],
                ),
        forall|j: int|
            0 <= j < split_on(raw, ',').len() && #[trigger] pair_of(split_on(raw, ',')[j]) is Some
                ==> exists|k: int|
                0 <= k < parsed_entries(raw).len() && parsed_entries(raw)[k] == pair_of(
                    split_on(raw, ',')[j],
                )->Some_0,
{
    lemma_object_entries(split_on(raw, ','));
}

impl Palette {
    /// The `(label, color)` pairs of this palette, in order.
    pub open spec fn entries_view(&self) -> Seq<(Seq<char>, Seq<char>)> {
        match self {
            Palette::Array(cs) => self_labelled(views(cs@)),
            Palette::Object(es) => entry_views(es@),
        }
    }

    /// Reads a comma-separated palette: `label:color` pairs where the text
    /// holds a `:` anywhere (tokens without exactly one `:` are dropped),
    /// bare colors otherwise.
    pub fn parse(raw: &str) -> (r: Palette)
        ensures
            r is Object <==> raw@.contains(':'),
            r.entries_view() == parsed_entries(raw@),
    {
        let toks = split(raw, ',');
        let cs = chars_of(raw);
        let mut has_colon = false;
        let mut i: usize = 0;
        while i < cs.len()
            invariant
                cs@ == raw@,
                i <= cs@.len(),
                has_colon <==> exists|k: int| 0 <= k < i && cs@[k] == ':',
            decreases cs@.len() - i,
        {
            if cs[i] == ':' {
                has_colon = true;
            }
            i = i + 1;
        }
        if has_colon {
            let mut es: Vec<PaletteEntry> = Vec::new();
            let mut j: usize = 0;
            while j < toks.len()
                invariant
                    j <= toks@.len(),
                    views(toks@) == split_on(raw@, ','),
                    entry_views(es@) == object_entries(views(toks@).take(j as int)),
                decreases toks@.len() - j,
            {
                let ghost tj = views(toks@).take(j as int);
                assert(views(toks@).take(j + 1).drop_last() =~= tj);
                assert(views(toks@).take(j + 1).last() == toks@[j as int]@);
                let parts = split(toks[j].as_str(), ':');
                if parts.len() == 2 {
                    let e = PaletteEntry { label: parts[0].clone(), color: parts[1].clone() };
                    assert(parts@[0]@ == views(parts@)[0]);
                    assert(parts@[1]@ == views(parts@)[1]);
                    es.push(e);
                    assert(entry_views(es@) =~= entry_views(es@.drop_last()).push((e.label@, e.color@)));
                }
                j = j + 1;
            }
            assert(views(toks@).take(toks@.len() as int) =~= views(toks@));
            Palette::Object(es)
        } else {
            Palette::Array(toks)
        }
    }

    /// The `(label, color)` entries of this palette, in order.
    pub fn entries(&self) -> (r: Vec<PaletteEntry>)
        ensures
            entry_views(r@) == self.entries_view(),
    {
        let mut out: Vec<PaletteEntry> = Vec::new();
        match self {
            Palette::Array(cs) => {
                let mut i: usize = 0;
                while i < cs.len()
                    invariant
                        i <= cs@.len(),
                        entry_views(out@) == self_labelled(views(cs@)).take(i as int),
                    decreases cs@.len() - i,
                {
                    let e = PaletteEntry { label: cs[i].clone(), color: cs[i].clone() };
                    let ghost prev = out@;
                    out.push(e);
                    assert(entry_views(out@) =~= entry_views(prev).push((cs@[i as int]@, cs@[i as int]@)));
                    assert(self_labelled(views(cs@)).take(i + 1) =~= self_labelled(views(cs@)).take(i as int).push((cs@[i as int]@, cs@[i as int]@)));
                    i = i + 1;
                }
                assert(self_labelled(views(cs@)).take(cs@.len() as int) =~= self_labelled(views(cs@)));
            },
            Palette::Object(es) => {
                let mut i: usize = 0;
                while i < es.len()
                    invariant
                        i <= es@.len(),
                        entry_views(out@) == entry_views(es@).take(i as int),
                    decreases es@.len() - i,
                {
                    let e = PaletteEntry { label: es[i].label.clone(), color: es[i].color.clone() };
                    let ghost prev = out@;
                    out.push(e);
                    assert(entry_views(out@) =~= entry_views(prev).push((es@[i as int].label@, es@[i as int].color@)));
                    assert(entry_views(es@).take(i + 1) =~= entry_views(es@).take(i as int).push((es@[i as int].label@, es@[i as int].color@)));
                    i = i + 1;
                }
                assert(entry_views(es@).take(es@.len() as int) =~= entry_views(es@));
            },
        }
        out
    }
}

} // verus!
