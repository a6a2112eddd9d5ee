//! The depth order on buffered tiles and a stable sort for it.
//!
//! The sort key of a buffered tile is the lexicographic tuple
//! `(pos.y, pos.x, z_order)`, ascending: later keys draw on top. The
//! order is a total preorder; ties on the whole key are resolved by the
//! tiles' relative insertion order, so the sorted output of a batch is a
//! single well-defined sequence, `sort_spec`, and two sorts of the same
//! batch agree exactly.

use vstd::prelude::*;
use vstd::seq_lib::to_multiset_build;
use vstd::seq_lib::to_multiset_insert;

use crate::model::RenderTile;

verus! {

/// The depth order: `a` draws no later than `b`. Lexicographic on
/// `(pos.y, pos.x, z_order)`, ascending.
pub open spec fn key_le(a: RenderTile, b: RenderTile) -> bool {
    ||| a.pos.y < b.pos.y
    ||| (a.pos.y == b.pos.y && a.pos.x < b.pos.x)
    ||| (a.pos.y == b.pos.y && a.pos.x == b.pos.x && a.z_order <= b.z_order)
}

/// Compares two buffered tiles by their sort keys.
pub fn tile_le(a: &RenderTile, b: &RenderTile) -> (r: bool)
    ensures
        r == key_le(*a, *b),
{
    if a.pos.y != b.pos.y {
        a.pos.y < b.pos.y
    } else if a.pos.x != b.pos.x {
        a.pos.x < b.pos.x
    } else {
        a.z_order <= b.z_order
    }
}

/// Inserts `t` into an already sorted sequence, after every element
/// whose key is less than or equal to `t`'s: among equal keys the
/// newcomer goes last, which is what makes the sort stable.
pub open spec fn stable_insert(s: Seq<RenderTile>, t: RenderTile) -> Seq<RenderTile>
    decreases s.len(),
{
    if s.len() == 0 {
        seq![t]
    } else if key_le(s[0], t) {
        seq![s[0]] + stable_insert(s.drop_first(), t)
    } else {
        seq![t] + s
    }
}

/// The stable sort of a batch: each element in turn is inserted after
/// all elements with a key less than or equal to its own. This is the
/// one sequence every stable sort by `key_le` produces.
pub open spec fn sort_spec(s: Seq<RenderTile>) -> Seq<RenderTile>
    decreases s.len(),
{
    if s.len() == 0 {
        Seq::empty()
    } else {
        stable_insert(sort_spec(s.drop_last()), s.last())
    }
}

/// The sequence is ordered by the depth key.
pub open spec fn sorted(s: Seq<RenderTile>) -> bool {
    forall|i: int, j: int| 0 <= i < j < s.len() ==> key_le(#[trigger] s[i], #[trigger] s[j])
}

/// In a sorted sequence, inserting `t` at the boundary `p` between the
/// prefix of keys at most `t`'s and the suffix of strictly larger keys
/// is exactly the stable insertion.
pub proof fn lemma_stable_insert_at(s: Seq<RenderTile>, t: RenderTile, p: int)
    requires
        0 <= p <= s.len(),
        forall|k: int| 0 <= k < p ==> key_le(#[trigger] s[k], t),
        forall|k: int| p <= k < s.len() ==> !key_le(#[trigger] s[k], t),
    ensures
        stable_insert(s, t) == s.insert(p, t),
    decreases s.len(),
{
    s.insert_ensures(p, t);
    if s.len() == 0 {
        assert(stable_insert(s, t) =~= s.insert(p, t));
    } else if p == 0 {
        assert(!key_le(s[0], t));
        assert(stable_insert(s, t) =~= s.insert(0, t));
    } else {
        assert(key_le(s[0], t));
        let rest = s.drop_first();
        assert(forall|k: int| 0 <= k < p - 1 ==> key_le(#[trigger] rest[k], t));
        assert(forall|k: int| p - 1 <= k < rest.len() ==> !key_le(#[trigger] rest[k], t));
        lemma_stable_insert_at(rest, t, p - 1);
        rest.insert_ensures(p - 1, t);
        assert(stable_insert(s, t) =~= s.insert(p, t));
    }
}

/// In a sorted sequence the elements with keys at most `t`'s form a
/// prefix; this returns its length, the stable insertion point for `t`.
pub proof fn stable_insert_point(s: Seq<RenderTile>, t: RenderTile) -> (p: int)
    requires
        sorted(s),
    ensures
        0 <= p <= s.len(),
        forall|k: int| 0 <= k < p ==> key_le(#[trigger] s[k], t),
        forall|k: int| p <= k < s.len() ==> !key_le(#[trigger] s[k], t),
        stable_insert(s, t) == s.insert(p, t),
    decreases s.len(),
{
    if s.len() == 0 {
        lemma_stable_insert_at(s, t, 0);
        0
    } else if !key_le(s[0], t) {
        assert forall|k: int| 0 <= k < s.len() implies !key_le(#[trigger] s[k], t) by {
            if k > 0 {
                assert(key_le(s[0], s[k]));
            }
        }
        lemma_stable_insert_at(s, t, 0);
        0
    } else {
        let rest = s.drop_first();
        assert(forall|i: int, j: int|
            0 <= i < j < rest.len() ==> key_le(#[trigger] rest[i], #[trigger] rest[j]));
        let q = stable_insert_point(rest, t);
        assert forall|k: int| 0 <= k < q + 1 implies key_le(#[trigger] s[k], t) by {
            if k > 0 {
                assert(rest[k - 1] == s[k]);
            }
        }
        assert forall|k: int| q + 1 <= k < s.len() implies !key_le(#[trigger] s[k], t) by {
            assert(rest[k - 1] == s[k]);
        }
        lemma_stable_insert_at(s, t, q + 1);
        q + 1
    }
}

/// Stable insertion into a sorted sequence keeps it sorted and adds
/// exactly the inserted element.
pub proof fn lemma_stable_insert_sorted(s: Seq<RenderTile>, t: RenderTile)
    requires
        sorted(s),
    ensures
        sorted(stable_insert(s, t)),
        stable_insert(s, t).len() == s.len() + 1,
        stable_insert(s, t).to_multiset() == s.to_multiset().insert(t),
        forall|i: int|
            0 <= i < stable_insert(s, t).len()
                ==> #[trigger] stable_insert(s, t)[i] == t || s.contains(stable_insert(s, t)[i]),
{
    let p = stable_insert_point(s, t);
    s.insert_ensures(p, t);
    to_multiset_insert(s, p, t);
    let r = s.insert(p, t);
    assert forall|i: int, j: int| 0 <= i < j < r.len() implies key_le(#[trigger] r[i], #[trigger] r[j]) by {
        if i < p {
            assert(r[i] == s[i]);
        } else if i == p {
            assert(r[i] == t);
        } else {
            assert(r[i] == s[i - 1]);
        }
        if j < p {
            assert(r[j] == s[j]);
        } else if j == p {
            assert(r[j] == t);
        } else {
            assert(r[j] == s[j - 1]);
        }
    }
    assert forall|i: int|
        0 <= i < r.len() implies #[trigger] r[i] == t || s.contains(r[i]) by {
        if i < p {
            assert(r[i] == s[i]);
        } else if i > p {
            assert(r[i] == s[i - 1]);
        }
    }
}

/// The sorted batch is ordered and is a permutation of the batch: it
/// holds exactly the batch's elements, each as often as buffered.
pub proof fn lemma_sort_spec_ensures(s: Seq<RenderTile>)
    ensures
        sorted(sort_spec(s)),
        sort_spec(s).len() == s.len(),
        sort_spec(s).to_multiset() == s.to_multiset(),
        forall|i: int|
            0 <= i < sort_spec(s).len() ==> s.contains(#[trigger] sort_spec(s)[i]),
    decreases s.len(),
{
    if s.len() == 0 {
        assert(s =~= Seq::<RenderTile>::empty());
        assert(sort_spec(s).to_multiset() =~= s.to_multiset());
    } else {
        let prefix = s.drop_last();
        lemma_sort_spec_ensures(prefix);
        lemma_stable_insert_sorted(sort_spec(prefix), s.last());
        to_multiset_build(prefix, s.last());
        assert(prefix.push(s.last()) =~= s);
        assert(sort_spec(s).to_multiset() =~= s.to_multiset());
        assert forall|i: int|
            0 <= i < sort_spec(s).len() implies s.contains(#[trigger] sort_spec(s)[i]) by {
            if sort_spec(s)[i] == s.last() {
                assert(s[s.len() - 1] == s.last());
            } else {
                assert(sort_spec(prefix).contains(sort_spec(s)[i]));
                let j = choose|j: int|
                    0 <= j < prefix.len() && prefix[j] == sort_spec(s)[i];
                assert(s[j] == sort_spec(s)[i]);
            }
        }
    }
}

/// Sort-key ordering: in a sorted batch, a tile whose sort-anchor `y`
/// is strictly smaller than another's is emitted strictly earlier,
/// whatever their `x` anchors and `z_order` ranks.
pub proof fn lemma_emitted_before_by_y(s: Seq<RenderTile>, i: int, j: int)
    requires
        0 <= i < sort_spec(s).len(),
        0 <= j < sort_spec(s).len(),
        sort_spec(s)[i].pos.y < sort_spec(s)[j].pos.y,
    ensures
        i < j,
{
    lemma_sort_spec_ensures(s);
    if j < i {
        assert(key_le(sort_spec(s)[j], sort_spec(s)[i]));
    }
}

/// Tie-break determinism: in a sorted batch, among tiles with the same
/// sort position the one with the strictly smaller `z_order` is emitted
/// strictly earlier.
pub proof fn lemma_emitted_before_by_z(s: Seq<RenderTile>, i: int, j: int)
    requires
        0 <= i < sort_spec(s).len(),
        0 <= j < sort_spec(s).len(),
        sort_spec(s)[i].pos == sort_spec(s)[j].pos,
        sort_spec(s)[i].z_order < sort_spec(s)[j].z_order,
    ensures
        i < j,
{
    lemma_sort_spec_ensures(s);
    if j < i {
        assert(key_le(sort_spec(s)[j], sort_spec(s)[i]));
    }
}

/// Sorts a batch of buffered tiles by their depth keys, stably: the
/// result is exactly `sort_spec` of the input.
pub fn sort_tiles(tiles: &Vec<RenderTile>) -> (out: Vec<RenderTile>)
    ensures
        out@ == sort_spec(tiles@),
{
    let mut out: Vec<RenderTile> = Vec::new();
    let n: usize = tiles.len();
    let mut i: usize = 0;
    while i < n
        invariant
            n == tiles@.len(),
            i <= n,
            out@ == sort_spec(tiles@.take(i as int)),
            sorted(out@),
        decreases n - i,
    {
        let t = tiles[i];
        let mut j: usize = out.len();
        while j > 0 && !tile_le(&out[j - 1], &t)
            invariant
                j <= out@.len(),
                sorted(out@),
                forall|k: int| j <= k < out@.len() ==> !key_le(#[trigger] out@[k], t),
            decreases j,
        {
            j = j - 1;
        }
        proof {
            assert forall|k: int| 0 <= k < j implies key_le(#[trigger] out@[k], t) by {
                assert(key_le(out@[j - 1], t));
                if k < j - 1 {
                    assert(key_le(out@[k], out@[j - 1]));
                }
            }
            lemma_stable_insert_at(out@, t, j as int);
            lemma_stable_insert_sorted(out@, t);
            assert(tiles@.take(i + 1).drop_last() =~= tiles@.take(i as int));
            assert(tiles@.take(i + 1).last() == t);
        }
        out.insert(j, t);
        i = i + 1;
    }
    proof {
        assert(tiles@.take(n as int) =~= tiles@);
    }
    out
}

} // verus!
