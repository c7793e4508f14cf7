//! Properties of the history store that relate several operations.
use vstd::prelude::*;

use crate::db::{
    added_index, after_add, clip_at, collapses, holds_text, is_duplicate,
    text_contains, trimmed, ClipView, DatabaseView, MAX_CLIPS,
};

verus! {

/// An add keeps the store well formed: the ring never exceeds `MAX_CLIPS`
/// clips, and no two of its clips hold the same text.
pub proof fn lemma_add_keeps_wf(v: DatabaseView, c: ClipView)
    requires
        v.wf(),
    ensures
        after_add(v, c).wf(),
        after_add(v, c).ring.len() <= MAX_CLIPS,
{
    let ring = trimmed(v, c);
    assert(ring.len() <= v.ring.len());
    if !holds_text(ring, c.text) {
        let pushed = ring.push(c);
        assert forall|i: int, j: int| 0 <= i < j < pushed.len() implies pushed[i].text
            != pushed[j].text by {
            if j == pushed.len() - 1 {
                assert(pushed[i] == ring[i]);
            } else {
                assert(pushed[i] == v.ring[i] && pushed[j] == v.ring[j]);
            }
        }
        if ring.len() + 1 > MAX_CLIPS {
            let dropped = pushed.drop_first();
            assert forall|i: int, j: int| 0 <= i < j < dropped.len() implies dropped[i].text
                != dropped[j].text by {
                assert(dropped[i] == pushed[i + 1] && dropped[j] == pushed[j + 1]);
            }
        }
    } else {
        assert forall|i: int, j: int| 0 <= i < j < ring.len() implies ring[i].text
            != ring[j].text by {
            assert(ring[i] == v.ring[i] && ring[j] == v.ring[j]);
        }
    }
}

/// The state after adding the clips of `cs` in order.
pub open spec fn add_all(v: DatabaseView, cs: Seq<ClipView>) -> DatabaseView
    decreases cs.len(),
{
    if cs.len() == 0 {
        v
    } else {
        after_add(add_all(v, cs.drop_last()), cs.last())
    }
}

/// No add of the run drops a tail whose text the new clip contains.
pub open spec fn never_collapses(v: DatabaseView, cs: Seq<ClipView>) -> bool {
    forall|m: int| 0 <= m < cs.len() ==> !collapses(#[trigger] add_all(v, cs.take(m)), cs[m])
}

proof fn lemma_add_all_step(v: DatabaseView, cs: Seq<ClipView>, m: int)
    requires
        0 <= m < cs.len(),
    ensures
        add_all(v, cs.take(m + 1)) == after_add(add_all(v, cs.take(m)), cs[m]),
{
    assert(cs.take(m + 1).drop_last() =~= cs.take(m));
}

/// Any number of adds keeps the store well formed: at most `MAX_CLIPS`
/// clips, no two with the same text.
pub proof fn lemma_add_all_wf(v: DatabaseView, cs: Seq<ClipView>, m: int)
    requires
        v.wf(),
        0 <= m <= cs.len(),
    ensures
        add_all(v, cs.take(m)).wf(),
    decreases m,
{
    if m == 0 {
        assert(cs.take(0) =~= Seq::<ClipView>::empty());
    } else {
        lemma_add_all_wf(v, cs, m - 1);
        lemma_add_all_step(v, cs, m - 1);
        lemma_add_keeps_wf(add_all(v, cs.take(m - 1)), cs[m - 1]);
    }
}

/// Without a dropped tail, the next index never decreases along a run.
proof fn lemma_next_index_grows(v: DatabaseView, cs: Seq<ClipView>, j: int, k: int)
    requires
        v.wf(),
        0 <= j <= k <= cs.len(),
        never_collapses(v, cs),
    ensures
        add_all(v, cs.take(j)).next_index() <= add_all(v, cs.take(k)).next_index(),
    decreases k - j,
{
    if j < k {
        lemma_next_index_grows(v, cs, j, k - 1);
        lemma_add_all_step(v, cs, k - 1);
        let w = add_all(v, cs.take(k - 1));
        lemma_add_all_wf(v, cs, k - 1);
        assert(!collapses(w, cs[k - 1]));
        assert(trimmed(w, cs[k - 1]) == w.ring);
    }
}

/// Along any run of adds in which no add drops the tail as a part of the
/// new clip's text, the indices that the adds return strictly increase.
pub proof fn lemma_indices_increase_along(v: DatabaseView, cs: Seq<ClipView>, j: int, k: int)
    requires
        v.wf(),
        0 <= j < k < cs.len(),
        never_collapses(v, cs),
        added_index(add_all(v, cs.take(j)), cs[j]) is Some,
        added_index(add_all(v, cs.take(k)), cs[k]) is Some,
    ensures
        added_index(add_all(v, cs.take(j)), cs[j])->0 < added_index(add_all(v, cs.take(k)), cs[k])->0,
{
    let wj = add_all(v, cs.take(j));
    let wk = add_all(v, cs.take(k));
    lemma_add_all_wf(v, cs, j);
    lemma_add_all_wf(v, cs, k);
    assert(!collapses(wj, cs[j]));
    assert(!collapses(wk, cs[k]));
    lemma_add_all_step(v, cs, j);
    assert(trimmed(wj, cs[j]) == wj.ring);
    assert(add_all(v, cs.take(j + 1)).next_index() == wj.next_index() + 1);
    lemma_next_index_grows(v, cs, j + 1, k);
    assert(trimmed(wk, cs[k]) == wk.ring);
}

/// An add that neither drops the tail nor finds a duplicate gives the clip
/// the next logical index, above every index the ring holds.
pub proof fn lemma_fresh_index(v: DatabaseView, c: ClipView)
    requires
        v.wf(),
        !collapses(v, c),
        !is_duplicate(v, c),
    ensures
        added_index(v, c) == Some(v.next_index() as int),
        forall|i: int| #[trigger] clip_at(v, i) is Some ==> i < v.next_index(),
{
}

/// A clip whose text the ring already holds (the tail's, say) is refused:
/// the add returns `None` and changes nothing.
pub proof fn lemma_duplicate_refused(v: DatabaseView, c: ClipView)
    requires
        holds_text(v.ring, c.text),
    ensures
        added_index(v, c) is None,
        after_add(v, c) == v,
{
}

/// Adding the clip that was just added is refused: the second add returns
/// `None` and leaves the ring with the one copy the first add put there.
pub proof fn lemma_readd_is_refused(v: DatabaseView, c: ClipView)
    requires
        v.wf(),
        added_index(v, c) is Some,
    ensures
        added_index(after_add(v, c), c) is None,
        after_add(after_add(v, c), c) == after_add(v, c),
        after_add(v, c).ring.last() == c,
{
    let w = after_add(v, c);
    let ring = trimmed(v, c);
    assert(w.ring[w.ring.len() - 1] == c) by {
        if ring.len() + 1 > MAX_CLIPS {
            assert(w.ring == ring.push(c).drop_first());
            assert(w.ring[w.ring.len() - 1] == ring.push(c)[ring.len() as int]);
        }
    }
    assert(holds_text(w.ring, c.text));
}

/// When the tail's text stands inside the new clip's and the ring does not
/// hold the new clip's text, the new clip becomes the tail and the old
/// tail's text is gone from the ring.
pub proof fn lemma_containment_collapse(v: DatabaseView, c2: ClipView)
    requires
        v.wf(),
        v.ring.len() > 0,
        text_contains(c2.text, v.ring.last().text),
        !holds_text(v.ring, c2.text),
    ensures
        after_add(v, c2).ring.last() == c2,
        forall|k: int|
            0 <= k < after_add(v, c2).ring.len() ==> (#[trigger] after_add(v, c2).ring[k]).text
                != v.ring.last().text,
{
    let w = after_add(v, c2);
    assert(trimmed(v, c2) == v.ring.drop_last());
    assert(w.ring == v.ring.drop_last().push(c2));
    assert(v.ring[v.ring.len() - 1].text != c2.text);
    assert forall|k: int| 0 <= k < w.ring.len() implies (#[trigger] w.ring[k]).text
        != v.ring.last().text by {
        if k < w.ring.len() - 1 {
            assert(w.ring[k] == v.ring[k]);
        }
    }
}

/// The clip an add returns the index of is found at that index.
pub proof fn lemma_added_clip_at(v: DatabaseView, c: ClipView)
    requires
        v.wf(),
        added_index(v, c) is Some,
    ensures
        clip_at(after_add(v, c), added_index(v, c)->0) == Some(c),
{
    let ring = trimmed(v, c);
    if ring.len() + 1 > MAX_CLIPS {
        let w = after_add(v, c);
        assert(w.ring[w.ring.len() - 1] == ring.push(c)[ring.len() as int]);
    }
}

/// A held index keeps its clip across an add, until the index rolls out
/// (unless the add replaces that very clip as the tail whose text it
/// contains).
pub proof fn lemma_stable_lookup(v: DatabaseView, c: ClipView, i: int)
    requires
        v.wf(),
        clip_at(v, i) is Some,
        !(collapses(v, c) && i == v.next_index() - 1),
    ensures
        i >= after_add(v, c).start ==> clip_at(after_add(v, c), i) == clip_at(v, i),
        i < after_add(v, c).start ==> clip_at(after_add(v, c), i) is None,
{
    let w = after_add(v, c);
    let ring = trimmed(v, c);
    if i >= w.start {
        let k = i - v.start;
        assert(k < ring.len());
        if !holds_text(ring, c.text) && ring.len() + 1 > MAX_CLIPS {
            assert(w.ring[i - w.start] == ring.push(c)[k]);
        }
    }
}

/// No add of the run replaces the clip at logical index `i` as a tail
/// whose text the new clip contains.
pub open spec fn never_replaces(v: DatabaseView, cs: Seq<ClipView>, i: int) -> bool {
    forall|m: int|
        0 <= m < cs.len() ==> !(collapses(#[trigger] add_all(v, cs.take(m)), cs[m]) && i
            == add_all(v, cs.take(m)).next_index() - 1)
}

/// A held index keeps its clip through a run of adds until it rolls out
/// (unless an add replaces that very clip as the tail whose text it contains).
pub proof fn lemma_stable_lookup_along(v: DatabaseView, cs: Seq<ClipView>, i: int)
    requires
        v.wf(),
        clip_at(v, i) is Some,
        never_replaces(v, cs, i),
    ensures
        i >= add_all(v, cs).start ==> clip_at(add_all(v, cs), i) == clip_at(v, i),
    decreases cs.len(),
{
    if cs.len() > 0 {
        let n = cs.len() - 1;
        let init = cs.drop_last();
        assert forall|m: int| 0 <= m < init.len() implies #[trigger] init.take(m) == cs.take(m) by {
            assert(init.take(m) =~= cs.take(m));
        }
        assert(never_replaces(v, init, i)) by {
            assert forall|m: int| 0 <= m < init.len() implies !(collapses(
                #[trigger] add_all(v, init.take(m)),
                init[m],
            ) && i == add_all(v, init.take(m)).next_index() - 1) by {
                assert(init.take(m) == cs.take(m));
                assert(init[m] == cs[m]);
            }
        }
        assert(cs.take(n) =~= init);
        let w = add_all(v, init);
        lemma_add_all_wf(v, cs, n);
        if i >= add_all(v, cs).start {
            lemma_stable_lookup_along(v, init, i);
            assert(!(collapses(add_all(v, cs.take(n)), cs[n]) && i == add_all(v, cs.take(n)).next_index() - 1));
            lemma_stable_lookup(w, cs[n], i);
        }
    }
}

/// An index that has rolled out never comes back, whatever is added later.
pub proof fn lemma_evicted_stays_gone(v: DatabaseView, cs: Seq<ClipView>, i: int)
    requires
        i < v.start,
    ensures
        clip_at(add_all(v, cs), i) is None,
        add_all(v, cs).start >= v.start,
    decreases cs.len(),
{
    if cs.len() > 0 {
        lemma_evicted_stays_gone(v, cs.drop_last(), i);
    }
}

/// The clip that `select` made the selection stays the selection through
/// any adds, also once its ring entry has rolled out.
pub proof fn lemma_selection_persists(v: DatabaseView, i: int, cs: Seq<ClipView>)
    requires
        clip_at(v, i) is Some,
    ensures
        add_all(DatabaseView { selection: clip_at(v, i), ..v }, cs).selection == clip_at(v, i),
    decreases cs.len(),
{
    if cs.len() > 0 {
        lemma_selection_persists(v, i, cs.drop_last());
    }
}

} // verus!
