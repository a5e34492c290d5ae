//! Stable ordering by a `u64` key: a sequence is a stable sort of another
//! when it is ordered by key and, for every key, holds the same elements with
//! that key in the same relative order.

use vstd::prelude::*;
use crate::midi::event::{NoteRect, TimedEventModel, TimedMidiEvent};

verus! {

/// The elements of `s` whose key is `k`, in order.
pub open spec fn with_key<T>(s: Seq<T>, key: spec_fn(T) -> u64, k: u64) -> Seq<T>
    decreases s.len(),
{
    if s.len() == 0 {
        Seq::empty()
    } else if key(s.last()) == k {
        with_key(s.drop_last(), key, k).push(s.last())
    } else {
        with_key(s.drop_last(), key, k)
    }
}

/// `s` is ordered by nondecreasing key.
pub open spec fn sorted_by_key<T>(s: Seq<T>, key: spec_fn(T) -> u64) -> bool {
    forall|i: int, j: int| 0 <= i <= j < s.len() ==> key(s[i]) <= key(s[j])
}

/// `o` is the stable sort of `s` by `key`.
pub open spec fn stable_sorted<T>(o: Seq<T>, s: Seq<T>, key: spec_fn(T) -> u64) -> bool {
    &&& sorted_by_key(o, key)
    &&& forall|k: u64| #[trigger] with_key(o, key, k) == with_key(s, key, k)
}

/// Key of an event: its tick.
pub open spec fn tick_key() -> spec_fn(TimedEventModel) -> u64 {
    |e: TimedEventModel| e.tick
}

/// Key of a note rectangle: its start tick.
pub open spec fn start_key() -> spec_fn(NoteRect) -> u64 {
    |r: NoteRect| r.start_tick
}

/// The models of a list of events.
pub open spec fn event_models(s: Seq<TimedMidiEvent>) -> Seq<TimedEventModel> {
    s.map_values(|e: TimedMidiEvent| e@)
}

/// An element with key `k` is among those `with_key` keeps for `k`.
pub proof fn lemma_with_key_keeps<T>(s: Seq<T>, key: spec_fn(T) -> u64, i: int)
    requires
        0 <= i < s.len(),
    ensures
        with_key(s, key, key(s[i])).contains(s[i]),
    decreases s.len(),
{
    let k = key(s[i]);
    if i == s.len() - 1 {
        assert(with_key(s, key, k).last() == s[i]);
    } else {
        assert(s.drop_last()[i] == s[i]);
        lemma_with_key_keeps(s.drop_last(), key, i);
        let w = with_key(s.drop_last(), key, k);
        let j = choose|j: int| 0 <= j < w.len() && w[j] == s[i];
        if key(s.last()) == k {
            assert(w.push(s.last())[j] == s[i]);
        }
    }
}

/// What `with_key` keeps comes from the sequence.
pub proof fn lemma_with_key_from<T>(s: Seq<T>, key: spec_fn(T) -> u64, k: u64, x: T)
    requires
        with_key(s, key, k).contains(x),
    ensures
        s.contains(x),
    decreases s.len(),
{
    if s.len() > 0 {
        let w = with_key(s.drop_last(), key, k);
        if key(s.last()) == k && x == s.last() {
            assert(s[s.len() - 1] == x);
        } else {
            if key(s.last()) == k {
                let j = choose|j: int| 0 <= j < w.push(s.last()).len() && w.push(s.last())[j] == x;
                assert(w[j] == x);
            }
            lemma_with_key_from(s.drop_last(), key, k, x);
            let j = choose|j: int| 0 <= j < s.drop_last().len() && s.drop_last()[j] == x;
            assert(s[j] == x);
        }
    }
}

/// A stable sort holds only elements of what it sorts.
pub proof fn lemma_stable_sorted_from<T>(o: Seq<T>, s: Seq<T>, key: spec_fn(T) -> u64, i: int)
    requires
        stable_sorted(o, s, key),
        0 <= i < o.len(),
    ensures
        s.contains(o[i]),
{
    lemma_with_key_keeps(o, key, i);
    assert(with_key(o, key, key(o[i])) == with_key(s, key, key(o[i])));
    lemma_with_key_from(s, key, key(o[i]), o[i]);
}

/// Filtering by key distributes over concatenation.
pub proof fn lemma_with_key_add<T>(a: Seq<T>, b: Seq<T>, key: spec_fn(T) -> u64, k: u64)
    ensures
        with_key(a + b, key, k) == with_key(a, key, k) + with_key(b, key, k),
    decreases b.len(),
{
    if b.len() == 0 {
        assert(a + b =~= a);
        assert(with_key(b, key, k) =~= Seq::<T>::empty());
        assert(with_key(a, key, k) + with_key(b, key, k) =~= with_key(a, key, k));
    } else {
        assert((a + b).drop_last() =~= a + b.drop_last());
        assert((a + b).last() == b.last());
        lemma_with_key_add(a, b.drop_last(), key, k);
        if key(b.last()) == k {
            assert(with_key(a, key, k) + with_key(b.drop_last(), key, k).push(b.last()) =~= (
            with_key(a, key, k) + with_key(b.drop_last(), key, k)).push(b.last()));
        }
    }
}

/// No element of `s` has key `k`.
pub proof fn lemma_with_key_none<T>(s: Seq<T>, key: spec_fn(T) -> u64, k: u64)
    requires
        forall|i: int| 0 <= i < s.len() ==> key(#[trigger] s[i]) != k,
    ensures
        with_key(s, key, k) == Seq::<T>::empty(),
    decreases s.len(),
{
    if s.len() > 0 {
        assert(key(s[s.len() - 1]) != k);
        lemma_with_key_none(s.drop_last(), key, k);
    }
}

/// A sorted sequence is its own stable sort.
pub proof fn lemma_sorted_self<T>(s: Seq<T>, key: spec_fn(T) -> u64)
    requires
        sorted_by_key(s, key),
    ensures
        stable_sorted(s, s, key),
{
}

/// Stable sort of a concatenation from stable sorts of the parts: merging.
pub open spec fn merge_ok<T>(o: Seq<T>, a: Seq<T>, b: Seq<T>, key: spec_fn(T) -> u64) -> bool {
    &&& sorted_by_key(o, key)
    &&& forall|k: u64| #[trigger] with_key(o, key, k) == with_key(a, key, k) + with_key(b, key, k)
}

/// Merging stable sorts of `a` and `b` gives a stable sort of `a + b`.
pub proof fn lemma_merge_stable<T>(
    o: Seq<T>,
    sa: Seq<T>,
    sb: Seq<T>,
    a: Seq<T>,
    b: Seq<T>,
    key: spec_fn(T) -> u64,
)
    requires
        merge_ok(o, sa, sb, key),
        stable_sorted(sa, a, key),
        stable_sorted(sb, b, key),
    ensures
        stable_sorted(o, a + b, key),
{
    assert forall|k: u64| #[trigger] with_key(o, key, k) == with_key(a + b, key, k) by {
        lemma_with_key_add(a, b, key, k);
        assert(with_key(sa, key, k) == with_key(a, key, k));
        assert(with_key(sb, key, k) == with_key(b, key, k));
    }
}

/// Stable merge of two event lists sorted by tick; on equal ticks the
/// events of `a` come first.
pub fn merge_events(a: &Vec<TimedMidiEvent>, b: &Vec<TimedMidiEvent>) -> (r: Vec<TimedMidiEvent>)
    requires
        sorted_by_key(event_models(a@), tick_key()),
        sorted_by_key(event_models(b@), tick_key()),
    ensures
        merge_ok(event_models(r@), event_models(a@), event_models(b@), tick_key()),
        r@.len() == a@.len() + b@.len(),
{
    let ghost key = tick_key();
    let ghost av = event_models(a@);
    let ghost bv = event_models(b@);
    let mut out: Vec<TimedMidiEvent> = Vec::new();
    let mut i: usize = 0;
    let mut j: usize = 0;
    assert(av.take(0) =~= Seq::<TimedEventModel>::empty());
    assert(bv.take(0) =~= Seq::<TimedEventModel>::empty());
    while i < a.len() || j < b.len()
        invariant
            key == tick_key(),
            av == event_models(a@),
            bv == event_models(b@),
            sorted_by_key(av, key),
            sorted_by_key(bv, key),
            i <= a.len(),
            j <= b.len(),
            out@.len() == i + j,
            sorted_by_key(event_models(out@), key),
            forall|k: u64|
                #[trigger] with_key(event_models(out@), key, k) == with_key(av.take(i as int), key, k)
                    + with_key(bv.take(j as int), key, k),
            forall|q: int|
                0 <= q < out@.len() ==> (i < a.len() ==> (#[trigger] out@[q])@.tick <= a@[i as int]@.tick)
                    && (j < b.len() ==> out@[q]@.tick <= b@[j as int]@.tick),
            forall|q: int|
                0 <= q < j ==> (i < a.len() ==> (#[trigger] b@[q])@.tick < a@[i as int]@.tick),
        decreases a.len() + b.len() - i - j,
    {
        let ghost old_out = event_models(out@);
        let take_a = j >= b.len() || (i < a.len() && a[i].tick <= b[j].tick);
        if take_a {
            let x = a[i].clone();
            proof {
                assert(av[i as int] == a@[i as int]@);
                assert(av.take(i as int + 1) =~= av.take(i as int).push(x@));
                assert forall|k: u64| #[trigger]
                    with_key(old_out.push(x@), key, k) == with_key(av.take(i as int + 1), key, k)
                        + with_key(bv.take(j as int), key, k) by {
                    assert(old_out.push(x@).drop_last() =~= old_out);
                    assert(av.take(i as int + 1).drop_last() =~= av.take(i as int));
                    assert(av.take(i as int + 1).last() == x@);
                    assert(old_out.push(x@).last() == x@);
                    assert(key(x@) == x@.tick);
                    assert(with_key(old_out, key, k) == with_key(av.take(i as int), key, k)
                        + with_key(bv.take(j as int), key, k));
                    if k == x@.tick {
                        assert forall|q: int| 0 <= q < bv.take(j as int).len() implies key(
                            #[trigger] bv.take(j as int)[q],
                        ) != k by {
                            assert(bv.take(j as int)[q] == b@[q]@);
                            assert(b@[q]@.tick < a@[i as int]@.tick);
                        }
                        lemma_with_key_none(bv.take(j as int), key, k);
                        assert(with_key(av.take(i as int), key, k) + Seq::<TimedEventModel>::empty()
                            =~= with_key(av.take(i as int), key, k));
                        assert(with_key(av.take(i as int), key, k).push(x@) + Seq::<
                            TimedEventModel,
                        >::empty() =~= with_key(av.take(i as int), key, k).push(x@));
                    }
                }
                if i + 1 < a.len() {
                    assert(av[i as int] == a@[i as int]@);
                    assert(av[i as int + 1] == a@[i as int + 1]@);
                    assert(a@[i as int]@.tick <= a@[i as int + 1]@.tick);
                }
            }
            out.push(x);
            i = i + 1;
            proof {
                assert(event_models(out@) =~= old_out.push(x@));
                assert forall|q: int|
                    0 <= q < j implies #[trigger] b@[q]@.tick < a@[i as int]@.tick || i >= a.len() by {
                    if i < a.len() {
                        assert(av[i - 1] == a@[i - 1]@);
                        assert(av[i as int] == a@[i as int]@);
                    }
                }
                assert forall|q: int|
                    0 <= q < out@.len() implies (i < a.len() ==> (#[trigger] out@[q])@.tick
                        <= a@[i as int]@.tick) && (j < b.len() ==> out@[q]@.tick
                        <= b@[j as int]@.tick) by {
                    if i < a.len() {
                        assert(av[i - 1] == a@[i - 1]@);
                        assert(av[i as int] == a@[i as int]@);
                    }
                }
            }
        } else {
            let y = b[j].clone();
            proof {
                assert(bv.take(j as int + 1) =~= bv.take(j as int).push(y@));
                assert forall|k: u64| #[trigger]
                    with_key(old_out.push(y@), key, k) == with_key(av.take(i as int), key, k)
                        + with_key(bv.take(j as int + 1), key, k) by {
                    assert(old_out.push(y@).drop_last() =~= old_out);
                    assert(bv.take(j as int + 1).drop_last() =~= bv.take(j as int));
                    assert(bv.take(j as int + 1).last() == y@);
                    assert(old_out.push(y@).last() == y@);
                    assert(key(y@) == y@.tick);
                    assert(with_key(old_out, key, k) == with_key(av.take(i as int), key, k)
                        + with_key(bv.take(j as int), key, k));
                    if k == y@.tick {
                        assert(with_key(av.take(i as int), key, k) + with_key(
                            bv.take(j as int),
                            key,
                            k,
                        ).push(y@) =~= (with_key(av.take(i as int), key, k) + with_key(
                            bv.take(j as int),
                            key,
                            k,
                        )).push(y@));
                    }
                }
                if j + 1 < b.len() {
                    assert(bv[j as int] == b@[j as int]@);
                    assert(bv[j as int + 1] == b@[j as int + 1]@);
                }
            }
            out.push(y);
            j = j + 1;
            proof {
                assert(event_models(out@) =~= old_out.push(y@));
            }
        }
    }
    assert(av.take(a.len() as int) =~= av);
    assert(bv.take(b.len() as int) =~= bv);
    out
}

/// Stable merge of two note lists sorted by start tick; on equal starts the
/// notes of `a` come first.
pub fn merge_rects(a: &[NoteRect], b: &[NoteRect]) -> (r: Vec<NoteRect>)
    requires
        sorted_by_key(a@, start_key()),
        sorted_by_key(b@, start_key()),
    ensures
        merge_ok(r@, a@, b@, start_key()),
        r@.len() == a@.len() + b@.len(),
{
    let ghost key = start_key();
    let mut out: Vec<NoteRect> = Vec::new();
    let mut i: usize = 0;
    let mut j: usize = 0;
    assert(a@.take(0) =~= Seq::<NoteRect>::empty());
    assert(b@.take(0) =~= Seq::<NoteRect>::empty());
    while i < a.len() || j < b.len()
        invariant
            key == start_key(),
            sorted_by_key(a@, key),
            sorted_by_key(b@, key),
            i <= a.len(),
            j <= b.len(),
            out@.len() == i + j,
            sorted_by_key(out@, key),
            forall|k: u64|
                #[trigger] with_key(out@, key, k) == with_key(a@.take(i as int), key, k) + with_key(
                    b@.take(j as int),
                    key,
                    k,
                ),
            forall|q: int|
                0 <= q < out@.len() ==> (i < a.len() ==> (#[trigger] out@[q]).start_tick
                    <= a@[i as int].start_tick) && (j < b.len() ==> out@[q].start_tick
                    <= b@[j as int].start_tick),
            forall|q: int|
                0 <= q < j ==> (i < a.len() ==> (#[trigger] b@[q]).start_tick
                    < a@[i as int].start_tick),
        decreases a.len() + b.len() - i - j,
    {
        let ghost old_out = out@;
        let take_a = j >= b.len() || (i < a.len() && a[i].start_tick <= b[j].start_tick);
        if take_a {
            let x = a[i];
            proof {
                assert forall|k: u64| #[trigger]
                    with_key(old_out.push(x), key, k) == with_key(a@.take(i as int + 1), key, k)
                        + with_key(b@.take(j as int), key, k) by {
                    assert(old_out.push(x).drop_last() =~= old_out);
                    assert(a@.take(i as int + 1).drop_last() =~= a@.take(i as int));
                    assert(a@.take(i as int + 1).last() == x);
                    assert(old_out.push(x).last() == x);
                    assert(key(x) == x.start_tick);
                    assert(with_key(old_out, key, k) == with_key(a@.take(i as int), key, k)
                        + with_key(b@.take(j as int), key, k));
                    if k == x.start_tick {
                        assert forall|q: int| 0 <= q < b@.take(j as int).len() implies key(
                            #[trigger] b@.take(j as int)[q],
                        ) != k by {
                            assert(b@.take(j as int)[q] == b@[q]);
                        }
                        lemma_with_key_none(b@.take(j as int), key, k);
                        assert(with_key(a@.take(i as int), key, k) + Seq::<NoteRect>::empty()
                            =~= with_key(a@.take(i as int), key, k));
                        assert(with_key(a@.take(i as int), key, k).push(x) + Seq::<
                            NoteRect,
                        >::empty() =~= with_key(a@.take(i as int), key, k).push(x));
                    }
                }
            }
            out.push(x);
            i = i + 1;
        } else {
            let y = b[j];
            proof {
                assert forall|k: u64| #[trigger]
                    with_key(old_out.push(y), key, k) == with_key(a@.take(i as int), key, k)
                        + with_key(b@.take(j as int + 1), key, k) by {
                    assert(old_out.push(y).drop_last() =~= old_out);
                    assert(b@.take(j as int + 1).drop_last() =~= b@.take(j as int));
                    assert(b@.take(j as int + 1).last() == y);
                    assert(old_out.push(y).last() == y);
                    assert(key(y) == y.start_tick);
                    assert(with_key(old_out, key, k) == with_key(a@.take(i as int), key, k)
                        + with_key(b@.take(j as int), key, k));
                    if k == y.start_tick {
                        assert(with_key(a@.take(i as int), key, k) + with_key(
                            b@.take(j as int),
                            key,
                            k,
                        ).push(y) =~= (with_key(a@.take(i as int), key, k) + with_key(
                            b@.take(j as int),
                            key,
                            k,
                        )).push(y));
                    }
                }
            }
            out.push(y);
            j = j + 1;
        }
    }
    assert(a@.take(a.len() as int) =~= a@);
    assert(b@.take(b.len() as int) =~= b@);
    out
}

/// Stable sort of note rectangles by start tick (merge sort).
pub fn sort_rects(v: &[NoteRect]) -> (r: Vec<NoteRect>)
    ensures
        stable_sorted(r@, v@, start_key()),
        r@.len() == v@.len(),
    decreases v@.len(),
{
    if v.len() <= 1 {
        let mut out: Vec<NoteRect> = Vec::new();
        if v.len() == 1 {
            out.push(v[0]);
        }
        assert(out@ =~= v@);
        proof {
            lemma_sorted_self(v@, start_key());
        }
        return out;
    }
    let mid = v.len() / 2;
    let (left, right) = v.split_at(mid);
    let sl = sort_rects(left);
    let sr = sort_rects(right);
    let out = merge_rects(sl.as_slice(), sr.as_slice());
    proof {
        assert(left@ + right@ =~= v@);
        lemma_merge_stable(out@, sl@, sr@, left@, right@, start_key());
    }
    out
}

} // verus!
