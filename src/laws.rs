use crate::models::{ChangeView, be_bytes, compare_spec, identity_input, offset_time, uid_of, EventView};
use vstd::utf8::{encode_utf8, encode_utf8_decode_utf8};
use crate::snapshot::{
    as_map, diff_spec, has_key, keys_unique, lemma_lookup_at, lemma_snapshot_of_unique, lookup,
    new_side, old_side, snapshot_of, EntryView,
};
use vstd::prelude::*;

verus! {

/// The identity is a function of title, start, end and room: two events that
/// agree on those four fields get the same identity.
pub proof fn identity_deterministic(a: EventView, b: EventView)
    requires
        a.title == b.title,
        a.start == b.start,
        a.end == b.end,
        a.room == b.room,
    ensures
        uid_of(a) == uid_of(b),
{
    assert(identity_input(a) == identity_input(b));
}

proof fn lemma_be_bytes_injective(a: u64, b: u64)
    requires
        be_bytes(a) == be_bytes(b),
    ensures
        a == b,
{
    assert(be_bytes(a)[0] == be_bytes(b)[0]);
    assert(be_bytes(a)[1] == be_bytes(b)[1]);
    assert(be_bytes(a)[2] == be_bytes(b)[2]);
    assert(be_bytes(a)[3] == be_bytes(b)[3]);
    assert(be_bytes(a)[4] == be_bytes(b)[4]);
    assert(be_bytes(a)[5] == be_bytes(b)[5]);
    assert(be_bytes(a)[6] == be_bytes(b)[6]);
    assert(be_bytes(a)[7] == be_bytes(b)[7]);
    assert(a == b) by (bit_vector)
        requires
            (a >> 56u64) as u8 == (b >> 56u64) as u8,
            (a >> 48u64) as u8 == (b >> 48u64) as u8,
            (a >> 40u64) as u8 == (b >> 40u64) as u8,
            (a >> 32u64) as u8 == (b >> 32u64) as u8,
            (a >> 24u64) as u8 == (b >> 24u64) as u8,
            (a >> 16u64) as u8 == (b >> 16u64) as u8,
            (a >> 8u64) as u8 == (b >> 8u64) as u8,
            a as u8 == b as u8,
    ;
}

/// The identity input encodes title, start, end and room unambiguously: two
/// events with the same input agree on all four fields. (A title's UTF-8 form
/// of 2^64 bytes or more cannot be held in memory.)
pub proof fn identity_input_determines_fields(a: EventView, b: EventView)
    requires
        identity_input(a) == identity_input(b),
        encode_utf8(a.title).len() <= u64::MAX,
        encode_utf8(b.title).len() <= u64::MAX,
    ensures
        a.title == b.title,
        a.start == b.start,
        a.end == b.end,
        a.room == b.room,
{
    let x = identity_input(a);
    let ta = encode_utf8(a.title);
    let tb = encode_utf8(b.title);
    let la = ta.len() as int;
    let lb = tb.len() as int;
    assert(x.subrange(0, 8) =~= be_bytes(la as u64));
    assert(x.subrange(0, 8) =~= be_bytes(lb as u64));
    lemma_be_bytes_injective(la as u64, lb as u64);
    assert(la == lb);
    assert(x.subrange(8, 8 + la) =~= ta);
    assert(x.subrange(8, 8 + la) =~= tb);
    encode_utf8_decode_utf8(a.title);
    encode_utf8_decode_utf8(b.title);
    assert(x.subrange(8 + la, 16 + la) =~= be_bytes(offset_time(a.start)));
    assert(x.subrange(8 + la, 16 + la) =~= be_bytes(offset_time(b.start)));
    lemma_be_bytes_injective(offset_time(a.start), offset_time(b.start));
    assert(x.subrange(16 + la, 24 + la) =~= be_bytes(offset_time(a.end)));
    assert(x.subrange(16 + la, 24 + la) =~= be_bytes(offset_time(b.end)));
    lemma_be_bytes_injective(offset_time(a.end), offset_time(b.end));
    assert(x.subrange(24 + la, x.len() as int) =~= encode_utf8(a.room));
    assert(x.subrange(24 + la, x.len() as int) =~= encode_utf8(b.room));
    encode_utf8_decode_utf8(a.room);
    encode_utf8_decode_utf8(b.room);
}

/// Changing the description, instructor or remarks of an event leaves its
/// identity unchanged.
pub proof fn identity_ignores_details(
    e: EventView,
    description: Seq<char>,
    instructor: Seq<char>,
    remarks: Seq<char>,
)
    ensures
        uid_of(EventView { description, instructor, remarks, ..e }) == uid_of(e),
{
    identity_deterministic(EventView { description, instructor, remarks, ..e }, e);
}

/// An event compared with itself shows no differences.
pub proof fn compare_self_is_empty(e: EventView)
    ensures
        compare_spec(e, e) == Seq::<Seq<char>>::empty(),
{
    assert(compare_spec(e, e) =~= Seq::<Seq<char>>::empty());
}

proof fn lemma_old_side_covered(olds: Seq<EntryView>, news: Seq<EntryView>)
    requires
        forall|i: int|
            0 <= i < olds.len() ==> has_key(news, #[trigger] olds[i].0) && lookup(news, olds[i].0)
                == olds[i].1,
    ensures
        old_side(olds, news) == Seq::<crate::models::ChangeView>::empty(),
    decreases olds.len(),
{
    if olds.len() > 0 {
        let init = olds.drop_last();
        assert forall|i: int| 0 <= i < init.len() implies has_key(news, #[trigger] init[i].0)
            && lookup(news, init[i].0) == init[i].1 by {
            assert(init[i] == olds[i]);
        }
        lemma_old_side_covered(init, news);
        let last = olds.last();
        assert(olds[olds.len() - 1] == last);
        compare_self_is_empty(last.1);
    }
}

proof fn lemma_new_side_covered(news: Seq<EntryView>, olds: Seq<EntryView>)
    requires
        forall|i: int| 0 <= i < news.len() ==> has_key(olds, #[trigger] news[i].0),
    ensures
        new_side(news, olds) == Seq::<crate::models::ChangeView>::empty(),
    decreases news.len(),
{
    if news.len() > 0 {
        let init = news.drop_last();
        assert forall|i: int| 0 <= i < init.len() implies has_key(olds, #[trigger] init[i].0) by {
            assert(init[i] == news[i]);
        }
        lemma_new_side_covered(init, olds);
        assert(news[news.len() - 1] == news.last());
    }
}

/// Diffing a snapshot against itself yields no records.
pub proof fn diff_of_same_snapshot_is_empty(s: Seq<EntryView>)
    requires
        keys_unique(s),
    ensures
        diff_spec(s, s) == Seq::<crate::models::ChangeView>::empty(),
{
    assert forall|i: int| 0 <= i < s.len() implies has_key(s, #[trigger] s[i].0) && lookup(s, s[i].0)
        == s[i].1 by {
        lemma_lookup_at(s, i);
    }
    lemma_old_side_covered(s, s);
    lemma_new_side_covered(s, s);
    assert(diff_spec(s, s) =~= Seq::<crate::models::ChangeView>::empty());
}

/// Reconciling the same list of events a second time reports no changes:
/// the snapshot the first run installs diffs empty against itself.
pub proof fn reconcile_twice_is_quiet(events: Seq<EventView>)
    ensures
        diff_spec(snapshot_of(events), snapshot_of(events)) == Seq::<crate::models::ChangeView>::empty(),
{
    lemma_snapshot_of_unique(events);
    diff_of_same_snapshot_is_empty(snapshot_of(events));
}

/// The identities of the entries of `s`.
pub open spec fn keys_of(s: Seq<EntryView>) -> Set<Seq<char>>
    decreases s.len(),
{
    if s.len() == 0 {
        Set::empty()
    } else {
        keys_of(s.drop_last()).insert(s.last().0)
    }
}

/// Identities present in both snapshots whose events differ in some field.
pub open spec fn changed_keys(a: Seq<EntryView>, b: Seq<EntryView>) -> Set<Seq<char>> {
    as_map(a).dom().filter(
        |k: Seq<char>| has_key(b, k) && compare_spec(lookup(a, k), lookup(b, k)).len() > 0,
    )
}

proof fn lemma_keys_of(s: Seq<EntryView>)
    ensures
        keys_of(s).finite(),
        forall|k: Seq<char>| keys_of(s).contains(k) <==> has_key(s, k),
    decreases s.len(),
{
    if s.len() > 0 {
        let init = s.drop_last();
        lemma_keys_of(init);
        assert forall|k: Seq<char>| keys_of(s).contains(k) <==> has_key(s, k) by {
            if has_key(s, k) {
                let i = choose|i: int| 0 <= i < s.len() && #[trigger] s[i].0 == k;
                if i < s.len() - 1 {
                    assert(init[i].0 == k);
                }
            }
            if has_key(init, k) {
                let i = choose|i: int| 0 <= i < init.len() && #[trigger] init[i].0 == k;
                assert(s[i].0 == k);
            }
            assert(s[s.len() - 1].0 == s.last().0);
        }
    }
}

proof fn lemma_insert_filter_len(s: Set<Seq<char>>, x: Seq<char>, p: spec_fn(Seq<char>) -> bool)
    requires
        s.finite(),
        !s.contains(x),
    ensures
        s.insert(x).filter(p).len() == s.filter(p).len() + (if p(x) { 1int } else { 0int }),
{
    s.lemma_len_filter(p);
    if p(x) {
        assert(s.insert(x).filter(p) =~= s.filter(p).insert(x));
    } else {
        assert(s.insert(x).filter(p) =~= s.filter(p));
    }
}

proof fn lemma_old_side_len(olds: Seq<EntryView>, a: Seq<EntryView>, b: Seq<EntryView>)
    requires
        keys_unique(olds),
        forall|i: int| 0 <= i < olds.len() ==> #[trigger] olds[i].1 == lookup(a, olds[i].0),
    ensures
        old_side(olds, b).len() == keys_of(olds).filter(|k: Seq<char>| !has_key(b, k)).len()
            + keys_of(olds).filter(
            |k: Seq<char>| has_key(b, k) && compare_spec(lookup(a, k), lookup(b, k)).len() > 0,
        ).len(),
    decreases olds.len(),
{
    let gone = |k: Seq<char>| !has_key(b, k);
    let changed = |k: Seq<char>| has_key(b, k) && compare_spec(lookup(a, k), lookup(b, k)).len() > 0;
    if olds.len() == 0 {
        assert(keys_of(olds).filter(gone) =~= Set::empty());
        assert(keys_of(olds).filter(changed) =~= Set::empty());
    } else {
        let init = olds.drop_last();
        let x = olds.last();
        assert(olds[olds.len() - 1] == x);
        assert forall|i: int| 0 <= i < init.len() implies #[trigger] init[i].1 == lookup(a, init[i].0) by {
            assert(init[i] == olds[i]);
        }
        assert(keys_unique(init)) by {
            assert forall|i: int, j: int| 0 <= i < init.len() && 0 <= j < init.len() && i != j
                implies init[i].0 != init[j].0 by {
                assert(init[i] == olds[i] && init[j] == olds[j]);
            }
        }
        lemma_old_side_len(init, a, b);
        lemma_keys_of(init);
        if has_key(init, x.0) {
            let i = choose|i: int| 0 <= i < init.len() && #[trigger] init[i].0 == x.0;
            assert(olds[i].0 == olds[olds.len() - 1].0);
        }
        lemma_insert_filter_len(keys_of(init), x.0, gone);
        lemma_insert_filter_len(keys_of(init), x.0, changed);
    }
}

proof fn lemma_new_side_len(news: Seq<EntryView>, a: Seq<EntryView>)
    requires
        keys_unique(news),
    ensures
        new_side(news, a).len() == keys_of(news).filter(|k: Seq<char>| !has_key(a, k)).len(),
    decreases news.len(),
{
    let fresh = |k: Seq<char>| !has_key(a, k);
    if news.len() == 0 {
        assert(keys_of(news).filter(fresh) =~= Set::empty());
    } else {
        let init = news.drop_last();
        let x = news.last();
        assert(news[news.len() - 1] == x);
        assert(keys_unique(init)) by {
            assert forall|i: int, j: int| 0 <= i < init.len() && 0 <= j < init.len() && i != j
                implies init[i].0 != init[j].0 by {
                assert(init[i] == news[i] && init[j] == news[j]);
            }
        }
        lemma_new_side_len(init, a);
        lemma_keys_of(init);
        if has_key(init, x.0) {
            let i = choose|i: int| 0 <= i < init.len() && #[trigger] init[i].0 == x.0;
            assert(news[i].0 == news[news.len() - 1].0);
        }
        lemma_insert_filter_len(keys_of(init), x.0, fresh);
    }
}

/// The diff holds one record per identity removed, one per identity added,
/// and one per identity kept whose event changed, and nothing else.
pub proof fn diff_len_counts_differences(a: Seq<EntryView>, b: Seq<EntryView>)
    requires
        keys_unique(a),
        keys_unique(b),
    ensures
        diff_spec(a, b).len() == as_map(a).dom().difference(as_map(b).dom()).len()
            + as_map(b).dom().difference(as_map(a).dom()).len() + changed_keys(a, b).len(),
{
    assert forall|i: int| 0 <= i < a.len() implies #[trigger] a[i].1 == lookup(a, a[i].0) by {
        lemma_lookup_at(a, i);
    }
    lemma_old_side_len(a, a, b);
    lemma_new_side_len(b, a);
    lemma_keys_of(a);
    lemma_keys_of(b);
    assert(as_map(a).dom().difference(as_map(b).dom()) =~= keys_of(a).filter(
        |k: Seq<char>| !has_key(b, k),
    ));
    assert(as_map(b).dom().difference(as_map(a).dom()) =~= keys_of(b).filter(
        |k: Seq<char>| !has_key(a, k),
    ));
    assert(changed_keys(a, b) =~= keys_of(a).filter(
        |k: Seq<char>| has_key(b, k) && compare_spec(lookup(a, k), lookup(b, k)).len() > 0,
    ));
}

/// The events carried by the `Added` records, in order.
pub open spec fn added_events(cs: Seq<ChangeView>) -> Seq<EventView>
    decreases cs.len(),
{
    if cs.len() == 0 {
        seq![]
    } else {
        match cs.last() {
            ChangeView::Added(e) => added_events(cs.drop_last()).push(e),
            _ => added_events(cs.drop_last()),
        }
    }
}

/// The events carried by the `Deleted` records, in order.
pub open spec fn deleted_events(cs: Seq<ChangeView>) -> Seq<EventView>
    decreases cs.len(),
{
    if cs.len() == 0 {
        seq![]
    } else {
        match cs.last() {
            ChangeView::Deleted(e) => deleted_events(cs.drop_last()).push(e),
            _ => deleted_events(cs.drop_last()),
        }
    }
}

/// The events of `s` stored under identities that `other` lacks, in order.
pub open spec fn events_missing_from(s: Seq<EntryView>, other: Seq<EntryView>) -> Seq<EventView>
    decreases s.len(),
{
    if s.len() == 0 {
        seq![]
    } else if !has_key(other, s.last().0) {
        events_missing_from(s.drop_last(), other).push(s.last().1)
    } else {
        events_missing_from(s.drop_last(), other)
    }
}

proof fn lemma_picked_concat(x: Seq<ChangeView>, y: Seq<ChangeView>)
    ensures
        added_events(x + y) == added_events(x) + added_events(y),
        deleted_events(x + y) == deleted_events(x) + deleted_events(y),
    decreases y.len(),
{
    if y.len() == 0 {
        assert(x + y =~= x);
        assert(added_events(x) + added_events(y) =~= added_events(x));
        assert(deleted_events(x) + deleted_events(y) =~= deleted_events(x));
    } else {
        assert((x + y).drop_last() =~= x + y.drop_last());
        assert((x + y).last() == y.last());
        lemma_picked_concat(x, y.drop_last());
        assert(added_events(x) + added_events(y.drop_last()).push(y.last()->Added_0)
            =~= (added_events(x) + added_events(y.drop_last())).push(y.last()->Added_0));
        assert(deleted_events(x) + deleted_events(y.drop_last()).push(y.last()->Deleted_0)
            =~= (deleted_events(x) + deleted_events(y.drop_last())).push(y.last()->Deleted_0));
    }
}

proof fn lemma_picked_push(s: Seq<ChangeView>, c: ChangeView)
    ensures
        added_events(s.push(c)) == (match c {
            ChangeView::Added(e) => added_events(s).push(e),
            _ => added_events(s),
        }),
        deleted_events(s.push(c)) == (match c {
            ChangeView::Deleted(e) => deleted_events(s).push(e),
            _ => deleted_events(s),
        }),
{
    assert(s.push(c).drop_last() =~= s);
}

proof fn lemma_old_side_picked(olds: Seq<EntryView>, news: Seq<EntryView>)
    ensures
        added_events(old_side(olds, news)) == Seq::<EventView>::empty(),
        deleted_events(old_side(olds, news)) == events_missing_from(olds, news),
    decreases olds.len(),
{
    if olds.len() > 0 {
        lemma_old_side_picked(olds.drop_last(), news);
        let rest = old_side(olds.drop_last(), news);
        let (k, e) = olds.last();
        lemma_picked_push(rest, ChangeView::Deleted(e));
        lemma_picked_push(
            rest,
            ChangeView::Modified(e, lookup(news, k), compare_spec(e, lookup(news, k))),
        );
    }
}

proof fn lemma_new_side_picked(news: Seq<EntryView>, olds: Seq<EntryView>)
    ensures
        added_events(new_side(news, olds)) == events_missing_from(news, olds),
        deleted_events(new_side(news, olds)) == Seq::<EventView>::empty(),
    decreases news.len(),
{
    if news.len() > 0 {
        lemma_new_side_picked(news.drop_last(), olds);
        lemma_picked_push(new_side(news.drop_last(), olds), ChangeView::Added(news.last().1));
    }
}

/// The `Added` records carry exactly the events of `b` under identities that
/// `a` lacks, and the `Deleted` records exactly the events of `a` under
/// identities that `b` lacks, each once.
pub proof fn diff_added_and_deleted_events(a: Seq<EntryView>, b: Seq<EntryView>)
    ensures
        added_events(diff_spec(a, b)) == events_missing_from(b, a),
        deleted_events(diff_spec(a, b)) == events_missing_from(a, b),
        added_events(diff_spec(a, b)).to_multiset() == events_missing_from(b, a).to_multiset(),
        deleted_events(diff_spec(a, b)).to_multiset() == events_missing_from(a, b).to_multiset(),
{
    lemma_picked_concat(old_side(a, b), new_side(b, a));
    lemma_old_side_picked(a, b);
    lemma_new_side_picked(b, a);
    assert(Seq::<EventView>::empty() + events_missing_from(b, a) =~= events_missing_from(b, a));
    assert(events_missing_from(a, b) + Seq::<EventView>::empty() =~= events_missing_from(a, b));
}

} // verus!
