//! The aggregator: reduces the merged event stream of all pull workers into
//! the sorted list of freshly downloaded images.

use vstd::prelude::*;

use crate::status::Status;
use crate::status::StatusModel;
use crate::text::lex_leq_fn;
use crate::text::sort_strings;
use crate::text::sorted_strings;

verus! {

/// The images of the events that report a fresh download, in arrival order.
pub open spec fn downloaded_of(events: Seq<StatusModel>) -> Seq<Seq<char>>
    decreases events.len(),
{
    if events.len() == 0 {
        Seq::empty()
    } else {
        (if events[0].did_download {
            seq![events[0].image]
        } else {
            Seq::empty()
        }) + downloaded_of(events.drop_first())
    }
}

/// What the aggregator owes for a stream of events: the downloaded images,
/// each exactly as often as reported, in ascending lexicographic order.
pub open spec fn is_aggregate(events: Seq<StatusModel>, out: Seq<Seq<char>>) -> bool {
    &&& sorted_strings(out)
    &&& out.to_multiset() == downloaded_of(events).to_multiset()
}

/// Folds one received event into the accumulated report: a download event
/// records its image, any other event leaves the report unchanged.
pub fn reduce_step(acc: &mut Vec<String>, event: &Status)
    ensures
        event@.did_download ==> final(acc).deep_view() == old(acc).deep_view().push(event@.image),
        !event@.did_download ==> *final(acc) == *old(acc),
{
    if event.did_download {
        acc.push(event.image.clone());
        proof {
            assert(acc.deep_view() =~= old(acc).deep_view().push(event@.image));
        }
    }
}

/// Adding one event at the end of a stream appends its image to the
/// downloaded images when it reports a download, and nothing otherwise.
proof fn lemma_downloaded_snoc(events: Seq<StatusModel>, i: int)
    requires
        0 <= i < events.len(),
    ensures
        downloaded_of(events.take(i + 1)) == downloaded_of(events.take(i)) + (if events[i].did_download {
            seq![events[i].image]
        } else {
            Seq::<Seq<char>>::empty()
        }),
    decreases i,
{
    let pre = events.take(i + 1);
    if i == 0 {
        assert(pre.drop_first() =~= Seq::<StatusModel>::empty());
        assert(events.take(0) =~= Seq::<StatusModel>::empty());
        assert(downloaded_of(pre) =~= downloaded_of(events.take(0)) + (if events[0].did_download {
            seq![events[0].image]
        } else {
            Seq::<Seq<char>>::empty()
        }));
    } else {
        lemma_downloaded_snoc(events.drop_first(), i - 1);
        assert(pre.drop_first() =~= events.drop_first().take(i));
        assert(events.take(i).drop_first() =~= events.drop_first().take(i - 1));
        assert(events.drop_first()[i - 1] == events[i]);
        assert(downloaded_of(events.take(i + 1)) =~= downloaded_of(events.take(i)) + (if events[i].did_download {
            seq![events[i].image]
        } else {
            Seq::<Seq<char>>::empty()
        }));
    }
}

/// Consumes the whole event stream and returns the report: every image whose
/// terminal event announced a fresh download, sorted ascending
/// lexicographically.
pub fn reduce_events(events: &Vec<Status>) -> (r: Vec<String>)
    ensures
        is_aggregate(events.deep_view(), r.deep_view()),
{
    let mut acc: Vec<String> = Vec::new();
    proof {
        assert(acc.deep_view() =~= downloaded_of(events.deep_view().take(0)));
        assert(events.deep_view().take(0) =~= Seq::<StatusModel>::empty());
    }
    let mut i: usize = 0;
    while i < events.len()
        invariant
            i <= events@.len(),
            events.deep_view().len() == events@.len(),
            acc.deep_view() == downloaded_of(events.deep_view().take(i as int)),
        decreases events@.len() - i,
    {
        proof {
            lemma_downloaded_snoc(events.deep_view(), i as int);
        }
        reduce_step(&mut acc, &events[i]);
        proof {
            assert(events.deep_view()[i as int] == events@[i as int]@);
            assert(acc.deep_view() =~= downloaded_of(events.deep_view().take(i + 1)));
        }
        i += 1;
    }
    proof {
        assert(events.deep_view().take(events@.len() as int) =~= events.deep_view());
    }
    sort_strings(&mut acc);
    acc
}

/// A single event contributes its image exactly when it reports a download.
pub proof fn lemma_downloaded_singleton(e: StatusModel)
    ensures
        downloaded_of(seq![e]) == (if e.did_download {
            seq![e.image]
        } else {
            Seq::<Seq<char>>::empty()
        }),
{
    let head = (if e.did_download {
        seq![e.image]
    } else {
        Seq::<Seq<char>>::empty()
    });
    assert(seq![e].drop_first() =~= Seq::<StatusModel>::empty());
    assert(downloaded_of(Seq::<StatusModel>::empty()) =~= Seq::<Seq<char>>::empty());
    assert(seq![e][0] == e);
    assert(head + Seq::<Seq<char>>::empty() =~= head);
    assert(downloaded_of(seq![e]) =~= head);
}

/// A stream without download events contributes nothing.
pub proof fn lemma_downloaded_none(events: Seq<StatusModel>)
    requires
        forall|k: int| 0 <= k < events.len() ==> !(#[trigger] events[k].did_download),
    ensures
        downloaded_of(events) == Seq::<Seq<char>>::empty(),
    decreases events.len(),
{
    if events.len() > 0 {
        lemma_downloaded_none(events.drop_first());
        assert(downloaded_of(events) =~= Seq::<Seq<char>>::empty());
    }
}

/// The downloaded images of a stream split across two halves are those of the
/// halves, in order.
pub proof fn lemma_downloaded_concat(a: Seq<StatusModel>, b: Seq<StatusModel>)
    ensures
        downloaded_of(a + b) == downloaded_of(a) + downloaded_of(b),
    decreases a.len(),
{
    if a.len() == 0 {
        assert(a + b =~= b);
        assert(downloaded_of(a) =~= Seq::<Seq<char>>::empty());
        assert(downloaded_of(a) + downloaded_of(b) =~= downloaded_of(b));
    } else {
        lemma_downloaded_concat(a.drop_first(), b);
        assert((a + b).drop_first() =~= a.drop_first() + b);
        assert((a + b)[0] == a[0]);
        assert(downloaded_of(a + b) =~= downloaded_of(a) + downloaded_of(b));
    }
}

/// Reordering the arrival of events reorders at most the downloaded images:
/// as multisets they are the same.
proof fn lemma_downloaded_permutation(e1: Seq<StatusModel>, e2: Seq<StatusModel>)
    requires
        e1.to_multiset() == e2.to_multiset(),
    ensures
        downloaded_of(e1).to_multiset() == downloaded_of(e2).to_multiset(),
    decreases e1.len(),
{
    broadcast use vstd::seq_lib::group_to_multiset_ensures;
    broadcast use vstd::multiset::group_multiset_axioms;

    if e1.len() == 0 {
        assert(e2.to_multiset().len() == 0);
        assert(e2.len() == 0);
    } else {
        let x = e1[0];
        assert(e1.contains(x));
        assert(e2.to_multiset().count(x) > 0);
        assert(e2.contains(x));
        let i = choose|i: int| 0 <= i < e2.len() && e2[i] == x;
        let rest1 = e1.drop_first();
        let rest2 = e2.remove(i);
        assert(e1.remove(0) =~= rest1);
        assert(rest1.to_multiset() == e1.to_multiset().remove(x));
        assert(rest2.to_multiset() == e2.to_multiset().remove(x));
        lemma_downloaded_permutation(rest1, rest2);
        let head = (if x.did_download {
            seq![x.image]
        } else {
            Seq::<Seq<char>>::empty()
        });
        assert(downloaded_of(e1) =~= head + downloaded_of(rest1));
        assert(e2 =~= e2.take(i) + seq![x] + e2.skip(i + 1));
        assert(rest2 =~= e2.take(i) + e2.skip(i + 1));
        lemma_downloaded_concat(e2.take(i) + seq![x], e2.skip(i + 1));
        lemma_downloaded_concat(e2.take(i), seq![x]);
        lemma_downloaded_concat(e2.take(i), e2.skip(i + 1));
        assert(downloaded_of(seq![x]) =~= head) by {
            assert(seq![x].drop_first() =~= Seq::<StatusModel>::empty());
            assert(downloaded_of(Seq::<StatusModel>::empty()) =~= Seq::<Seq<char>>::empty());
            assert(seq![x][0] == x);
            assert(head + Seq::<Seq<char>>::empty() =~= head);
        }
        assert(downloaded_of(e2) == downloaded_of(e2.take(i)) + head + downloaded_of(
            e2.skip(i + 1),
        )) by {
            assert(downloaded_of(e2) == downloaded_of((e2.take(i) + seq![x]) + e2.skip(i + 1)));
        }
        assert(downloaded_of(rest2) == downloaded_of(e2.take(i)) + downloaded_of(e2.skip(i + 1)));
        broadcast use vstd::seq_lib::lemma_multiset_commutative;

        assert(downloaded_of(e1).to_multiset() =~= downloaded_of(e2).to_multiset());
    }
}

/// The aggregator's report does not depend on the order in which events
/// arrived: two streams that hold the same events in any order have the same
/// report, element for element.
pub proof fn lemma_aggregate_order_independent(
    e1: Seq<StatusModel>,
    e2: Seq<StatusModel>,
    r1: Seq<Seq<char>>,
    r2: Seq<Seq<char>>,
)
    requires
        e1.to_multiset() == e2.to_multiset(),
        is_aggregate(e1, r1),
        is_aggregate(e2, r2),
    ensures
        r1 == r2,
{
    lemma_downloaded_permutation(e1, e2);
    crate::text::lemma_lex_total_ordering();
    vstd::seq_lib::lemma_sorted_unique(r1, r2, lex_leq_fn());
}

/// The aggregator's report is sorted ascending and free of duplicates
/// whenever no image reports a download twice in one stream.
pub proof fn lemma_aggregate_sorted_distinct(events: Seq<StatusModel>, out: Seq<Seq<char>>)
    requires
        is_aggregate(events, out),
        downloaded_of(events).no_duplicates(),
    ensures
        sorted_strings(out),
        out.no_duplicates(),
{
    broadcast use vstd::seq_lib::group_to_multiset_ensures;

    downloaded_of(events).lemma_multiset_has_no_duplicates();
    assert(forall|x: Seq<char>| out.to_multiset().contains(x) ==> out.to_multiset().count(x) == 1);
    out.lemma_multiset_has_no_duplicates_conv();
}

} // verus!
