//! General properties of the reconciliation engine, stated and proved over
//! the mathematical model that the function contracts use.

use vstd::prelude::*;

use crate::pm::{
    spec_closed_topics, spec_display_listing, spec_enabled_filter, spec_has_name,
    spec_mark_enabled, spec_prev_has_name, spec_previous_of, spec_synthesize_closed,
};
use crate::topics::{PreviousTopicView, TopicView};

verus! {

/// Names are unique within a current manifest set. The manifest source
/// guarantees this; the reconciler consumes it as already validated.
pub open spec fn spec_unique_names(c: Seq<TopicView>) -> bool {
    forall|i: int, j: int| 0 <= i < j < c.len() ==> c[i].name != c[j].name
}

/// The display listing holds one entry per distinct name seen in either
/// source: its length is the size of the current set plus the number of
/// persisted-only (closed) topics.
pub proof fn lemma_display_listing_len(c: Seq<TopicView>, p: Seq<PreviousTopicView>)
    ensures
        spec_display_listing(c, p).len() == c.len() + spec_closed_topics(c, p).len(),
{
}

/// A name present in both sources keeps its current entry in the display
/// listing, with `enabled` forced to true.
pub proof fn lemma_common_name_enabled(c: Seq<TopicView>, p: Seq<PreviousTopicView>, i: int)
    requires
        0 <= i < c.len(),
        spec_prev_has_name(p, c[i].name),
    ensures
        spec_display_listing(c, p)[spec_closed_topics(c, p).len() + i].name == c[i].name,
        spec_display_listing(c, p)[spec_closed_topics(c, p).len() + i].enabled,
{
    assert(spec_display_listing(c, p)[spec_closed_topics(c, p).len() + i] == spec_mark_enabled(
        c[i],
        p,
    ));
}

/// Against an empty current set every display entry is a synthesized
/// closed topic: closed, disabled, with an empty architecture set.
pub proof fn lemma_display_listing_all_closed(p: Seq<PreviousTopicView>, j: int)
    requires
        0 <= j < spec_display_listing(Seq::<TopicView>::empty(), p).len(),
    ensures
        spec_display_listing(Seq::<TopicView>::empty(), p)[j].closed,
        !spec_display_listing(Seq::<TopicView>::empty(), p)[j].enabled,
        spec_display_listing(Seq::<TopicView>::empty(), p)[j].arch == Seq::<Seq<char>>::empty(),
{
    let closed = spec_closed_topics(Seq::<TopicView>::empty(), p);
    assert(spec_display_listing(Seq::<TopicView>::empty(), p)[j] == spec_synthesize_closed(
        closed[j],
    ));
}

/// Every record persisted from a display listing stands for a current
/// topic: its name is carried by some entry `c[i]`, and that entry's marked
/// form is both enabled and the very listing element the record projects.
proof fn lemma_persisted_entry(c: Seq<TopicView>, p: Seq<PreviousTopicView>, j: int)
    requires
        0 <= j < spec_previous_of(spec_display_listing(c, p)).len(),
    ensures
        exists|i: int|
            0 <= i < c.len() && c[i].name == spec_previous_of(spec_display_listing(c, p))[j].name
                && spec_mark_enabled(c[i], p) == spec_enabled_filter(spec_display_listing(c, p))[j]
                && spec_mark_enabled(c[i], p).enabled,
{
    broadcast use vstd::seq_lib::group_seq_lib_default;
    broadcast use Seq::lemma_filter_contains_rev;

    let d1 = spec_display_listing(c, p);
    let ef = spec_enabled_filter(d1);
    let e = ef[j];
    assert(e.enabled);
    assert(ef.contains(e));
    assert(d1.contains(e));
    let m = choose|m: int| 0 <= m < d1.len() && d1[m] == e;
    let a_len = spec_closed_topics(c, p).len() as int;
    if m < a_len {
        assert(d1[m] == spec_synthesize_closed(spec_closed_topics(c, p)[m]));
        assert(!e.enabled);
    } else {
        let i = m - a_len;
        assert(d1[m] == spec_mark_enabled(c[i], p));
        assert(spec_mark_enabled(c[i], p).name == c[i].name);
        assert(spec_previous_of(d1)[j].name == e.name);
    }
}

/// Committing does not drift: persist the enabled entries of a display
/// listing, recompute the listing against the same current set, persist
/// again, and the second snapshot equals the first. Requires only what the
/// data model already guarantees: unique names in the current set.
pub proof fn lemma_commit_idempotent(c: Seq<TopicView>, p: Seq<PreviousTopicView>)
    requires
        spec_unique_names(c),
    ensures
        spec_previous_of(spec_display_listing(c, spec_previous_of(spec_display_listing(c, p))))
            == spec_previous_of(spec_display_listing(c, p)),
{
    broadcast use vstd::seq_lib::group_seq_lib_default;
    broadcast use Seq::lemma_filter_contains_rev;

    let d1 = spec_display_listing(c, p);
    let a1 = spec_closed_topics(c, p).map_values(
        |t: PreviousTopicView| spec_synthesize_closed(t),
    );
    let b1 = c.map_values(|t: TopicView| spec_mark_enabled(t, p));
    let ef1 = spec_enabled_filter(d1);
    let p2 = spec_previous_of(d1);
    let d2 = spec_display_listing(c, p2);
    let b2 = c.map_values(|t: TopicView| spec_mark_enabled(t, p2));

    // Every persisted record names a current topic, so recomputing the
    // closed-topic list against the snapshot just written finds nothing.
    assert forall|j: int| 0 <= j < p2.len() implies spec_has_name(c, p2[j].name) by {
        lemma_persisted_entry(c, p, j);
    }
    if spec_closed_topics(c, p2).len() > 0 {
        let x = spec_closed_topics(c, p2)[0];
        assert(!spec_has_name(c, x.name));
        assert(spec_closed_topics(c, p2).contains(x));
        assert(p2.contains(x));
        let j = choose|j: int| 0 <= j < p2.len() && p2[j] == x;
        assert(spec_has_name(c, p2[j].name));
        assert(false);
    }

    // Marking against the new snapshot changes nothing: a current entry is
    // named by the new snapshot exactly when its marked form was enabled.
    assert forall|i: int| 0 <= i < c.len() implies spec_mark_enabled(c[i], p2)
        == spec_mark_enabled(c[i], p) by {
        if spec_prev_has_name(p2, c[i].name) {
            let j = choose|j: int| 0 <= j < p2.len() && p2[j].name == c[i].name;
            lemma_persisted_entry(c, p, j);
            let i2 = choose|i2: int|
                0 <= i2 < c.len() && c[i2].name == p2[j].name && spec_mark_enabled(c[i2], p)
                    == ef1[j] && spec_mark_enabled(c[i2], p).enabled;
            assert(c[i2].name == c[i].name);
            if i2 != i {
                assert(false);
            }
            assert(spec_mark_enabled(c[i], p).enabled);
            assert(spec_mark_enabled(c[i], p2) =~= spec_mark_enabled(c[i], p));
        } else {
            if spec_prev_has_name(p, c[i].name) {
                let e = spec_mark_enabled(c[i], p);
                assert(d1[a1.len() + i] == e);
                assert(e.enabled);
                assert(ef1.contains(d1[a1.len() + i]));
                let j = choose|j: int| 0 <= j < ef1.len() && ef1[j] == e;
                assert(p2[j].name == e.name);
                assert(spec_prev_has_name(p2, c[i].name));
                assert(false);
            }
        }
    }
    assert(b2 =~= b1);

    // The second listing is exactly the marked current entries.
    assert(spec_closed_topics(c, p2).map_values(
        |t: PreviousTopicView| spec_synthesize_closed(t),
    ).len() == 0);
    assert(d2 =~= b1);

    // Persisting drops the synthesized part of the first listing too: all
    // of it is disabled.
    if spec_enabled_filter(a1).len() > 0 {
        let x = spec_enabled_filter(a1)[0];
        assert(x.enabled);
        assert(spec_enabled_filter(a1).contains(x));
        assert(a1.contains(x));
        let m = choose|m: int| 0 <= m < a1.len() && a1[m] == x;
        assert(a1[m] == spec_synthesize_closed(spec_closed_topics(c, p)[m]));
        assert(false);
    }
    assert(spec_enabled_filter(d1) == spec_enabled_filter(a1) + spec_enabled_filter(b1));
    assert(spec_enabled_filter(d1) =~= spec_enabled_filter(b1));
    assert(spec_enabled_filter(d2) == spec_enabled_filter(b1));
    assert(spec_previous_of(d2) =~= spec_previous_of(d1));
}

} // verus!
