//! State reconciliation: closed-topic detection, display-listing merge,
//! revert-set computation, and source-list rendering.

use vstd::prelude::*;
use vstd::string::StringExecFns;

use crate::topics::{
    prevs_view, strs_view, topics_view, PreviousTopic, PreviousTopicView,
    PreviousTopics, TopicManifest, TopicManifests, TopicView,
};

verus! {

/// Whether some topic in `c` carries the name `n`.
pub open spec fn spec_has_name(c: Seq<TopicView>, n: Seq<char>) -> bool {
    exists|i: int| 0 <= i < c.len() && c[i].name == n
}

/// The persisted entries whose names are absent from the current set, in
/// persisted order: exactly the topics that no longer exist upstream.
pub open spec fn spec_closed_topics(
    c: Seq<TopicView>,
    p: Seq<PreviousTopicView>,
) -> Seq<PreviousTopicView> {
    p.filter(|t: PreviousTopicView| !spec_has_name(c, t.name))
}

/// The subset of persisted entries whose name is absent from the current
/// manifest set: these topics no longer exist upstream and must be closed.
/// Order follows the persisted list. The caller supplies the persisted
/// snapshot; a snapshot that could not be read is a hard failure for this
/// operation and must not be passed in as empty.
pub fn get_closed_topic(current: &TopicManifests, previous: &PreviousTopics) -> (r: PreviousTopics)
    ensures
        prevs_view(r@) == spec_closed_topics(topics_view(current@), prevs_view(previous@)),
{
    let ghost cv = topics_view(current@);
    let mut closed: PreviousTopics = Vec::new();
    let mut i: usize = 0;
    proof {
        lemma_closed_topics_empty(cv);
        assert(prevs_view(previous@.subrange(0, 0)) =~= Seq::<PreviousTopicView>::empty());
    }
    while i < previous.len()
        invariant
            i <= previous.len(),
            cv == topics_view(current@),
            prevs_view(closed@) == spec_closed_topics(cv, prevs_view(previous@.subrange(0, i as int))),
        decreases previous.len() - i,
    {
        let ghost before = prevs_view(previous@.subrange(0, i as int));
        if !contains_name(current, &previous[i].name) {
            closed.push(previous[i].clone());
        }
        i = i + 1;
        proof {
            let after = prevs_view(previous@.subrange(0, i as int));
            assert(after =~= before.push(previous@[i - 1]@));
            lemma_closed_topics_push(cv, before, previous@[i - 1]@);
            assert(prevs_view(closed@) =~= spec_closed_topics(cv, after));
        }
    }
    proof {
        assert(previous@.subrange(0, previous@.len() as int) =~= previous@);
    }
    closed
}

/// Whether some persisted entry in `p` carries the name `n`.
pub open spec fn spec_prev_has_name(p: Seq<PreviousTopicView>, n: Seq<char>) -> bool {
    exists|i: int| 0 <= i < p.len() && p[i].name == n
}

/// The entry synthesized for a persisted topic that has disappeared
/// upstream: same name, description, date and packages; no architectures;
/// disabled and closed.
pub open spec fn spec_synthesize_closed(t: PreviousTopicView) -> TopicView {
    TopicView {
        name: t.name,
        description: t.description,
        date: t.date,
        arch: Seq::<Seq<char>>::empty(),
        packages: t.packages,
        enabled: false,
        closed: true,
    }
}

/// A current entry as it appears in the display listing: presence of its
/// name in the persisted snapshot is evidence of an active subscription, so
/// `enabled` is upgraded to true; it is never downgraded.
pub open spec fn spec_mark_enabled(t: TopicView, p: Seq<PreviousTopicView>) -> TopicView {
    if spec_prev_has_name(p, t.name) {
        TopicView { enabled: true, ..t }
    } else {
        t
    }
}

/// The reconciled display listing: one synthesized closed entry per
/// persisted-only topic, in persisted order, followed by every current
/// entry, in current order, with `enabled` forced on where the persisted
/// snapshot names the topic.
pub open spec fn spec_display_listing(
    c: Seq<TopicView>,
    p: Seq<PreviousTopicView>,
) -> Seq<TopicView> {
    spec_closed_topics(c, p).map_values(|t: PreviousTopicView| spec_synthesize_closed(t))
        + c.map_values(|t: TopicView| spec_mark_enabled(t, p))
}

/// Merges the current manifest set with the persisted snapshot into the
/// listing shown to the user, per [`spec_display_listing`]: persisted-only
/// topics come first as synthesized closed entries, then every current
/// topic, enabled wherever the snapshot names it. A snapshot that could not
/// be read must be passed in as empty; this operation never fails.
pub fn get_display_listing(current: TopicManifests, previous: &PreviousTopics) -> (r: TopicManifests)
    ensures
        topics_view(r@) == spec_display_listing(topics_view(current@), prevs_view(previous@)),
{
    let ghost cv = topics_view(current@);
    let ghost pv = prevs_view(previous@);
    let closed = get_closed_topic(&current, previous);
    let ghost closed_len = closed@.len() as int;
    let mut out: TopicManifests = Vec::new();
    let mut i: usize = 0;
    while i < closed.len()
        invariant
            i <= closed.len(),
            out@.len() == i as int,
            forall|k: int| 0 <= k < i ==> out@[k]@ == spec_synthesize_closed(closed@[k]@),
        decreases closed.len() - i,
    {
        let t = &closed[i];
        out.push(TopicManifest {
            enabled: false,
            closed: true,
            name: t.name.clone(),
            description: crate::topics::clone_opt_string(&t.description),
            date: t.date,
            arch: Vec::new(),
            packages: crate::topics::clone_strings(&t.packages),
        });
        proof {
            assert(out@[i as int]@ =~= spec_synthesize_closed(closed@[i as int]@));
        }
        i = i + 1;
    }
    let mut j: usize = 0;
    while j < current.len()
        invariant
            j <= current.len(),
            cv == topics_view(current@),
            pv == prevs_view(previous@),
            closed_len == closed@.len() as int,
            out@.len() == closed_len + j as int,
            forall|k: int| 0 <= k < closed_len ==> out@[k]@ == spec_synthesize_closed(closed@[k]@),
            forall|k: int| 0 <= k < j ==> out@[closed_len + k]@ == spec_mark_enabled(cv[k], pv),
        decreases current.len() - j,
    {
        let mut t = current[j].clone();
        if contains_prev_name(previous, &t.name) {
            t.enabled = true;
            proof {
                assert(t@ =~= spec_mark_enabled(cv[j as int], pv));
            }
        }
        out.push(t);
        j = j + 1;
    }
    proof {
        assert(prevs_view(closed@) == spec_closed_topics(cv, pv));
        assert forall|k: int| 0 <= k < closed_len implies out@[k]@ == spec_display_listing(cv, pv)[k] by {
            assert(closed@[k]@ == prevs_view(closed@)[k]);
        }
        assert(topics_view(out@) =~= spec_display_listing(cv, pv));
    }
    out
}

/// Whether `previous` holds an entry named `name`.
fn contains_prev_name(previous: &PreviousTopics, name: &String) -> (r: bool)
    ensures
        r == spec_prev_has_name(prevs_view(previous@), name@),
{
    let mut i: usize = 0;
    while i < previous.len()
        invariant
            i <= previous.len(),
            forall|j: int| 0 <= j < i ==> prevs_view(previous@)[j].name != name@,
        decreases previous.len() - i,
    {
        if previous[i].name == *name {
            assert(prevs_view(previous@)[i as int].name == name@);
            return true;
        }
        i = i + 1;
    }
    false
}

/// Whether `current` holds a topic named `name`.
fn contains_name(current: &TopicManifests, name: &String) -> (r: bool)
    ensures
        r == spec_has_name(topics_view(current@), name@),
{
    let mut i: usize = 0;
    while i < current.len()
        invariant
            i <= current.len(),
            forall|j: int| 0 <= j < i ==> topics_view(current@)[j].name != name@,
        decreases current.len() - i,
    {
        if current[i].name == *name {
            assert(topics_view(current@)[i as int].name == name@);
            return true;
        }
        i = i + 1;
    }
    false
}

/// Membership of a package identifier in the installed set.
pub open spec fn spec_installed_contains(installed: Seq<Seq<char>>, p: Seq<char>) -> bool {
    exists|i: int| 0 <= i < installed.len() && installed[i] == p
}

/// The revert directive for one package: the package pinned back to the
/// stable channel.
pub open spec fn spec_revert_directive(p: Seq<char>) -> Seq<char> {
    p + "/stable"@
}

/// The packages of `ps` that are currently installed, in order.
pub open spec fn spec_installed_filter(
    ps: Seq<Seq<char>>,
    installed: Seq<Seq<char>>,
) -> Seq<Seq<char>> {
    ps.filter(|p: Seq<char>| spec_installed_contains(installed, p))
}

/// One directive per package of `ps`, in order.
pub open spec fn spec_directives(ps: Seq<Seq<char>>) -> Seq<Seq<char>> {
    ps.map_values(|p: Seq<char>| spec_revert_directive(p))
}

/// The directives one closed topic contributes: one per listed package that
/// is currently installed, in package order.
pub open spec fn spec_topic_reverts(t: TopicView, installed: Seq<Seq<char>>) -> Seq<Seq<char>> {
    spec_directives(spec_installed_filter(t.packages, installed))
}

/// The full revert set for a sequence of closed topics: topic order, then
/// package order within each topic. Duplicates are kept: a package listed
/// by two closed topics yields two directives.
pub open spec fn spec_revert_set(ts: Seq<TopicView>, installed: Seq<Seq<char>>) -> Seq<Seq<char>>
    decreases ts.len(),
{
    if ts.len() == 0 {
        Seq::<Seq<char>>::empty()
    } else {
        spec_revert_set(ts.drop_last(), installed) + spec_topic_reverts(ts.last(), installed)
    }
}

/// For a sequence of closed topics and the set of installed packages,
/// returns the directives pinning every installed package of a closed topic
/// back to the stable channel, per [`spec_revert_set`]. The caller supplies
/// the installed set; if it cannot be obtained, no directives may be
/// produced, so this function is never reached on that path.
pub fn close_topics(topics: &TopicManifests, installed: &Vec<String>) -> (r: Vec<String>)
    ensures
        strs_view(r@) == spec_revert_set(topics_view(topics@), strs_view(installed@)),
{
    let ghost tv = topics_view(topics@);
    let ghost iv = strs_view(installed@);
    let mut remove: Vec<String> = Vec::new();
    let mut i: usize = 0;
    proof {
        assert(strs_view(remove@) =~= spec_revert_set(tv.subrange(0, 0), iv));
    }
    while i < topics.len()
        invariant
            i <= topics.len(),
            tv == topics_view(topics@),
            iv == strs_view(installed@),
            strs_view(remove@) == spec_revert_set(tv.subrange(0, i as int), iv),
        decreases topics.len() - i,
    {
        let ghost head = spec_revert_set(tv.subrange(0, i as int), iv);
        let topic = &topics[i];
        let mut k: usize = 0;
        proof {
            lemma_installed_filter_empty(iv);
            assert(topic@.packages.subrange(0, 0) =~= Seq::<Seq<char>>::empty());
            assert(spec_directives(Seq::<Seq<char>>::empty()) =~= Seq::<Seq<char>>::empty());
            assert(strs_view(remove@) =~= head + spec_directives(
                spec_installed_filter(topic@.packages.subrange(0, 0), iv),
            ));
        }
        while k < topic.packages.len()
            invariant
                k <= topic.packages.len(),
                tv == topics_view(topics@),
                iv == strs_view(installed@),
                head == spec_revert_set(tv.subrange(0, i as int), iv),
                i < topics.len(),
                topic@ == tv[i as int],
                strs_view(remove@) == head + spec_directives(
                    spec_installed_filter(topic@.packages.subrange(0, k as int), iv),
                ),
            decreases topic.packages.len() - k,
        {
            let ghost before = topic@.packages.subrange(0, k as int);
            let package = &topic.packages[k];
            if contains_str(installed, package) {
                let mut directive = package.clone();
                directive.append("/stable");
                assert(directive@ == spec_revert_directive(package@));
                remove.push(directive);
            }
            k = k + 1;
            proof {
                let after = topic@.packages.subrange(0, k as int);
                assert(after =~= before.push(package@));
                lemma_installed_filter_push(before, package@, iv);
                let dfb = spec_directives(spec_installed_filter(before, iv));
                let dfa = spec_directives(spec_installed_filter(after, iv));
                if spec_installed_contains(iv, package@) {
                    assert(spec_installed_filter(after, iv) == spec_installed_filter(
                        before,
                        iv,
                    ).push(package@));
                    assert(dfa =~= dfb.push(spec_revert_directive(package@)));
                    assert(strs_view(remove@) =~= (head + dfb).push(
                        spec_revert_directive(package@),
                    ));
                    assert(strs_view(remove@) =~= head + dfa);
                } else {
                    assert(dfa == dfb);
                    assert(strs_view(remove@) =~= head + dfa);
                }
            }
        }
        i = i + 1;
        proof {
            let sub = tv.subrange(0, i as int);
            assert(sub.drop_last() =~= tv.subrange(0, i - 1));
            assert(sub.last() == topic@);
            assert(topic@.packages.subrange(0, topic@.packages.len() as int) =~= topic@.packages);
            assert(strs_view(remove@) =~= spec_revert_set(sub, iv));
        }
    }
    proof {
        assert(tv.subrange(0, tv.len() as int) =~= tv);
    }
    remove
}

/// Whether `v` holds a string equal to `s`.
fn contains_str(v: &Vec<String>, s: &String) -> (r: bool)
    ensures
        r == spec_installed_contains(strs_view(v@), s@),
{
    let mut i: usize = 0;
    while i < v.len()
        invariant
            i <= v.len(),
            forall|j: int| 0 <= j < i ==> strs_view(v@)[j] != s@,
        decreases v.len() - i,
    {
        if v[i] == *s {
            assert(strs_view(v@)[i as int] == s@);
            return true;
        }
        i = i + 1;
    }
    false
}

/// Filtering an empty package list by the installed set yields nothing.
proof fn lemma_installed_filter_empty(installed: Seq<Seq<char>>)
    ensures
        spec_installed_filter(Seq::<Seq<char>>::empty(), installed) == Seq::<Seq<char>>::empty(),
{
    reveal(Seq::filter);
}

/// Appending one package extends the installed filter by that package
/// exactly when it is installed.
proof fn lemma_installed_filter_push(ps: Seq<Seq<char>>, x: Seq<char>, installed: Seq<Seq<char>>)
    ensures
        spec_installed_filter(ps.push(x), installed) == if spec_installed_contains(installed, x) {
            spec_installed_filter(ps, installed).push(x)
        } else {
            spec_installed_filter(ps, installed)
        },
{
    reveal(Seq::filter);
    assert(ps.push(x).drop_last() =~= ps);
}

/// Projection of one listing entry to its persisted record: `arch` and the
/// flags are dropped.
pub open spec fn spec_project_previous(t: TopicView) -> PreviousTopicView {
    PreviousTopicView {
        name: t.name,
        description: t.description,
        date: t.date,
        packages: t.packages,
    }
}

/// The entries of `ts` that are enabled, in order.
pub open spec fn spec_enabled_filter(ts: Seq<TopicView>) -> Seq<TopicView> {
    ts.filter(|t: TopicView| t.enabled)
}

/// The records persisted at commit: only enabled entries, in input order,
/// each projected to a persisted record. Disabled topics are never
/// persisted.
pub open spec fn spec_previous_of(ts: Seq<TopicView>) -> Seq<PreviousTopicView> {
    spec_enabled_filter(ts).map_values(|t: TopicView| spec_project_previous(t))
}

/// Projects the topics that remain subscribed after a commit to the records
/// the snapshot store persists, per [`spec_previous_of`]: disabled entries
/// are skipped, and `arch` and the flags are dropped from the rest.
pub fn save_as_previous_topics(current: &[TopicManifest]) -> (r: PreviousTopics)
    ensures
        prevs_view(r@) == spec_previous_of(topics_view(current@)),
{
    let ghost cv = topics_view(current@);
    let mut previous: PreviousTopics = Vec::new();
    let mut i: usize = 0;
    proof {
        lemma_previous_of_empty();
        assert(cv.subrange(0, 0) =~= Seq::<TopicView>::empty());
        assert(prevs_view(previous@) =~= spec_previous_of(cv.subrange(0, 0)));
    }
    while i < current.len()
        invariant
            i <= current.len(),
            cv == topics_view(current@),
            prevs_view(previous@) == spec_previous_of(cv.subrange(0, i as int)),
        decreases current.len() - i,
    {
        let ghost before = cv.subrange(0, i as int);
        let topic = &current[i];
        if topic.enabled {
            previous.push(PreviousTopic {
                name: topic.name.clone(),
                description: crate::topics::clone_opt_string(&topic.description),
                date: topic.date,
                packages: crate::topics::clone_strings(&topic.packages),
            });
            proof {
                assert(previous@.last()@ =~= spec_project_previous(topic@));
            }
        }
        i = i + 1;
        proof {
            let after = cv.subrange(0, i as int);
            assert(after =~= before.push(topic@));
            lemma_previous_of_push(before, topic@);
            assert(prevs_view(previous@) =~= spec_previous_of(after));
        }
    }
    proof {
        assert(cv.subrange(0, cv.len() as int) =~= cv);
    }
    previous
}

/// Persisting an empty listing yields no records.
proof fn lemma_previous_of_empty()
    ensures
        spec_previous_of(Seq::<TopicView>::empty()) == Seq::<PreviousTopicView>::empty(),
{
    reveal(Seq::filter);
    assert(spec_previous_of(Seq::<TopicView>::empty()) =~= Seq::<PreviousTopicView>::empty());
}

/// Appending one listing entry extends the persisted records by its
/// projection exactly when it is enabled.
proof fn lemma_previous_of_push(ts: Seq<TopicView>, x: TopicView)
    ensures
        spec_previous_of(ts.push(x)) == if x.enabled {
            spec_previous_of(ts).push(spec_project_previous(x))
        } else {
            spec_previous_of(ts)
        },
{
    reveal(Seq::filter);
    assert(ts.push(x).drop_last() =~= ts);
    if x.enabled {
        assert(spec_enabled_filter(ts.push(x)) == spec_enabled_filter(ts).push(x));
        assert(spec_previous_of(ts.push(x)) =~= spec_previous_of(ts).push(
            spec_project_previous(x),
        ));
    } else {
        assert(spec_enabled_filter(ts.push(x)) == spec_enabled_filter(ts));
    }
}

/// The mirror base URL every topic repository is served from.
pub open spec fn spec_mirror_url() -> Seq<char> {
    "https://repo.aosc.io/debs"@
}

/// The two lines the source list carries for one topic: a comment naming
/// the topic, then the repository definition with the topic name as both
/// path component and distribution label, and the fixed component `main`.
pub open spec fn spec_topic_entry(t: TopicView) -> Seq<char> {
    "# Topic `"@ + t.name + "`\ndeb "@ + spec_mirror_url() + " "@ + t.name + " main\n"@
}

/// The source-list body: one entry per topic, in input order.
pub open spec fn spec_topic_list(ts: Seq<TopicView>) -> Seq<char>
    decreases ts.len(),
{
    if ts.len() == 0 {
        Seq::<char>::empty()
    } else {
        spec_topic_list(ts.drop_last()) + spec_topic_entry(ts.last())
    }
}

/// Renders the source-list body for the given topics, per
/// [`spec_topic_list`]: for each topic, a comment line naming it and one
/// `deb` repository-definition line against the fixed mirror.
pub fn make_topic_list(topics: &[TopicManifest]) -> (r: String)
    ensures
        r@ == spec_topic_list(topics_view(topics@)),
{
    let ghost tv = topics_view(topics@);
    let mut output = String::new();
    let mut i: usize = 0;
    proof {
        assert(tv.subrange(0, 0) =~= Seq::<TopicView>::empty());
    }
    while i < topics.len()
        invariant
            i <= topics.len(),
            tv == topics_view(topics@),
            output@ == spec_topic_list(tv.subrange(0, i as int)),
        decreases topics.len() - i,
    {
        let ghost before = output@;
        let topic = &topics[i];
        output.append("# Topic `");
        output.append(topic.name.as_str());
        output.append("`\ndeb ");
        output.append("https://repo.aosc.io/debs");
        output.append(" ");
        output.append(topic.name.as_str());
        output.append(" main\n");
        i = i + 1;
        proof {
            let sub = tv.subrange(0, i as int);
            assert(sub.drop_last() =~= tv.subrange(0, i - 1));
            assert(sub.last() == topic@);
            assert(output@ =~= before + spec_topic_entry(topic@));
            assert(output@ =~= spec_topic_list(sub));
        }
    }
    proof {
        assert(tv.subrange(0, tv.len() as int) =~= tv);
    }
    output
}

/// Closing an empty persisted list yields no closed topics.
proof fn lemma_closed_topics_empty(c: Seq<TopicView>)
    ensures
        spec_closed_topics(c, Seq::<PreviousTopicView>::empty()) == Seq::<PreviousTopicView>::empty(),
{
    reveal(Seq::filter);
}

/// Appending one persisted entry extends the closed-topic list by that
/// entry exactly when its name is absent from the current set.
proof fn lemma_closed_topics_push(c: Seq<TopicView>, p: Seq<PreviousTopicView>, x: PreviousTopicView)
    ensures
        spec_closed_topics(c, p.push(x)) == if !spec_has_name(c, x.name) {
            spec_closed_topics(c, p).push(x)
        } else {
            spec_closed_topics(c, p)
        },
{
    reveal(Seq::filter);
    assert(p.push(x).drop_last() =~= p);
}

} // verus!
