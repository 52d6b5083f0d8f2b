//! The topic data model and its mathematical view.

use vstd::prelude::*;

verus! {

/// Mathematical value of a [`TopicManifest`]: each field as a plain
/// sequence value, so contracts can speak of topics independently of the
/// executable representation.
#[verifier::ext_equal]
pub ghost struct TopicView {
    pub name: Seq<char>,
    pub description: Option<Seq<char>>,
    pub date: int,
    pub arch: Seq<Seq<char>>,
    pub packages: Seq<Seq<char>>,
    pub enabled: bool,
    pub closed: bool,
}

/// Mathematical value of a [`PreviousTopic`].
#[verifier::ext_equal]
pub ghost struct PreviousTopicView {
    pub name: Seq<char>,
    pub description: Option<Seq<char>>,
    pub date: int,
    pub packages: Seq<Seq<char>>,
}

/// One topic as advertised by the upstream repository, plus the two local
/// flags: whether this host subscribes to it (`enabled`) and whether it has
/// disappeared upstream (`closed`). Fresh instances are built every run
/// from the manifest source; `closed` entries are synthesized during
/// reconciliation from the persisted snapshot.
#[derive(Debug, PartialEq, Eq)]
pub struct TopicManifest {
    pub name: String,
    pub description: Option<String>,
    pub date: i64,
    pub arch: Vec<String>,
    pub packages: Vec<String>,
    pub enabled: bool,
    pub closed: bool,
}

/// A collection of topic manifests, as fetched or as reconciled.
pub type TopicManifests = Vec<TopicManifest>;

/// One record of the persisted snapshot: a topic that was enabled at the
/// last commit. No `arch` and no flags are stored; every persisted entry
/// was enabled when written.
#[derive(Debug, PartialEq, Eq)]
pub struct PreviousTopic {
    pub name: String,
    pub description: Option<String>,
    pub date: i64,
    pub packages: Vec<String>,
}

/// The persisted snapshot as a whole.
pub type PreviousTopics = Vec<PreviousTopic>;

/// View of an optional string.
pub open spec fn opt_str_view(d: Option<String>) -> Option<Seq<char>> {
    match d {
        Some(s) => Some(s@),
        None => None,
    }
}

/// View of a list of strings.
pub open spec fn strs_view(v: Seq<String>) -> Seq<Seq<char>> {
    v.map_values(|s: String| s@)
}

impl View for TopicManifest {
    type V = TopicView;

    open spec fn view(&self) -> TopicView {
        TopicView {
            name: self.name@,
            description: opt_str_view(self.description),
            date: self.date as int,
            arch: strs_view(self.arch@),
            packages: strs_view(self.packages@),
            enabled: self.enabled,
            closed: self.closed,
        }
    }
}

impl View for PreviousTopic {
    type V = PreviousTopicView;

    open spec fn view(&self) -> PreviousTopicView {
        PreviousTopicView {
            name: self.name@,
            description: opt_str_view(self.description),
            date: self.date as int,
            packages: strs_view(self.packages@),
        }
    }
}

/// View of a sequence of topic manifests.
pub open spec fn topics_view(ts: Seq<TopicManifest>) -> Seq<TopicView> {
    ts.map_values(|t: TopicManifest| t@)
}

/// View of a sequence of persisted records.
pub open spec fn prevs_view(ps: Seq<PreviousTopic>) -> Seq<PreviousTopicView> {
    ps.map_values(|p: PreviousTopic| p@)
}

pub(crate) fn clone_opt_string(d: &Option<String>) -> (r: Option<String>)
    ensures
        opt_str_view(r) == opt_str_view(*d),
{
    match d {
        Some(s) => Some(s.clone()),
        None => None,
    }
}

pub(crate) fn clone_strings(v: &Vec<String>) -> (r: Vec<String>)
    ensures
        strs_view(r@) == strs_view(v@),
{
    let mut r: Vec<String> = Vec::new();
    let mut i: usize = 0;
    while i < v.len()
        invariant
            i <= v.len(),
            r@.len() == i as int,
            forall|k: int| 0 <= k < i ==> r@[k] == v@[k],
        decreases v.len() - i,
    {
        r.push(v[i].clone());
        i = i + 1;
    }
    proof {
        assert(strs_view(r@) =~= strs_view(v@));
    }
    r
}

impl Clone for TopicManifest {
    fn clone(&self) -> (r: Self)
        ensures
            r@ == self@,
    {
        TopicManifest {
            name: self.name.clone(),
            description: clone_opt_string(&self.description),
            date: self.date,
            arch: clone_strings(&self.arch),
            packages: clone_strings(&self.packages),
            enabled: self.enabled,
            closed: self.closed,
        }
    }
}

impl Clone for PreviousTopic {
    fn clone(&self) -> (r: Self)
        ensures
            r@ == self@,
    {
        PreviousTopic {
            name: self.name.clone(),
            description: clone_opt_string(&self.description),
            date: self.date,
            packages: clone_strings(&self.packages),
        }
    }
}

} // verus!
