//! A model of the append-only record store the directory runs against.
//!
//! The store keeps every committed version of every record forever and
//! hands out an opaque, unique address for each; here an address is the
//! version's position in the commit log, which stands in for the content
//! hash the underlying network derives and keeps every predecessor
//! reference pointing strictly backwards. A version
//! may name a predecessor, which links the versions of one logical record
//! into an update chain; resolving a record means walking from any of its
//! versions to the chain's terminal entry, ties between divergent children
//! going to the most recently committed one. Beside the versions the store
//! keeps link indices: an append-only list of (key, target) pairs whose
//! insertion order is preserved.

use vstd::prelude::*;

use crate::profile::{AgentPubKey, HeaderHash, Profile, WireEntry};

verus! {

/// One immutable snapshot of a profile record. `prev` is the address of
/// the version this one supersedes; the first version of a record has none.
#[derive(Debug)]
pub struct Version {
    pub content: Profile,
    pub prev: Option<HeaderHash>,
}

/// The key under which a link is filed: the well-known discovery key every
/// participant shares, or the key derived from one participant's identity.
#[derive(Clone, Copy, Debug, PartialEq, Eq, Structural)]
pub enum LinkKey {
    Discovery,
    Agent(AgentPubKey),
}

/// One entry of the link index, associating a key with a target version
/// address.
#[derive(Debug)]
pub struct Link {
    pub key: LinkKey,
    pub target: HeaderHash,
}

/// Why a store write was rejected.
#[derive(Clone, Copy, Debug, PartialEq, Eq, Structural)]
pub enum StoreError {
    /// A chain append named a predecessor address the store has never
    /// issued.
    MissingPredecessor,
}

/// The record store: a commit log of immutable versions and an append-only
/// link index. Neither list ever shrinks or reorders.
#[derive(Debug)]
pub struct Store {
    pub versions: Vec<Version>,
    pub links: Vec<Link>,
}

/// Version `k` of the log only ever names an earlier commit as its
/// predecessor.
pub open spec fn version_prev_bounded(versions: Seq<Version>, k: int) -> bool {
    versions[k].prev matches Some(p) ==> (p.0 as int) < k
}

/// Every version's predecessor lies earlier in the log. This is the store's
/// one structural invariant; it is what makes every update chain finite.
pub open spec fn wf_versions(versions: Seq<Version>) -> bool {
    forall|k: int| 0 <= k < versions.len() ==> #[trigger] version_prev_bounded(versions, k)
}

/// Version `j` directly supersedes version `h`.
pub open spec fn is_child(versions: Seq<Version>, j: int, h: int) -> bool {
    &&& 0 <= j < versions.len()
    &&& versions[j].prev matches Some(p) && (p.0 as int) == h
}

/// The version that supersedes `h`, if any: among all children of `h`, the
/// most recently committed one.
pub open spec fn successor_of(versions: Seq<Version>, h: int) -> Option<int>
    decreases versions.len(),
{
    if versions.len() == 0 {
        None
    } else if is_child(versions, versions.len() - 1, h) {
        Some(versions.len() - 1)
    } else {
        successor_of(versions.drop_last(), h)
    }
}

/// What `successor_of` finds: a child with no later sibling, or nothing
/// when `h` has no child at all; and under the store invariant a child
/// always lies later in the log than its parent.
pub proof fn lemma_successor_of_correct(versions: Seq<Version>, h: int)
    ensures
        successor_of(versions, h) matches Some(j) ==> is_child(versions, j, h) && (forall|k: int|
            j < k < versions.len() ==> !is_child(versions, k, h)),
        successor_of(versions, h) is None ==> forall|k: int|
            0 <= k < versions.len() ==> !is_child(versions, k, h),
        wf_versions(versions) ==> (successor_of(versions, h) matches Some(j) ==> h < j),
    decreases versions.len(),
{
    if versions.len() == 0 {
    } else if is_child(versions, versions.len() - 1, h) {
        if wf_versions(versions) {
            assert(version_prev_bounded(versions, versions.len() - 1));
        }
    } else {
        let rest = versions.drop_last();
        lemma_successor_of_correct(rest, h);
        assert forall|k: int| 0 <= k < rest.len() implies is_child(versions, k, h) == is_child(
            rest,
            k,
            h,
        ) by {
            assert(rest[k] == versions[k]);
        }
        if wf_versions(versions) {
            assert(wf_versions(rest)) by {
                assert forall|k: int| 0 <= k < rest.len() implies version_prev_bounded(
                    rest,
                    k,
                ) by {
                    assert(version_prev_bounded(versions, k));
                    assert(rest[k] == versions[k]);
                }
            }
        }
    }
}

/// The terminal entry of the update chain rooted at version `h`: follow
/// successors until no version supersedes the current one.
pub open spec fn latest_of(versions: Seq<Version>, h: int) -> int
    decreases versions.len() - h,
        when wf_versions(versions) && 0 <= h < versions.len()
        via latest_of_decreases
{
    match successor_of(versions, h) {
        Some(j) => latest_of(versions, j),
        None => h,
    }
}

#[via_fn]
proof fn latest_of_decreases(versions: Seq<Version>, h: int) {
    lemma_successor_of_correct(versions, h);
}

/// The chain terminal is a valid log position at or after its root, and
/// nothing supersedes it.
pub proof fn lemma_latest_of_terminal(versions: Seq<Version>, h: int)
    requires
        wf_versions(versions),
        0 <= h < versions.len(),
    ensures
        h <= latest_of(versions, h) < versions.len(),
        successor_of(versions, latest_of(versions, h)) is None,
    decreases versions.len() - h,
{
    lemma_successor_of_correct(versions, h);
    match successor_of(versions, h) {
        Some(j) => {
            lemma_latest_of_terminal(versions, j);
        },
        None => {},
    }
}

/// Committing a version that does not supersede `h` leaves `h`'s successor
/// as it was.
pub proof fn lemma_successor_of_append(versions: Seq<Version>, v: Version, h: int)
    requires
        !(v.prev matches Some(p) && (p.0 as int) == h),
    ensures
        successor_of(versions.push(v), h) == successor_of(versions, h),
{
    assert(versions.push(v).drop_last() =~= versions);
    assert(versions.push(v).last() == v);
}

/// Committing a fresh root (a version with no predecessor) changes no
/// existing record's resolution: every chain terminal stays where it was.
pub proof fn lemma_latest_of_append_root(versions: Seq<Version>, v: Version, h: int)
    requires
        wf_versions(versions),
        wf_versions(versions.push(v)),
        0 <= h < versions.len(),
        v.prev is None,
    ensures
        latest_of(versions.push(v), h) == latest_of(versions, h),
    decreases versions.len() - h,
{
    lemma_successor_of_append(versions, v, h);
    lemma_successor_of_correct(versions, h);
    match successor_of(versions, h) {
        Some(j) => {
            lemma_latest_of_append_root(versions, v, j);
        },
        None => {},
    }
}

/// The last committed version supersedes nothing more recent, so it is its
/// own chain terminal.
pub proof fn lemma_last_is_terminal(versions: Seq<Version>)
    requires
        wf_versions(versions),
        versions.len() > 0,
    ensures
        successor_of(versions, versions.len() - 1) is None,
        latest_of(versions, versions.len() - 1) == versions.len() - 1,
{
    let last = versions.len() - 1;
    lemma_successor_of_correct(versions, last);
    if let Some(j) = successor_of(versions, last) {
        assert(is_child(versions, j, last));
        assert(version_prev_bounded(versions, j));
        assert(false);
    }
}

/// Resolving the root of a record whose later versions all chain directly
/// from that root yields the most recent of them: appending updates
/// sequentially, each naming the root the preceding wire entry carried,
/// makes the last appended content the one a resolve returns.
pub proof fn lemma_chained_updates_resolve_to_last(versions: Seq<Version>, root: int)
    requires
        wf_versions(versions),
        0 <= root < versions.len(),
        forall|k: int| root < k < versions.len() ==> is_child(versions, k, root),
    ensures
        latest_of(versions, root) == versions.len() - 1,
{
    let last = versions.len() - 1;
    lemma_successor_of_correct(versions, root);
    if root == last {
        if let Some(j) = successor_of(versions, root) {
            assert(is_child(versions, j, root));
            assert(version_prev_bounded(versions, j));
            assert(false);
        }
    } else {
        assert(is_child(versions, last, root));
        match successor_of(versions, root) {
            None => {
                assert(false);
            },
            Some(j) => {
                if j != last {
                    assert(!is_child(versions, last, root));
                    assert(false);
                }
                lemma_last_is_terminal(versions);
            },
        }
    }
}

/// The targets filed under one key, in insertion order.
pub open spec fn link_targets(links: Seq<Link>, key: LinkKey) -> Seq<HeaderHash>
    decreases links.len(),
{
    if links.len() == 0 {
        Seq::empty()
    } else if links.last().key == key {
        link_targets(links.drop_last(), key).push(links.last().target)
    } else {
        link_targets(links.drop_last(), key)
    }
}

/// Appending one link extends exactly the target list of its own key and
/// leaves every other key's list unchanged.
pub proof fn lemma_link_targets_push(links: Seq<Link>, link: Link, key: LinkKey)
    ensures
        link.key == key ==> link_targets(links.push(link), key) == link_targets(
            links,
            key,
        ).push(link.target),
        link.key != key ==> link_targets(links.push(link), key) == link_targets(links, key),
{
    assert(links.push(link).drop_last() =~= links);
    assert(links.push(link).last() == link);
}

/// What resolving a single start address returns: nothing for an address
/// the store has not issued (a record not yet visible is absence, not an
/// error), otherwise the chain terminal's content paired with that
/// terminal's own address.
pub open spec fn resolve_spec(store: Store, start: HeaderHash) -> Option<WireEntry> {
    if (start.0 as int) < store.versions@.len() {
        let t = latest_of(store.versions@, start.0 as int);
        Some(
            (WireEntry {
                entry: store.versions@[t].content,
                address: HeaderHash(t as usize),
            }),
        )
    } else {
        None
    }
}

impl Store {
    /// The store invariant: every version's predecessor is an earlier
    /// commit.
    pub open spec fn wf(self) -> bool {
        wf_versions(self.versions@)
    }

    /// An empty store: no versions committed, no links filed.
    pub fn new() -> (store: Store)
        ensures
            store.wf(),
            store.versions@ == Seq::<Version>::empty(),
            store.links@ == Seq::<Link>::empty(),
    {
        Store { versions: Vec::new(), links: Vec::new() }
    }

    /// Commits content as the first version of a new record and returns the
    /// fresh version's address. Never fails: the log only grows.
    pub fn create_entry(&mut self, content: Profile) -> (h: HeaderHash)
        requires
            old(self).wf(),
        ensures
            final(self).wf(),
            h.0 == old(self).versions@.len(),
            final(self).versions@ == old(self).versions@.push(
                (Version { content, prev: None }),
            ),
            final(self).links@ == old(self).links@,
    {
        let h = HeaderHash(self.versions.len());
        self.versions.push(Version { content, prev: None });
        proof {
            assert forall|k: int| 0 <= k < self.versions@.len() implies version_prev_bounded(
                self.versions@,
                k,
            ) by {
                if k < old(self).versions@.len() {
                    assert(version_prev_bounded(old(self).versions@, k));
                    assert(self.versions@[k] == old(self).versions@[k]);
                }
            }
        }
        h
    }

    /// Appends a new version superseding `prev`. Succeeds exactly when the
    /// named predecessor is an address the store has issued; a stale but
    /// real predecessor is accepted and silently forks its chain.
    pub fn append_version(&mut self, prev: HeaderHash, content: Profile) -> (r: Result<
        HeaderHash,
        StoreError,
    >)
        requires
            old(self).wf(),
        ensures
            final(self).wf(),
            prev.0 < old(self).versions@.len() ==> {
                &&& r matches Ok(h) && h.0 == old(self).versions@.len()
                &&& final(self).versions@ == old(self).versions@.push(
                    (Version { content, prev: Some(prev) }),
                )
                &&& final(self).links@ == old(self).links@
            },
            prev.0 >= old(self).versions@.len() ==> r == Err::<HeaderHash, StoreError>(
                StoreError::MissingPredecessor,
            ) && *final(self) == *old(self),
    {
        if prev.0 < self.versions.len() {
            let h = HeaderHash(self.versions.len());
            self.versions.push(Version { content, prev: Some(prev) });
            proof {
                assert forall|k: int| 0 <= k < self.versions@.len() implies version_prev_bounded(
                    self.versions@,
                    k,
                ) by {
                    if k < old(self).versions@.len() {
                        assert(version_prev_bounded(old(self).versions@, k));
                        assert(self.versions@[k] == old(self).versions@[k]);
                    }
                }
            }
            Ok(h)
        } else {
            Err(StoreError::MissingPredecessor)
        }
    }

    /// Files a link under a key. Append-only: nothing is removed or
    /// reordered, and registration never touches the version log.
    pub fn insert_link(&mut self, key: LinkKey, target: HeaderHash)
        requires
            old(self).wf(),
        ensures
            final(self).wf(),
            final(self).versions@ == old(self).versions@,
            final(self).links@ == old(self).links@.push((Link { key, target })),
    {
        self.links.push(Link { key, target });
    }

    /// Lists the targets filed under a key, in insertion order.
    pub fn list_links(&self, key: LinkKey) -> (targets: Vec<HeaderHash>)
        ensures
            targets@ == link_targets(self.links@, key),
    {
        let mut targets: Vec<HeaderHash> = Vec::new();
        let mut i: usize = 0;
        while i < self.links.len()
            invariant
                i <= self.links@.len(),
                targets@ == link_targets(self.links@.take(i as int), key),
            decreases self.links@.len() - i,
        {
            proof {
                let taken = self.links@.take(i + 1);
                assert(taken.drop_last() =~= self.links@.take(i as int));
                assert(taken.last() == self.links@[i as int]);
            }
            if self.links[i].key == key {
                targets.push(self.links[i].target);
            }
            i += 1;
        }
        proof {
            assert(self.links@.take(self.links@.len() as int) =~= self.links@);
        }
        targets
    }

    /// Finds the version superseding `h`, scanning the log from the most
    /// recent commit down so that the latest child wins.
    fn find_successor(&self, h: usize) -> (r: Option<usize>)
        ensures
            r matches Some(j) ==> successor_of(self.versions@, h as int) == Some(j as int),
            r is None ==> successor_of(self.versions@, h as int) is None,
    {
        let ghost vs = self.versions@;
        let mut j: usize = self.versions.len();
        while j > 0
            invariant
                j <= vs.len(),
                vs == self.versions@,
                forall|k: int| j <= k < vs.len() ==> !is_child(vs, k, h as int),
            decreases j,
        {
            j = j - 1;
            let found = match &self.versions[j].prev {
                Some(p) => p.0 == h,
                None => false,
            };
            if found {
                proof {
                    lemma_successor_of_correct(vs, h as int);
                    assert(is_child(vs, j as int, h as int));
                    match successor_of(vs, h as int) {
                        None => {
                            assert(!is_child(vs, j as int, h as int));
                        },
                        Some(s) => {
                            if s < j {
                                assert(!is_child(vs, j as int, h as int));
                            }
                            if s > j {
                                assert(!is_child(vs, s, h as int));
                            }
                        },
                    }
                }
                return Some(j);
            }
        }
        proof {
            lemma_successor_of_correct(vs, h as int);
            if let Some(s) = successor_of(vs, h as int) {
                assert(is_child(vs, s, h as int));
                assert(false);
            }
        }
        None
    }

    /// Resolves the record reachable from `start` to its latest version:
    /// walks the update chain to its terminal entry and returns that
    /// entry's content together with its address. Read-only, and absence
    /// (an address the store has not issued) is a `None`, never an error.
    pub fn resolve_latest(&self, start: HeaderHash) -> (r: Option<WireEntry>)
        requires
            self.wf(),
        ensures
            r == resolve_spec(*self, start),
    {
        let ghost vs = self.versions@;
        if start.0 >= self.versions.len() {
            return None;
        }
        let mut cur: usize = start.0;
        loop
            invariant
                self.wf(),
                vs == self.versions@,
                cur < vs.len(),
                (start.0 as int) < vs.len(),
                latest_of(vs, start.0 as int) == latest_of(vs, cur as int),
            decreases vs.len() - cur,
        {
            match self.find_successor(cur) {
                Some(j) => {
                    proof {
                        lemma_successor_of_correct(vs, cur as int);
                    }
                    cur = j;
                },
                None => {
                    return Some(
                        WireEntry {
                            entry: self.versions[cur].content.clone(),
                            address: HeaderHash(cur),
                        },
                    );
                },
            }
        }
    }
}

} // verus!
