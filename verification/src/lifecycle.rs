//! The profile lifecycle: create, update and read a participant's own
//! record, browse all participants, and fan updates out to peers.
//!
//! A record is created once: its first version is committed and its address
//! is filed under both the shared discovery key and the owner's own key.
//! Updates only ever append to the record's version chain; the two index
//! links are never touched again. Every write also queues one notification
//! per known peer, never to the writer itself; the embedding performs the
//! actual sends and is free to drop any of them, since the write's success
//! is defined solely by the store commit.

use vstd::prelude::*;

use crate::profile::{
    AgentPubKey, AgentSignal, AgentsOutput, HeaderHash, Profile, WhoAmIOutput, WireEntry,
};
use crate::store::{
    is_child, latest_of, lemma_last_is_terminal, lemma_latest_of_append_root,
    lemma_latest_of_terminal, lemma_link_targets_push, lemma_successor_of_correct, link_targets,
    resolve_spec, successor_of, wf_versions, Link, LinkKey, Store, StoreError, Version,
};

verus! {

/// One queued outbound notification: the peer it is addressed to and the
/// signal to send. The embedding drains the queue and performs the sends,
/// swallowing any per-peer failure.
#[derive(Debug)]
pub struct Delivery {
    pub to: AgentPubKey,
    pub signal: AgentSignal,
}

/// The latest contents reachable from a list of start addresses, in list
/// order; addresses the store has not issued are skipped, not errors.
pub open spec fn resolved_contents(versions: Seq<Version>, targets: Seq<HeaderHash>) -> Seq<
    Profile,
>
    decreases targets.len(),
{
    if targets.len() == 0 {
        Seq::empty()
    } else {
        let rest = resolved_contents(versions, targets.drop_last());
        let t = targets.last();
        if (t.0 as int) < versions.len() {
            rest.push(versions[latest_of(versions, t.0 as int)].content)
        } else {
            rest
        }
    }
}

/// What browsing the directory returns: every discovery target resolved to
/// its latest content, in registration order, misses omitted.
pub open spec fn fetch_agents_spec(store: Store) -> Seq<Profile> {
    resolved_contents(store.versions@, link_targets(store.links@, LinkKey::Discovery))
}

/// The owner identities found in a list of profiles, keeping list order,
/// with `me` left out.
pub open spec fn peer_list(profiles: Seq<Profile>, me: AgentPubKey) -> Seq<AgentPubKey>
    decreases profiles.len(),
{
    if profiles.len() == 0 {
        Seq::empty()
    } else {
        let rest = peer_list(profiles.drop_last(), me);
        if profiles.last().address != me {
            rest.push(profiles.last().address)
        } else {
            rest
        }
    }
}

/// The peers a write by `me` notifies: every other identity the directory
/// currently lists.
pub open spec fn peers_of(store: Store, me: AgentPubKey) -> Seq<AgentPubKey> {
    peer_list(fetch_agents_spec(store), me)
}

/// What a participant reading its own record gets: the most recently
/// inserted link under its own key, resolved to the chain terminal; absent
/// when nothing is registered or the target is not visible yet.
pub open spec fn whoami_spec(store: Store, me: AgentPubKey) -> Option<WireEntry> {
    let targets = link_targets(store.links@, LinkKey::Agent(me));
    if targets.len() == 0 {
        None
    } else {
        resolve_spec(store, targets.last())
    }
}

/// One queued notification as a write by `me` produces it: addressed to the
/// given peer, never to `me` itself, tagged as a profile update and
/// carrying the written wire entry.
pub open spec fn delivery_matches(
    d: Delivery,
    to: AgentPubKey,
    me: AgentPubKey,
    wire: WireEntry,
) -> bool {
    &&& d.to == to
    &&& d.to != me
    &&& d.signal.tag@ == "agent"@
    &&& d.signal.data == wire
}

proof fn lemma_peer_list_excludes_me(profiles: Seq<Profile>, me: AgentPubKey)
    ensures
        forall|i: int| 0 <= i < peer_list(profiles, me).len() ==> peer_list(profiles, me)[i] != me,
    decreases profiles.len(),
{
    if profiles.len() > 0 {
        lemma_peer_list_excludes_me(profiles.drop_last(), me);
        let rest = peer_list(profiles.drop_last(), me);
        assert forall|i: int| 0 <= i < peer_list(profiles, me).len() implies peer_list(
            profiles,
            me,
        )[i] != me by {
            if profiles.last().address != me && i == rest.len() {
                assert(peer_list(profiles, me)[i] == profiles.last().address);
            } else {
                assert(peer_list(profiles, me)[i] == rest[i]);
            }
        }
    }
}

/// A write's fanout never targets the writer: whoever `me` is, the peer set
/// computed for `me` excludes `me`.
pub proof fn lemma_fanout_excludes_self(store: Store, me: AgentPubKey)
    ensures
        forall|i: int| 0 <= i < peers_of(store, me).len() ==> peers_of(store, me)[i] != me,
{
    lemma_peer_list_excludes_me(fetch_agents_spec(store), me);
}

/// Reading one's own record is idempotent: two reads of the same directory
/// state, with no intervening write, return equal results.
pub proof fn lemma_whoami_idempotent(
    store: Store,
    me: AgentPubKey,
    first: Option<WireEntry>,
    second: Option<WireEntry>,
)
    requires
        first == whoami_spec(store, me),
        second == whoami_spec(store, me),
    ensures
        first == second,
{
}

proof fn lemma_resolved_contents_append_root(
    versions: Seq<Version>,
    v: Version,
    targets: Seq<HeaderHash>,
)
    requires
        wf_versions(versions),
        wf_versions(versions.push(v)),
        v.prev is None,
        forall|i: int|
            0 <= i < targets.len() ==> ((#[trigger] targets[i]).0 as int) < versions.len(),
    ensures
        resolved_contents(versions.push(v), targets) == resolved_contents(versions, targets),
    decreases targets.len(),
{
    if targets.len() > 0 {
        let front = targets.drop_last();
        assert forall|i: int| 0 <= i < front.len() implies ((#[trigger] front[i]).0 as int)
            < versions.len() by {
            assert(front[i] == targets[i]);
        }
        lemma_resolved_contents_append_root(versions, v, front);
        let t = targets.last();
        assert(t == targets[targets.len() - 1]);
        lemma_latest_of_append_root(versions, v, t.0 as int);
        lemma_latest_of_terminal(versions, t.0 as int);
        let terminal = latest_of(versions, t.0 as int);
        assert(versions.push(v)[terminal] == versions[terminal]);
    }
}

proof fn lemma_resolved_contents_no_updates(versions: Seq<Version>, targets: Seq<HeaderHash>)
    requires
        wf_versions(versions),
        forall|k: int| 0 <= k < versions.len() ==> (#[trigger] versions[k]).prev is None,
        forall|i: int|
            0 <= i < targets.len() ==> ((#[trigger] targets[i]).0 as int) < versions.len(),
    ensures
        resolved_contents(versions, targets).len() == targets.len(),
        forall|i: int|
            0 <= i < targets.len() ==> resolved_contents(versions, targets)[i]
                == versions[targets[i].0 as int].content,
    decreases targets.len(),
{
    if targets.len() > 0 {
        let front = targets.drop_last();
        assert forall|i: int| 0 <= i < front.len() implies ((#[trigger] front[i]).0 as int)
            < versions.len() by {
            assert(front[i] == targets[i]);
        }
        lemma_resolved_contents_no_updates(versions, front);
        let t = targets.last();
        lemma_successor_of_correct(versions, t.0 as int);
        if let Some(j) = successor_of(versions, t.0 as int) {
            assert(is_child(versions, j, t.0 as int));
            assert(versions[j].prev is None);
            assert(false);
        }
    }
}

/// In a directory where no record has ever been updated, browsing returns
/// one content per discovery link, in registration order: the very content
/// committed at that link's target. So after each of n distinct
/// participants has created its record once, browsing returns exactly those
/// n contents.
pub proof fn lemma_fetch_agents_after_creates(store: Store)
    requires
        store.wf(),
        forall|k: int| 0 <= k < store.versions@.len() ==> (#[trigger] store.versions@[k]).prev
            is None,
        forall|i: int|
            0 <= i < link_targets(store.links@, LinkKey::Discovery).len() ==> ((
            #[trigger] link_targets(store.links@, LinkKey::Discovery)[i]).0 as int)
                < store.versions@.len(),
    ensures
        fetch_agents_spec(store).len() == link_targets(store.links@, LinkKey::Discovery).len(),
        forall|i: int|
            0 <= i < link_targets(store.links@, LinkKey::Discovery).len() ==> fetch_agents_spec(
                store,
            )[i] == store.versions@[link_targets(store.links@, LinkKey::Discovery)[i].0 as int].content,
{
    lemma_resolved_contents_no_updates(
        store.versions@,
        link_targets(store.links@, LinkKey::Discovery),
    );
}

/// Browses the whole directory: every registered participant's latest
/// content, discovery order, resolution misses omitted rather than failing
/// the call.
pub fn fetch_agents(store: &Store) -> (out: AgentsOutput)
    requires
        store.wf(),
    ensures
        out.0@ == fetch_agents_spec(*store),
{
    let targets = store.list_links(LinkKey::Discovery);
    let mut profiles: Vec<Profile> = Vec::new();
    let mut i: usize = 0;
    while i < targets.len()
        invariant
            store.wf(),
            i <= targets@.len(),
            targets@ == link_targets(store.links@, LinkKey::Discovery),
            profiles@ == resolved_contents(store.versions@, targets@.take(i as int)),
        decreases targets@.len() - i,
    {
        proof {
            let taken = targets@.take(i + 1);
            assert(taken.drop_last() =~= targets@.take(i as int));
            assert(taken.last() == targets@[i as int]);
        }
        match store.resolve_latest(targets[i]) {
            Some(wire) => {
                profiles.push(wire.entry);
            },
            None => {},
        }
        i += 1;
    }
    proof {
        assert(targets@.take(targets@.len() as int) =~= targets@);
    }
    AgentsOutput(profiles)
}

/// Computes the identities a write by `agent` should notify: everyone the
/// directory lists, except `agent` itself.
pub fn get_peers(store: &Store, agent: AgentPubKey) -> (peers: Vec<AgentPubKey>)
    requires
        store.wf(),
    ensures
        peers@ == peers_of(*store, agent),
        forall|i: int| 0 <= i < peers@.len() ==> peers@[i] != agent,
{
    let all = fetch_agents(store);
    let profiles = all.0;
    let mut peers: Vec<AgentPubKey> = Vec::new();
    let mut i: usize = 0;
    while i < profiles.len()
        invariant
            i <= profiles@.len(),
            profiles@ == fetch_agents_spec(*store),
            peers@ == peer_list(profiles@.take(i as int), agent),
            forall|k: int| 0 <= k < peers@.len() ==> peers@[k] != agent,
        decreases profiles@.len() - i,
    {
        proof {
            let taken = profiles@.take(i + 1);
            assert(taken.drop_last() =~= profiles@.take(i as int));
            assert(taken.last() == profiles@[i as int]);
        }
        if profiles[i].address != agent {
            peers.push(profiles[i].address);
        }
        i += 1;
    }
    proof {
        assert(profiles@.take(profiles@.len() as int) =~= profiles@);
    }
    peers
}

/// Queues one copy of the written wire entry for every peer, tagged as a
/// profile update. The writer itself is never a target. The queue is only
/// appended to; what was queued before is untouched.
pub fn send_agent_signal(
    store: &Store,
    agent: AgentPubKey,
    wire: WireEntry,
    outbox: &mut Vec<Delivery>,
)
    requires
        store.wf(),
    ensures
        final(outbox)@.len() == old(outbox)@.len() + peers_of(*store, agent).len(),
        forall|i: int| 0 <= i < old(outbox)@.len() ==> final(outbox)@[i] == old(outbox)@[i],
        forall|i: int|
            0 <= i < peers_of(*store, agent).len() ==> delivery_matches(
                final(outbox)@[old(outbox)@.len() + i],
                peers_of(*store, agent)[i],
                agent,
                wire,
            ),
{
    let peers = get_peers(store, agent);
    let mut i: usize = 0;
    while i < peers.len()
        invariant
            i <= peers@.len(),
            peers@ == peers_of(*store, agent),
            forall|k: int| 0 <= k < peers@.len() ==> peers@[k] != agent,
            outbox@.len() == old(outbox)@.len() + i,
            forall|k: int| 0 <= k < old(outbox)@.len() ==> outbox@[k] == old(outbox)@[k],
            forall|k: int|
                0 <= k < i ==> delivery_matches(
                    outbox@[old(outbox)@.len() + k],
                    peers@[k],
                    agent,
                    wire,
                ),
        decreases peers@.len() - i,
    {
        let signal = AgentSignal { tag: "agent".to_owned(), data: wire.clone() };
        outbox.push(Delivery { to: peers[i], signal });
        i += 1;
    }
}

/// Creates the caller's profile record: commits the content as a first
/// version, files its address under the discovery key and under the
/// caller's own key, queues the peer fanout, and returns the wire entry.
/// Reading one's own record right afterwards finds exactly this entry.
pub fn create_whoami(
    store: &mut Store,
    outbox: &mut Vec<Delivery>,
    agent: AgentPubKey,
    entry: Profile,
) -> (wire: WireEntry)
    requires
        old(store).wf(),
    ensures
        final(store).wf(),
        wire.entry == entry,
        wire.address.0 == old(store).versions@.len(),
        final(store).versions@ == old(store).versions@.push(
            (Version { content: entry, prev: None }),
        ),
        final(store).links@ == old(store).links@.push(
            (Link { key: LinkKey::Discovery, target: wire.address }),
        ).push((Link { key: LinkKey::Agent(agent), target: wire.address })),
        whoami_spec(*final(store), agent) == Some(wire),
        (forall|i: int|
            0 <= i < link_targets(old(store).links@, LinkKey::Discovery).len() ==> ((
            #[trigger] link_targets(old(store).links@, LinkKey::Discovery)[i]).0 as int) < old(
                store,
            ).versions@.len()) ==> fetch_agents_spec(*final(store)) == fetch_agents_spec(
            *old(store),
        ).push(entry),
        final(outbox)@.len() == old(outbox)@.len() + peers_of(*final(store), agent).len(),
        forall|i: int| 0 <= i < old(outbox)@.len() ==> final(outbox)@[i] == old(outbox)@[i],
        forall|i: int|
            0 <= i < peers_of(*final(store), agent).len() ==> delivery_matches(
                final(outbox)@[old(outbox)@.len() + i],
                peers_of(*final(store), agent)[i],
                agent,
                wire,
            ),
{
    let header_hash = store.create_entry(entry.clone());
    store.insert_link(LinkKey::Discovery, header_hash);
    store.insert_link(LinkKey::Agent(agent), header_hash);
    let wire = WireEntry { entry, address: header_hash };
    proof {
        let own_key = LinkKey::Agent(agent);
        let disc_link = Link { key: LinkKey::Discovery, target: header_hash };
        let own_link = Link { key: own_key, target: header_hash };
        lemma_link_targets_push(old(store).links@, disc_link, own_key);
        lemma_link_targets_push(old(store).links@.push(disc_link), own_link, own_key);
        lemma_last_is_terminal(store.versions@);

        lemma_link_targets_push(old(store).links@, disc_link, LinkKey::Discovery);
        lemma_link_targets_push(old(store).links@.push(disc_link), own_link, LinkKey::Discovery);
        let old_targets = link_targets(old(store).links@, LinkKey::Discovery);
        let new_targets = link_targets(store.links@, LinkKey::Discovery);
        assert(new_targets == old_targets.push(header_hash));
        if forall|i: int| 0 <= i < old_targets.len() ==> ((#[trigger] old_targets[i]).0 as int)
            < old(store).versions@.len() {
            lemma_resolved_contents_append_root(
                old(store).versions@,
                Version { content: entry, prev: None },
                old_targets,
            );
            assert(new_targets.drop_last() =~= old_targets);
            assert(new_targets.last() == header_hash);
        }
    }
    send_agent_signal(store, agent, wire.clone(), outbox);
    wire
}

/// Appends a new version of the caller's record, chaining from whichever
/// version address the supplied wire entry names, queues the peer fanout,
/// and returns the wire entry unchanged — so its address keeps naming the
/// version the caller took as current, and the next update chains from
/// there. Succeeds exactly when the named predecessor exists; a stale
/// predecessor is accepted and forks the chain. A fanout can never fail the
/// write.
pub fn update_whoami(
    store: &mut Store,
    outbox: &mut Vec<Delivery>,
    agent: AgentPubKey,
    update: WireEntry,
) -> (r: Result<WireEntry, StoreError>)
    requires
        old(store).wf(),
    ensures
        final(store).wf(),
        update.address.0 < old(store).versions@.len() ==> {
            &&& r matches Ok(returned) && returned == update
            &&& final(store).versions@ == old(store).versions@.push(
                (Version { content: update.entry, prev: Some(update.address) }),
            )
            &&& final(store).links@ == old(store).links@
            &&& final(outbox)@.len() == old(outbox)@.len() + peers_of(*final(store), agent).len()
            &&& (forall|i: int|
                0 <= i < old(outbox)@.len() ==> final(outbox)@[i] == old(outbox)@[i])
            &&& (forall|i: int|
                0 <= i < peers_of(*final(store), agent).len() ==> delivery_matches(
                    final(outbox)@[old(outbox)@.len() + i],
                    peers_of(*final(store), agent)[i],
                    agent,
                    update,
                ))
        },
        update.address.0 >= old(store).versions@.len() ==> r == Err::<WireEntry, StoreError>(
            StoreError::MissingPredecessor,
        ) && *final(store) == *old(store) && final(outbox)@ == old(outbox)@,
{
    match store.append_version(update.address, update.entry.clone()) {
        Ok(_new_version) => {
            send_agent_signal(store, agent, update.clone(), outbox);
            Ok(update)
        },
        Err(e) => Err(e),
    }
}

/// Reads the caller's own record: the most recently inserted link under
/// the caller's key, resolved to its latest version. A pure read; absence
/// (no registration, or a target not yet visible) is `None`, never an
/// error.
pub fn whoami(store: &Store, agent: AgentPubKey) -> (out: WhoAmIOutput)
    requires
        store.wf(),
    ensures
        out.0 == whoami_spec(*store, agent),
{
    let targets = store.list_links(LinkKey::Agent(agent));
    if targets.len() == 0 {
        WhoAmIOutput(None)
    } else {
        let t = targets[targets.len() - 1];
        WhoAmIOutput(store.resolve_latest(t))
    }
}

/// The caller's own network identity, as the embedding established it.
pub fn fetch_agent_address(agent: AgentPubKey) -> (r: AgentPubKey)
    ensures
        r == agent,
{
    agent
}

/// The receiving side of the fanout: a received signal is handed on to the
/// local application layer unchanged. The embedding performs the actual
/// emission; a failure to emit there is the one failure this path can
/// surface.
pub fn receive_signal(signal: AgentSignal) -> (emitted: AgentSignal)
    ensures
        emitted == signal,
{
    signal
}

} // verus!
