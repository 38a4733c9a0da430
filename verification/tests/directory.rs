use acorn_profiles::lifecycle::{
    create_whoami, fetch_agent_address, fetch_agents, get_peers, receive_signal, update_whoami,
    whoami, Delivery,
};
use acorn_profiles::profile::{AgentPubKey, AgentSignal, HeaderHash, Profile, Status, WireEntry};
use acorn_profiles::store::{Store, StoreError};

fn profile(first: &str, handle: &str, status: Status, owner: u64) -> Profile {
    Profile {
        first_name: String::from(first),
        last_name: String::from("Lee"),
        handle: String::from(handle),
        status,
        avatar_url: format!("http://x/{}.png", handle),
        address: AgentPubKey(owner),
    }
}

#[test]
fn create_then_read_own_returns_created_content() {
    let mut store = Store::new();
    let mut outbox: Vec<Delivery> = Vec::new();
    let ann = AgentPubKey(1);
    let content = profile("Ann", "ann", Status::Online, 1);

    let wire = create_whoami(&mut store, &mut outbox, ann, content.clone());
    assert_eq!(wire.entry, content);

    let read = whoami(&store, ann).0.expect("own record must be visible");
    assert_eq!(read.entry, content);
    assert_eq!(read.address, wire.address);
}

#[test]
fn read_own_is_idempotent() {
    let mut store = Store::new();
    let mut outbox: Vec<Delivery> = Vec::new();
    let ann = AgentPubKey(1);
    create_whoami(&mut store, &mut outbox, ann, profile("Ann", "ann", Status::Online, 1));

    let first = whoami(&store, ann).0;
    let second = whoami(&store, ann).0;
    assert_eq!(first.is_some(), second.is_some());
    assert_eq!(first.unwrap(), second.unwrap());

    let absent_first = whoami(&store, AgentPubKey(9)).0;
    let absent_second = whoami(&store, AgentPubKey(9)).0;
    assert!(absent_first.is_none() && absent_second.is_none());
}

#[test]
fn sequential_updates_resolve_to_the_last_content() {
    let mut store = Store::new();
    let mut outbox: Vec<Delivery> = Vec::new();
    let ann = AgentPubKey(1);

    let wire0 = create_whoami(&mut store, &mut outbox, ann, profile("Ann", "ann", Status::Online, 1));
    let root = wire0.address;

    let mut wire = wire0;
    for handle in ["ann2", "ann3", "ann4"] {
        let next = WireEntry {
            entry: profile("Ann", handle, Status::Online, 1),
            address: wire.address,
        };
        wire = update_whoami(&mut store, &mut outbox, ann, next).expect("update must succeed");
    }

    let resolved = store.resolve_latest(root).expect("root must resolve");
    assert_eq!(resolved.entry, profile("Ann", "ann4", Status::Online, 1));

    let read = whoami(&store, ann).0.expect("own record must be visible");
    assert_eq!(read.entry, profile("Ann", "ann4", Status::Online, 1));
}

#[test]
fn a_stale_predecessor_forks_and_the_most_recent_fork_wins() {
    let mut store = Store::new();
    let mut outbox: Vec<Delivery> = Vec::new();
    let ann = AgentPubKey(1);

    let wire0 = create_whoami(&mut store, &mut outbox, ann, profile("Ann", "ann", Status::Online, 1));
    let stale = wire0.address;

    let first = WireEntry { entry: profile("Ann", "fork1", Status::Online, 1), address: stale };
    update_whoami(&mut store, &mut outbox, ann, first).expect("update must succeed");
    let second = WireEntry { entry: profile("Ann", "fork2", Status::Online, 1), address: stale };
    update_whoami(&mut store, &mut outbox, ann, second).expect("update must succeed");

    let resolved = store.resolve_latest(stale).expect("root must resolve");
    assert_eq!(resolved.entry, profile("Ann", "fork2", Status::Online, 1));
}

#[test]
fn list_all_returns_each_created_profile_once() {
    let mut store = Store::new();
    let mut outbox: Vec<Delivery> = Vec::new();
    let supplied = [
        profile("Ann", "ann", Status::Online, 1),
        profile("Bob", "bob", Status::Away, 2),
        profile("Cid", "cid", Status::Offline, 3),
    ];
    for content in supplied.iter() {
        create_whoami(&mut store, &mut outbox, content.address, content.clone());
    }

    let listed = fetch_agents(&store).0;
    assert_eq!(listed.len(), supplied.len());
    for content in supplied.iter() {
        let occurrences = listed.iter().filter(|p| *p == content).count();
        assert_eq!(occurrences, 1);
    }
}

#[test]
fn fanout_never_targets_the_writer() {
    let mut store = Store::new();
    let mut outbox: Vec<Delivery> = Vec::new();
    let ann = AgentPubKey(1);
    let bob = AgentPubKey(2);

    create_whoami(&mut store, &mut outbox, ann, profile("Ann", "ann", Status::Online, 1));
    assert!(outbox.is_empty(), "the first participant has no peers to notify");

    create_whoami(&mut store, &mut outbox, bob, profile("Bob", "bob", Status::Away, 2));
    assert_eq!(outbox.len(), 1);
    assert_eq!(outbox[0].to, ann);
    assert_ne!(outbox[0].to, bob);

    let wire = whoami(&store, ann).0.expect("own record must be visible");
    let next = WireEntry { entry: profile("Ann", "ann", Status::Away, 1), address: wire.address };
    update_whoami(&mut store, &mut outbox, ann, next).expect("update must succeed");
    let update_targets: Vec<AgentPubKey> = outbox[1..].iter().map(|d| d.to).collect();
    assert_eq!(update_targets, vec![bob]);
}

#[test]
fn peers_are_everyone_but_the_caller() {
    let mut store = Store::new();
    let mut outbox: Vec<Delivery> = Vec::new();
    for owner in 1..=3u64 {
        let content = profile("P", &format!("p{}", owner), Status::Online, owner);
        create_whoami(&mut store, &mut outbox, AgentPubKey(owner), content);
    }
    let peers = get_peers(&store, AgentPubKey(2));
    assert_eq!(peers, vec![AgentPubKey(1), AgentPubKey(3)]);
}

#[test]
fn update_with_unknown_predecessor_is_rejected_and_changes_nothing() {
    let mut store = Store::new();
    let mut outbox: Vec<Delivery> = Vec::new();
    let ann = AgentPubKey(1);
    create_whoami(&mut store, &mut outbox, ann, profile("Ann", "ann", Status::Online, 1));
    let before = whoami(&store, ann).0.unwrap();
    let sends_before = outbox.len();

    let bad = WireEntry {
        entry: profile("Ann", "ann", Status::Away, 1),
        address: HeaderHash(99),
    };
    let result = update_whoami(&mut store, &mut outbox, ann, bad);
    assert_eq!(result.unwrap_err(), StoreError::MissingPredecessor);

    let after = whoami(&store, ann).0.unwrap();
    assert_eq!(before, after);
    assert_eq!(outbox.len(), sends_before, "a rejected write queues no fanout");
}

#[test]
fn unknown_start_address_resolves_to_absence() {
    let store = Store::new();
    assert!(store.resolve_latest(HeaderHash(0)).is_none());
}

#[test]
fn read_own_without_a_record_is_absent() {
    let store = Store::new();
    assert!(whoami(&store, AgentPubKey(7)).0.is_none());
}

#[test]
fn duplicate_create_makes_the_most_recent_record_authoritative() {
    let mut store = Store::new();
    let mut outbox: Vec<Delivery> = Vec::new();
    let ann = AgentPubKey(1);
    create_whoami(&mut store, &mut outbox, ann, profile("Ann", "old", Status::Online, 1));
    create_whoami(&mut store, &mut outbox, ann, profile("Ann", "new", Status::Online, 1));

    let read = whoami(&store, ann).0.expect("own record must be visible");
    assert_eq!(read.entry, profile("Ann", "new", Status::Online, 1));

    let listed = fetch_agents(&store).0;
    assert_eq!(listed.len(), 2, "both root records stay listed");
}

#[test]
fn received_signals_are_forwarded_unchanged() {
    let signal = AgentSignal {
        tag: String::from("agent"),
        data: WireEntry {
            entry: profile("Ann", "ann", Status::Online, 1),
            address: HeaderHash(0),
        },
    };
    let emitted = receive_signal(signal);
    assert_eq!(emitted.tag, String::from("agent"));
    assert_eq!(
        emitted.data,
        WireEntry { entry: profile("Ann", "ann", Status::Online, 1), address: HeaderHash(0) }
    );
}

#[test]
fn fetch_agent_address_returns_the_callers_identity() {
    assert_eq!(fetch_agent_address(AgentPubKey(5)), AgentPubKey(5));
}

#[test]
fn whole_lifecycle_scenario() {
    let mut store = Store::new();
    let mut outbox: Vec<Delivery> = Vec::new();
    let ann = AgentPubKey(1);
    let online = Profile {
        first_name: String::from("Ann"),
        last_name: String::from("Lee"),
        handle: String::from("ann"),
        status: Status::from(String::from("Online")),
        avatar_url: String::from("http://x/a.png"),
        address: ann,
    };

    let wire0 = create_whoami(&mut store, &mut outbox, ann, online.clone());
    assert_eq!(wire0.entry, online);
    let h0 = wire0.address;

    let mut away = online.clone();
    away.status = Status::from(String::from("Away"));
    let returned = update_whoami(
        &mut store,
        &mut outbox,
        ann,
        WireEntry { entry: away.clone(), address: h0 },
    )
    .expect("update must succeed");
    assert_eq!(returned.entry.status, Status::Away);
    assert_eq!(
        returned.address, h0,
        "the supplied version pointer is returned verbatim, so the next update chains from it"
    );

    let read = whoami(&store, ann).0.expect("own record must be visible");
    assert_eq!(read.entry.status, Status::Away);
    let h1 = read.address;
    assert_ne!(h1, h0, "the resolved terminal is the freshly appended version");

    let listed = fetch_agents(&store).0;
    let matches: Vec<&Profile> = listed.iter().filter(|p| **p == away).collect();
    assert_eq!(matches.len(), 1, "the latest content appears exactly once");
}
