use social_context::inputs::SocialContextProperties;
use social_context::methods::SocialContextDNA;
use social_context::store::Store;

fn peer(agent: &str, window_s: i64, refresh: bool) -> SocialContextDNA {
    SocialContextDNA::new(
        SocialContextProperties {
            active_agent_duration_s: window_s,
            enable_signals: true,
            enable_time_index: false,
            index_strategy: "Full".to_string(),
            soft_chunk_limit: 10,
            hard_chunk_limit: 100,
            refresh_active_agent: refresh,
        },
        agent.to_string(),
    )
    .unwrap()
}

#[test]
fn announce_twice_is_idempotent_without_refresh() {
    let engine = peer("did:key:alice", 7200, false);
    let mut store = Store::new();
    let t0: i64 = 1_000_000;

    assert_eq!(engine.add_active_agent_link(&mut store, t0).unwrap(), None);
    let entries_after_first = store.num_entries();

    // Announcing again within the window reports the earlier timestamp and
    // adds no second reference.
    assert_eq!(
        engine.add_active_agent_link(&mut store, t0 + 60).unwrap(),
        Some(t0)
    );
    assert_eq!(store.num_entries(), entries_after_first);
    assert_eq!(engine.recent_agents(&store, t0 + 60), vec!["did:key:alice".to_string()]);
}

#[test]
fn announce_refresh_adds_one_reference_with_own_identity() {
    let engine = peer("did:key:alice", 7200, true);
    let mut store = Store::new();
    let t0: i64 = 1_000_000;

    assert_eq!(engine.add_active_agent_link(&mut store, t0).unwrap(), None);
    let entries_after_first = store.num_entries();
    assert_eq!(
        engine.add_active_agent_link(&mut store, t0 + 60).unwrap(),
        Some(t0)
    );
    // The refresh adds exactly one reference, and the deduplicated peer set
    // still names this peer once.
    assert_eq!(store.num_entries(), entries_after_first + 1);
    assert_eq!(engine.recent_agents(&store, t0 + 60), vec!["did:key:alice".to_string()]);
}

#[test]
fn window_expiry_forgets_peers() {
    // Two peers announce at t0 and t0 + 1 s with a two-hour window; three
    // hours later neither is recent.
    let alice = peer("did:key:alice", 7200, false);
    let bob = peer("did:key:bob", 7200, false);
    let mut store = Store::new();
    let t0: i64 = 1_000_000;

    alice.add_active_agent_link(&mut store, t0).unwrap();
    bob.add_active_agent_link(&mut store, t0 + 1).unwrap();

    let soon = alice.recent_agents(&store, t0 + 2);
    assert_eq!(
        soon,
        vec!["did:key:alice".to_string(), "did:key:bob".to_string()]
    );

    let late = alice.recent_agents(&store, t0 + 3 * 3600);
    assert!(late.is_empty());
}

#[test]
fn expired_reference_is_announced_anew() {
    let engine = peer("did:key:alice", 7200, false);
    let mut store = Store::new();
    let t0: i64 = 1_000_000;

    assert_eq!(engine.add_active_agent_link(&mut store, t0).unwrap(), None);
    // Outside the window the old reference is invisible, so a fresh one is
    // inserted.
    let t1 = t0 + 3 * 3600;
    assert_eq!(engine.add_active_agent_link(&mut store, t1).unwrap(), None);
    assert_eq!(engine.recent_agents(&store, t1), vec!["did:key:alice".to_string()]);
}
