use social_context::anchors::{init, validate_agent, writable, Anchor, AnchorTypes};
use social_context::errors::SocialContextError;
use social_context::inputs::{
    ExpressionProof, GetLinks, IndexStrategy, LinkExpression, SocialContextProperties, Triple,
    UpdateLink,
};
use social_context::methods::SocialContextDNA;
use social_context::store::Store;
use social_context::zome;

fn properties(strategy: &str) -> SocialContextProperties {
    SocialContextProperties {
        active_agent_duration_s: 7200,
        enable_signals: false,
        enable_time_index: false,
        index_strategy: strategy.to_string(),
        soft_chunk_limit: 10,
        hard_chunk_limit: 100,
        refresh_active_agent: false,
    }
}

fn record(object: &str, ts: i64) -> LinkExpression {
    LinkExpression {
        author: "did:key:alice".to_string(),
        data: Triple {
            subject: Some("a".to_string()),
            object: Some(object.to_string()),
            predicate: Some("p".to_string()),
        },
        timestamp: ts,
        proof: ExpressionProof {
            signature: "sig".to_string(),
            key: "key".to_string(),
        },
    }
}

#[test]
fn strategy_parsing() {
    assert_eq!(
        IndexStrategy::try_from(&"Full".to_string()).unwrap(),
        IndexStrategy::Full
    );
    assert_eq!(
        IndexStrategy::try_from(&"full".to_string()).unwrap(),
        IndexStrategy::Full
    );
    assert_eq!(
        IndexStrategy::try_from(&"Simple".to_string()).unwrap(),
        IndexStrategy::Simple
    );
    assert_eq!(
        IndexStrategy::try_from(&"fullwithwildcard".to_string()).unwrap(),
        IndexStrategy::FullWithWildCard
    );
    assert_eq!(
        IndexStrategy::try_from(&"bogus".to_string()).unwrap_err(),
        SocialContextError::RequestError("unsupported index strategy name")
    );
}

#[test]
fn engine_construction_checks_configuration() {
    assert!(SocialContextDNA::new(properties("Full"), "did:key:local".to_string()).is_ok());

    let mut bad_limit = properties("Full");
    bad_limit.soft_chunk_limit = 0;
    assert_eq!(
        SocialContextDNA::new(bad_limit, "did:key:local".to_string()).unwrap_err(),
        SocialContextError::RequestError("soft chunk limit must be at least one")
    );

    let mut bad_window = properties("Full");
    bad_window.active_agent_duration_s = -1;
    assert_eq!(
        SocialContextDNA::new(bad_window, "did:key:local".to_string()).unwrap_err(),
        SocialContextError::RequestError("active agent duration must not be negative")
    );

    assert!(SocialContextDNA::new(properties("bogus"), "did:key:local".to_string()).is_err());
}

#[test]
fn num_entities_counts_fields() {
    let t = Triple {
        subject: Some("a".to_string()),
        object: None,
        predicate: Some("p".to_string()),
    };
    assert_eq!(t.num_entities(), 2);
    let empty = Triple {
        subject: None,
        object: None,
        predicate: None,
    };
    assert_eq!(empty.num_entities(), 0);
}

#[test]
fn interface_round_trip() {
    let engine = SocialContextDNA::new(properties("Full"), "did:key:local".to_string()).unwrap();
    let mut store = Store::new();
    let rec = record("b", 100);

    let fanout = zome::add_link(&engine, &mut store, rec.clone()).unwrap();
    assert!(fanout.is_empty());

    let response = zome::get_links(
        &engine,
        &store,
        GetLinks {
            triple: Triple {
                subject: Some("a".to_string()),
                object: None,
                predicate: None,
            },
            from_date: None,
            until_date: None,
            limit: None,
        },
    )
    .unwrap();
    assert_eq!(response.0, vec![rec.clone()]);

    let updated = record("c", 200);
    zome::update_link(
        &engine,
        &mut store,
        UpdateLink {
            source: rec.clone(),
            target: updated.clone(),
        },
    )
    .unwrap();

    zome::remove_link(&engine, &mut store, updated.clone()).unwrap();
    let after = zome::get_links(
        &engine,
        &store,
        GetLinks {
            triple: Triple {
                subject: Some("a".to_string()),
                object: None,
                predicate: None,
            },
            from_date: None,
            until_date: None,
            limit: None,
        },
    )
    .unwrap();
    assert!(after.0.is_empty());

    assert!(zome::get_others().0.is_empty());
}

#[test]
fn presence_interface_round_trip() {
    let engine = SocialContextDNA::new(properties("Full"), "did:key:local".to_string()).unwrap();
    let mut store = Store::new();
    let first = zome::add_active_agent_link(&engine, &mut store).unwrap();
    assert_eq!(first.existing, None);
    let second = zome::add_active_agent_link(&engine, &mut store).unwrap();
    assert!(second.existing.is_some());
}

#[test]
fn host_callbacks_accept() {
    assert!(init().is_ok());
    assert!(validate_agent(&"did:key:anyone".to_string()).is_ok());
    assert!(writable());
    let anchor = Anchor {
        anchor_type: AnchorTypes::User,
    };
    assert_eq!(anchor.anchor_type, AnchorTypes::User);
    assert_ne!(AnchorTypes::DNA, AnchorTypes::CommunicationReference);
}
