use social_context::inputs::{
    AddLinkInput, ExpressionProof, GetLinks, LinkExpression, SocialContextProperties, Triple,
};
use social_context::methods::SocialContextDNA;
use social_context::store::Store;

fn time_engine() -> SocialContextDNA {
    SocialContextDNA::new(
        SocialContextProperties {
            active_agent_duration_s: 7200,
            enable_signals: false,
            enable_time_index: true,
            index_strategy: "Full".to_string(),
            soft_chunk_limit: 10,
            hard_chunk_limit: 100,
            refresh_active_agent: false,
        },
        "did:key:local".to_string(),
    )
    .unwrap()
}

fn record(object: &str, ts: i64) -> LinkExpression {
    LinkExpression {
        author: "did:key:alice".to_string(),
        data: Triple {
            subject: Some("a".to_string()),
            object: Some(object.to_string()),
            predicate: Some("p".to_string()),
        },
        timestamp: ts,
        proof: ExpressionProof {
            signature: "sig".to_string(),
            key: "key".to_string(),
        },
    }
}

fn add(engine: &SocialContextDNA, store: &mut Store, rec: &LinkExpression) {
    engine
        .add_link(
            store,
            AddLinkInput {
                link_expression: rec.clone(),
                index_strategy: engine.strategy(),
            },
            0,
        )
        .unwrap();
}

fn query_range(from: Option<i64>, until: Option<i64>, limit: Option<usize>) -> GetLinks {
    GetLinks {
        triple: Triple {
            subject: Some("a".to_string()),
            object: None,
            predicate: None,
        },
        from_date: from,
        until_date: until,
        limit,
    }
}

#[test]
fn range_query_filters_by_timestamp() {
    let engine = time_engine();
    let mut store = Store::new();
    add(&engine, &mut store, &record("b1", 100));
    add(&engine, &mut store, &record("b2", 200));
    add(&engine, &mut store, &record("b3", 300));

    let mid = engine
        .get_links(&store, query_range(Some(150), Some(250), None), 0)
        .unwrap();
    assert_eq!(mid, vec![record("b2", 200)]);

    let none = engine
        .get_links(&store, query_range(Some(400), Some(500), None), 0)
        .unwrap();
    assert!(none.is_empty());
}

#[test]
fn range_query_honours_limit() {
    let engine = time_engine();
    let mut store = Store::new();
    add(&engine, &mut store, &record("b1", 100));
    add(&engine, &mut store, &record("b2", 200));
    add(&engine, &mut store, &record("b3", 300));

    let capped = engine
        .get_links(&store, query_range(Some(0), Some(1000), Some(2)), 0)
        .unwrap();
    assert_eq!(capped, vec![record("b1", 100), record("b2", 200)]);
}

#[test]
fn unbounded_query_reads_from_epoch_to_now() {
    let engine = time_engine();
    let mut store = Store::new();
    add(&engine, &mut store, &record("b1", 100));
    add(&engine, &mut store, &record("b2", 200));

    // With no bounds the query spans the epoch up to `now`.
    let now: i64 = 150;
    let hits = engine.get_links(&store, query_range(None, None, None), now).unwrap();
    assert_eq!(hits, vec![record("b1", 100)]);

    let later = engine.get_links(&store, query_range(None, None, None), 500).unwrap();
    assert_eq!(later.len(), 2);
}

#[test]
fn time_indexed_remove_clears_entries() {
    let engine = time_engine();
    let mut store = Store::new();
    let rec = record("b1", 100);
    add(&engine, &mut store, &rec);
    engine.remove_link(&mut store, &rec).unwrap();
    let hits = engine
        .get_links(&store, query_range(Some(0), Some(1000), None), 0)
        .unwrap();
    assert!(hits.is_empty());
}
