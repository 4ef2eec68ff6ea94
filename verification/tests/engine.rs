use social_context::errors::SocialContextError;
use social_context::inputs::{
    AddLinkInput, ExpressionProof, GetLinks, LinkExpression, SocialContextProperties, Triple,
    UpdateLinkInput,
};
use social_context::methods::SocialContextDNA;
use social_context::store::{EntryData, Store};

fn dna(strategy: &str, time_index: bool, limit: usize) -> SocialContextDNA {
    SocialContextDNA::new(
        SocialContextProperties {
            active_agent_duration_s: 7200,
            enable_signals: false,
            enable_time_index: time_index,
            index_strategy: strategy.to_string(),
            soft_chunk_limit: limit,
            hard_chunk_limit: limit * 10,
            refresh_active_agent: false,
        },
        "did:key:local".to_string(),
    )
    .unwrap()
}

fn record(
    subject: Option<&str>,
    predicate: Option<&str>,
    object: Option<&str>,
    ts: i64,
) -> LinkExpression {
    LinkExpression {
        author: "did:key:alice".to_string(),
        data: Triple {
            subject: subject.map(|s| s.to_string()),
            object: object.map(|s| s.to_string()),
            predicate: predicate.map(|s| s.to_string()),
        },
        timestamp: ts,
        proof: ExpressionProof {
            signature: "sig".to_string(),
            key: "key".to_string(),
        },
    }
}

fn query(subject: Option<&str>, predicate: Option<&str>, object: Option<&str>) -> GetLinks {
    GetLinks {
        triple: Triple {
            subject: subject.map(|s| s.to_string()),
            object: object.map(|s| s.to_string()),
            predicate: predicate.map(|s| s.to_string()),
        },
        from_date: None,
        until_date: None,
        limit: None,
    }
}

fn add(engine: &SocialContextDNA, store: &mut Store, rec: &LinkExpression) {
    engine
        .add_link(
            store,
            AddLinkInput {
                link_expression: rec.clone(),
                index_strategy: engine.strategy(),
            },
            0,
        )
        .unwrap();
}

#[test]
fn full_strategy_queries_find_record() {
    let engine = dna("Full", false, 10);
    let mut store = Store::new();
    let rec = record(Some("a"), Some("p"), Some("b"), 100);
    add(&engine, &mut store, &rec);

    let by_subject = engine.get_links(&store, query(Some("a"), None, None), 0).unwrap();
    assert_eq!(by_subject, vec![record(Some("a"), Some("p"), Some("b"), 100)]);

    let by_obj_pred = engine
        .get_links(&store, query(None, Some("p"), Some("b")), 0)
        .unwrap();
    assert_eq!(by_obj_pred.len(), 1);
    assert_eq!(by_obj_pred[0], rec);

    let miss = engine.get_links(&store, query(Some("x"), None, None), 0).unwrap();
    assert!(miss.is_empty());
}

#[test]
fn simple_strategy_needs_subject_and_predicate() {
    let engine = dna("Simple", false, 10);
    let mut store = Store::new();
    let rec = record(Some("a"), Some("p"), Some("b"), 100);
    add(&engine, &mut store, &rec);

    // A record without a predicate is rejected outright.
    let missing = engine.add_link(
        &mut store,
        AddLinkInput {
            link_expression: record(Some("a"), None, Some("b"), 100),
            index_strategy: engine.strategy(),
        },
        0,
    );
    assert_eq!(
        missing.unwrap_err(),
        SocialContextError::RequestError("Expected predicate with simple index strategy")
    );

    // Only the subject + predicate query hits.
    let hit = engine
        .get_links(&store, query(Some("a"), Some("p"), None), 0)
        .unwrap();
    assert_eq!(hit.len(), 1);
    let by_subject = engine.get_links(&store, query(Some("a"), None, None), 0).unwrap();
    assert!(by_subject.is_empty());
    let by_pair = engine
        .get_links(&store, query(Some("a"), None, Some("b")), 0)
        .unwrap();
    assert!(by_pair.is_empty());
}

#[test]
fn simple_strategy_reports_missing_subject() {
    let engine = dna("Simple", false, 10);
    let mut store = Store::new();
    let res = engine.add_link(
        &mut store,
        AddLinkInput {
            link_expression: record(None, Some("p"), Some("b"), 100),
            index_strategy: engine.strategy(),
        },
        0,
    );
    assert_eq!(
        res.unwrap_err(),
        SocialContextError::RequestError("Expected subject with simple index strategy")
    );
}

#[test]
fn simple_strategy_remove_rejects_uncoverable_record() {
    // A record that reached the store without a subject cannot have its
    // permutation set regenerated under the simple strategy; the removal is
    // rejected and the record stays.
    let engine = dna("Simple", false, 10);
    let mut store = Store::new();
    let rec = record(None, Some("p"), Some("b"), 100);
    let h = store.commit(EntryData::Expression(rec.clone()));
    assert_eq!(
        engine.remove_link(&mut store, &rec).unwrap_err(),
        SocialContextError::RequestError("Expected subject with simple index strategy")
    );
    assert!(store.get_expression(h).is_some());
}

#[test]
fn chunked_writes_spread_over_buckets() {
    // Simple strategy writes exactly one link per record, all under the
    // subject key, so three times the soft limit fills three buckets.
    let limit: usize = 2;
    let engine = dna("Simple", false, limit);
    let mut store = Store::new();
    for i in 0..(3 * limit) {
        let rec = record(Some("a"), Some("p"), Some(&format!("obj-{}", i)), 100);
        add(&engine, &mut store, &rec);
    }
    let key = "a".to_string();
    assert_eq!(store.chunk_count(&key), 3);
    for chunk in 0..3 {
        assert!(store.count_links_at(&key, chunk) <= limit);
        assert!(store.count_links_at(&key, chunk) >= 1);
    }
    // Every record is still found through the probe across buckets.
    let hits = engine
        .get_links(&store, query(Some("a"), Some("p"), None), 0)
        .unwrap();
    assert_eq!(hits.len(), 3 * limit);
}

#[test]
fn remove_erases_record_and_index() {
    let engine = dna("Full", false, 10);
    let mut store = Store::new();
    let rec = record(Some("a"), Some("p"), Some("b"), 100);
    add(&engine, &mut store, &rec);
    assert_eq!(
        engine.get_links(&store, query(Some("a"), None, None), 0).unwrap().len(),
        1
    );

    engine.remove_link(&mut store, &rec).unwrap();

    let hits = engine.get_links(&store, query(Some("a"), None, None), 0).unwrap();
    assert!(hits.is_empty());
    // The primary record is gone too.
    let h = store.find(&EntryData::Expression(rec.clone())).unwrap();
    assert!(store.get_expression(h).is_none());
    // Removing it again reports it missing.
    assert_eq!(
        engine.remove_link(&mut store, &rec).unwrap_err(),
        SocialContextError::RequestError("record not found")
    );
}

#[test]
fn update_replaces_record() {
    let engine = dna("Full", false, 10);
    let mut store = Store::new();
    let old = record(Some("a"), Some("p"), Some("b"), 100);
    add(&engine, &mut store, &old);
    let new = record(Some("a"), Some("p"), Some("c"), 200);
    engine
        .update_link(
            &mut store,
            UpdateLinkInput {
                source: old.clone(),
                target: new.clone(),
                index_strategy: engine.strategy(),
            },
            0,
        )
        .unwrap();

    let by_old_object = engine
        .get_links(&store, query(None, None, Some("b")), 0)
        .unwrap();
    assert!(by_old_object.is_empty());
    let by_new_object = engine
        .get_links(&store, query(None, None, Some("c")), 0)
        .unwrap();
    assert_eq!(by_new_object, vec![new]);
}

#[test]
fn wildcard_strategy_serves_empty_query() {
    let engine = dna("FullWithWildCard", false, 10);
    let mut store = Store::new();
    add(&engine, &mut store, &record(Some("a"), Some("p"), Some("b"), 100));
    add(&engine, &mut store, &record(Some("x"), Some("q"), None, 200));

    let everything = engine.get_links(&store, query(None, None, None), 0).unwrap();
    assert_eq!(everything.len(), 2);
}

#[test]
fn empty_query_rejected_without_wildcard() {
    let engine = dna("Full", false, 10);
    let store = Store::new();
    assert_eq!(
        engine.get_links(&store, query(None, None, None), 0).unwrap_err(),
        SocialContextError::RequestError("no query entities and wildcard indexing disabled")
    );
}

#[test]
fn empty_record_rejected() {
    for strategy in ["Full", "FullWithWildCard"] {
        let engine = dna(strategy, false, 10);
        let mut store = Store::new();
        let res = engine.add_link(
            &mut store,
            AddLinkInput {
                link_expression: record(None, None, None, 100),
                index_strategy: engine.strategy(),
            },
            0,
        );
        assert_eq!(
            res.unwrap_err(),
            SocialContextError::RequestError("triple has no entities")
        );
        assert_eq!(store.num_entries(), 0);
    }
}

#[test]
fn mistyped_index_target_is_dropped() {
    // A link whose target dereferences to a presence record instead of a
    // primary record is silently omitted from query results.
    let engine = dna("Full", false, 10);
    let mut store = Store::new();
    engine.add_active_agent_link(&mut store, 50).unwrap();
    let agent_hash: usize = 0;
    assert!(store.get_agent(agent_hash).is_some());
    let key = "a".to_string();
    let tag = "*".to_string();
    store.ensure_path(&key, 0);
    store.create_link(&key, 0, &tag, agent_hash);

    let hits = engine.get_links(&store, query(Some("a"), None, None), 0).unwrap();
    assert!(hits.is_empty());
}

#[test]
fn content_addressing_revives_equal_record() {
    let engine = dna("Full", false, 10);
    let mut store = Store::new();
    let rec = record(Some("a"), Some("p"), Some("b"), 100);
    add(&engine, &mut store, &rec);
    engine.remove_link(&mut store, &rec).unwrap();
    add(&engine, &mut store, &rec);
    // The identical content keeps its hash instead of a second entry.
    assert_eq!(store.num_entries(), 1);
    let hits = engine.get_links(&store, query(Some("a"), None, None), 0).unwrap();
    assert_eq!(hits, vec![rec]);
}
