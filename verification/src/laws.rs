//! The store's laws: index symmetry between writes and removals, query
//! completeness for freshly written records, and idempotence of presence
//! announcements, each proved against the operations' own specifications.

use vstd::prelude::*;

use crate::inputs::{arity, AgentReferenceView, IndexStrategy, LinkExpressionView, TripleView};
use crate::methods::{
    active_agent_key, add_spec, announce_spec, bucket_free, chunk_targets_upto,
    direct_query_targets, dna_wf, first_presence, free_chunk, insert_presence, lemma_full_buckets,
    links_below, post_commit, presence_existing, presence_tag, presence_window_refs, query_spec,
    remove_found, remove_ok, remove_spec, window_start, write_all, write_one, DnaView,
};
use crate::store::{
    commit_index, count_at, deref_agents, deref_expressions, find_entry, lemma_find_entry_first,
    link_in_bucket_tagged, link_matches_any, live_agent, live_expression, not_matching,
    not_targeting, store_wf, targets_at, time_in_range, time_targets, EntryDataView, IndexLinkView,
    StoreView, StoredEntryView, TimeIndexEntryView,
};
use crate::utils::{
    canonical_pair, coverable, full_permutations, restricts, strategy_ok, strategy_permutations,
    PermutationView,
};

verus! {

broadcast use vstd::seq_lib::group_filter_ensures;

/// A first match pins down `find_entry`.
proof fn lemma_find_entry_at(entries: Seq<StoredEntryView>, d: EntryDataView, i: int)
    requires
        0 <= i < entries.len(),
        entries[i].data == d,
        forall|j: int| 0 <= j < i ==> (#[trigger] entries[j]).data != d,
    ensures
        find_entry(entries, d) == i,
    decreases entries.len(),
{
    if i > 0 {
        lemma_find_entry_at(entries.drop_first(), d, i - 1);
        assert forall|j: int| 1 <= j < entries.len() implies entries.drop_first()[j - 1]
            == entries[j] by {}
    }
}

/// Without a presence timestamp there is no matching reference.
proof fn lemma_first_presence_none_inv(refs: Seq<AgentReferenceView>, agent: Seq<char>)
    requires
        first_presence(refs, agent) is None,
    ensures
        forall|j: int| 0 <= j < refs.len() ==> (#[trigger] refs[j]).agent != agent,
    decreases refs.len(),
{
    if refs.len() > 0 {
        lemma_first_presence_none_inv(refs.drop_first(), agent);
        assert forall|j: int| 0 <= j < refs.len() implies (#[trigger] refs[j]).agent != agent by {
            if j > 0 {
                assert(refs.drop_first()[j - 1] == refs[j]);
            }
        }
    }
}

/// A live record among the dereferenced hashes appears in the results.
proof fn lemma_deref_expressions_contains(
    entries: Seq<StoredEntryView>,
    targets: Seq<usize>,
    h: usize,
    e: LinkExpressionView,
)
    requires
        targets.contains(h),
        live_expression(entries, h as int) == Some(e),
    ensures
        deref_expressions(entries, targets).contains(e),
    decreases targets.len(),
{
    let k = choose|k: int| 0 <= k < targets.len() && targets[k] == h;
    if k == targets.len() - 1 {
        assert(deref_expressions(entries, targets).last() == e);
    } else {
        assert(targets.drop_last()[k] == h);
        lemma_deref_expressions_contains(entries, targets.drop_last(), h, e);
        let rest = deref_expressions(entries, targets.drop_last());
        let m = choose|m: int| 0 <= m < rest.len() && rest[m] == e;
        assert(deref_expressions(entries, targets)[m] == e);
    }
}

/// A live presence record among the dereferenced hashes appears in the
/// results.
proof fn lemma_deref_agents_contains(
    entries: Seq<StoredEntryView>,
    targets: Seq<usize>,
    h: usize,
    a: AgentReferenceView,
)
    requires
        targets.contains(h),
        live_agent(entries, h as int) == Some(a),
    ensures
        deref_agents(entries, targets).contains(a),
    decreases targets.len(),
{
    let k = choose|k: int| 0 <= k < targets.len() && targets[k] == h;
    if k == targets.len() - 1 {
        assert(deref_agents(entries, targets).last() == a);
    } else {
        assert(targets.drop_last()[k] == h);
        lemma_deref_agents_contains(entries, targets.drop_last(), h, a);
        let rest = deref_agents(entries, targets.drop_last());
        let m = choose|m: int| 0 <= m < rest.len() && rest[m] == a;
        assert(deref_agents(entries, targets)[m] == a);
    }
}

/// A link in a bucket puts its target among the bucket's targets.
proof fn lemma_targets_at_contains(
    links: Seq<IndexLinkView>,
    i: int,
    key: Seq<char>,
    chunk: usize,
    tag: Seq<char>,
)
    requires
        0 <= i < links.len(),
        links[i].key == key,
        links[i].chunk == chunk,
        links[i].tag == tag,
    ensures
        targets_at(links, key, chunk, tag).contains(links[i].target),
{
    let pred = link_in_bucket_tagged(key, chunk, tag);
    assert(pred(links[i]));
    assert(links.filter(pred).contains(links[i]));
    let f = links.filter(pred);
    let m = choose|m: int| 0 <= m < f.len() && f[m] == links[i];
    assert(f.map_values(|l: IndexLinkView| l.target)[m] == links[i].target);
}

/// A matching time-index entry puts its target among the range's targets.
proof fn lemma_time_targets_contains(
    time: Seq<TimeIndexEntryView>,
    i: int,
    key: Seq<char>,
    tag: Seq<char>,
    from: i64,
    until: i64,
)
    requires
        0 <= i < time.len(),
        time[i].key == key,
        time[i].tag == tag,
        from <= time[i].timestamp,
        time[i].timestamp <= until,
    ensures
        time_targets(time, key, tag, from, until).contains(time[i].target),
{
    let pred = time_in_range(key, tag, from, until);
    assert(pred(time[i]));
    assert(time.filter(pred).contains(time[i]));
    let f = time.filter(pred);
    let m = choose|m: int| 0 <= m < f.len() && f[m] == time[i];
    assert(f.map_values(|e: TimeIndexEntryView| e.target)[m] == time[i].target);
}

/// A target read from one scanned bucket is among the probe's results.
proof fn lemma_chunk_upto_contains(
    st: StoreView,
    key: Seq<char>,
    tag: Seq<char>,
    n: usize,
    c: usize,
    x: usize,
)
    requires
        c < n,
        targets_at(st.links, key, c, tag).contains(x),
    ensures
        chunk_targets_upto(st, key, tag, n).contains(x),
    decreases n,
{
    if c == n - 1 {
        let left = chunk_targets_upto(st, key, tag, (n - 1) as usize);
        let right = targets_at(st.links, key, (n - 1) as usize, tag);
        let k = choose|k: int| 0 <= k < right.len() && right[k] == x;
        assert(chunk_targets_upto(st, key, tag, n)[left.len() + k] == x);
    } else {
        lemma_chunk_upto_contains(st, key, tag, (n - 1) as usize, c, x);
        let left = chunk_targets_upto(st, key, tag, (n - 1) as usize);
        let k = choose|k: int| 0 <= k < left.len() && left[k] == x;
        assert(chunk_targets_upto(st, key, tag, n)[k] == x);
    }
}

/// The allocator's bucket never lies beyond the number of links.
proof fn lemma_bucket_free_bound(st: StoreView, key: Seq<char>, limit: usize, c: usize)
    requires
        limit >= 1,
        bucket_free(st, key, limit, c),
    ensures
        c <= st.links.len(),
{
    lemma_full_buckets(st.links, key, limit, c as int);
    assert(links_below(st.links, key, c as int) <= st.links.len());
}

/// With room left in the index, some bucket is free.
proof fn lemma_free_chunk_exists(st: StoreView, key: Seq<char>, limit: usize)
    requires
        limit >= 1,
        st.links.len() < usize::MAX,
    ensures
        exists|c: usize| bucket_free(st, key, limit, c),
        free_chunk(st, key, limit) <= st.links.len(),
        bucket_free(st, key, limit, free_chunk(st, key, limit)),
{
    let c0 = st.links.len() as usize;
    if exists|j: usize| j <= c0 && count_at(st.links, key, j) < limit {
        let j = choose|j: usize| j <= c0 && count_at(st.links, key, j) < limit;
        lemma_least_free(st, key, limit, j);
    } else {
        assert forall|j: usize| (j as int) < c0 as int + 1 implies count_at(st.links, key, j)
            >= limit by {
            if count_at(st.links, key, j) < limit {
                assert(j <= c0 && count_at(st.links, key, j) < limit);
            }
        }
        lemma_full_buckets(st.links, key, limit, c0 as int + 1);
        assert(links_below(st.links, key, c0 as int + 1) <= st.links.len());
        assert(false);
    }
    let c = free_chunk(st, key, limit);
    assert(bucket_free(st, key, limit, c));
    lemma_bucket_free_bound(st, key, limit, c);
}

/// Below any bucket under the limit lies a first one.
proof fn lemma_least_free(st: StoreView, key: Seq<char>, limit: usize, j: usize)
    requires
        count_at(st.links, key, j) < limit,
    ensures
        exists|c: usize| bucket_free(st, key, limit, c),
    decreases j,
{
    if exists|k: usize| k < j && count_at(st.links, key, k) < limit {
        let k = choose|k: usize| k < j && count_at(st.links, key, k) < limit;
        lemma_least_free(st, key, limit, k);
    } else {
        assert forall|k: usize| k < j implies count_at(st.links, key, k) >= limit by {
            if count_at(st.links, key, k) < limit {
                assert(k < j && count_at(st.links, key, k) < limit);
            }
        }
        assert(bucket_free(st, key, limit, j));
    }
}

/// Whether no bucket of the direct index exceeds the soft fan-out limit.
pub open spec fn buckets_bounded(st: StoreView, limit: usize) -> bool {
    forall|key: Seq<char>, c: usize| #[trigger] count_at(st.links, key, c) <= limit
}

/// Appending one link grows its own bucket by one and no other.
proof fn lemma_count_at_push(
    links: Seq<IndexLinkView>,
    l: IndexLinkView,
    key: Seq<char>,
    c: usize,
)
    ensures
        count_at(links.push(l), key, c) == count_at(links, key, c) + (
        if l.key == key && l.chunk == c {
            1int
        } else {
            0int
        }),
{
    reveal(Seq::filter);
    assert(links.push(l).drop_last() =~= links);
}

/// A permutation write appends at most one link per permutation.
proof fn lemma_write_all_links_len(
    cfg: DnaView,
    st: StoreView,
    perms: Seq<PermutationView>,
    ts: i64,
    h: usize,
)
    ensures
        st.links.len() <= write_all(cfg, st, perms, ts, h).links.len() <= st.links.len()
            + perms.len(),
    decreases perms.len(),
{
    if perms.len() > 0 {
        lemma_write_all_links_len(cfg, st, perms.drop_last(), ts, h);
    }
}

/// The allocator keeps every bucket at or below the soft limit: a write
/// only ever lands in a bucket whose fan-out is still under it.
pub proof fn lemma_soft_limit_respected(
    cfg: DnaView,
    st: StoreView,
    perms: Seq<PermutationView>,
    ts: i64,
    h: usize,
)
    requires
        dna_wf(cfg),
        buckets_bounded(st, cfg.soft_chunk_limit),
        !cfg.enable_time_index ==> st.links.len() + perms.len() <= usize::MAX,
    ensures
        buckets_bounded(write_all(cfg, st, perms, ts, h), cfg.soft_chunk_limit),
    decreases perms.len(),
{
    if perms.len() > 0 {
        let rest = perms.drop_last();
        lemma_soft_limit_respected(cfg, st, rest, ts, h);
        let w0 = write_all(cfg, st, rest, ts, h);
        let p = perms.last();
        let w = write_one(cfg, w0, p, ts, h);
        if !cfg.enable_time_index {
            let limit = cfg.soft_chunk_limit;
            lemma_write_all_links_len(cfg, st, rest, ts, h);
            lemma_free_chunk_exists(w0, p.root_index, limit);
            let c = free_chunk(w0, p.root_index, limit);
            assert(bucket_free(w0, p.root_index, limit, c));
            let nl = IndexLinkView { key: p.root_index, chunk: c, tag: p.tag, target: h };
            assert forall|key: Seq<char>, cc: usize| #[trigger]
                count_at(w.links, key, cc) <= limit by {
                lemma_count_at_push(w0.links, nl, key, cc);
                if key == p.root_index && cc == c {
                    assert(count_at(w0.links, p.root_index, c) < limit);
                }
            }
        }
    }
}

/// Committing a value keeps the store well-formed and leaves the committed
/// entry live at the returned hash; the indexes are untouched.
pub proof fn lemma_post_commit_props(st: StoreView, d: EntryDataView)
    requires
        store_wf(st),
        st.entries.len() < usize::MAX,
    ensures
        ({
            let st1 = post_commit(st, d);
            let h = commit_index(st.entries, d) as usize;
            &&& store_wf(st1)
            &&& h < st1.entries.len()
            &&& st1.entries[h as int] == (StoredEntryView { data: d, tombstoned: false })
            &&& st.entries.len() <= st1.entries.len() <= st.entries.len() + 1
            &&& st1.chunks == st.chunks
            &&& st1.links == st.links
            &&& st1.time == st.time
        }),
{
    lemma_find_entry_first(st.entries, d);
}

/// Materializing a permutation set only appends to the chosen backend:
/// entries and the other backend are untouched, bucket counts only grow,
/// every appended index entry registers `h` under one of the permutations,
/// each permutation is registered, and well-formedness is preserved.
#[verifier::rlimit(80)]
pub proof fn lemma_write_all_props(
    cfg: DnaView,
    st: StoreView,
    perms: Seq<PermutationView>,
    ts: i64,
    h: usize,
)
    requires
        dna_wf(cfg),
        store_wf(st),
        h < st.entries.len(),
        !cfg.enable_time_index ==> st.links.len() + perms.len() <= usize::MAX,
    ensures
        ({
            let w = write_all(cfg, st, perms, ts, h);
            &&& store_wf(w)
            &&& w.entries == st.entries
            &&& forall|k: Seq<char>| #[trigger] w.chunk_count(k) >= st.chunk_count(k)
            &&& st.links.len() <= w.links.len() <= st.links.len() + perms.len()
            &&& st.time.len() <= w.time.len() <= st.time.len() + perms.len()
            &&& forall|i: int| 0 <= i < st.links.len() ==> w.links[i] == st.links[i]
            &&& forall|i: int|
                st.links.len() <= i < w.links.len() ==> link_matches_any(
                    perms,
                    #[trigger] w.links[i],
                    h,
                )
            &&& forall|i: int| 0 <= i < st.time.len() ==> w.time[i] == st.time[i]
            &&& forall|i: int|
                st.time.len() <= i < w.time.len() ==> (#[trigger] w.time[i]).target == h
            &&& (cfg.enable_time_index ==> w.links == st.links && w.chunks == st.chunks)
            &&& (!cfg.enable_time_index ==> w.time == st.time)
            &&& (!cfg.enable_time_index ==> forall|j: int|
                0 <= j < perms.len() ==> exists|i: int|
                    0 <= i < w.links.len() && (#[trigger] w.links[i]).key == (
                    #[trigger] perms[j]).root_index && w.links[i].tag == perms[j].tag
                        && w.links[i].target == h)
            &&& (cfg.enable_time_index ==> forall|j: int|
                0 <= j < perms.len() ==> exists|i: int|
                    0 <= i < w.time.len() && (#[trigger] w.time[i]).key == (
                    #[trigger] perms[j]).root_index && w.time[i].tag == perms[j].tag
                        && w.time[i].timestamp == ts && w.time[i].target == h)
        }),
    decreases perms.len(),
{
    if perms.len() > 0 {
        let rest = perms.drop_last();
        lemma_write_all_props(cfg, st, rest, ts, h);
        let w0 = write_all(cfg, st, rest, ts, h);
        let p = perms.last();
        let w = write_one(cfg, w0, p, ts, h);
        assert forall|j: int| 0 <= j < rest.len() implies rest[j] == perms[j] by {}
        if cfg.enable_time_index {
            assert(w.time == w0.time.push(
                TimeIndexEntryView { key: p.root_index, tag: p.tag, timestamp: ts, target: h },
            ));
            assert forall|j: int|
                0 <= j < perms.len() implies exists|i: int|
                0 <= i < w.time.len() && (#[trigger] w.time[i]).key == (
                #[trigger] perms[j]).root_index && w.time[i].tag == perms[j].tag && w.time[i].timestamp
                    == ts && w.time[i].target == h by {
                if j < rest.len() {
                    let i = choose|i: int|
                        0 <= i < w0.time.len() && (#[trigger] w0.time[i]).key == rest[j].root_index
                            && w0.time[i].tag == rest[j].tag && w0.time[i].timestamp == ts
                            && w0.time[i].target == h;
                    assert(w.time[i] == w0.time[i]);
                } else {
                    assert(w.time[w0.time.len() as int].key == p.root_index);
                }
            }
        } else {
            lemma_free_chunk_exists(w0, p.root_index, cfg.soft_chunk_limit);
            let c = free_chunk(w0, p.root_index, cfg.soft_chunk_limit);
            assert(c <= w0.links.len());
            assert(c < usize::MAX);
            let nl = IndexLinkView { key: p.root_index, chunk: c, tag: p.tag, target: h };
            assert(w.links == w0.links.push(nl));
            assert(w.chunk_count(p.root_index) > c);
            assert forall|k: Seq<char>| #[trigger] w.chunk_count(k) >= st.chunk_count(k) by {
                assert(w0.chunk_count(k) >= st.chunk_count(k));
                assert(w.chunk_count(k) >= w0.chunk_count(k));
            }
            assert forall|i: int|
                0 <= i < w.links.len() implies (#[trigger] w.links[i]).chunk < w.chunk_count(
                w.links[i].key) && w.links[i].target < w.entries.len() by {
                if i < w0.links.len() {
                    assert(w.links[i] == w0.links[i]);
                    assert(w0.links[i].chunk < w0.chunk_count(w0.links[i].key));
                    assert(w.chunk_count(w0.links[i].key) >= w0.chunk_count(w0.links[i].key));
                } else {
                    assert(w.links[i] == nl);
                }
            }
            assert forall|i: int|
                st.links.len() <= i < w.links.len() implies link_matches_any(
                perms,
                #[trigger] w.links[i],
                h,
            ) by {
                if i < w0.links.len() {
                    assert(w.links[i] == w0.links[i]);
                    assert(link_matches_any(rest, w0.links[i], h));
                    let j = choose|j: int|
                        0 <= j < rest.len() && (#[trigger] rest[j]).root_index == w0.links[i].key
                            && rest[j].tag == w0.links[i].tag && w0.links[i].target == h;
                    assert(perms[j].root_index == w.links[i].key && perms[j].tag == w.links[i].tag
                        && w.links[i].target == h);
                } else {
                    let j = perms.len() - 1;
                    assert(perms[j].root_index == w.links[i].key && perms[j].tag == w.links[i].tag
                        && w.links[i].target == h);
                }
            }
            assert forall|j: int|
                0 <= j < perms.len() implies exists|i: int|
                0 <= i < w.links.len() && (#[trigger] w.links[i]).key == (
                #[trigger] perms[j]).root_index && w.links[i].tag == perms[j].tag && w.links[i].target
                    == h by {
                if j < rest.len() {
                    let i = choose|i: int|
                        0 <= i < w0.links.len() && (#[trigger] w0.links[i]).key
                            == rest[j].root_index && w0.links[i].tag == rest[j].tag
                            && w0.links[i].target == h;
                    assert(w.links[i] == w0.links[i]);
                } else {
                    assert(w.links[w0.links.len() as int] == nl);
                }
            }
        }
    }
}

/// Index symmetry: the permutation set a removal regenerates matches the one
/// the write registered, so removing a freshly added record leaves no index
/// entry targeting it, on either backend.
pub proof fn lemma_index_symmetry(cfg: DnaView, st: StoreView, link: LinkExpressionView)
    requires
        dna_wf(cfg),
        store_wf(st),
        strategy_ok(cfg.index_strategy, link.data),
        find_entry(st.entries, EntryDataView::Expression(link)) == -1,
        st.entries.len() < usize::MAX,
        !cfg.enable_time_index ==> st.links.len() + strategy_permutations(
            cfg.index_strategy,
            link.data,
        ).len() <= usize::MAX,
    ensures
        ({
            let st1 = add_spec(cfg, st, link, cfg.index_strategy);
            let st2 = remove_spec(cfg, st1, link);
            let h = commit_index(st.entries, EntryDataView::Expression(link)) as usize;
            &&& remove_ok(cfg, st1, link)
            &&& forall|i: int| 0 <= i < st2.links.len() ==> (#[trigger] st2.links[i]).target != h
            &&& forall|i: int| 0 <= i < st2.time.len() ==> (#[trigger] st2.time[i]).target != h
        }),
{
    let d = EntryDataView::Expression(link);
    let perms = strategy_permutations(cfg.index_strategy, link.data);
    let h = commit_index(st.entries, d) as usize;
    let st0 = post_commit(st, d);
    lemma_post_commit_props(st, d);
    assert(h == st.entries.len());
    lemma_write_all_props(cfg, st0, perms, link.timestamp, h);
    let st1 = add_spec(cfg, st, link, cfg.index_strategy);
    assert(st1 == write_all(cfg, st0, perms, link.timestamp, h));
    assert(st1.entries == st.entries.push(StoredEntryView { data: d, tombstoned: false }));
    assert forall|j: int| 0 <= j < h implies (#[trigger] st1.entries[j]).data != d by {
        lemma_find_entry_first(st.entries, d);
        assert(st1.entries[j] == st.entries[j]);
    }
    lemma_find_entry_at(st1.entries, d, h as int);
    assert(remove_found(st1, link));
    let st2 = remove_spec(cfg, st1, link);
    if cfg.enable_time_index {
        assert(st2.time == st1.time.filter(not_targeting(h)));
        assert forall|i: int|
            0 <= i < st2.time.len() implies (#[trigger] st2.time[i]).target != h by {
            assert(st2.time.contains(st2.time[i]));
            st1.time.lemma_filter_contains_rev(not_targeting(h), st2.time[i]);
        }
        assert forall|i: int|
            0 <= i < st2.links.len() implies (#[trigger] st2.links[i]).target != h by {
            assert(st2.links[i] == st.links[i]);
            assert(st.links[i].target < st.entries.len());
        }
    } else {
        assert(st2.links == st1.links.filter(not_matching(perms, h)));
        assert forall|i: int|
            0 <= i < st2.links.len() implies (#[trigger] st2.links[i]).target != h by {
            assert(st2.links.contains(st2.links[i]));
            st1.links.lemma_filter_contains_rev(not_matching(perms, h), st2.links[i]);
            let l = st2.links[i];
            let j = choose|j: int| 0 <= j < st1.links.len() && st1.links[j] == l;
            if j < st.links.len() {
                assert(st1.links[j] == st.links[j]);
                assert(st.links[j].target < st.entries.len());
            } else {
                assert(link_matches_any(perms, st1.links[j], h));
            }
        }
        assert forall|i: int|
            0 <= i < st2.time.len() implies (#[trigger] st2.time[i]).target != h by {
            assert(st2.time[i] == st.time[i]);
            assert(st.time[i].target < st.entries.len());
        }
    }
}

/// Under the full permutation set, the canonical pair of every non-empty
/// restriction of the triple is registered.
proof fn lemma_full_covered(t: TripleView, q: TripleView)
    requires
        arity(t) >= 1,
        restricts(q, t),
        arity(q) >= 1,
    ensures
        full_permutations(t).contains(canonical_pair(q)),
{
    let cp = canonical_pair(q);
    let fp = full_permutations(t);
    if q.subject is Some && q.object is Some {
        if t.predicate is Some {
            assert(fp[3] == cp);
        } else {
            assert(fp[0] == cp);
        }
    } else if q.subject is Some && q.predicate is Some {
        if t.object is Some {
            assert(fp[4] == cp);
        } else {
            assert(fp[0] == cp);
        }
    } else if q.object is Some && q.predicate is Some {
        if t.subject is Some {
            assert(fp[5] == cp);
        } else {
            assert(fp[0] == cp);
        }
    } else if q.subject is Some {
        if t.object is Some && t.predicate is Some {
            assert(fp[0] == cp);
        } else if t.object is Some {
            assert(fp[1] == cp);
        } else if t.predicate is Some {
            assert(fp[1] == cp);
        } else {
            assert(fp[0] == cp);
        }
    } else if q.object is Some {
        if t.subject is Some && t.predicate is Some {
            assert(fp[1] == cp);
        } else if t.subject is Some {
            assert(fp[2] == cp);
        } else if t.predicate is Some {
            assert(fp[1] == cp);
        } else {
            assert(fp[0] == cp);
        }
    } else {
        if t.subject is Some && t.object is Some {
            assert(fp[2] == cp);
        } else if t.subject is Some {
            assert(fp[2] == cp);
        } else if t.object is Some {
            assert(fp[2] == cp);
        } else {
            assert(fp[0] == cp);
        }
    }
    assert(fp.contains(cp));
}

/// The canonical pair of every coverable restriction of an indexed triple
/// lies in the strategy's permutation set.
pub proof fn lemma_canonical_covered(strategy: IndexStrategy, t: TripleView, q: TripleView)
    requires
        strategy_ok(strategy, t),
        restricts(q, t),
        coverable(strategy, q),
    ensures
        strategy_permutations(strategy, t).contains(canonical_pair(q)),
{
    let cp = canonical_pair(q);
    let sp = strategy_permutations(strategy, t);
    match strategy {
        IndexStrategy::Simple => {
            assert(sp[0] == cp);
        },
        IndexStrategy::Full => {
            lemma_full_covered(t, q);
        },
        IndexStrategy::FullWithWildCard => {
            let fp = full_permutations(t);
            if arity(q) >= 1 {
                lemma_full_covered(t, q);
                let k = choose|k: int| 0 <= k < fp.len() && fp[k] == cp;
                assert(sp[k] == cp);
            } else {
                assert(sp[fp.len() as int] == cp);
            }
        },
    }
}

/// Query completeness on the chunked direct backend: a freshly written
/// record is returned by every query whose triple restricts the record's
/// triple and is coverable under the configured strategy.
pub proof fn lemma_query_finds_added_direct(
    cfg: DnaView,
    st: StoreView,
    link: LinkExpressionView,
    q: TripleView,
    from: Option<i64>,
    until: Option<i64>,
    limit: Option<usize>,
    now: i64,
)
    requires
        dna_wf(cfg),
        store_wf(st),
        !cfg.enable_time_index,
        strategy_ok(cfg.index_strategy, link.data),
        restricts(q, link.data),
        coverable(cfg.index_strategy, q),
        st.entries.len() < usize::MAX,
        st.links.len() + strategy_permutations(cfg.index_strategy, link.data).len()
            <= usize::MAX,
    ensures
        query_spec(
            cfg,
            add_spec(cfg, st, link, cfg.index_strategy),
            q,
            from,
            until,
            limit,
            now,
        ).contains(link),
{
    let d = EntryDataView::Expression(link);
    let perms = strategy_permutations(cfg.index_strategy, link.data);
    let h = commit_index(st.entries, d) as usize;
    let st0 = post_commit(st, d);
    lemma_post_commit_props(st, d);
    lemma_write_all_props(cfg, st0, perms, link.timestamp, h);
    let st1 = add_spec(cfg, st, link, cfg.index_strategy);
    assert(st1 == write_all(cfg, st0, perms, link.timestamp, h));
    lemma_canonical_covered(cfg.index_strategy, link.data, q);
    let cp = canonical_pair(q);
    let j = choose|j: int| 0 <= j < perms.len() && perms[j] == cp;
    let i = choose|i: int|
        0 <= i < st1.links.len() && (#[trigger] st1.links[i]).key == perms[j].root_index
            && st1.links[i].tag == perms[j].tag && st1.links[i].target == h;
    assert(st1.links[i].chunk < st1.chunk_count(st1.links[i].key));
    lemma_targets_at_contains(st1.links, i, cp.root_index, st1.links[i].chunk, cp.tag);
    lemma_chunk_upto_contains(
        st1,
        cp.root_index,
        cp.tag,
        st1.chunk_count(cp.root_index),
        st1.links[i].chunk,
        h,
    );
    assert(live_expression(st1.entries, h as int) == Some(link));
    lemma_deref_expressions_contains(
        st1.entries,
        direct_query_targets(st1, cp.root_index, cp.tag),
        h,
        link,
    );
}

/// Query completeness on the time-ordered backend: a freshly written record
/// is returned by every unlimited query whose triple restricts the record's
/// triple, is coverable under the configured strategy, and whose effective
/// time range covers the record's timestamp.
pub proof fn lemma_query_finds_added_time(
    cfg: DnaView,
    st: StoreView,
    link: LinkExpressionView,
    q: TripleView,
    from: Option<i64>,
    until: Option<i64>,
    now: i64,
)
    requires
        dna_wf(cfg),
        store_wf(st),
        cfg.enable_time_index,
        strategy_ok(cfg.index_strategy, link.data),
        restricts(q, link.data),
        coverable(cfg.index_strategy, q),
        st.entries.len() < usize::MAX,
        match (from, until) {
            (Some(f), Some(u)) => f <= link.timestamp && link.timestamp <= u,
            _ => 0 <= link.timestamp && link.timestamp <= now,
        },
    ensures
        query_spec(
            cfg,
            add_spec(cfg, st, link, cfg.index_strategy),
            q,
            from,
            until,
            None,
            now,
        ).contains(link),
{
    let d = EntryDataView::Expression(link);
    let perms = strategy_permutations(cfg.index_strategy, link.data);
    let h = commit_index(st.entries, d) as usize;
    let st0 = post_commit(st, d);
    lemma_post_commit_props(st, d);
    lemma_write_all_props(cfg, st0, perms, link.timestamp, h);
    let st1 = add_spec(cfg, st, link, cfg.index_strategy);
    assert(st1 == write_all(cfg, st0, perms, link.timestamp, h));
    lemma_canonical_covered(cfg.index_strategy, link.data, q);
    let cp = canonical_pair(q);
    let j = choose|j: int| 0 <= j < perms.len() && perms[j] == cp;
    let i = choose|i: int|
        0 <= i < st1.time.len() && (#[trigger] st1.time[i]).key == perms[j].root_index
            && st1.time[i].tag == perms[j].tag && st1.time[i].timestamp == link.timestamp
            && st1.time[i].target == h;
    let lo: i64 = match (from, until) {
        (Some(f), Some(u)) => f,
        _ => 0,
    };
    let hi: i64 = match (from, until) {
        (Some(f), Some(u)) => u,
        _ => now,
    };
    lemma_time_targets_contains(st1.time, i, cp.root_index, cp.tag, lo, hi);
    assert(live_expression(st1.entries, h as int) == Some(link));
    lemma_deref_expressions_contains(
        st1.entries,
        time_targets(st1.time, cp.root_index, cp.tag, lo, hi),
        h,
        link,
    );
}

/// Idempotence of presence announcements: once a peer not yet marked active
/// announces itself, a second announcement whose window still covers the
/// first leaves the store unchanged under the no-refresh policy.
pub proof fn lemma_announce_idempotent(cfg: DnaView, st: StoreView, now1: i64, now2: i64)
    requires
        dna_wf(cfg),
        store_wf(st),
        !cfg.refresh_active_agent,
        presence_existing(cfg, st, now1) is None,
        window_start(now2, cfg.active_agent_duration_s) <= now1,
        now1 <= now2,
        st.entries.len() < usize::MAX,
    ensures
        announce_spec(cfg, announce_spec(cfg, st, now1), now2) == announce_spec(cfg, st, now1),
{
    let st1 = insert_presence(cfg, st, now1);
    assert(announce_spec(cfg, st, now1) == st1);
    let a = AgentReferenceView { agent: cfg.local_agent, timestamp: now1 };
    let d = EntryDataView::Agent(a);
    let h = commit_index(st.entries, d) as usize;
    lemma_post_commit_props(st, d);
    assert(st1.entries == post_commit(st, d).entries);
    assert(live_agent(st1.entries, h as int) == Some(a));
    let e = TimeIndexEntryView {
        key: active_agent_key(),
        tag: presence_tag(),
        timestamp: now1,
        target: h,
    };
    assert(st1.time[st.time.len() as int] == e);
    let dur = cfg.active_agent_duration_s;
    lemma_time_targets_contains(
        st1.time,
        st.time.len() as int,
        active_agent_key(),
        presence_tag(),
        window_start(now2, dur),
        now2,
    );
    let targets = time_targets(
        st1.time,
        active_agent_key(),
        presence_tag(),
        window_start(now2, dur),
        now2,
    );
    lemma_deref_agents_contains(st1.entries, targets, h, a);
    let refs = presence_window_refs(st1, now2, dur);
    assert(refs.contains(a));
    if first_presence(refs, cfg.local_agent) is None {
        lemma_first_presence_none_inv(refs, cfg.local_agent);
        let k = choose|k: int| 0 <= k < refs.len() && refs[k] == a;
        assert(refs[k].agent == cfg.local_agent);
        assert(false);
    }
    assert(presence_existing(cfg, st1, now2) is Some);
}

} // verus!
