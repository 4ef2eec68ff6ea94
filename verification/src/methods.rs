use vstd::prelude::*;

use crate::errors::SocialContextError;
use crate::inputs::{
    arity, AddLinkInput, Agent, AgentReference, AgentReferenceView, GetLinks, IndexStrategy,
    LinkExpression, LinkExpressionView, SocialContextProperties, TripleView, UpdateLinkInput,
};
use crate::store::{
    apply_limit, commit_entries, commit_index, count_at, deref_agents, deref_expressions,
    find_entry, lemma_find_entry_first, link_matches_any, live_agent, live_expression,
    not_matching, not_targeting, targets_at, time_targets, EntryData, EntryDataView,
    IndexLinkView, Store, StoreView, StoredEntryView, TimeIndexEntryView,
};
use crate::utils::{
    canonical_pair, generate_permutations, perms_view, strategy_ok, strategy_permutations,
    LinkPermutation, PermutationView,
};

verus! {

broadcast use vstd::seq_lib::group_filter_ensures;

/// Mathematical image of the engine's configuration.
pub struct DnaView {
    pub active_agent_duration_s: i64,
    pub enable_signals: bool,
    pub enable_time_index: bool,
    pub index_strategy: IndexStrategy,
    pub soft_chunk_limit: usize,
    pub hard_chunk_limit: usize,
    pub refresh_active_agent: bool,
    pub local_agent: Seq<char>,
}

/// A usable configuration: buckets hold at least one link and the presence
/// window does not run backwards.
pub open spec fn dna_wf(cfg: DnaView) -> bool {
    &&& cfg.soft_chunk_limit >= 1
    &&& cfg.active_agent_duration_s >= 0
}

/// The well-known time-index key of the presence tracker.
pub open spec fn active_agent_key() -> Seq<char> {
    "active_agent"@
}

/// The tag presence references are registered under.
pub open spec fn presence_tag() -> Seq<char> {
    ""@
}

/// The start of the recency window, clamped at the representable minimum.
pub open spec fn window_start(now: i64, dur: i64) -> i64 {
    if now - dur < i64::MIN {
        i64::MIN
    } else {
        (now - dur) as i64
    }
}

/// The timestamp of the first reference naming this peer, if any.
pub open spec fn first_presence(refs: Seq<AgentReferenceView>, agent: Seq<char>) -> Option<i64>
    decreases refs.len(),
{
    if refs.len() == 0 {
        None
    } else if refs[0].agent == agent {
        Some(refs[0].timestamp)
    } else {
        first_presence(refs.drop_first(), agent)
    }
}

/// A sequence with later repetitions of an element removed.
pub open spec fn dedup_seq(s: Seq<Seq<char>>) -> Seq<Seq<char>>
    decreases s.len(),
{
    if s.len() == 0 {
        s
    } else {
        let rest = dedup_seq(s.drop_last());
        if s.drop_last().contains(s.last()) {
            rest
        } else {
            rest.push(s.last())
        }
    }
}

/// The presence references visible in the recency window ending at `now`.
pub open spec fn presence_window_refs(st: StoreView, now: i64, dur: i64) -> Seq<
    AgentReferenceView,
> {
    deref_agents(
        st.entries,
        time_targets(st.time, active_agent_key(), presence_tag(), window_start(now, dur), now),
    )
}

/// The deduplicated addresses of the peers recently seen active.
pub open spec fn recent_agents_spec(cfg: DnaView, st: StoreView, now: i64) -> Seq<Seq<char>> {
    dedup_seq(
        presence_window_refs(st, now, cfg.active_agent_duration_s).map_values(
            |a: AgentReferenceView| a.agent,
        ),
    )
}

/// The notification fan-out a write computes: the recently active peers
/// as seen after the commit, or nothing when signalling is disabled.
pub open spec fn fanout_spec(
    cfg: DnaView,
    st: StoreView,
    link: LinkExpressionView,
    now: i64,
) -> Seq<Seq<char>> {
    if cfg.enable_signals {
        recent_agents_spec(cfg, post_commit(st, EntryDataView::Expression(link)), now)
    } else {
        Seq::<Seq<char>>::empty()
    }
}

/// Whether bucket `c` is the allocator's choice for `key`: the first bucket
/// with fan-out below the soft limit.
pub open spec fn bucket_free(st: StoreView, key: Seq<char>, limit: usize, c: usize) -> bool {
    &&& count_at(st.links, key, c) < limit
    &&& forall|j: usize| j < c ==> count_at(st.links, key, j) >= limit
}

/// The bucket the allocator yields for `key`.
pub open spec fn free_chunk(st: StoreView, key: Seq<char>, limit: usize) -> usize {
    choose|c: usize| bucket_free(st, key, limit, c)
}

/// At most one bucket is the allocator's choice.
pub proof fn lemma_bucket_free_unique(
    st: StoreView,
    key: Seq<char>,
    limit: usize,
    c1: usize,
    c2: usize,
)
    requires
        bucket_free(st, key, limit, c1),
        bucket_free(st, key, limit, c2),
    ensures
        c1 == c2,
{
    if c1 < c2 {
        assert(count_at(st.links, key, c1) >= limit);
    }
    if c2 < c1 {
        assert(count_at(st.links, key, c2) >= limit);
    }
}

/// A witness pins down the allocator's choice.
pub proof fn lemma_free_chunk_is(st: StoreView, key: Seq<char>, limit: usize, c: usize)
    requires
        bucket_free(st, key, limit, c),
    ensures
        free_chunk(st, key, limit) == c,
{
    let w = choose|w: usize| bucket_free(st, key, limit, w);
    lemma_bucket_free_unique(st, key, limit, w, c);
}

/// The links of `key` lying in buckets strictly below `bound`.
pub open spec fn links_below(links: Seq<IndexLinkView>, key: Seq<char>, bound: int) -> nat {
    links.filter(|l: IndexLinkView| l.key == key && (l.chunk as int) < bound).len()
}

/// Splitting the count below `n + 1` into the count below `n` and bucket `n`.
pub proof fn lemma_links_below_step(links: Seq<IndexLinkView>, key: Seq<char>, n: usize)
    ensures
        links_below(links, key, n as int + 1) == links_below(links, key, n as int) + count_at(
            links,
            key,
            n,
        ),
    decreases links.len(),
{
    reveal(Seq::filter);
    if links.len() > 0 {
        lemma_links_below_step(links.drop_last(), key, n);
    }
}

/// With every bucket below `bound` at or over the limit, the key holds at
/// least `bound` links below it.
pub proof fn lemma_full_buckets(links: Seq<IndexLinkView>, key: Seq<char>, limit: usize, bound: int)
    requires
        limit >= 1,
        0 <= bound <= usize::MAX as int + 1,
        forall|j: usize| (j as int) < bound ==> count_at(links, key, j) >= limit,
    ensures
        links_below(links, key, bound) >= bound,
    decreases bound,
{
    if bound > 0 {
        lemma_full_buckets(links, key, limit, bound - 1);
        lemma_links_below_step(links, key, (bound - 1) as usize);
        assert(count_at(links, key, (bound - 1) as usize) >= limit);
    }
}

/// Finds the first bucket of `key` whose fan-out is below the soft limit,
/// starting at bucket zero.
pub fn get_free_chunk(store: &Store, key: &String, limit: usize) -> (r: usize)
    requires
        store.inv(),
        limit >= 1,
    ensures
        bucket_free(store@, key@, limit, r),
        free_chunk(store@, key@, limit) == r,
        r <= store@.links.len(),
{
    let mut c: usize = 0;
    let total = store.num_links();
    proof {
        store.lemma_inv_wf();
    }
    while store.count_links_at(key, c) >= limit
        invariant
            store.inv(),
            limit >= 1,
            total == store@.links.len(),
            c <= total,
            forall|j: usize| j < c ==> count_at(store@.links, key@, j) >= limit,
        decreases total - c,
    {
        proof {
            assert(forall|j: usize|
                (j as int) < c as int + 1 ==> count_at(store@.links, key@, j) >= limit);
            lemma_full_buckets(store@.links, key@, limit, c as int + 1);
            assert(links_below(store@.links, key@, c as int + 1) <= store@.links.len());
        }
        c += 1;
    }
    proof {
        lemma_free_chunk_is(store@, key@, limit, c);
    }
    c
}

/// The targets a direct-backend query reads: every materialized bucket of
/// the key in order, the matching tag's links in insertion order.
pub open spec fn chunk_targets_upto(
    st: StoreView,
    key: Seq<char>,
    tag: Seq<char>,
    n: usize,
) -> Seq<usize>
    decreases n,
{
    if n == 0 {
        Seq::empty()
    } else {
        chunk_targets_upto(st, key, tag, (n - 1) as usize) + targets_at(
            st.links,
            key,
            (n - 1) as usize,
            tag,
        )
    }
}

/// All targets the direct backend yields for a key and tag.
pub open spec fn direct_query_targets(st: StoreView, key: Seq<char>, tag: Seq<char>) -> Seq<
    usize,
> {
    chunk_targets_upto(st, key, tag, st.chunk_count(key))
}

/// Whether the strings hold this value.
fn contains_string(v: &Vec<String>, x: &String) -> (r: bool)
    ensures
        r == v@.map_values(|s: String| s@).contains(x@),
{
    let n = v.len();
    let mut i: usize = 0;
    while i < n
        invariant
            n == v@.len(),
            0 <= i <= n,
            forall|j: int| 0 <= j < i ==> (#[trigger] v@[j])@ != x@,
        decreases n - i,
    {
        if v[i] == *x {
            proof {
                assert(v@.map_values(|s: String| s@)[i as int] == x@);
            }
            return true;
        }
        i += 1;
    }
    proof {
        let vs = v@.map_values(|s: String| s@);
        if vs.contains(x@) {
            let k = choose|k: int| 0 <= k < vs.len() && vs[k] == x@;
            assert(v@[k]@ == x@);
        }
    }
    false
}

/// Deduplication keeps exactly the members of the original sequence.
pub proof fn lemma_dedup_contains(s: Seq<Seq<char>>, x: Seq<char>)
    ensures
        dedup_seq(s).contains(x) <==> s.contains(x),
    decreases s.len(),
{
    if s.len() > 0 {
        let rest = s.drop_last();
        lemma_dedup_contains(rest, x);
        let d = dedup_seq(s);
        let dr = dedup_seq(rest);
        if rest.contains(s.last()) {
            if s.contains(x) {
                let k = choose|k: int| 0 <= k < s.len() && s[k] == x;
                if k < s.len() - 1 {
                    assert(rest[k] == x);
                } else {
                    assert(rest.contains(x));
                }
            }
            if rest.contains(x) {
                let k = choose|k: int| 0 <= k < rest.len() && rest[k] == x;
                assert(s[k] == x);
            }
        } else {
            assert(d == dr.push(s.last()));
            if d.contains(x) {
                let k = choose|k: int| 0 <= k < d.len() && d[k] == x;
                if k < d.len() - 1 {
                    assert(dr[k] == x);
                    assert(rest.contains(x));
                    let m = choose|m: int| 0 <= m < rest.len() && rest[m] == x;
                    assert(s[m] == x);
                } else {
                    assert(s[s.len() - 1] == x);
                }
            }
            if s.contains(x) {
                let k = choose|k: int| 0 <= k < s.len() && s[k] == x;
                if k < s.len() - 1 {
                    assert(rest[k] == x);
                    assert(dr.contains(x));
                    let m = choose|m: int| 0 <= m < dr.len() && dr[m] == x;
                    assert(d[m] == x);
                } else {
                    assert(d[d.len() - 1] == x);
                }
            }
        }
    }
}

/// Removes later repetitions, keeping first occurrences in order.
pub fn dedup(vs: &Vec<String>) -> (r: Vec<String>)
    ensures
        r@.map_values(|s: String| s@) == dedup_seq(vs@.map_values(|s: String| s@)),
{
    let n = vs.len();
    let mut r: Vec<String> = Vec::new();
    let mut i: usize = 0;
    while i < n
        invariant
            n == vs@.len(),
            0 <= i <= n,
            r@.map_values(|s: String| s@) == dedup_seq(
                vs@.map_values(|s: String| s@).take(i as int),
            ),
        decreases n - i,
    {
        let ghost all = vs@.map_values(|s: String| s@);
        proof {
            assert(all.take(i + 1).drop_last() =~= all.take(i as int));
            assert(all.take(i + 1).last() == all[i as int]);
            lemma_dedup_contains(all.take(i as int), all[i as int]);
        }
        if !contains_string(&r, &vs[i]) {
            r.push(vs[i].clone());
            proof {
                assert(r@.map_values(|s: String| s@) =~= dedup_seq(all.take(i as int)).push(
                    all[i as int],
                ));
            }
        }
        i += 1;
    }
    proof {
        assert(vs@.map_values(|s: String| s@).take(n as int) =~= vs@.map_values(|s: String| s@));
    }
    r
}

/// One index write: a time-index insertion, or a direct link into the first
/// free bucket of the key.
pub open spec fn write_one(
    cfg: DnaView,
    st: StoreView,
    p: PermutationView,
    ts: i64,
    h: usize,
) -> StoreView {
    if cfg.enable_time_index {
        StoreView {
            entries: st.entries,
            chunks: st.chunks,
            links: st.links,
            time: st.time.push(
                TimeIndexEntryView { key: p.root_index, tag: p.tag, timestamp: ts, target: h },
            ),
        }
    } else {
        let c = free_chunk(st, p.root_index, cfg.soft_chunk_limit);
        StoreView {
            entries: st.entries,
            chunks: st.chunks.insert(
                p.root_index,
                if st.chunk_count(p.root_index) > c {
                    st.chunk_count(p.root_index)
                } else {
                    (c + 1) as usize
                },
            ),
            links: st.links.push(
                IndexLinkView { key: p.root_index, chunk: c, tag: p.tag, target: h },
            ),
            time: st.time,
        }
    }
}

/// The store after materializing a permutation set for the record at `h`.
pub open spec fn write_all(
    cfg: DnaView,
    st: StoreView,
    perms: Seq<PermutationView>,
    ts: i64,
    h: usize,
) -> StoreView
    decreases perms.len(),
{
    if perms.len() == 0 {
        st
    } else {
        write_one(cfg, write_all(cfg, st, perms.drop_last(), ts, h), perms.last(), ts, h)
    }
}

/// The store after committing a value, indexes untouched.
pub open spec fn post_commit(st: StoreView, d: EntryDataView) -> StoreView {
    StoreView {
        entries: commit_entries(st.entries, d),
        chunks: st.chunks,
        links: st.links,
        time: st.time,
    }
}

/// The store after a write: the record committed and registered under every
/// permutation the strategy derives.
pub open spec fn add_spec(
    cfg: DnaView,
    st: StoreView,
    link: LinkExpressionView,
    strategy: IndexStrategy,
) -> StoreView {
    let d = EntryDataView::Expression(link);
    write_all(
        cfg,
        post_commit(st, d),
        strategy_permutations(strategy, link.data),
        link.timestamp,
        commit_index(st.entries, d) as usize,
    )
}

/// Whether a query's triple is answerable: it must name a field unless the
/// universal wildcard pair is indexed.
pub open spec fn query_ok(cfg: DnaView, q: TripleView) -> bool {
    arity(q) >= 1 || cfg.index_strategy is FullWithWildCard
}

/// The records a query returns: the canonical pair's targets from the
/// configured backend, dereferenced, dead targets dropped.  The time-ordered
/// backend serves a given range with the limit applied, or the whole epoch
/// up to `now` when a bound is missing; the direct backend reads every
/// materialized bucket.
pub open spec fn query_spec(
    cfg: DnaView,
    st: StoreView,
    q: TripleView,
    from: Option<i64>,
    until: Option<i64>,
    limit: Option<usize>,
    now: i64,
) -> Seq<LinkExpressionView> {
    let p = canonical_pair(q);
    if cfg.enable_time_index {
        let targets = match (from, until) {
            (Some(f), Some(u)) => apply_limit(
                time_targets(st.time, p.root_index, p.tag, f, u),
                limit,
            ),
            _ => apply_limit(time_targets(st.time, p.root_index, p.tag, 0, now), limit),
        };
        deref_expressions(st.entries, targets)
    } else {
        deref_expressions(st.entries, direct_query_targets(st, p.root_index, p.tag))
    }
}

/// Whether the record is present and undeleted, so that a removal can
/// locate it.
pub open spec fn remove_found(st: StoreView, link: LinkExpressionView) -> bool {
    let h = find_entry(st.entries, EntryDataView::Expression(link));
    h >= 0 && !st.entries[h].tombstoned
}

/// Whether a removal succeeds: the record is found, and on the direct
/// backend the configured strategy accepts its triple, so the permutation
/// set can be regenerated.
pub open spec fn remove_ok(cfg: DnaView, st: StoreView, link: LinkExpressionView) -> bool {
    remove_found(st, link) && (cfg.enable_time_index || strategy_ok(
        cfg.index_strategy,
        link.data,
    ))
}

/// The store after a removal: every index entry targeting the record under a
/// regenerated permutation is unlinked, and the record is tombstoned.
pub open spec fn remove_spec(cfg: DnaView, st: StoreView, link: LinkExpressionView) -> StoreView {
    let h = find_entry(st.entries, EntryDataView::Expression(link)) as usize;
    let pairs = strategy_permutations(cfg.index_strategy, link.data);
    StoreView {
        entries: st.entries.update(
            h as int,
            StoredEntryView { data: st.entries[h as int].data, tombstoned: true },
        ),
        chunks: st.chunks,
        links: if cfg.enable_time_index {
            st.links
        } else {
            st.links.filter(|l: IndexLinkView| !link_matches_any(pairs, l, h))
        },
        time: if cfg.enable_time_index {
            st.time.filter(|e: TimeIndexEntryView| e.target != h)
        } else {
            st.time
        },
    }
}

/// The timestamp under which this peer is already marked active in the
/// current window, if any.
pub open spec fn presence_existing(cfg: DnaView, st: StoreView, now: i64) -> Option<i64> {
    first_presence(presence_window_refs(st, now, cfg.active_agent_duration_s), cfg.local_agent)
}

/// The store after inserting a fresh presence reference for this peer.
pub open spec fn insert_presence(cfg: DnaView, st: StoreView, now: i64) -> StoreView {
    let d = EntryDataView::Agent(AgentReferenceView { agent: cfg.local_agent, timestamp: now });
    let h = commit_index(st.entries, d) as usize;
    StoreView {
        entries: commit_entries(st.entries, d),
        chunks: st.chunks,
        links: st.links,
        time: st.time.push(
            TimeIndexEntryView {
                key: active_agent_key(),
                tag: presence_tag(),
                timestamp: now,
                target: h,
            },
        ),
    }
}

/// The store after a presence announcement: a fresh reference unless the
/// peer is already marked active and the refresh policy is off.
pub open spec fn announce_spec(cfg: DnaView, st: StoreView, now: i64) -> StoreView {
    match presence_existing(cfg, st, now) {
        Some(_) => if cfg.refresh_active_agent {
            insert_presence(cfg, st, now)
        } else {
            st
        },
        None => insert_presence(cfg, st, now),
    }
}

/// Mapping a function over a sequence commutes with appending an element.
proof fn lemma_map_values_push<A, B>(s: Seq<A>, x: A, f: spec_fn(A) -> B)
    ensures
        (s.push(x)).map_values(f) == s.map_values(f).push(f(x)),
{
    assert((s.push(x)).map_values(f) =~= s.map_values(f).push(f(x)));
}

/// A reference at a first match pins down `first_presence`.
pub proof fn lemma_first_presence_at(refs: Seq<AgentReferenceView>, agent: Seq<char>, i: int)
    requires
        0 <= i < refs.len(),
        refs[i].agent == agent,
        forall|j: int| 0 <= j < i ==> (#[trigger] refs[j]).agent != agent,
    ensures
        first_presence(refs, agent) == Some(refs[i].timestamp),
    decreases refs.len(),
{
    if i > 0 {
        lemma_first_presence_at(refs.drop_first(), agent, i - 1);
        assert forall|j: int| 1 <= j < refs.len() implies refs.drop_first()[j - 1] == refs[j] by {}
    }
}

/// Without a matching reference there is no presence timestamp.
pub proof fn lemma_first_presence_none(refs: Seq<AgentReferenceView>, agent: Seq<char>)
    requires
        forall|j: int| 0 <= j < refs.len() ==> (#[trigger] refs[j]).agent != agent,
    ensures
        first_presence(refs, agent) is None,
    decreases refs.len(),
{
    if refs.len() > 0 {
        assert(refs[0].agent != agent);
        lemma_first_presence_none(refs.drop_first(), agent);
    }
}

/// The timestamp of the first reference naming this peer, if any.
fn find_first_presence(refs: &Vec<AgentReference>, agent: &String) -> (r: Option<i64>)
    ensures
        r == first_presence(refs@.map_values(|a: AgentReference| a@), agent@),
{
    let ghost rv = refs@.map_values(|a: AgentReference| a@);
    let n = refs.len();
    let mut i: usize = 0;
    while i < n
        invariant
            n == refs@.len(),
            0 <= i <= n,
            rv == refs@.map_values(|a: AgentReference| a@),
            forall|j: int| 0 <= j < i ==> (#[trigger] rv[j]).agent != agent@,
        decreases n - i,
    {
        if refs[i].agent == *agent {
            proof {
                lemma_first_presence_at(rv, agent@, i as int);
            }
            return Some(refs[i].timestamp);
        }
        i += 1;
    }
    proof {
        lemma_first_presence_none(rv, agent@);
    }
    None
}

/// The engine: per-instance configuration over a shared storage substrate.
/// Writes register records in the secondary index, queries resolve partial
/// triples against it, and the presence tracker computes the gossip fan-out.
#[derive(Debug)]
pub struct SocialContextDNA {
    active_agent_duration_s: i64,
    enable_signals: bool,
    enable_time_index: bool,
    index_strategy: IndexStrategy,
    soft_chunk_limit: usize,
    hard_chunk_limit: usize,
    refresh_active_agent: bool,
    local_agent: String,
}

impl View for SocialContextDNA {
    type V = DnaView;

    closed spec fn view(&self) -> DnaView {
        DnaView {
            active_agent_duration_s: self.active_agent_duration_s,
            enable_signals: self.enable_signals,
            enable_time_index: self.enable_time_index,
            index_strategy: self.index_strategy,
            soft_chunk_limit: self.soft_chunk_limit,
            hard_chunk_limit: self.hard_chunk_limit,
            refresh_active_agent: self.refresh_active_agent,
            local_agent: self.local_agent@,
        }
    }
}

impl SocialContextDNA {
    /// A constructed engine carries a usable configuration.
    pub open spec fn wf(&self) -> bool {
        dna_wf(self@)
    }

    /// Builds an engine from its configuration; the strategy name must be
    /// known, the soft chunk limit positive, and the window non-negative.
    pub fn new(properties: SocialContextProperties, local_agent: String) -> (r: Result<
        SocialContextDNA,
        SocialContextError,
    >)
        ensures
            r is Ok <==> (crate::inputs::strategy_of_string(properties.index_strategy@) is Some
                && properties.soft_chunk_limit >= 1 && properties.active_agent_duration_s >= 0),
            r matches Ok(d) ==> {
                &&& d.wf()
                &&& d@.active_agent_duration_s == properties.active_agent_duration_s
                &&& d@.enable_signals == properties.enable_signals
                &&& d@.enable_time_index == properties.enable_time_index
                &&& crate::inputs::strategy_of_string(properties.index_strategy@) == Some(
                    d@.index_strategy,
                )
                &&& d@.soft_chunk_limit == properties.soft_chunk_limit
                &&& d@.hard_chunk_limit == properties.hard_chunk_limit
                &&& d@.refresh_active_agent == properties.refresh_active_agent
                &&& d@.local_agent == local_agent@
            },
            r matches Err(e) ==> e matches SocialContextError::RequestError(_),
    {
        let strategy = match IndexStrategy::try_from(&properties.index_strategy) {
            Ok(s) => s,
            Err(e) => {
                return Err(e);
            },
        };
        if properties.soft_chunk_limit < 1 {
            return Err(SocialContextError::RequestError("soft chunk limit must be at least one"));
        }
        if properties.active_agent_duration_s < 0 {
            return Err(
                SocialContextError::RequestError("active agent duration must not be negative"),
            );
        }
        Ok(
            SocialContextDNA {
                active_agent_duration_s: properties.active_agent_duration_s,
                enable_signals: properties.enable_signals,
                enable_time_index: properties.enable_time_index,
                index_strategy: strategy,
                soft_chunk_limit: properties.soft_chunk_limit,
                hard_chunk_limit: properties.hard_chunk_limit,
                refresh_active_agent: properties.refresh_active_agent,
                local_agent,
            },
        )
    }

    /// The configured indexing strategy.
    pub fn strategy(&self) -> (r: IndexStrategy)
        ensures
            r == self@.index_strategy,
    {
        self.index_strategy
    }

    /// Materializes a permutation set for the committed record at `h`
    /// through the configured backend.
    fn write_index(&self, store: &mut Store, perms: &Vec<LinkPermutation>, ts: i64, h: usize)
        requires
            old(store).inv(),
            self.wf(),
            h < old(store)@.entries.len(),
            !self@.enable_time_index ==> old(store)@.links.len() + perms@.len() < usize::MAX,
        ensures
            final(store).inv(),
            final(store)@ == write_all(self@, old(store)@, perms_view(perms@), ts, h),
    {
        let ghost pre = old(store)@;
        let ghost pv = perms_view(perms@);
        let n = perms.len();
        let mut i: usize = 0;
        while i < n
            invariant
                store.inv(),
                self.wf(),
                n == perms@.len(),
                0 <= i <= n,
                pv == perms_view(perms@),
                store@ == write_all(self@, pre, pv.take(i as int), ts, h),
                store@.entries == pre.entries,
                h < pre.entries.len(),
                self@.enable_time_index ==> store@.links == pre.links,
                !self@.enable_time_index ==> store@.links.len() == pre.links.len() + i,
                !self@.enable_time_index ==> pre.links.len() + n < usize::MAX,
            decreases n - i,
        {
            let ghost st_i = store@;
            proof {
                assert(pv.take(i + 1).drop_last() =~= pv.take(i as int));
                assert(pv.take(i + 1).last() == pv[i as int]);
            }
            let p = &perms[i];
            if self.enable_time_index {
                store.tree_insert(&p.root_index, &p.tag, ts, h);
                proof {
                    assert(store@ == write_one(self@, st_i, pv[i as int], ts, h));
                }
            } else {
                let c = get_free_chunk(store, &p.root_index, self.soft_chunk_limit);
                proof {
                    lemma_free_chunk_is(st_i, p.root_index@, self@.soft_chunk_limit, c);
                }
                store.ensure_path(&p.root_index, c);
                store.create_link(&p.root_index, c, &p.tag, h);
                proof {
                    assert(store@ == write_one(self@, st_i, pv[i as int], ts, h));
                }
            }
            i += 1;
        }
        proof {
            assert(pv.take(n as int) =~= pv);
        }
    }

    /// Derives the permutation set the request's strategy prescribes and
    /// registers the committed record at `h` under each permutation.
    pub fn index_link(&self, store: &mut Store, input: &AddLinkInput, h: usize) -> (r: Result<
        (),
        SocialContextError,
    >)
        requires
            old(store).inv(),
            self.wf(),
            h < old(store)@.entries.len(),
            !self@.enable_time_index ==> old(store)@.links.len() + strategy_permutations(
                input.index_strategy,
                input.link_expression@.data,
            ).len() < usize::MAX,
        ensures
            final(store).inv(),
            r is Ok <==> strategy_ok(input.index_strategy, input.link_expression@.data),
            r is Ok ==> final(store)@ == write_all(
                self@,
                old(store)@,
                strategy_permutations(input.index_strategy, input.link_expression@.data),
                input.link_expression.timestamp,
                h,
            ),
            r is Err ==> final(store)@ == old(store)@,
            r matches Err(e) ==> e matches SocialContextError::RequestError(_),
    {
        let perms = match generate_permutations(input.index_strategy, &input.link_expression.data) {
            Ok(p) => p,
            Err(e) => {
                return Err(e);
            },
        };
        self.write_index(store, &perms, input.link_expression.timestamp, h);
        Ok(())
    }

    /// The deduplicated addresses of the peers seen active within the
    /// recency window ending at `now`, in order of first appearance.
    pub fn recent_agents(&self, store: &Store, now: i64) -> (r: Vec<String>)
        requires
            store.inv(),
            self.wf(),
        ensures
            r@.map_values(|s: String| s@) == recent_agents_spec(self@, store@, now),
    {
        let from = match now.checked_sub(self.active_agent_duration_s) {
            Some(v) => v,
            None => i64::MIN,
        };
        proof {
            assert(from == window_start(now, self@.active_agent_duration_s));
        }
        let key = String::from_str("active_agent");
        let tag = String::from_str("");
        let targets = store.tree_range(&key, &tag, from, now, None);
        let refs = store.load_agents(&targets);
        let ghost rv = refs@.map_values(|a: AgentReference| a@);
        let n = refs.len();
        let mut agents: Vec<String> = Vec::new();
        let mut i: usize = 0;
        while i < n
            invariant
                n == refs@.len(),
                0 <= i <= n,
                rv == refs@.map_values(|a: AgentReference| a@),
                agents@.map_values(|s: String| s@) == rv.map_values(
                    |a: AgentReferenceView| a.agent,
                ).take(i as int),
            decreases n - i,
        {
            let a = refs[i].agent.clone();
            let ghost prev = agents@;
            let ghost av = a@;
            agents.push(a);
            proof {
                let f = |a: AgentReferenceView| a.agent;
                let g = |s: String| s@;
                assert(av == rv[i as int].agent);
                lemma_map_values_push(prev, agents@.last(), g);
                assert(agents@.map_values(g) == prev.map_values(g).push(av));
                assert(rv.map_values(f).take(i + 1) =~= rv.map_values(f).take(i as int).push(
                    rv[i as int].agent,
                ));
            }
            i += 1;
        }
        proof {
            assert(rv.map_values(|a: AgentReferenceView| a.agent).take(n as int) =~= rv.map_values(
                |a: AgentReferenceView| a.agent,
            ));
            assert(rv =~= presence_window_refs(store@, now, self@.active_agent_duration_s));
        }
        dedup(&agents)
    }

    /// Writes a record: derives the permutation set for the request's
    /// strategy, commits the record, computes the notification fan-out when
    /// signalling is enabled, and registers the record in the index.  On a
    /// request error the store is unchanged.
    pub fn add_link(&self, store: &mut Store, input: AddLinkInput, now: i64) -> (r: Result<
        Vec<String>,
        SocialContextError,
    >)
        requires
            old(store).inv(),
            self.wf(),
            !self@.enable_time_index ==> old(store)@.links.len() + strategy_permutations(
                input.index_strategy,
                input.link_expression@.data,
            ).len() < usize::MAX,
        ensures
            final(store).inv(),
            r is Ok <==> strategy_ok(input.index_strategy, input.link_expression@.data),
            r is Ok ==> final(store)@ == add_spec(
                self@,
                old(store)@,
                input.link_expression@,
                input.index_strategy,
            ),
            r matches Ok(v) ==> v@.map_values(|s: String| s@) == fanout_spec(
                self@,
                old(store)@,
                input.link_expression@,
                now,
            ),
            r is Err ==> final(store)@ == old(store)@,
            r matches Err(e) ==> e matches SocialContextError::RequestError(_),
    {
        let ghost pre = old(store)@;
        let perms = match generate_permutations(input.index_strategy, &input.link_expression.data) {
            Ok(p) => p,
            Err(e) => {
                return Err(e);
            },
        };
        let ts = input.link_expression.timestamp;
        let ghost d = EntryDataView::Expression(input.link_expression@);
        let h = store.commit(EntryData::Expression(input.link_expression));
        proof {
            lemma_find_entry_first(pre.entries, d);
            assert(store@ == post_commit(pre, d));
            assert(h < store@.entries.len());
        }
        let targets = if self.enable_signals {
            self.recent_agents(store, now)
        } else {
            Vec::new()
        };
        self.write_index(store, &perms, ts, h);
        proof {
            assert(commit_index(pre.entries, d) as usize == h);
            assert(final(store)@ == add_spec(self@, pre, input.link_expression@,
                input.index_strategy));
            if !self@.enable_signals {
                assert(targets@.map_values(|s: String| s@) =~= Seq::<Seq<char>>::empty());
            }
        }
        Ok(targets)
    }

    /// Reads the records a partial triple matches through the configured
    /// backend; an empty triple is rejected unless the universal wildcard
    /// pair is indexed.
    pub fn get_links(&self, store: &Store, input: GetLinks, now: i64) -> (r: Result<
        Vec<LinkExpression>,
        SocialContextError,
    >)
        requires
            store.inv(),
            self.wf(),
        ensures
            r is Ok <==> query_ok(self@, input.triple@),
            r matches Ok(v) ==> v@.map_values(|e: LinkExpression| e@) == query_spec(
                self@,
                store@,
                input.triple@,
                input.from_date,
                input.until_date,
                input.limit,
                now,
            ),
            r matches Err(e) ==> e matches SocialContextError::RequestError(m) && m@
                == "no query entities and wildcard indexing disabled"@,
    {
        let num = input.triple.num_entities();
        let is_wildcard = match self.index_strategy {
            IndexStrategy::FullWithWildCard => true,
            _ => false,
        };
        if num == 0 && !is_wildcard {
            return Err(
                SocialContextError::RequestError(
                    "no query entities and wildcard indexing disabled",
                ),
            );
        }
        let perm = crate::utils::get_link_permutation_by(input.triple);
        if self.enable_time_index {
            let targets = match (input.from_date, input.until_date) {
                (Some(f), Some(u)) => store.tree_range(
                    &perm.root_index,
                    &perm.tag,
                    f,
                    u,
                    input.limit,
                ),
                _ => store.tree_range(&perm.root_index, &perm.tag, 0, now, input.limit),
            };
            Ok(store.load_expressions(&targets))
        } else {
            self.make_simple_link_query(store, &perm.root_index, &perm.tag)
        }
    }

    /// Reads every record registered under a key and tag in the direct
    /// backend, probing all materialized buckets in order.
    pub fn make_simple_link_query(&self, store: &Store, key: &String, tag: &String) -> (r: Result<
        Vec<LinkExpression>,
        SocialContextError,
    >)
        requires
            store.inv(),
            self.wf(),
        ensures
            r is Ok,
            r matches Ok(v) ==> v@.map_values(|e: LinkExpression| e@) == deref_expressions(
                store@.entries,
                direct_query_targets(store@, key@, tag@),
            ),
    {
        let count = store.chunk_count(key);
        let mut targets: Vec<usize> = Vec::new();
        let mut c: usize = 0;
        while c < count
            invariant
                store.inv(),
                count == store@.chunk_count(key@),
                0 <= c <= count,
                targets@ == chunk_targets_upto(store@, key@, tag@, c),
            decreases count - c,
        {
            let more = store.links_at(key, c, tag);
            let m = more.len();
            let mut j: usize = 0;
            while j < m
                invariant
                    m == more@.len(),
                    0 <= j <= m,
                    more@ == targets_at(store@.links, key@, c, tag@),
                    targets@ == chunk_targets_upto(store@, key@, tag@, c) + more@.take(j as int),
                decreases m - j,
            {
                targets.push(more[j]);
                proof {
                    assert(targets@ =~= chunk_targets_upto(store@, key@, tag@, c) + more@.take(
                        j + 1,
                    ));
                }
                j += 1;
            }
            proof {
                assert(more@.take(m as int) =~= more@);
                assert(targets@ =~= chunk_targets_upto(store@, key@, tag@, (c + 1) as usize));
            }
            c += 1;
        }
        Ok(store.load_expressions(&targets))
    }

    /// Removes a record: regenerates its permutation set under the
    /// configured strategy, unlinks every matching index entry, and
    /// tombstones the record.  A record that cannot be found live is a
    /// request error and the store is unchanged.
    pub fn remove_link(&self, store: &mut Store, link: &LinkExpression) -> (r: Result<
        (),
        SocialContextError,
    >)
        requires
            old(store).inv(),
            self.wf(),
        ensures
            final(store).inv(),
            r is Ok <==> remove_ok(self@, old(store)@, link@),
            r is Ok ==> final(store)@ == remove_spec(self@, old(store)@, link@),
            r is Err ==> final(store)@ == old(store)@,
            r matches Err(e) ==> e matches SocialContextError::RequestError(_),
            !remove_found(old(store)@, link@) ==> (r matches Err(
                SocialContextError::RequestError(m),
            ) && m@ == "record not found"@),
    {
        let ghost pre = old(store)@;
        let data = EntryData::Expression(link.clone());
        let h = match store.find(&data) {
            Some(h) => h,
            None => {
                return Err(SocialContextError::RequestError("record not found"));
            },
        };
        let live = match store.get_expression(h) {
            Some(_) => true,
            None => false,
        };
        if !live {
            proof {
                lemma_find_entry_first(pre.entries, data@);
            }
            return Err(SocialContextError::RequestError("record not found"));
        }
        proof {
            lemma_find_entry_first(pre.entries, data@);
            assert(remove_found(pre, link@));
        }
        if self.enable_time_index {
            store.tree_remove_by_hash(h);
        } else {
            let pairs = match generate_permutations(self.index_strategy, &link.data) {
                Ok(p) => p,
                Err(e) => {
                    return Err(e);
                },
            };
            store.unlink_matching(&pairs, h);
        }
        store.tombstone(h);
        proof {
            assert(final(store)@ == remove_spec(self@, pre, link@));
        }
        Ok(())
    }

    /// Replaces one record with another: removal of the old record followed
    /// by a fresh write of the new one.  The two steps are not atomic: when
    /// the write is rejected the removal stands.
    pub fn update_link(&self, store: &mut Store, input: UpdateLinkInput, now: i64) -> (r: Result<
        Vec<String>,
        SocialContextError,
    >)
        requires
            old(store).inv(),
            self.wf(),
            !self@.enable_time_index ==> old(store)@.links.len() + strategy_permutations(
                input.index_strategy,
                input.target@.data,
            ).len() < usize::MAX,
        ensures
            final(store).inv(),
            r is Ok <==> (remove_ok(self@, old(store)@, input.source@) && strategy_ok(
                input.index_strategy,
                input.target@.data,
            )),
            r is Ok ==> final(store)@ == add_spec(
                self@,
                remove_spec(self@, old(store)@, input.source@),
                input.target@,
                input.index_strategy,
            ),
            !remove_ok(self@, old(store)@, input.source@) ==> final(store)@ == old(store)@,
            (remove_ok(self@, old(store)@, input.source@) && !strategy_ok(
                input.index_strategy,
                input.target@.data,
            )) ==> final(store)@ == remove_spec(self@, old(store)@, input.source@),
            r matches Err(e) ==> e matches SocialContextError::RequestError(_),
    {
        match self.remove_link(store, &input.source) {
            Ok(_) => {},
            Err(e) => {
                return Err(e);
            },
        }
        proof {
            assert(store@.links.len() <= old(store)@.links.len());
        }
        let add_input = AddLinkInput {
            link_expression: input.target,
            index_strategy: input.index_strategy,
        };
        self.add_link(store, add_input, now)
    }

    /// Announces this peer's presence: when no reference already marks it
    /// active in the current window — or the refresh policy is on — a fresh
    /// timestamped reference is inserted; the timestamp of an existing
    /// reference is returned either way.
    pub fn add_active_agent_link(&self, store: &mut Store, now: i64) -> (r: Result<
        Option<i64>,
        SocialContextError,
    >)
        requires
            old(store).inv(),
            self.wf(),
        ensures
            final(store).inv(),
            r is Ok,
            r == Ok::<Option<i64>, SocialContextError>(
                presence_existing(self@, old(store)@, now),
            ),
            final(store)@ == announce_spec(self@, old(store)@, now),
            final(store)@.time.len() <= old(store)@.time.len() + 1,
            final(store)@.entries.len() <= old(store)@.entries.len() + 1,
    {
        let ghost pre = old(store)@;
        let from = match now.checked_sub(self.active_agent_duration_s) {
            Some(v) => v,
            None => i64::MIN,
        };
        proof {
            assert(from == window_start(now, self@.active_agent_duration_s));
        }
        let key = String::from_str("active_agent");
        let tag = String::from_str("");
        let targets = store.tree_range(&key, &tag, from, now, None);
        let refs = store.load_agents(&targets);
        proof {
            assert(refs@.map_values(|a: AgentReference| a@) =~= presence_window_refs(
                pre,
                now,
                self@.active_agent_duration_s,
            ));
        }
        let existing = find_first_presence(&refs, &self.local_agent);
        let do_insert = match &existing {
            Some(_) => self.refresh_active_agent,
            None => true,
        };
        if do_insert {
            let ghost d = EntryDataView::Agent(
                AgentReferenceView { agent: self@.local_agent, timestamp: now },
            );
            let agent_ref = AgentReference { agent: self.local_agent.clone(), timestamp: now };
            let h = store.commit(EntryData::Agent(agent_ref));
            proof {
                lemma_find_entry_first(pre.entries, d);
                assert(h < store@.entries.len());
                assert(commit_index(pre.entries, d) as usize == h);
            }
            store.tree_insert(&key, &tag, now, h);
            proof {
                assert(store@ == insert_presence(self@, pre, now));
            }
        }
        Ok(existing)
    }

    /// The peer profiles related to this store; none are tracked here, so
    /// the list is empty.
    pub fn get_others(&self) -> (r: Result<Vec<Agent>, SocialContextError>)
        ensures
            r matches Ok(v) && v@.len() == 0,
    {
        Ok(Vec::new())
    }
}

} // verus!
