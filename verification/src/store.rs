use vstd::prelude::*;

use crate::inputs::{
    opt_str_view, AgentReference, AgentReferenceView, LinkExpression, LinkExpressionView,
};
use crate::utils::{perms_view, LinkPermutation, PermutationView};

verus! {

broadcast use vstd::seq_lib::group_filter_ensures;

/// A committed value: either a primary record or a presence record.
#[derive(Debug)]
pub enum EntryData {
    Expression(LinkExpression),
    Agent(AgentReference),
}

/// Mathematical image of an [`EntryData`].
pub enum EntryDataView {
    Expression(LinkExpressionView),
    Agent(AgentReferenceView),
}

impl View for EntryData {
    type V = EntryDataView;

    open spec fn view(&self) -> EntryDataView {
        match self {
            EntryData::Expression(e) => EntryDataView::Expression(e@),
            EntryData::Agent(a) => EntryDataView::Agent(a@),
        }
    }
}

impl Clone for EntryData {
    fn clone(&self) -> (r: Self)
        ensures
            r == *self,
    {
        match self {
            EntryData::Expression(e) => EntryData::Expression(e.clone()),
            EntryData::Agent(a) => EntryData::Agent(a.clone()),
        }
    }
}

/// A committed value together with its deletion mark.
#[derive(Debug)]
struct StoredEntry {
    data: EntryData,
    tombstoned: bool,
}

/// Mathematical image of a stored entry.
pub struct StoredEntryView {
    pub data: EntryDataView,
    pub tombstoned: bool,
}

impl View for StoredEntry {
    type V = StoredEntryView;

    closed spec fn view(&self) -> StoredEntryView {
        StoredEntryView { data: self.data@, tombstoned: self.tombstoned }
    }
}

/// One direct-index link: a record hash registered at a bucket under a tag.
#[derive(Debug)]
struct IndexLink {
    key: String,
    chunk: usize,
    tag: String,
    target: usize,
}

/// Mathematical image of a direct-index link.
pub struct IndexLinkView {
    pub key: Seq<char>,
    pub chunk: usize,
    pub tag: Seq<char>,
    pub target: usize,
}

impl View for IndexLink {
    type V = IndexLinkView;

    closed spec fn view(&self) -> IndexLinkView {
        IndexLinkView { key: self.key@, chunk: self.chunk, tag: self.tag@, target: self.target }
    }
}

impl Clone for IndexLink {
    fn clone(&self) -> (r: Self)
        ensures
            r == *self,
    {
        IndexLink {
            key: self.key.clone(),
            chunk: self.chunk,
            tag: self.tag.clone(),
            target: self.target,
        }
    }
}

/// One time-index entry: a record hash registered under a key and tag at a
/// timestamp.
#[derive(Debug)]
struct TimeIndexEntry {
    key: String,
    tag: String,
    timestamp: i64,
    target: usize,
}

/// Mathematical image of a time-index entry.
pub struct TimeIndexEntryView {
    pub key: Seq<char>,
    pub tag: Seq<char>,
    pub timestamp: i64,
    pub target: usize,
}

impl View for TimeIndexEntry {
    type V = TimeIndexEntryView;

    closed spec fn view(&self) -> TimeIndexEntryView {
        TimeIndexEntryView {
            key: self.key@,
            tag: self.tag@,
            timestamp: self.timestamp,
            target: self.target,
        }
    }
}

impl Clone for TimeIndexEntry {
    fn clone(&self) -> (r: Self)
        ensures
            r == *self,
    {
        TimeIndexEntry {
            key: self.key.clone(),
            tag: self.tag.clone(),
            timestamp: self.timestamp,
            target: self.target,
        }
    }
}

/// How many buckets one index key has materialized.
#[derive(Debug)]
struct ChunkCount {
    key: String,
    count: usize,
}

/// Mathematical image of the whole store.
pub struct StoreView {
    pub entries: Seq<StoredEntryView>,
    pub chunks: Map<Seq<char>, usize>,
    pub links: Seq<IndexLinkView>,
    pub time: Seq<TimeIndexEntryView>,
}

impl StoreView {
    /// The number of buckets materialized under an index key.
    pub open spec fn chunk_count(self, key: Seq<char>) -> usize {
        if self.chunks.contains_key(key) {
            self.chunks[key]
        } else {
            0
        }
    }
}

/// Every link lies in a materialized bucket and every index target points at
/// a committed entry.
pub open spec fn store_wf(st: StoreView) -> bool {
    &&& forall|i: int|
        0 <= i < st.links.len() ==> (#[trigger] st.links[i]).chunk < st.chunk_count(
            st.links[i].key,
        )
    &&& forall|i: int| 0 <= i < st.links.len() ==> (#[trigger] st.links[i]).target
        < st.entries.len()
    &&& forall|i: int| 0 <= i < st.time.len() ==> (#[trigger] st.time[i]).target
        < st.entries.len()
}

/// The first committed entry holding this value, or -1.
pub open spec fn find_entry(entries: Seq<StoredEntryView>, d: EntryDataView) -> int
    decreases entries.len(),
{
    if entries.len() == 0 {
        -1
    } else if entries[0].data == d {
        0
    } else {
        let r = find_entry(entries.drop_first(), d);
        if r < 0 {
            -1
        } else {
            r + 1
        }
    }
}

/// The hash a commit of this value yields: the existing entry's index, else
/// the next fresh one.
pub open spec fn commit_index(entries: Seq<StoredEntryView>, d: EntryDataView) -> int {
    let i = find_entry(entries, d);
    if i >= 0 {
        i
    } else {
        entries.len() as int
    }
}

/// The entries after committing a value: an equal entry comes back to life,
/// otherwise a fresh live entry is appended.
pub open spec fn commit_entries(entries: Seq<StoredEntryView>, d: EntryDataView) -> Seq<
    StoredEntryView,
> {
    let i = find_entry(entries, d);
    if i >= 0 {
        entries.update(i, StoredEntryView { data: d, tombstoned: false })
    } else {
        entries.push(StoredEntryView { data: d, tombstoned: false })
    }
}

/// The record stored live at a hash, if the hash resolves to an undeleted
/// primary record.
pub open spec fn live_expression(entries: Seq<StoredEntryView>, h: int) -> Option<
    LinkExpressionView,
> {
    if 0 <= h < entries.len() && !entries[h].tombstoned {
        match entries[h].data {
            EntryDataView::Expression(e) => Some(e),
            EntryDataView::Agent(_) => None,
        }
    } else {
        None
    }
}

/// The presence record stored live at a hash, if the hash resolves to one.
pub open spec fn live_agent(entries: Seq<StoredEntryView>, h: int) -> Option<AgentReferenceView> {
    if 0 <= h < entries.len() && !entries[h].tombstoned {
        match entries[h].data {
            EntryDataView::Agent(a) => Some(a),
            EntryDataView::Expression(_) => None,
        }
    } else {
        None
    }
}

/// Membership of a link in the bucket `(key, chunk)`, any tag.
pub open spec fn link_in_bucket(key: Seq<char>, chunk: usize) -> spec_fn(IndexLinkView) -> bool {
    |l: IndexLinkView| l.key == key && l.chunk == chunk
}

/// Membership of a link in the bucket `(key, chunk)` under `tag`.
pub open spec fn link_in_bucket_tagged(key: Seq<char>, chunk: usize, tag: Seq<char>) -> spec_fn(
    IndexLinkView,
) -> bool {
    |l: IndexLinkView| l.key == key && l.chunk == chunk && l.tag == tag
}

/// The fan-out of the bucket `(key, chunk)`, across all tags.
pub open spec fn count_at(links: Seq<IndexLinkView>, key: Seq<char>, chunk: usize) -> nat {
    links.filter(link_in_bucket(key, chunk)).len()
}

/// The targets registered at the bucket `(key, chunk)` under `tag`, in
/// insertion order.
pub open spec fn targets_at(
    links: Seq<IndexLinkView>,
    key: Seq<char>,
    chunk: usize,
    tag: Seq<char>,
) -> Seq<usize> {
    links.filter(link_in_bucket_tagged(key, chunk, tag)).map_values(|l: IndexLinkView| l.target)
}

/// Membership of a time-index entry under `key` and `tag` with a timestamp
/// in the closed range `[from, until]`.
pub open spec fn time_in_range(key: Seq<char>, tag: Seq<char>, from: i64, until: i64) -> spec_fn(
    TimeIndexEntryView,
) -> bool {
    |e: TimeIndexEntryView| e.key == key && e.tag == tag && from <= e.timestamp && e.timestamp
        <= until
}

/// The targets registered under `key` and `tag` within the time range, in
/// insertion order.
pub open spec fn time_targets(
    time: Seq<TimeIndexEntryView>,
    key: Seq<char>,
    tag: Seq<char>,
    from: i64,
    until: i64,
) -> Seq<usize> {
    time.filter(time_in_range(key, tag, from, until)).map_values(
        |e: TimeIndexEntryView| e.target,
    )
}

/// A sequence cut down to at most `limit` results, if a limit is given.
pub open spec fn apply_limit(s: Seq<usize>, limit: Option<usize>) -> Seq<usize> {
    match limit {
        None => s,
        Some(n) => if s.len() <= n {
            s
        } else {
            s.take(n as int)
        },
    }
}

/// The links kept by an unlink: those not registering `target` under one
/// of the given pairs.
pub open spec fn not_matching(ps: Seq<PermutationView>, target: usize) -> spec_fn(
    IndexLinkView,
) -> bool {
    |l: IndexLinkView| !link_matches_any(ps, l, target)
}

/// The time-index entries kept by a removal: those not registering `target`.
pub open spec fn not_targeting(target: usize) -> spec_fn(TimeIndexEntryView) -> bool {
    |e: TimeIndexEntryView| e.target != target
}

/// Whether a link registers `target` under one of the given pairs.
pub open spec fn link_matches_any(
    ps: Seq<PermutationView>,
    l: IndexLinkView,
    target: usize,
) -> bool {
    exists|i: int|
        0 <= i < ps.len() && (#[trigger] ps[i]).root_index == l.key && ps[i].tag == l.tag
            && l.target == target
}

/// Filtering a prefix one element longer appends the element exactly when it
/// satisfies the predicate.
proof fn lemma_filter_take_step<A>(s: Seq<A>, i: int, pred: spec_fn(A) -> bool)
    requires
        0 <= i < s.len(),
    ensures
        s.take(i + 1).filter(pred) == if pred(s[i]) {
            s.take(i).filter(pred).push(s[i])
        } else {
            s.take(i).filter(pred)
        },
{
    reveal(Seq::filter);
    assert(s.take(i + 1).drop_last() =~= s.take(i));
    assert(s.take(i + 1).last() == s[i]);
}

/// The live primary records at the given hashes, in order, dangling or
/// mistyped targets silently dropped.
pub open spec fn deref_expressions(entries: Seq<StoredEntryView>, targets: Seq<usize>) -> Seq<
    LinkExpressionView,
>
    decreases targets.len(),
{
    if targets.len() == 0 {
        Seq::empty()
    } else {
        let rest = deref_expressions(entries, targets.drop_last());
        match live_expression(entries, targets.last() as int) {
            Some(e) => rest.push(e),
            None => rest,
        }
    }
}

/// The live presence records at the given hashes, in order, dangling or
/// mistyped targets silently dropped.
pub open spec fn deref_agents(entries: Seq<StoredEntryView>, targets: Seq<usize>) -> Seq<
    AgentReferenceView,
>
    decreases targets.len(),
{
    if targets.len() == 0 {
        Seq::empty()
    } else {
        let rest = deref_agents(entries, targets.drop_last());
        match live_agent(entries, targets.last() as int) {
            Some(a) => rest.push(a),
            None => rest,
        }
    }
}

/// `find_entry` names the first index holding the value, if any.
pub proof fn lemma_find_entry_first(entries: Seq<StoredEntryView>, d: EntryDataView)
    ensures
        find_entry(entries, d) == -1 ==> forall|i: int|
            0 <= i < entries.len() ==> (#[trigger] entries[i]).data != d,
        find_entry(entries, d) >= 0 ==> {
            let r = find_entry(entries, d);
            &&& r < entries.len()
            &&& entries[r].data == d
            &&& forall|j: int| 0 <= j < r ==> (#[trigger] entries[j]).data != d
        },
    decreases entries.len(),
{
    if entries.len() == 0 {
    } else if entries[0].data == d {
    } else {
        let rest = entries.drop_first();
        lemma_find_entry_first(rest, d);
        assert forall|i: int| 1 <= i < entries.len() implies rest[i - 1] == entries[i] by {}
    }
}

/// Whether two optional strings have the same mathematical value.
pub fn opt_string_eq(a: &Option<String>, b: &Option<String>) -> (r: bool)
    ensures
        r == (opt_str_view(*a) == opt_str_view(*b)),
{
    match (a, b) {
        (Some(x), Some(y)) => {
            let r = *x == *y;
            proof {
                assert(opt_str_view(*a) == Some(x@));
                assert(opt_str_view(*b) == Some(y@));
            }
            r
        },
        (None, None) => true,
        _ => false,
    }
}

/// Whether two records have the same mathematical value.
pub fn link_expression_eq(a: &LinkExpression, b: &LinkExpression) -> (r: bool)
    ensures
        r == (a@ == b@),
{
    let r = a.author == b.author && opt_string_eq(&a.data.subject, &b.data.subject)
        && opt_string_eq(&a.data.object, &b.data.object) && opt_string_eq(
        &a.data.predicate,
        &b.data.predicate,
    ) && a.timestamp == b.timestamp && a.proof.signature == b.proof.signature && a.proof.key
        == b.proof.key;
    proof {
        if r {
            assert(a@.data == b@.data);
            assert(a@.proof == b@.proof);
        }
    }
    r
}

/// Whether two committed values are mathematically equal.
pub fn entry_data_eq(a: &EntryData, b: &EntryData) -> (r: bool)
    ensures
        r == (a@ == b@),
{
    match (a, b) {
        (EntryData::Expression(x), EntryData::Expression(y)) => link_expression_eq(x, y),
        (EntryData::Agent(x), EntryData::Agent(y)) => {
            let r = x.agent == y.agent && x.timestamp == y.timestamp;
            proof {
                if r {
                    assert(x@ == y@);
                }
            }
            r
        },
        _ => false,
    }
}

/// Whether this link registers `target` under one of the given pairs.
fn matches_any(pairs: &Vec<LinkPermutation>, link: &IndexLink, target: usize) -> (r: bool)
    ensures
        r == link_matches_any(perms_view(pairs@), link@, target),
{
    let n = pairs.len();
    let mut i: usize = 0;
    while i < n
        invariant
            n == pairs@.len(),
            0 <= i <= n,
            forall|j: int|
                0 <= j < i ==> !((#[trigger] perms_view(pairs@)[j]).root_index == link@.key
                    && perms_view(pairs@)[j].tag == link@.tag && link@.target == target),
        decreases n - i,
    {
        if link.key == pairs[i].root_index && link.tag == pairs[i].tag && link.target == target {
            proof {
                assert((#[trigger] perms_view(pairs@)[i as int]).root_index == link@.key
                    && perms_view(pairs@)[i as int].tag == link@.tag && link@.target == target);
            }
            return true;
        }
        i += 1;
    }
    false
}

/// Per-key bucket counts as a map; later rows shadow earlier ones, though
/// the store keeps the keys unique.
spec fn cc_map_of(s: Seq<ChunkCount>) -> Map<Seq<char>, usize>
    decreases s.len(),
{
    if s.len() == 0 {
        Map::empty()
    } else {
        cc_map_of(s.drop_last()).insert(s.last().key@, s.last().count)
    }
}

/// No two rows of the bucket-count table name the same key.
spec fn cc_unique(s: Seq<ChunkCount>) -> bool {
    forall|i: int, j: int|
        0 <= i < j < s.len() ==> (#[trigger] s[i]).key@ != (#[trigger] s[j]).key@
}

proof fn lemma_cc_map_contains(s: Seq<ChunkCount>, k: Seq<char>)
    ensures
        cc_map_of(s).contains_key(k) <==> exists|i: int| 0 <= i < s.len() && (#[trigger] s[i]).key@
            == k,
    decreases s.len(),
{
    if s.len() > 0 {
        lemma_cc_map_contains(s.drop_last(), k);
        if cc_map_of(s).contains_key(k) {
            if s.last().key@ != k {
                let i = choose|i: int|
                    0 <= i < s.drop_last().len() && (#[trigger] s.drop_last()[i]).key@ == k;
                assert(s[i].key@ == k);
            } else {
                assert(s[s.len() - 1].key@ == k);
            }
        }
        if exists|i: int| 0 <= i < s.len() && (#[trigger] s[i]).key@ == k {
            let i = choose|i: int| 0 <= i < s.len() && (#[trigger] s[i]).key@ == k;
            if i < s.len() - 1 {
                assert(s.drop_last()[i].key@ == k);
            }
        }
    }
}

proof fn lemma_cc_map_value(s: Seq<ChunkCount>, i: int)
    requires
        cc_unique(s),
        0 <= i < s.len(),
    ensures
        cc_map_of(s).contains_key(s[i].key@),
        cc_map_of(s)[s[i].key@] == s[i].count,
    decreases s.len(),
{
    if i == s.len() - 1 {
    } else {
        lemma_cc_map_value(s.drop_last(), i);
        assert(s.drop_last()[i] == s[i]);
        assert(s.last().key@ != s[i].key@);
    }
}

proof fn lemma_cc_map_update(s: Seq<ChunkCount>, i: int, row: ChunkCount)
    requires
        cc_unique(s),
        0 <= i < s.len(),
        row.key@ == s[i].key@,
    ensures
        cc_map_of(s.update(i, row)) =~= cc_map_of(s).insert(row.key@, row.count),
    decreases s.len(),
{
    let t = s.update(i, row);
    if i == s.len() - 1 {
        assert(t.drop_last() =~= s.drop_last());
    } else {
        lemma_cc_map_update(s.drop_last(), i, row);
        assert(t.drop_last() =~= s.drop_last().update(i, row));
        assert(t.last() == s.last());
        assert(s.last().key@ != row.key@);
    }
}

/// The storage substrate: content-addressed entries, a chunked direct-link
/// index, and a time-ordered index, all in memory.
#[derive(Debug)]
pub struct Store {
    entries: Vec<StoredEntry>,
    chunk_counts: Vec<ChunkCount>,
    links: Vec<IndexLink>,
    time_index: Vec<TimeIndexEntry>,
}

impl View for Store {
    type V = StoreView;

    closed spec fn view(&self) -> StoreView {
        StoreView {
            entries: self.entries@.map_values(|e: StoredEntry| e@),
            chunks: cc_map_of(self.chunk_counts@),
            links: self.links@.map_values(|l: IndexLink| l@),
            time: self.time_index@.map_values(|t: TimeIndexEntry| t@),
        }
    }
}

impl Store {
    /// The store keeps its bucket-count rows unique and its indexes
    /// well-formed.
    pub closed spec fn inv(&self) -> bool {
        &&& cc_unique(self.chunk_counts@)
        &&& store_wf(self@)
    }

    /// A well-kept store has a well-formed image.
    pub proof fn lemma_inv_wf(&self)
        requires
            self.inv(),
        ensures
            store_wf(self@),
    {
    }

    /// An empty store.
    pub fn new() -> (r: Store)
        ensures
            r.inv(),
            r@.entries == Seq::<StoredEntryView>::empty(),
            r@.chunks == Map::<Seq<char>, usize>::empty(),
            r@.links == Seq::<IndexLinkView>::empty(),
            r@.time == Seq::<TimeIndexEntryView>::empty(),
    {
        let r = Store {
            entries: Vec::new(),
            chunk_counts: Vec::new(),
            links: Vec::new(),
            time_index: Vec::new(),
        };
        proof {
            assert(r@.entries =~= Seq::<StoredEntryView>::empty());
            assert(r@.chunks =~= Map::<Seq<char>, usize>::empty());
            assert(r@.links =~= Seq::<IndexLinkView>::empty());
            assert(r@.time =~= Seq::<TimeIndexEntryView>::empty());
        }
        r
    }

    /// The number of committed entries; hashes are always below it.
    pub fn num_entries(&self) -> (r: usize)
        ensures
            r == self@.entries.len(),
    {
        self.entries.len()
    }

    /// The number of links in the direct index.
    pub fn num_links(&self) -> (r: usize)
        ensures
            r == self@.links.len(),
    {
        self.links.len()
    }

    /// The hash of the first committed entry holding this value, if any.
    pub fn find(&self, data: &EntryData) -> (r: Option<usize>)
        ensures
            r is Some <==> find_entry(self@.entries, data@) >= 0,
            r matches Some(h) ==> h as int == find_entry(self@.entries, data@),
    {
        let n = self.entries.len();
        let mut i: usize = 0;
        while i < n
            invariant
                n == self.entries.len(),
                0 <= i <= n,
                forall|j: int| 0 <= j < i ==> (#[trigger] self@.entries[j]).data != data@,
            decreases n - i,
        {
            if entry_data_eq(&self.entries[i].data, data) {
                proof {
                    lemma_find_entry_first(self@.entries, data@);
                    assert(self@.entries[i as int].data == data@);
                }
                return Some(i);
            }
            i += 1;
        }
        proof {
            lemma_find_entry_first(self@.entries, data@);
        }
        None
    }

    /// Commits a value, content-addressed: an equal entry is revived and its
    /// hash returned, otherwise the value is appended under a fresh hash.
    pub fn commit(&mut self, data: EntryData) -> (h: usize)
        requires
            old(self).inv(),
        ensures
            final(self).inv(),
            final(self)@.entries == commit_entries(old(self)@.entries, data@),
            h as int == commit_index(old(self)@.entries, data@),
            final(self)@.chunks == old(self)@.chunks,
            final(self)@.links == old(self)@.links,
            final(self)@.time == old(self)@.time,
            final(self)@.entries.len() >= old(self)@.entries.len(),
    {
        let ghost pre = self@;
        let found = self.find(&data);
        match found {
            Some(h) => {
                proof {
                    lemma_find_entry_first(pre.entries, data@);
                }
                let fresh = StoredEntry { data, tombstoned: false };
                self.entries.set(h, fresh);
                proof {
                    assert(self@.entries =~= commit_entries(pre.entries, data@));
                    assert(self@.chunks =~= pre.chunks);
                    assert(self@.links =~= pre.links);
                    assert(self@.time =~= pre.time);
                }
                h
            },
            None => {
                let h = self.entries.len();
                let fresh = StoredEntry { data, tombstoned: false };
                self.entries.push(fresh);
                proof {
                    assert(self@.entries =~= commit_entries(pre.entries, data@));
                    assert(self@.chunks =~= pre.chunks);
                    assert(self@.links =~= pre.links);
                    assert(self@.time =~= pre.time);
                }
                h
            },
        }
    }

    /// The live primary record at a hash, if any.
    pub fn get_expression(&self, h: usize) -> (r: Option<LinkExpression>)
        ensures
            r is Some <==> live_expression(self@.entries, h as int) is Some,
            r matches Some(e) ==> live_expression(self@.entries, h as int) == Some(e@),
    {
        if h < self.entries.len() {
            let entry = &self.entries[h];
            if entry.tombstoned {
                None
            } else {
                match &entry.data {
                    EntryData::Expression(e) => Some(e.clone()),
                    EntryData::Agent(_) => None,
                }
            }
        } else {
            None
        }
    }

    /// The live presence record at a hash, if any.
    pub fn get_agent(&self, h: usize) -> (r: Option<AgentReference>)
        ensures
            r is Some <==> live_agent(self@.entries, h as int) is Some,
            r matches Some(a) ==> live_agent(self@.entries, h as int) == Some(a@),
    {
        if h < self.entries.len() {
            let entry = &self.entries[h];
            if entry.tombstoned {
                None
            } else {
                match &entry.data {
                    EntryData::Agent(a) => Some(a.clone()),
                    EntryData::Expression(_) => None,
                }
            }
        } else {
            None
        }
    }

    /// The row of the bucket-count table naming this key, if any.
    fn find_chunk_row(&self, key: &String) -> (r: Option<usize>)
        ensures
            r matches Some(i) ==> i < self.chunk_counts@.len() && self.chunk_counts@[i as int].key@
                == key@,
            r is None ==> forall|i: int|
                0 <= i < self.chunk_counts@.len() ==> (#[trigger] self.chunk_counts@[i]).key@
                    != key@,
    {
        let n = self.chunk_counts.len();
        let mut i: usize = 0;
        while i < n
            invariant
                n == self.chunk_counts@.len(),
                0 <= i <= n,
                forall|j: int| 0 <= j < i ==> (#[trigger] self.chunk_counts@[j]).key@ != key@,
            decreases n - i,
        {
            if self.chunk_counts[i].key == *key {
                return Some(i);
            }
            i += 1;
        }
        None
    }

    /// The number of buckets materialized under an index key.
    pub fn chunk_count(&self, key: &String) -> (r: usize)
        requires
            self.inv(),
        ensures
            r == self@.chunk_count(key@),
    {
        match self.find_chunk_row(key) {
            Some(i) => {
                proof {
                    lemma_cc_map_value(self.chunk_counts@, i as int);
                }
                self.chunk_counts[i].count
            },
            None => {
                proof {
                    lemma_cc_map_contains(self.chunk_counts@, key@);
                }
                0
            },
        }
    }

    /// Makes the bucket `(key, chunk)` known, so that queries probe it; the
    /// key's bucket count only ever grows.
    pub fn ensure_path(&mut self, key: &String, chunk: usize)
        requires
            old(self).inv(),
            chunk < usize::MAX,
        ensures
            final(self).inv(),
            final(self)@.chunks == old(self)@.chunks.insert(
                key@,
                if old(self)@.chunk_count(key@) > chunk {
                    old(self)@.chunk_count(key@)
                } else {
                    (chunk + 1) as usize
                },
            ),
            final(self)@.entries == old(self)@.entries,
            final(self)@.links == old(self)@.links,
            final(self)@.time == old(self)@.time,
            final(self)@.chunk_count(key@) > chunk,
            forall|k: Seq<char>| #[trigger]
                final(self)@.chunk_count(k) >= old(self)@.chunk_count(k),
    {
        let ghost pre = self@;
        match self.find_chunk_row(key) {
            Some(i) => {
                proof {
                    lemma_cc_map_value(self.chunk_counts@, i as int);
                }
                let c = self.chunk_counts[i].count;
                if c > chunk {
                    proof {
                        assert(pre.chunks.insert(key@, c) =~= pre.chunks);
                    }
                } else {
                    let row = ChunkCount { key: self.chunk_counts[i].key.clone(), count: chunk + 1 };
                    proof {
                        lemma_cc_map_update(self.chunk_counts@, i as int, row);
                    }
                    self.chunk_counts.set(i, row);
                    proof {
                        assert(cc_unique(self.chunk_counts@));
                    }
                }
            },
            None => {
                proof {
                    lemma_cc_map_contains(self.chunk_counts@, key@);
                }
                let row = ChunkCount { key: key.clone(), count: chunk + 1 };
                self.chunk_counts.push(row);
                proof {
                    assert(self.chunk_counts@.drop_last() =~= old(self).chunk_counts@);
                    assert(cc_unique(self.chunk_counts@));
                }
            },
        }
        proof {
            assert(self@.links =~= pre.links);
            assert(self@.entries =~= pre.entries);
            assert(self@.time =~= pre.time);
            assert forall|k: Seq<char>| #[trigger]
                self@.chunk_count(k) >= pre.chunk_count(k) by {}
            assert forall|i: int|
                0 <= i < self@.links.len() implies (#[trigger] self@.links[i]).chunk
                < self@.chunk_count(self@.links[i].key) by {
                assert(pre.links[i].chunk < pre.chunk_count(pre.links[i].key));
                assert(self@.chunk_count(pre.links[i].key) >= pre.chunk_count(pre.links[i].key));
            }
            assert(store_wf(self@));
        }
    }

    /// The total fan-out of one bucket, across all tags.
    pub fn count_links_at(&self, key: &String, chunk: usize) -> (r: usize)
        ensures
            r == count_at(self@.links, key@, chunk),
    {
        let ghost pred = link_in_bucket(key@, chunk);
        let n = self.links.len();
        let mut count: usize = 0;
        let mut i: usize = 0;
        while i < n
            invariant
                n == self@.links.len(),
                0 <= i <= n,
                count <= i,
                count == self@.links.take(i as int).filter(pred).len(),
                pred == link_in_bucket(key@, chunk),
            decreases n - i,
        {
            proof {
                lemma_filter_take_step(self@.links, i as int, pred);
            }
            if self.links[i].key == *key && self.links[i].chunk == chunk {
                count += 1;
            }
            i += 1;
        }
        proof {
            assert(self@.links.take(n as int) =~= self@.links);
        }
        count
    }

    /// The record hashes registered at one bucket under a tag, in insertion
    /// order.
    pub fn links_at(&self, key: &String, chunk: usize, tag: &String) -> (r: Vec<usize>)
        ensures
            r@ == targets_at(self@.links, key@, chunk, tag@),
    {
        let ghost pred = link_in_bucket_tagged(key@, chunk, tag@);
        let n = self.links.len();
        let mut r: Vec<usize> = Vec::new();
        let mut i: usize = 0;
        while i < n
            invariant
                n == self@.links.len(),
                0 <= i <= n,
                r@ == self@.links.take(i as int).filter(pred).map_values(
                    |l: IndexLinkView| l.target,
                ),
                pred == link_in_bucket_tagged(key@, chunk, tag@),
            decreases n - i,
        {
            proof {
                lemma_filter_take_step(self@.links, i as int, pred);
            }
            if self.links[i].key == *key && self.links[i].chunk == chunk && self.links[i].tag
                == *tag {
                r.push(self.links[i].target);
                proof {
                    assert(self@.links.take(i + 1).filter(pred).map_values(
                        |l: IndexLinkView| l.target,
                    ) =~= self@.links.take(i as int).filter(pred).map_values(
                        |l: IndexLinkView| l.target,
                    ).push(self@.links[i as int].target));
                }
            }
            i += 1;
        }
        proof {
            assert(self@.links.take(n as int) =~= self@.links);
        }
        r
    }

    /// Registers a record hash at a bucket under a tag.  The bucket must be
    /// materialized and the target committed.
    pub fn create_link(&mut self, key: &String, chunk: usize, tag: &String, target: usize)
        requires
            old(self).inv(),
            chunk < old(self)@.chunk_count(key@),
            target < old(self)@.entries.len(),
        ensures
            final(self).inv(),
            final(self)@.links == old(self)@.links.push(
                IndexLinkView { key: key@, chunk, tag: tag@, target },
            ),
            final(self)@.entries == old(self)@.entries,
            final(self)@.chunks == old(self)@.chunks,
            final(self)@.time == old(self)@.time,
    {
        let ghost pre = self@;
        self.links.push(
            IndexLink { key: key.clone(), chunk, tag: tag.clone(), target },
        );
        proof {
            assert(self@.links =~= pre.links.push(
                IndexLinkView { key: key@, chunk, tag: tag@, target },
            ));
            assert(self@.entries =~= pre.entries);
            assert(self@.chunks =~= pre.chunks);
            assert(self@.time =~= pre.time);
            assert forall|i: int|
                0 <= i < self@.links.len() implies (#[trigger] self@.links[i]).chunk
                < self@.chunk_count(self@.links[i].key) && self@.links[i].target
                < self@.entries.len() by {
                if i < pre.links.len() {
                    assert(self@.links[i] == pre.links[i]);
                }
            }
        }
    }

    /// Removes every link that registers this target under one of the given
    /// pairs, in any bucket; all other links are kept in order.
    pub fn unlink_matching(&mut self, pairs: &Vec<LinkPermutation>, target: usize)
        requires
            old(self).inv(),
        ensures
            final(self).inv(),
            final(self)@.links == old(self)@.links.filter(
                not_matching(perms_view(pairs@), target),
            ),
            final(self)@.entries == old(self)@.entries,
            final(self)@.chunks == old(self)@.chunks,
            final(self)@.time == old(self)@.time,
    {
        let ghost pre = self@;
        let ghost pred = not_matching(perms_view(pairs@), target);
        let n = self.links.len();
        let mut kept: Vec<IndexLink> = Vec::new();
        let mut i: usize = 0;
        while i < n
            invariant
                n == self.links@.len(),
                n == pre.links.len(),
                0 <= i <= n,
                self@ == pre,
                kept@.map_values(|l: IndexLink| l@) == pre.links.take(i as int).filter(pred),
                pred == not_matching(perms_view(pairs@), target),
            decreases n - i,
        {
            proof {
                lemma_filter_take_step(pre.links, i as int, pred);
            }
            if !matches_any(pairs, &self.links[i], target) {
                let kept_link = self.links[i].clone();
                kept.push(kept_link);
                proof {
                    assert(kept@.map_values(|l: IndexLink| l@) =~= pre.links.take(
                        i as int,
                    ).filter(pred).push(pre.links[i as int]));
                }
            }
            i += 1;
        }
        proof {
            assert(pre.links.take(n as int) =~= pre.links);
        }
        self.links = kept;
        proof {
            assert(self@.entries =~= pre.entries);
            assert(self@.chunks =~= pre.chunks);
            assert(self@.time =~= pre.time);
            assert forall|i: int|
                0 <= i < self@.links.len() implies (#[trigger] self@.links[i]).chunk
                < self@.chunk_count(self@.links[i].key) && self@.links[i].target
                < self@.entries.len() by {
                let l = self@.links[i];
                assert(self@.links.contains(l));
                pre.links.lemma_filter_contains_rev(pred, l);
                let j = choose|j: int| 0 <= j < pre.links.len() && pre.links[j] == l;
                assert(pre.links[j].chunk < pre.chunk_count(pre.links[j].key));
            }
        }
    }

    /// Registers a record hash in the time-ordered index under a key and tag
    /// at a timestamp.
    pub fn tree_insert(&mut self, key: &String, tag: &String, timestamp: i64, target: usize)
        requires
            old(self).inv(),
            target < old(self)@.entries.len(),
        ensures
            final(self).inv(),
            final(self)@.time == old(self)@.time.push(
                TimeIndexEntryView { key: key@, tag: tag@, timestamp, target },
            ),
            final(self)@.entries == old(self)@.entries,
            final(self)@.chunks == old(self)@.chunks,
            final(self)@.links == old(self)@.links,
    {
        let ghost pre = self@;
        self.time_index.push(
            TimeIndexEntry { key: key.clone(), tag: tag.clone(), timestamp, target },
        );
        proof {
            assert(self@.time =~= pre.time.push(
                TimeIndexEntryView { key: key@, tag: tag@, timestamp, target },
            ));
            assert(self@.entries =~= pre.entries);
            assert(self@.chunks =~= pre.chunks);
            assert(self@.links =~= pre.links);
            assert forall|i: int|
                0 <= i < self@.time.len() implies (#[trigger] self@.time[i]).target
                < self@.entries.len() by {
                if i < pre.time.len() {
                    assert(self@.time[i] == pre.time[i]);
                }
            }
        }
    }

    /// The record hashes registered under a key and tag with a timestamp in
    /// the closed range, in insertion order, truncated to the limit if one
    /// is given.
    pub fn tree_range(
        &self,
        key: &String,
        tag: &String,
        from: i64,
        until: i64,
        limit: Option<usize>,
    ) -> (r: Vec<usize>)
        ensures
            r@ == apply_limit(time_targets(self@.time, key@, tag@, from, until), limit),
    {
        let ghost pred = time_in_range(key@, tag@, from, until);
        let n = self.time_index.len();
        let mut r: Vec<usize> = Vec::new();
        let mut i: usize = 0;
        while i < n
            invariant
                n == self@.time.len(),
                0 <= i <= n,
                r@ == self@.time.take(i as int).filter(pred).map_values(
                    |e: TimeIndexEntryView| e.target,
                ),
                pred == time_in_range(key@, tag@, from, until),
            decreases n - i,
        {
            proof {
                lemma_filter_take_step(self@.time, i as int, pred);
            }
            if self.time_index[i].key == *key && self.time_index[i].tag == *tag && from
                <= self.time_index[i].timestamp && self.time_index[i].timestamp <= until {
                r.push(self.time_index[i].target);
                proof {
                    assert(self@.time.take(i + 1).filter(pred).map_values(
                        |e: TimeIndexEntryView| e.target,
                    ) =~= self@.time.take(i as int).filter(pred).map_values(
                        |e: TimeIndexEntryView| e.target,
                    ).push(self@.time[i as int].target));
                }
            }
            i += 1;
        }
        proof {
            assert(self@.time.take(n as int) =~= self@.time);
        }
        match limit {
            Some(cap) => {
                let mut r = r;
                r.truncate(cap);
                proof {
                    if time_targets(self@.time, key@, tag@, from, until).len() > cap {
                        assert(r@ =~= time_targets(self@.time, key@, tag@, from, until).take(
                            cap as int,
                        ));
                    }
                }
                r
            },
            None => r,
        }
    }

    /// Removes every time-index entry registering this target, under any key.
    pub fn tree_remove_by_hash(&mut self, target: usize)
        requires
            old(self).inv(),
        ensures
            final(self).inv(),
            final(self)@.time == old(self)@.time.filter(not_targeting(target)),
            final(self)@.entries == old(self)@.entries,
            final(self)@.chunks == old(self)@.chunks,
            final(self)@.links == old(self)@.links,
    {
        let ghost pre = self@;
        let ghost pred = not_targeting(target);
        let n = self.time_index.len();
        let mut kept: Vec<TimeIndexEntry> = Vec::new();
        let mut i: usize = 0;
        while i < n
            invariant
                n == self.time_index@.len(),
                n == pre.time.len(),
                0 <= i <= n,
                self@ == pre,
                kept@.map_values(|e: TimeIndexEntry| e@) == pre.time.take(i as int).filter(pred),
                pred == not_targeting(target),
            decreases n - i,
        {
            proof {
                lemma_filter_take_step(pre.time, i as int, pred);
            }
            if self.time_index[i].target != target {
                let kept_entry = self.time_index[i].clone();
                kept.push(kept_entry);
                proof {
                    assert(kept@.map_values(|e: TimeIndexEntry| e@) =~= pre.time.take(
                        i as int,
                    ).filter(pred).push(pre.time[i as int]));
                }
            }
            i += 1;
        }
        proof {
            assert(pre.time.take(n as int) =~= pre.time);
        }
        self.time_index = kept;
        proof {
            assert(self@.entries =~= pre.entries);
            assert(self@.chunks =~= pre.chunks);
            assert(self@.links =~= pre.links);
            assert forall|i: int|
                0 <= i < self@.time.len() implies (#[trigger] self@.time[i]).target
                < self@.entries.len() by {
                let e = self@.time[i];
                assert(self@.time.contains(e));
                pre.time.lemma_filter_contains_rev(pred, e);
                let j = choose|j: int| 0 <= j < pre.time.len() && pre.time[j] == e;
                assert(pre.time[j].target < pre.entries.len());
            }
        }
    }

/// Dereferences record hashes against the store, dropping the dead ones.
pub fn load_expressions(&self, targets: &Vec<usize>) -> (r: Vec<LinkExpression>)
    ensures
        r@.map_values(|e: LinkExpression| e@) == deref_expressions(self@.entries, targets@),
{
    let n = targets.len();
    let mut r: Vec<LinkExpression> = Vec::new();
    let mut i: usize = 0;
    while i < n
        invariant
            n == targets@.len(),
            0 <= i <= n,
            r@.map_values(|e: LinkExpression| e@) == deref_expressions(
                self@.entries,
                targets@.take(i as int),
            ),
        decreases n - i,
    {
        proof {
            assert(targets@.take(i + 1).drop_last() =~= targets@.take(i as int));
            assert(targets@.take(i + 1).last() == targets@[i as int]);
        }
        match self.get_expression(targets[i]) {
            Some(e) => {
                r.push(e);
                proof {
                    assert(r@.map_values(|e: LinkExpression| e@) =~= deref_expressions(
                        self@.entries,
                        targets@.take(i as int),
                    ).push(r@.last()@));
                }
            },
            None => {},
        }
        i += 1;
    }
    proof {
        assert(targets@.take(n as int) =~= targets@);
    }
    r
}

/// Dereferences presence-record hashes, dropping the dead ones.
pub fn load_agents(&self, targets: &Vec<usize>) -> (r: Vec<AgentReference>)
    ensures
        r@.map_values(|a: AgentReference| a@) == deref_agents(self@.entries, targets@),
{
    let n = targets.len();
    let mut r: Vec<AgentReference> = Vec::new();
    let mut i: usize = 0;
    while i < n
        invariant
            n == targets@.len(),
            0 <= i <= n,
            r@.map_values(|a: AgentReference| a@) == deref_agents(
                self@.entries,
                targets@.take(i as int),
            ),
        decreases n - i,
    {
        proof {
            assert(targets@.take(i + 1).drop_last() =~= targets@.take(i as int));
            assert(targets@.take(i + 1).last() == targets@[i as int]);
        }
        match self.get_agent(targets[i]) {
            Some(a) => {
                r.push(a);
                proof {
                    assert(r@.map_values(|a: AgentReference| a@) =~= deref_agents(
                        self@.entries,
                        targets@.take(i as int),
                    ).push(r@.last()@));
                }
            },
            None => {},
        }
        i += 1;
    }
    proof {
        assert(targets@.take(n as int) =~= targets@);
    }
    r
}

    /// Marks the entry at a hash deleted; its index entries are unaffected.
    pub fn tombstone(&mut self, h: usize)
        requires
            old(self).inv(),
            h < old(self)@.entries.len(),
        ensures
            final(self).inv(),
            final(self)@.entries == old(self)@.entries.update(
                h as int,
                StoredEntryView { data: old(self)@.entries[h as int].data, tombstoned: true },
            ),
            final(self)@.chunks == old(self)@.chunks,
            final(self)@.links == old(self)@.links,
            final(self)@.time == old(self)@.time,
    {
        let ghost pre = self@;
        let data = self.entries[h].data.clone();
        self.entries.set(h, StoredEntry { data, tombstoned: true });
        proof {
            assert(self@.entries =~= pre.entries.update(
                h as int,
                StoredEntryView { data: pre.entries[h as int].data, tombstoned: true },
            ));
            assert(self@.chunks =~= pre.chunks);
            assert(self@.links =~= pre.links);
            assert(self@.time =~= pre.time);
        }
    }
}

} // verus!
