use vstd::prelude::*;

use crate::errors::SocialContextError;

verus! {

/// Mathematical image of an `Option<String>`: the character sequence, if present.
pub open spec fn opt_str_view(o: Option<String>) -> Option<Seq<char>> {
    match o {
        Some(s) => Some(s@),
        None => None,
    }
}

/// Clones an optional string, preserving its value.
pub fn clone_opt_string(o: &Option<String>) -> (r: Option<String>)
    ensures
        r == *o,
{
    match o {
        Some(s) => Some(s.clone()),
        None => None,
    }
}

/// A subject/predicate/object triple; any subset of the fields may be present.
#[derive(Debug, PartialEq)]
pub struct Triple {
    pub subject: Option<String>,
    pub object: Option<String>,
    pub predicate: Option<String>,
}

/// Mathematical image of a [`Triple`].
pub struct TripleView {
    pub subject: Option<Seq<char>>,
    pub object: Option<Seq<char>>,
    pub predicate: Option<Seq<char>>,
}

impl View for Triple {
    type V = TripleView;

    open spec fn view(&self) -> TripleView {
        TripleView {
            subject: opt_str_view(self.subject),
            object: opt_str_view(self.object),
            predicate: opt_str_view(self.predicate),
        }
    }
}

impl Clone for Triple {
    fn clone(&self) -> (r: Self)
        ensures
            r == *self,
    {
        Triple {
            subject: clone_opt_string(&self.subject),
            object: clone_opt_string(&self.object),
            predicate: clone_opt_string(&self.predicate),
        }
    }
}

/// How many of the three fields a triple has.
pub open spec fn arity(t: TripleView) -> int {
    (if t.subject is Some { 1int } else { 0int })
    + (if t.object is Some { 1int } else { 0int })
    + (if t.predicate is Some { 1int } else { 0int })
}

impl Triple {
    /// The number of fields present in this triple.
    pub fn num_entities(&self) -> (r: usize)
        ensures
            r == arity(self@),
    {
        let mut num: usize = 0;
        if self.subject.is_some() {
            num += 1;
        };
        if self.object.is_some() {
            num += 1;
        };
        if self.predicate.is_some() {
            num += 1;
        };
        num
    }
}

/// Signature and verification key attached to a record by its author.
#[derive(Debug, PartialEq)]
pub struct ExpressionProof {
    pub signature: String,
    pub key: String,
}

/// Mathematical image of an [`ExpressionProof`].
pub struct ExpressionProofView {
    pub signature: Seq<char>,
    pub key: Seq<char>,
}

impl View for ExpressionProof {
    type V = ExpressionProofView;

    open spec fn view(&self) -> ExpressionProofView {
        ExpressionProofView { signature: self.signature@, key: self.key@ }
    }
}

impl Clone for ExpressionProof {
    fn clone(&self) -> (r: Self)
        ensures
            r == *self,
    {
        ExpressionProof { signature: self.signature.clone(), key: self.key.clone() }
    }
}

/// The primary record: a triple plus provenance.  Content-addressed and
/// immutable once committed; timestamps are seconds relative to the epoch.
#[derive(Debug, PartialEq)]
pub struct LinkExpression {
    pub author: String,
    pub data: Triple,
    pub timestamp: i64,
    pub proof: ExpressionProof,
}

/// Mathematical image of a [`LinkExpression`].
pub struct LinkExpressionView {
    pub author: Seq<char>,
    pub data: TripleView,
    pub timestamp: i64,
    pub proof: ExpressionProofView,
}

impl View for LinkExpression {
    type V = LinkExpressionView;

    open spec fn view(&self) -> LinkExpressionView {
        LinkExpressionView {
            author: self.author@,
            data: self.data@,
            timestamp: self.timestamp,
            proof: self.proof@,
        }
    }
}

impl Clone for LinkExpression {
    fn clone(&self) -> (r: Self)
        ensures
            r == *self,
    {
        LinkExpression {
            author: self.author.clone(),
            data: self.data.clone(),
            timestamp: self.timestamp,
            proof: self.proof.clone(),
        }
    }
}

impl LinkExpression {
    /// The creation time this record is indexed under.
    pub fn entry_time(&self) -> (r: i64)
        ensures
            r == self.timestamp,
    {
        self.timestamp
    }
}

/// A timestamped presence record for one peer.
#[derive(Debug, PartialEq)]
pub struct AgentReference {
    pub agent: String,
    pub timestamp: i64,
}

/// Mathematical image of an [`AgentReference`].
pub struct AgentReferenceView {
    pub agent: Seq<char>,
    pub timestamp: i64,
}

impl View for AgentReference {
    type V = AgentReferenceView;

    open spec fn view(&self) -> AgentReferenceView {
        AgentReferenceView { agent: self.agent@, timestamp: self.timestamp }
    }
}

impl Clone for AgentReference {
    fn clone(&self) -> (r: Self)
        ensures
            r == *self,
    {
        AgentReference { agent: self.agent.clone(), timestamp: self.timestamp }
    }
}

/// Which secondary-index permutations a write registers.
#[derive(Clone, Copy, Debug, PartialEq, Eq, Structural)]
pub enum IndexStrategy {
    /// All permutations of the present fields, plus one universal wildcard
    /// pair that makes every record reachable by an empty query.
    FullWithWildCard,
    /// All permutations of the present fields.
    Full,
    /// Exactly one permutation: subject as key, predicate as tag; both fields
    /// are required.
    Simple,
}

/// The strategy named by a configuration string, if any.
pub open spec fn strategy_of_string(s: Seq<char>) -> Option<IndexStrategy> {
    if s == "Full"@ || s == "full"@ {
        Some(IndexStrategy::Full)
    } else if s == "Simple"@ || s == "simple"@ {
        Some(IndexStrategy::Simple)
    } else if s == "FullWithWildCard"@ || s == "fullwithwildcard"@ {
        Some(IndexStrategy::FullWithWildCard)
    } else {
        None
    }
}

impl IndexStrategy {
    /// Parses a configuration string naming a strategy; an unsupported name
    /// is a request error.
    pub fn try_from(value: &String) -> (r: Result<IndexStrategy, SocialContextError>)
        ensures
            r is Ok <==> strategy_of_string(value@) is Some,
            r matches Ok(s) ==> strategy_of_string(value@) == Some(s),
            r matches Err(e) ==> e matches SocialContextError::RequestError(_),
    {
        if *value == String::from_str("Full") || *value == String::from_str("full") {
            Ok(IndexStrategy::Full)
        } else if *value == String::from_str("Simple") || *value == String::from_str("simple") {
            Ok(IndexStrategy::Simple)
        } else if *value == String::from_str("FullWithWildCard") || *value == String::from_str(
            "fullwithwildcard",
        ) {
            Ok(IndexStrategy::FullWithWildCard)
        } else {
            Err(SocialContextError::RequestError("unsupported index strategy name"))
        }
    }
}

/// A query: a partial triple, optional time bounds, and an optional cap on
/// the number of results.
#[derive(Debug)]
pub struct GetLinks {
    pub triple: Triple,
    pub from_date: Option<i64>,
    pub until_date: Option<i64>,
    pub limit: Option<usize>,
}

/// A write request: the record plus the strategy to index it under.
#[derive(Debug)]
pub struct AddLinkInput {
    pub link_expression: LinkExpression,
    pub index_strategy: IndexStrategy,
}

/// An update request: the record to retire and its replacement.
#[derive(Debug)]
pub struct UpdateLinkInput {
    pub source: LinkExpression,
    pub target: LinkExpression,
    pub index_strategy: IndexStrategy,
}

/// An update request at the interface layer, indexed under the configured
/// strategy.
#[derive(Debug)]
pub struct UpdateLink {
    pub source: LinkExpression,
    pub target: LinkExpression,
}

/// The records a query matched.
#[derive(Debug)]
pub struct GetLinksResponse(pub Vec<LinkExpression>);

/// Outcome of a presence announcement: the timestamp of the reference that
/// already marked this peer active, if one was found in the window.
#[derive(Debug, PartialEq)]
pub struct AddActiveAgentLinkResponse {
    pub existing: Option<i64>,
}

/// Per-instance configuration for the engine.
#[derive(Debug)]
pub struct SocialContextProperties {
    /// Width of the presence recency window, in seconds.
    pub active_agent_duration_s: i64,
    /// Whether writes compute a notification fan-out set.
    pub enable_signals: bool,
    /// Whether the time-ordered backend serves the index instead of the
    /// chunked direct-link backend.
    pub enable_time_index: bool,
    /// Name of the indexing strategy to use.
    pub index_strategy: String,
    /// Advisory fan-out bound per bucket of the chunked backend.
    pub soft_chunk_limit: usize,
    /// Declared but unenforced fan-out ceiling, kept as configuration only.
    pub hard_chunk_limit: usize,
    /// Whether a presence announcement refreshes an existing reference with a
    /// new timestamp instead of leaving the index unchanged.
    pub refresh_active_agent: bool,
}

/// A peer profile; the social-graph layer around this store resolves these,
/// so the store itself never returns any.
#[derive(Debug, PartialEq)]
pub struct Agent {
    pub did: String,
    pub name: Option<String>,
    pub email: Option<String>,
}

/// The peer profiles a lookup returned.
#[derive(Debug)]
pub struct GetOthers(pub Vec<Agent>);

} // verus!
