use vstd::prelude::*;

use crate::errors::SocialContextError;
use crate::inputs::{arity, IndexStrategy, Triple, TripleView};

verus! {

/// The reserved marker meaning "match regardless of this field".
pub open spec fn wildcard() -> Seq<char> {
    "*"@
}

/// The reserved wildcard marker as a string slice.
pub fn get_wildcard() -> (r: &'static str)
    ensures
        r@ == wildcard(),
{
    "*"
}

/// An `(index key, tag)` pair under which a record's hash is registered.
#[derive(Debug, PartialEq)]
pub struct LinkPermutation {
    pub root_index: String,
    pub tag: String,
}

/// Mathematical image of a [`LinkPermutation`].
pub struct PermutationView {
    pub root_index: Seq<char>,
    pub tag: Seq<char>,
}

impl View for LinkPermutation {
    type V = PermutationView;

    open spec fn view(&self) -> PermutationView {
        PermutationView { root_index: self.root_index@, tag: self.tag@ }
    }
}

impl Clone for LinkPermutation {
    fn clone(&self) -> (r: Self)
        ensures
            r == *self,
    {
        LinkPermutation { root_index: self.root_index.clone(), tag: self.tag.clone() }
    }
}

impl LinkPermutation {
    /// Pairs an index key with a tag.
    pub fn new(source: String, tag: String) -> (r: LinkPermutation)
        ensures
            r@ == (PermutationView { root_index: source@, tag: tag@ }),
    {
        LinkPermutation { root_index: source, tag }
    }
}

/// Shorthand for building a permutation in specifications.
pub open spec fn pair(root_index: Seq<char>, tag: Seq<char>) -> PermutationView {
    PermutationView { root_index, tag }
}

/// The images of a sequence of permutations.
pub open spec fn perms_view(v: Seq<LinkPermutation>) -> Seq<PermutationView> {
    v.map_values(|p: LinkPermutation| p@)
}

/// Every `(index key, tag)` pair a triple must be registered under so that
/// each non-empty subset of its fields can find it: each present field keyed
/// alone under the wildcard tag, and each present field pair keyed by one
/// field and tagged by the other.
pub open spec fn full_permutations(t: TripleView) -> Seq<PermutationView> {
    match (t.subject, t.object, t.predicate) {
        (Some(s), Some(o), Some(p)) => seq![
            pair(s, wildcard()),
            pair(o, wildcard()),
            pair(p, wildcard()),
            pair(s, o),
            pair(s, p),
            pair(o, p),
        ],
        (Some(s), Some(o), None) => seq![pair(s, o), pair(s, wildcard()), pair(o, wildcard())],
        (Some(s), None, Some(p)) => seq![pair(s, p), pair(s, wildcard()), pair(p, wildcard())],
        (None, Some(o), Some(p)) => seq![pair(o, p), pair(o, wildcard()), pair(p, wildcard())],
        (Some(s), None, None) => seq![pair(s, wildcard())],
        (None, Some(o), None) => seq![pair(o, wildcard())],
        (None, None, Some(p)) => seq![pair(p, wildcard())],
        (None, None, None) => seq![],
    }
}

/// The permutations a strategy registers a triple under.
pub open spec fn strategy_permutations(strategy: IndexStrategy, t: TripleView) -> Seq<
    PermutationView,
> {
    match strategy {
        IndexStrategy::Full => full_permutations(t),
        IndexStrategy::FullWithWildCard => full_permutations(t).push(
            pair(wildcard(), wildcard()),
        ),
        IndexStrategy::Simple => match (t.subject, t.predicate) {
            (Some(s), Some(p)) => seq![pair(s, p)],
            _ => seq![],
        },
    }
}

/// Whether a strategy accepts a triple for indexing: the full strategies
/// need at least one field, the simple strategy needs subject and predicate.
pub open spec fn strategy_ok(strategy: IndexStrategy, t: TripleView) -> bool {
    match strategy {
        IndexStrategy::Full => arity(t) >= 1,
        IndexStrategy::FullWithWildCard => arity(t) >= 1,
        IndexStrategy::Simple => t.subject is Some && t.predicate is Some,
    }
}

/// The single canonical pair a query on a partial triple resolves to: the
/// two foremost present fields paired, a lone field keyed under the wildcard
/// tag, or the universal wildcard pair for an empty triple.
pub open spec fn canonical_pair(t: TripleView) -> PermutationView {
    match (t.subject, t.object, t.predicate) {
        (Some(s), Some(o), _) => pair(s, o),
        (Some(s), None, Some(p)) => pair(s, p),
        (None, Some(o), Some(p)) => pair(o, p),
        (Some(s), None, None) => pair(s, wildcard()),
        (None, Some(o), None) => pair(o, wildcard()),
        (None, None, Some(p)) => pair(p, wildcard()),
        (None, None, None) => pair(wildcard(), wildcard()),
    }
}

/// Whether `q` keeps a subset of `t`'s fields, each with `t`'s value.
pub open spec fn restricts(q: TripleView, t: TripleView) -> bool {
    &&& (q.subject is Some ==> q.subject == t.subject)
    &&& (q.object is Some ==> q.object == t.object)
    &&& (q.predicate is Some ==> q.predicate == t.predicate)
}

/// Whether a query triple's canonical pair is registered by a strategy for
/// every triple it restricts: the full strategies cover every non-empty
/// subset, the wildcard strategy additionally covers the empty one, and the
/// simple strategy covers exactly subject plus predicate.
pub open spec fn coverable(strategy: IndexStrategy, q: TripleView) -> bool {
    match strategy {
        IndexStrategy::Full => arity(q) >= 1,
        IndexStrategy::FullWithWildCard => true,
        IndexStrategy::Simple => q.subject is Some && q.predicate is Some && q.object is None,
    }
}

/// Derives the full permutation set for a triple; a triple with no fields is
/// rejected.
pub fn generate_link_path_permutations(triple: &Triple) -> (r: Result<
    Vec<LinkPermutation>,
    SocialContextError,
>)
    ensures
        r is Ok <==> arity(triple@) >= 1,
        r matches Ok(v) ==> perms_view(v@) == full_permutations(triple@),
        r matches Err(e) ==> e matches SocialContextError::RequestError(m) && m@
            == "triple has no entities"@,
{
    let wc = get_wildcard();
    match (&triple.subject, &triple.object, &triple.predicate) {
        (Some(s), Some(o), Some(p)) => {
            let v = vec![
                LinkPermutation::new(s.clone(), String::from_str(wc)),
                LinkPermutation::new(o.clone(), String::from_str(wc)),
                LinkPermutation::new(p.clone(), String::from_str(wc)),
                LinkPermutation::new(s.clone(), o.clone()),
                LinkPermutation::new(s.clone(), p.clone()),
                LinkPermutation::new(o.clone(), p.clone()),
            ];
            proof {
                assert(perms_view(v@) =~= full_permutations(triple@));
            }
            Ok(v)
        },
        (Some(s), Some(o), None) => {
            let v = vec![
                LinkPermutation::new(s.clone(), o.clone()),
                LinkPermutation::new(s.clone(), String::from_str(wc)),
                LinkPermutation::new(o.clone(), String::from_str(wc)),
            ];
            proof {
                assert(perms_view(v@) =~= full_permutations(triple@));
            }
            Ok(v)
        },
        (Some(s), None, Some(p)) => {
            let v = vec![
                LinkPermutation::new(s.clone(), p.clone()),
                LinkPermutation::new(s.clone(), String::from_str(wc)),
                LinkPermutation::new(p.clone(), String::from_str(wc)),
            ];
            proof {
                assert(perms_view(v@) =~= full_permutations(triple@));
            }
            Ok(v)
        },
        (None, Some(o), Some(p)) => {
            let v = vec![
                LinkPermutation::new(o.clone(), p.clone()),
                LinkPermutation::new(o.clone(), String::from_str(wc)),
                LinkPermutation::new(p.clone(), String::from_str(wc)),
            ];
            proof {
                assert(perms_view(v@) =~= full_permutations(triple@));
            }
            Ok(v)
        },
        (Some(s), None, None) => {
            let v = vec![LinkPermutation::new(s.clone(), String::from_str(wc))];
            proof {
                assert(perms_view(v@) =~= full_permutations(triple@));
            }
            Ok(v)
        },
        (None, Some(o), None) => {
            let v = vec![LinkPermutation::new(o.clone(), String::from_str(wc))];
            proof {
                assert(perms_view(v@) =~= full_permutations(triple@));
            }
            Ok(v)
        },
        (None, None, Some(p)) => {
            let v = vec![LinkPermutation::new(p.clone(), String::from_str(wc))];
            proof {
                assert(perms_view(v@) =~= full_permutations(triple@));
            }
            Ok(v)
        },
        (None, None, None) => Err(SocialContextError::RequestError("triple has no entities")),
    }
}

/// Derives the permutation set a strategy registers a triple under; the
/// strategy's required fields must be present.
pub fn generate_permutations(strategy: IndexStrategy, triple: &Triple) -> (r: Result<
    Vec<LinkPermutation>,
    SocialContextError,
>)
    ensures
        r is Ok <==> strategy_ok(strategy, triple@),
        r matches Ok(v) ==> perms_view(v@) == strategy_permutations(strategy, triple@),
        r matches Err(e) ==> e matches SocialContextError::RequestError(_),
{
    match strategy {
        IndexStrategy::Full => generate_link_path_permutations(triple),
        IndexStrategy::FullWithWildCard => {
            let mut v = match generate_link_path_permutations(triple) {
                Ok(v) => v,
                Err(e) => {
                    return Err(e);
                },
            };
            let wc = get_wildcard();
            v.push(LinkPermutation::new(String::from_str(wc), String::from_str(wc)));
            proof {
                assert(perms_view(v@) =~= strategy_permutations(strategy, triple@));
            }
            Ok(v)
        },
        IndexStrategy::Simple => {
            let s = match &triple.subject {
                Some(s) => s,
                None => {
                    return Err(
                        SocialContextError::RequestError(
                            "Expected subject with simple index strategy",
                        ),
                    );
                },
            };
            let p = match &triple.predicate {
                Some(p) => p,
                None => {
                    return Err(
                        SocialContextError::RequestError(
                            "Expected predicate with simple index strategy",
                        ),
                    );
                },
            };
            let v = vec![LinkPermutation::new(s.clone(), p.clone())];
            proof {
                assert(perms_view(v@) =~= strategy_permutations(strategy, triple@));
            }
            Ok(v)
        },
    }
}

/// Resolves a partial triple to the canonical pair to query.
pub fn get_link_permutation_by(triple: Triple) -> (r: LinkPermutation)
    ensures
        r@ == canonical_pair(triple@),
{
    let wc = get_wildcard();
    let Triple { subject, object, predicate } = triple;
    match (subject, object, predicate) {
        (Some(s), Some(o), _) => LinkPermutation::new(s, o),
        (Some(s), None, Some(p)) => LinkPermutation::new(s, p),
        (None, Some(o), Some(p)) => LinkPermutation::new(o, p),
        (Some(s), None, None) => LinkPermutation::new(s, String::from_str(wc)),
        (None, Some(o), None) => LinkPermutation::new(o, String::from_str(wc)),
        (None, None, Some(p)) => LinkPermutation::new(p, String::from_str(wc)),
        (None, None, None) => LinkPermutation::new(String::from_str(wc), String::from_str(wc)),
    }
}

} // verus!
