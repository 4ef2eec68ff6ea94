use vstd::prelude::*;

use crate::errors::SocialContextError;
use crate::inputs::{
    AddActiveAgentLinkResponse, AddLinkInput, GetLinks, GetLinksResponse, GetOthers,
    LinkExpression, UpdateLink, UpdateLinkInput,
};
use crate::methods::{
    add_spec, announce_spec, fanout_spec, presence_existing, query_ok, query_spec, remove_ok,
    remove_spec, SocialContextDNA,
};
use crate::store::Store;
use crate::utils::{strategy_ok, strategy_permutations};

verus! {

/// Relies on chrono's `Utc::now`: the wall-clock time as whole seconds
/// since the epoch.  Nothing is promised of the clock's reading.
#[verifier::external_body]
fn current_time() -> (r: i64) {
    chrono::Utc::now().timestamp()
}

/// Writes a record at the current time under the configured strategy,
/// returning the peer addresses to notify of it.
pub fn add_link(dna: &SocialContextDNA, store: &mut Store, add_link_data: LinkExpression) -> (r:
    Result<Vec<String>, SocialContextError>)
    requires
        old(store).inv(),
        dna.wf(),
        !dna@.enable_time_index ==> old(store)@.links.len() + strategy_permutations(
            dna@.index_strategy,
            add_link_data@.data,
        ).len() < usize::MAX,
    ensures
        final(store).inv(),
        r is Ok <==> strategy_ok(dna@.index_strategy, add_link_data@.data),
        r is Ok ==> final(store)@ == add_spec(
            dna@,
            old(store)@,
            add_link_data@,
            dna@.index_strategy,
        ),
        r matches Ok(v) ==> exists|now: i64|
            v@.map_values(|s: String| s@) == #[trigger] fanout_spec(
                dna@,
                old(store)@,
                add_link_data@,
                now,
            ),
        r is Err ==> final(store)@ == old(store)@,
        r matches Err(e) ==> e matches SocialContextError::RequestError(_),
{
    let now = current_time();
    let input = AddLinkInput { link_expression: add_link_data, index_strategy: dna.strategy() };
    let res = dna.add_link(store, input, now);
    proof {
        assert(res matches Ok(v) ==> v@.map_values(|s: String| s@) == fanout_spec(
            dna@,
            old(store)@,
            add_link_data@,
            now,
        ));
    }
    res
}

/// Announces the local peer's presence at the current time.
pub fn add_active_agent_link(dna: &SocialContextDNA, store: &mut Store) -> (r: Result<
    AddActiveAgentLinkResponse,
    SocialContextError,
>)
    requires
        old(store).inv(),
        dna.wf(),
    ensures
        final(store).inv(),
        r is Ok,
        exists|now: i64|
            final(store)@ == announce_spec(dna@, old(store)@, now) && (r matches Ok(resp)
                ==> resp.existing == presence_existing(dna@, old(store)@, now)),
{
    let now = current_time();
    match dna.add_active_agent_link(store, now) {
        Ok(existing) => {
            let resp = AddActiveAgentLinkResponse { existing };
            proof {
                assert(final(store)@ == announce_spec(dna@, old(store)@, now) && (Ok::<
                    AddActiveAgentLinkResponse,
                    SocialContextError,
                >(resp) matches Ok(rr) ==> rr.existing == presence_existing(
                    dna@,
                    old(store)@,
                    now,
                )));
            }
            Ok(resp)
        },
        Err(e) => Err(e),
    }
}

/// Reads the records a partial triple matches; an unbounded time-indexed
/// query reaches from the epoch to the current time.
pub fn get_links(dna: &SocialContextDNA, store: &Store, input: GetLinks) -> (r: Result<
    GetLinksResponse,
    SocialContextError,
>)
    requires
        store.inv(),
        dna.wf(),
    ensures
        r is Ok <==> query_ok(dna@, input.triple@),
        r matches Ok(resp) ==> exists|now: i64|
            resp.0@.map_values(|e: LinkExpression| e@) == query_spec(
                dna@,
                store@,
                input.triple@,
                input.from_date,
                input.until_date,
                input.limit,
                now,
            ),
        r matches Err(e) ==> e matches SocialContextError::RequestError(_),
{
    let now = current_time();
    match dna.get_links(store, input, now) {
        Ok(v) => {
            let resp = GetLinksResponse(v);
            proof {
                assert(resp.0@.map_values(|e: LinkExpression| e@) == query_spec(
                    dna@,
                    store@,
                    input.triple@,
                    input.from_date,
                    input.until_date,
                    input.limit,
                    now,
                ));
            }
            Ok(resp)
        },
        Err(e) => Err(e),
    }
}

/// Removes a record and its index entries.
pub fn remove_link(dna: &SocialContextDNA, store: &mut Store, link: LinkExpression) -> (r:
    Result<(), SocialContextError>)
    requires
        old(store).inv(),
        dna.wf(),
    ensures
        final(store).inv(),
        r is Ok <==> remove_ok(dna@, old(store)@, link@),
        r is Ok ==> final(store)@ == remove_spec(dna@, old(store)@, link@),
        r is Err ==> final(store)@ == old(store)@,
        r matches Err(e) ==> e matches SocialContextError::RequestError(_),
{
    dna.remove_link(store, &link)
}

/// Replaces one record with another under the configured strategy,
/// returning the peer addresses to notify of the fresh record.
pub fn update_link(dna: &SocialContextDNA, store: &mut Store, links: UpdateLink) -> (r:
    Result<Vec<String>, SocialContextError>)
    requires
        old(store).inv(),
        dna.wf(),
        !dna@.enable_time_index ==> old(store)@.links.len() + strategy_permutations(
            dna@.index_strategy,
            links.target@.data,
        ).len() < usize::MAX,
    ensures
        final(store).inv(),
        r is Ok <==> (remove_ok(dna@, old(store)@, links.source@) && strategy_ok(
            dna@.index_strategy,
            links.target@.data,
        )),
        r is Ok ==> final(store)@ == add_spec(
            dna@,
            remove_spec(dna@, old(store)@, links.source@),
            links.target@,
            dna@.index_strategy,
        ),
        r matches Err(e) ==> e matches SocialContextError::RequestError(_),
{
    let now = current_time();
    let input = UpdateLinkInput {
        source: links.source,
        target: links.target,
        index_strategy: dna.strategy(),
    };
    dna.update_link(store, input, now)
}

/// The peer profiles related to this store; none are tracked here.
pub fn get_others() -> (r: GetOthers)
    ensures
        r.0@.len() == 0,
{
    GetOthers(Vec::new())
}

} // verus!
