//! What an event-log read asked over gRPC names: its scope and its filters.

use vstd::prelude::*;

use crate::events::ingest::PRODUCER_CLASS_DATA_PLANE;
use crate::events::read::Filters;
use crate::events::store::Scope;

verus! {

/// The fields of a records request, an empty text meaning "not given".
#[derive(Debug, Clone)]
pub struct ListRequest {
    pub zone: String,
    pub ledger: String,
    pub producer_class: String,
    pub producer: String,
    pub instance: String,
    pub event_types: Vec<String>,
    pub profile: String,
    pub policy_partition: String,
    pub kind: String,
    pub event_id: String,
    pub since: String,
    pub until_time: String,
    pub history: String,
}

/// Whether a field was given.
pub open spec fn given(field: String) -> bool {
    field@.len() > 0
}

/// A given field, as an exact filter.
pub open spec fn some_of(field: String) -> Option<Seq<char>> {
    if field@.len() > 0 { Some(field@) } else { None }
}

/// An optional text's view.
pub open spec fn opt_view(text: Option<String>) -> Option<Seq<char>> {
    match text {
        Some(t) => Some(t@),
        None => None,
    }
}

/// Whether a text is non-empty.
fn filled(text: &String) -> (given: bool)
    ensures
        given == (text@.len() > 0),
{
    crate::text::chars_of(text.as_str()).len() > 0
}

/// A given field, as an exact filter.
fn some(text: &String) -> (filter: Option<String>)
    ensures
        opt_view(filter) == some_of(*text),
{
    if filled(text) { Some(text.clone()) } else { None }
}

/// Which records a request asks for: one producer stream, inside the ledger
/// it names, when it names a producer and an instance (the data plane's class
/// unless it names another); else one tenant's records. Either way a zone and
/// a ledger must be named.
pub fn scope_of(asked: &ListRequest) -> (scope: Result<(Scope, &'static str), &'static str>)
    ensures
        given(asked.producer) && given(asked.instance) && (!given(asked.zone) || !given(asked.ledger))
            ==> scope == Err::<(Scope, &'static str), &'static str>(
                "a producer stream is named inside one ledger: state `zone` and `ledger` too"),
        given(asked.producer) && given(asked.instance) && given(asked.zone) && given(asked.ledger) ==> (scope matches
            Ok((Scope::Stream { zone, ledger, class, producer, instance }, kind))
            && zone@ == asked.zone@ && ledger@ == asked.ledger@ && producer@ == asked.producer@
            && instance@ == asked.instance@ && kind@ == "stream"@
            && class@ == (if given(asked.producer_class) { asked.producer_class@ } else { PRODUCER_CLASS_DATA_PLANE@ })),
        !(given(asked.producer) && given(asked.instance)) && (!given(asked.zone) || !given(asked.ledger))
            ==> scope == Err::<(Scope, &'static str), &'static str>(
                "name a zone and a ledger, or one producer stream with `producer` and `instance`"),
        !(given(asked.producer) && given(asked.instance)) && given(asked.zone) && given(asked.ledger) ==> (scope matches
            Ok((Scope::Tenant { zone, ledger }, kind)) && zone@ == asked.zone@ && ledger@ == asked.ledger@
            && kind@ == "tenant"@),
{
    if filled(&asked.producer) && filled(&asked.instance) {
        if !filled(&asked.zone) || !filled(&asked.ledger) {
            return Err("a producer stream is named inside one ledger: state `zone` and `ledger` too");
        }
        let class = if filled(&asked.producer_class) {
            asked.producer_class.clone()
        } else {
            PRODUCER_CLASS_DATA_PLANE.to_string()
        };
        return Ok((
            Scope::Stream {
                zone: asked.zone.clone(),
                ledger: asked.ledger.clone(),
                class,
                producer: asked.producer.clone(),
                instance: asked.instance.clone(),
            },
            "stream",
        ));
    }
    if !filled(&asked.zone) || !filled(&asked.ledger) {
        return Err("name a zone and a ledger, or one producer stream with `producer` and `instance`");
    }
    Ok((Scope::Tenant { zone: asked.zone.clone(), ledger: asked.ledger.clone() }, "tenant"))
}

/// What a request narrows to. `producer` and `instance` narrow a tenant read;
/// on a stream read they already chose the scope, and are no filter.
pub fn filters_of(asked: &ListRequest) -> (filters: Filters)
    ensures
        crate::text::views(filters.event_types@) == crate::text::views(asked.event_types@),
        opt_view(filters.producer) == (if given(asked.producer) && given(asked.instance) { None } else { some_of(asked.producer) }),
        opt_view(filters.instance) == (if given(asked.producer) && given(asked.instance) { None } else { some_of(asked.instance) }),
        opt_view(filters.profile) == some_of(asked.profile),
        opt_view(filters.policy_partition) == some_of(asked.policy_partition),
        opt_view(filters.kind) == some_of(asked.kind),
        opt_view(filters.event_id) == some_of(asked.event_id),
        opt_view(filters.since) == some_of(asked.since),
        opt_view(filters.until_time) == some_of(asked.until_time),
        opt_view(filters.history) == some_of(asked.history),
{
    let stream_scoped = filled(&asked.producer) && filled(&asked.instance);
    let mut types: Vec<String> = Vec::new();
    let mut i: usize = 0;
    while i < asked.event_types.len()
        invariant
            i <= asked.event_types.len(),
            crate::text::views(types@) == crate::text::views(asked.event_types@.take(i as int)),
        decreases asked.event_types.len() - i,
    {
        let ghost before = types@;
        types.push(asked.event_types[i].clone());
        assert(crate::text::views(types@) =~= crate::text::views(before).push(asked.event_types@[i as int]@));
        assert(crate::text::views(asked.event_types@.take(i + 1)) =~= crate::text::views(asked.event_types@.take(i as int)).push(asked.event_types@[i as int]@));
        i += 1;
    }
    assert(asked.event_types@.take(asked.event_types.len() as int) =~= asked.event_types@);
    Filters {
        event_types: types,
        producer: if stream_scoped { None } else { some(&asked.producer) },
        instance: if stream_scoped { None } else { some(&asked.instance) },
        profile: some(&asked.profile),
        policy_partition: some(&asked.policy_partition),
        kind: some(&asked.kind),
        event_id: some(&asked.event_id),
        since: some(&asked.since),
        until_time: some(&asked.until_time),
        history: some(&asked.history),
    }
}

} // verus!
