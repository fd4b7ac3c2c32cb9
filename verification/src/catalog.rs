//! The catalog's refusals in the API's vocabulary: the one place the two
//! meet. The safe sentence and the operator's detail are separated here.

use vstd::prelude::*;

use crate::api::{ApiError, ErrorClass};
use crate::text::{decimal, push_decimal, push_str};

verus! {

/// Why the catalog refused, as plain values.
#[derive(Debug, Clone, PartialEq, Eq)]
pub enum CatalogRefusal {
    /// Nothing of `kind` answers to `selector`.
    NotFound { kind: String, selector: String },
    /// `name` is already taken in `scope`.
    NameTaken { name: String, scope: String },
    /// The zone still holds ledgers.
    NotEmpty { zone: String, ledgers: u64 },
    /// `name` fails the catalog's naming rules.
    InvalidName { name: String, detail: String },
    /// The store failed; `detail` may name paths.
    Backend { detail: String },
}

/// The refusal the API answers a catalog refusal with: class, code, safe
/// sentence, and, for a store failure, the detail kept for the operator.
pub open spec fn spec_api_error(refusal: CatalogRefusal) -> (ErrorClass, Seq<char>, Seq<char>, Option<Seq<char>>) {
    match refusal {
        CatalogRefusal::NotFound { kind, selector } =>
            (ErrorClass::NotFound, "not_found"@, "no "@ + kind@ + " answers to `"@ + selector@ + "`"@, None),
        CatalogRefusal::NameTaken { name, scope } =>
            (ErrorClass::Conflict, "name_taken"@, "the name `"@ + name@ + "` is already taken in "@ + scope@, None),
        CatalogRefusal::NotEmpty { zone, ledgers } =>
            (ErrorClass::Conflict, "zone_not_empty"@, "the zone `"@ + zone@ + "` still holds "@ + decimal(ledgers as nat)
                + " ledger(s): delete them first"@, None),
        CatalogRefusal::InvalidName { name, detail } =>
            (ErrorClass::Validation, "invalid_name"@, "`"@ + name@ + "` is not a name this catalog accepts: "@ + detail@, None),
        CatalogRefusal::Backend { detail } =>
            (ErrorClass::Internal, "catalog_failed"@, "the catalog store failed"@, Some(detail@)),
    }
}

/// The view of an API refusal.
pub open spec fn api_view(error: ApiError) -> (ErrorClass, Seq<char>, Seq<char>, Option<Seq<char>>) {
    (error.class, error.code@, error.message@, match error.internal { Some(d) => Some(d@), None => None })
}

/// Translates a catalog refusal into the API's.
pub fn api_error(refusal: &CatalogRefusal) -> (error: ApiError)
    ensures
        api_view(error) == spec_api_error(*refusal),
{
    match refusal {
        CatalogRefusal::NotFound { kind, selector } => {
            let mut message = String::new();
            push_str(&mut message, "no ");
            push_str(&mut message, kind.as_str());
            push_str(&mut message, " answers to `");
            push_str(&mut message, selector.as_str());
            push_str(&mut message, "`");
            assert(message@ =~= "no "@ + kind@ + " answers to `"@ + selector@ + "`"@);
            let e = ApiError::new(ErrorClass::NotFound, "not_found", message);

            e
        },
        CatalogRefusal::NameTaken { name, scope } => {
            let mut message = String::new();
            push_str(&mut message, "the name `");
            push_str(&mut message, name.as_str());
            push_str(&mut message, "` is already taken in ");
            push_str(&mut message, scope.as_str());
            assert(message@ =~= "the name `"@ + name@ + "` is already taken in "@ + scope@);
            let e = ApiError::new(ErrorClass::Conflict, "name_taken", message);
            e
        },
        CatalogRefusal::NotEmpty { zone, ledgers } => {
            let mut message = String::new();
            push_str(&mut message, "the zone `");
            push_str(&mut message, zone.as_str());
            push_str(&mut message, "` still holds ");
            push_decimal(&mut message, *ledgers);
            push_str(&mut message, " ledger(s): delete them first");
            assert(message@ =~= "the zone `"@ + zone@ + "` still holds "@ + decimal(*ledgers as nat) + " ledger(s): delete them first"@);
            let e = ApiError::new(ErrorClass::Conflict, "zone_not_empty", message);
            e
        },
        CatalogRefusal::InvalidName { name, detail } => {
            let mut message = String::new();
            push_str(&mut message, "`");
            push_str(&mut message, name.as_str());
            push_str(&mut message, "` is not a name this catalog accepts: ");
            push_str(&mut message, detail.as_str());
            assert(message@ =~= "`"@ + name@ + "` is not a name this catalog accepts: "@ + detail@);
            let e = ApiError::new(ErrorClass::Validation, "invalid_name", message);
            e
        },
        CatalogRefusal::Backend { detail } => {
            ApiError::new(ErrorClass::Internal, "catalog_failed", "the catalog store failed".to_string())
                .with_internal(detail.clone())
        },
    }
}

/// Whether a refused operation goes on the trail: only when the deployment
/// asked for refusals there, and only for what a caller caused. A failure of
/// ours attests nothing about anybody's conduct.
pub fn on_the_trail(class: ErrorClass, audit_refusals: bool) -> (recorded: bool)
    ensures
        recorded == (audit_refusals && (class == ErrorClass::Validation || class == ErrorClass::Conflict
            || class == ErrorClass::NotFound)),
{
    audit_refusals && match class {
        ErrorClass::Validation | ErrorClass::Conflict | ErrorClass::NotFound => true,
        _ => false,
    }
}

/// Whether a recorded action is a mutation that happened, to be counted as
/// one: every action but a refusal put on the trail, which is counted when
/// it is refused.
pub open spec fn spec_is_mutation(action: Seq<char>) -> bool {
    !(action.len() >= 8 && action.skip(action.len() - 8) == ".refused"@)
}

/// Whether a recorded action is a mutation that happened.
pub fn is_mutation(action: &str) -> (mutation: bool)
    ensures
        mutation == spec_is_mutation(action@),
{
    proof {
        reveal_strlit(".refused");
    }
    let chars = crate::text::chars_of(action);
    if chars.len() < 8 {
        return true;
    }
    let tail = crate::events::store::char_range(&chars, chars.len() - 8, chars.len());
    assert(tail@ =~= action@.skip(action@.len() - 8));
    let suffix = crate::text::chars_of(".refused");
    let mut same = true;
    let mut i: usize = 0;
    while i < 8
        invariant
            i <= 8,
            tail@.len() == 8,
            suffix@ == ".refused"@,
            suffix@.len() == 8,
            same <==> (forall|j: int| 0 <= j < i ==> tail@[j] == suffix@[j]),
        decreases 8 - i,
    {
        if tail[i] != suffix[i] {
            same = false;
        }
        i += 1;
    }
    assert(same <==> tail@ =~= ".refused"@);
    !same
}

} // verus!
