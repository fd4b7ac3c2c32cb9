//! Where a consumer stands, in a form that belongs to the consumer.
//!
//! The control plane holds no per-consumer cursor. An offset is opaque, and
//! bound to the scope that issued it: one issued for one tenant, presented
//! under another, is refused rather than reinterpreted.

use vstd::prelude::*;

use crate::decisions::store::{spec_scope_key, Scope};

verus! {

/// A position inside one scope.
#[derive(Debug, Clone, PartialEq, Eq)]
pub struct Offset {
    /// Which scope issued it.
    pub scope: String,
    /// The first sequence of the segment being read.
    pub segment: u64,
    /// How many records of that segment have been returned.
    pub position: u64,
}

/// Why an offset was refused.
#[derive(Debug, Clone, Copy, PartialEq, Eq, Structural)]
pub enum OffsetError {
    /// Not a token this store issued.
    Malformed,
    /// A token issued for a different scope.
    WrongScope,
    /// A position older than what the scope still holds.
    Expired,
}

/// What each refusal says to the consumer.
pub open spec fn offset_error_message(error: OffsetError) -> Seq<char> {
    match error {
        OffsetError::Malformed => "this is not an offset this store issued: an offset is opaque, and belongs to the consumer that was given it"@,
        OffsetError::WrongScope => "this offset was issued for a different zone and ledger: an offset is bound to the scope that issued it, and is refused elsewhere rather than reinterpreted"@,
        OffsetError::Expired => "this offset is older than what is still held: records between it and the oldest available one have left on the retention schedule"@,
    }
}

impl OffsetError {
    /// What the refusal says to the consumer.
    pub fn message(&self) -> (text: &'static str)
        ensures
            text@ == offset_error_message(*self),
    {
        match self {
            OffsetError::Malformed => "this is not an offset this store issued: an offset is opaque, and belongs to the consumer that was given it",
            OffsetError::WrongScope => "this offset was issued for a different zone and ledger: an offset is bound to the scope that issued it, and is refused elsewhere rather than reinterpreted",
            OffsetError::Expired => "this offset is older than what is still held: records between it and the oldest available one have left on the retention schedule",
        }
    }
}

impl Offset {
    /// The position a reader starts from when it has none.
    pub fn beginning(scope: &Scope) -> (offset: Self)
        ensures
            offset.scope@ == spec_scope_key(*scope),
            offset.segment == 0,
            offset.position == 0,
    {
        Offset { scope: scope.key(), segment: 0, position: 0 }
    }

    /// An offset read back from its token, accepted only under the scope that
    /// issued it.
    pub fn bound_to(self, scope: &Scope) -> (bound: Result<Offset, OffsetError>)
        ensures
            self.scope@ == spec_scope_key(*scope) ==> bound == Ok::<Offset, OffsetError>(self),
            self.scope@ != spec_scope_key(*scope) ==> bound == Err::<Offset, OffsetError>(OffsetError::WrongScope),
    {
        let key = scope.key();
        if crate::text::same_text(self.scope.as_str(), key.as_str()) {
            Ok(self)
        } else {
            Err(OffsetError::WrongScope)
        }
    }

    /// The opaque token a consumer keeps, from the offset's rendered form.
    /// The token reads back as that form.
    pub fn encode_body(body: &[u8]) -> (token: String)
        requires
            body@.len() / 3 * 4 + 4 <= usize::MAX,
        ensures
            token@ == crate::encoding::b64_encoded(body@),
            crate::encoding::b64_decoded(token@) == Some(body@),
    {
        crate::encoding::encode(body)
    }

    /// The rendered form inside a token; a token that is not base64 is not one
    /// this store issued.
    pub fn decode_body(token: &str) -> (body: Result<Vec<u8>, OffsetError>)
        ensures
            crate::encoding::b64_decoded(token@) is None ==> body == Err::<Vec<u8>, OffsetError>(OffsetError::Malformed),
            crate::encoding::b64_decoded(token@) matches Some(b) ==> (body matches Ok(v) && v@ == b),
    {
        match crate::encoding::decode(token) {
            Ok(bytes) => Ok(bytes),
            Err(_) => Err(OffsetError::Malformed),
        }
    }
}

} // verus!
