//! The secret a read offset is authenticated with: one key per store, kept
//! beside it, created on first use from the system's source of randomness.

use vstd::prelude::*;

use crate::text::{decimal, push_decimal, push_str};

verus! {

/// The file holding the key offsets are issued under.
pub const KEY_FILE: &'static str = "CURSOR_KEY";
/// The file holding the previous key, still accepted while it exists.
pub const PREVIOUS_KEY_FILE: &'static str = "CURSOR_KEY.previous";
/// How many bytes a fresh key is.
pub const KEY_BYTES: usize = 32;

/// Fills `KEY_BYTES` bytes from the system's source of randomness, by
/// `ring::rand::SystemRandom::fill`. Claimed: when it succeeds it hands back
/// exactly `KEY_BYTES` bytes; which bytes is chance, and nothing is said of
/// them. It fails where the system has no source of randomness.
#[verifier::external_body]
fn system_random_key() -> (bytes: Option<Vec<u8>>)
    ensures
        bytes matches Some(b) ==> b@.len() == KEY_BYTES,
{
    let mut bytes = vec![0u8; KEY_BYTES];
    match ring::rand::SecureRandom::fill(&ring::rand::SystemRandom::new(), &mut bytes) {
        Ok(()) => Some(bytes),
        Err(_) => None,
    }
}

/// A fresh key, or why there is none.
pub fn fresh_key() -> (key: Result<Vec<u8>, String>)
    ensures
        key matches Ok(b) ==> b@.len() == KEY_BYTES,
        key matches Err(m) ==> m@ == "this system has no source of randomness"@,
{
    match system_random_key() {
        Some(bytes) => Ok(bytes),
        None => Err("this system has no source of randomness".to_string()),
    }
}

/// Whether a held key is long enough to authenticate offsets with.
pub fn long_enough(held: usize, minimum: usize) -> (usable: bool)
    ensures
        usable == (held >= minimum),
{
    held >= minimum
}

/// Why a held key is refused rather than used.
pub fn too_short_message(path: &str, held: usize, minimum: usize) -> (message: String)
    ensures
        message@ == "`"@ + path@ + "` holds "@ + decimal(held as nat) + " bytes, and an offset signing key is at least "@
            + decimal(minimum as nat)
            + ". Remove it to have one generated, understanding that every outstanding read offset becomes invalid"@,
{
    let mut message = String::new();
    push_str(&mut message, "`");
    push_str(&mut message, path);
    push_str(&mut message, "` holds ");
    push_decimal(&mut message, held as u64);
    push_str(&mut message, " bytes, and an offset signing key is at least ");
    push_decimal(&mut message, minimum as u64);
    push_str(&mut message, ". Remove it to have one generated, understanding that every outstanding read offset becomes invalid");
    message
}

} // verus!
