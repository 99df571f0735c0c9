//! Key codes and the lookup from key names to codes.
//!
//! The daemon speaks of keys by their 16-bit input event codes. Key names
//! such as `KEY_LEFTCTRL` appear only in configuration; they are resolved
//! to codes once, when a binding is constructed, by the table that the
//! `evdev` crate ships.

use vstd::prelude::*;

verus! {

/// The code that the key-name table assigns to `name`, or `None` when the
/// name is not a known key. The table is static, so the answer is a
/// function of the name alone.
pub uninterp spec fn key_code_of(name: Seq<char>) -> Option<u16>;

/// Relies on `evdev::KeyCode::from_str`, which looks the name up in the
/// crate's static name table: the result depends on the name alone.
#[verifier::external_body]
pub(crate) fn key_code_from_name(name: &str) -> (r: Option<u16>)
    ensures
        r == key_code_of(name@),
{
    match <evdev::KeyCode as core::str::FromStr>::from_str(name) {
        Ok(key) => Some(key.code()),
        Err(_) => None,
    }
}

} // verus!
