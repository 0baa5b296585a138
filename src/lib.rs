use vstd::prelude::*;

pub mod ancestry;
pub mod bedding;
pub mod bytes;
pub mod check;
pub mod classify;
pub mod codec;
pub mod delta;
pub mod entry;
pub mod graph;
pub mod ids;
pub mod names;
pub mod path;
pub mod roundtrip;
pub mod win32;
pub mod wire;

verus! {

/// Returns the localized form of a message; without a catalogue it is the message itself.
pub fn gettext(msgid: &str) -> (r: String)
    ensures
        r@ == msgid@,
{
    msgid.to_string()
}

/// Returns the singular message when `n` is one and the plural one otherwise.
pub fn nggettext(msgid: &str, msgid_plural: &str, n: usize) -> (r: String)
    ensures
        n == 1 ==> r@ == msgid@,
        n != 1 ==> r@ == msgid_plural@,
{
    if n == 1 {
        msgid.to_string()
    } else {
        msgid_plural.to_string()
    }
}

} // verus!
