//! Direct messages: how the recipient of a message is named.

use vstd::prelude::*;

use crate::node::{canonical_node_id, node_id_text, node_id_value};
use crate::text::{byte_len, chars_of, fits_within};

verus! {

/// The reply where the recipient's address does not read as a node id.
pub const INVALID_NODEID: &'static str = "The given address is invalid.";

/// The reply where no user has the address or short name given.
pub const NO_SUCH_USER: &'static str = "That user does not exist.";

/// Who a message is addressed to.
#[derive(Debug, Clone, PartialEq, Eq)]
pub enum Recipient {
    /// The user with this canonical node id.
    NodeId(String),
    /// The user with this short name.
    ShortName(String),
    /// The address looks like a node id but does not read as one.
    Invalid,
}

/// Whether an address is meant as a node id: it is longer than the longest
/// short name, five bytes, or starts with `!`.
pub open spec fn names_node_id(name: Seq<char>) -> bool {
    byte_len(name) > 5 || (name.len() > 0 && name[0] == '!')
}

/// Read a recipient's address: a node id, of either case and with or without
/// `!`, where it is meant as one; else a short name.
pub fn recipient(name: &str) -> (r: Recipient)
    ensures
        names_node_id(name@) ==> match node_id_value(name@) {
            Some(n) => (r matches Recipient::NodeId(id) && id@ == node_id_text(n)),
            None => r matches Recipient::Invalid,
        },
        !names_node_id(name@) ==> (r matches Recipient::ShortName(s) && s@ == name@),
{
    let chars = chars_of(name);
    if !fits_within(&chars, 5) || (chars.len() > 0 && chars[0] == '!') {
        match canonical_node_id(name) {
            Some(id) => Recipient::NodeId(id),
            None => Recipient::Invalid,
        }
    } else {
        Recipient::ShortName(name.to_owned())
    }
}

} // verus!
