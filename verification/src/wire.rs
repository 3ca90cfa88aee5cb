//! DNS messages as they are sent.
use hickory_proto::op::Message;
use vstd::prelude::*;

verus! {

/// Whether bytes are a DNS message.
pub uninterp spec fn is_message(bytes: Seq<u8>) -> bool;

/// `hickory_proto::op::Message::from_vec`: whether it decodes the bytes. What
/// the message says is not looked at here.
#[verifier::external_body]
pub(crate) fn decode_wire_message(bytes: &[u8]) -> (decoded: bool)
    ensures
        decoded == is_message(bytes@),
{
    Message::from_vec(bytes).is_ok()
}

} // verus!
