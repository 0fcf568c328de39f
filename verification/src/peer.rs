//! Peers and their ids.

use iroh::{EndpointId, KeyParsingError};
use vstd::prelude::*;

use crate::error::Error;
use crate::uri::Uri;

verus! {

/// The id of a peer: the bytes of its public key.
#[derive(Clone, Copy, Debug)]
pub struct PeerId {
    pub bytes: [u8; 32],
}

impl PeerId {
    /// The bytes of the id.
    pub open spec fn view(&self) -> Seq<u8> {
        self.bytes@
    }

    /// Tells whether two ids are the same.
    pub fn same_as(&self, other: &PeerId) -> (same: bool)
        ensures
            same == (self@ == other@),
    {
        let mut i: usize = 0;
        while i < 32
            invariant
                i <= 32,
                forall|j: int| 0 <= j < i ==> self.bytes@[j] == other.bytes@[j],
            decreases 32 - i,
        {
            if self.bytes[i] != other.bytes[i] {
                return false;
            }
            i = i + 1;
        }
        assert(self@ =~= other@);
        true
    }
}

/// What the `Display` of a `KeyParsingError` writes: what is wrong with the text.
pub uninterp spec fn key_error_text(error: KeyParsingError) -> Seq<char>;

/// The bytes of the endpoint id that `iroh` reads in `text`, or what its error
/// says is wrong with the text.
pub uninterp spec fn parsed_endpoint_id(text: Seq<char>) -> Result<Seq<u8>, Seq<char>>;

/// Reads `text` as an `iroh::EndpointId`. Trusted: the id, or what the error says,
/// is a function of the text alone. The encodings and which bytes are a public key
/// are not stated. Nor is the place in the code that an error may carry, which
/// depends on the environment.
#[verifier::external_body]
fn read_endpoint_id(text: &str) -> (id: Result<[u8; 32], KeyParsingError>)
    ensures
        parsed_endpoint_id(text@) == (match id {
            Ok(bytes) => Ok(bytes@),
            Err(error) => Err(key_error_text(error)),
        }),
{
    let id: EndpointId = text.parse()?;
    Ok(*id.as_bytes())
}

/// The peer of an authority, given what reading it as an endpoint id gave.
pub fn peer_from(read: Result<[u8; 32], KeyParsingError>) -> (peer: Result<PeerId, Error>)
    ensures
        match read {
            Ok(bytes) => peer matches Ok(id) && id.bytes == bytes,
            Err(error) => peer == Err::<PeerId, Error>(Error::BadPeerId(error)),
        },
{
    match read {
        Ok(bytes) => Ok(PeerId { bytes }),
        Err(error) => Err(Error::BadPeerId(error)),
    }
}

/// Whether `peer` is what the authority of a URI names: the id that it encodes,
/// or the error for a URI without one or with a malformed one.
pub open spec fn is_peer_of(authority: Option<Seq<char>>, peer: Result<PeerId, Error>) -> bool {
    match authority {
        None => peer == Err::<PeerId, Error>(Error::MissingAuthority),
        Some(text) => match parsed_endpoint_id(text) {
            Ok(bytes) => peer matches Ok(id) && id@ == bytes,
            Err(message) => peer matches Err(Error::BadPeerId(error)) && key_error_text(error)
                == message,
        },
    }
}

/// The peer that the authority of a URI names.
pub fn peer_id(uri: &Uri) -> (peer: Result<PeerId, Error>)
    ensures
        is_peer_of(uri@.authority, peer),
{
    match uri.authority() {
        None => Err(Error::MissingAuthority),
        Some(authority) => peer_from(read_endpoint_id(authority)),
    }
}

/// The peer of a target is the endpoint id that its authority encodes. A target
/// without an authority names none, nor does one whose authority encodes no id, and
/// the error says which and what is wrong.
pub proof fn law_peer_is_authority(authority: Option<Seq<char>>, peer: Result<PeerId, Error>)
    requires
        is_peer_of(authority, peer),
    ensures
        authority is None <==> peer == Err::<PeerId, Error>(Error::MissingAuthority),
        peer is Ok <==> authority is Some && parsed_endpoint_id(authority->0) is Ok,
        peer is Ok ==> parsed_endpoint_id(authority->0) == Ok::<Seq<u8>, Seq<char>>(
            peer->Ok_0@,
        ),
        authority is Some && parsed_endpoint_id(authority->0) is Err ==> (peer matches Err(
            Error::BadPeerId(error),
        ) && parsed_endpoint_id(authority->0) == Err::<Seq<u8>, Seq<char>>(
            key_error_text(error),
        )),
{
}

/// An id is shown as its bytes, so that ids are the same exactly where all their
/// bytes are.
pub proof fn law_ids_differ_by_bytes(left: PeerId, right: PeerId)
    ensures
        left@.len() == 32,
        left@ == right@ <==> (forall|i: int| 0 <= i < 32 ==> left.bytes[i] == right.bytes[i]),
{
    if forall|i: int| 0 <= i < 32 ==> left.bytes[i] == right.bytes[i] {
        assert forall|i: int| 0 <= i < 32 implies left@[i] == right@[i] by {
            assert(left.bytes[i] == right.bytes[i]);
        }
        assert(left@ =~= right@);
    }
}

} // verus!
