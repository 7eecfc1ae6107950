//! Identifiers of peers, requests and operations.
use vstd::prelude::*;

use crate::chain::same_bytes32;

verus! {

/// A nonzero request identifier.
#[derive(Clone, Copy, Debug, PartialEq, Eq, Hash, Structural)]
pub struct HeaderSyncRequestId {
    value: u64,
}

impl HeaderSyncRequestId {
    /// A request identifier is never zero.
    #[verifier::type_invariant]
    spec fn nonzero(self) -> bool {
        self.value != 0
    }

    /// The number.
    pub closed spec fn spec_get(self) -> u64 {
        self.value
    }

    /// An identifier, unless the number is zero.
    pub fn new(value: u64) -> (r: Option<Self>)
        ensures
            r is Some <==> value != 0,
            r matches Some(id) ==> id.spec_get() == value,
    {
        if value == 0 {
            None
        } else {
            Some(HeaderSyncRequestId { value })
        }
    }

    /// The number, never zero.
    pub fn get(self) -> (value: u64)
        ensures
            value == self.spec_get(),
            value != 0,
    {
        proof {
            use_type_invariant(&self);
        }
        self.value
    }

    /// Whether two identifiers are the same.
    pub fn same(&self, other: &Self) -> (r: bool)
        ensures
            r == (*self == *other),
    {
        self.value == other.value
    }
}

/// The identity of a peer.
#[derive(Clone, Copy, Debug, PartialEq, Eq, Hash)]
pub struct ZakuraPeerId(pub [u8; 32]);

impl ZakuraPeerId {
    /// Whether two identities are the same.
    pub fn same(&self, other: &Self) -> (r: bool)
        ensures
            r == (*self == *other),
    {
        same_bytes32(&self.0, &other.0)
    }
}

/// One request on one session of one peer.
#[derive(Clone, Copy, Debug, PartialEq, Eq, Hash)]
pub struct HeaderSyncWireRequestIdentity {
    /// The peer that was asked.
    pub peer: ZakuraPeerId,
    /// The session on which it was asked.
    pub session_id: u64,
    /// The request on that session.
    pub request_id: HeaderSyncRequestId,
}

impl HeaderSyncWireRequestIdentity {
    /// Whether two identities are the same.
    pub fn same(&self, other: &Self) -> (r: bool)
        ensures
            r == (*self == *other),
    {
        self.peer.same(&other.peer) && self.session_id == other.session_id && self.request_id.same(
            &other.request_id,
        )
    }
}

/// What the state does with a response.
#[derive(Clone, Copy, Debug, PartialEq, Eq, Hash, Structural)]
pub enum HeaderSyncOperationKind {
    /// Commits its headers.
    CommitHeaders,
    /// Authenticates its tree roots.
    AuthenticateRoots,
}

/// One operation of the state on the response to one request.
#[derive(Clone, Copy, Debug, PartialEq, Eq, Hash)]
pub struct HeaderSyncOperationIdentity {
    /// The request whose response is operated on.
    pub wire_request: HeaderSyncWireRequestIdentity,
    /// What is done with it.
    pub op_kind: HeaderSyncOperationKind,
}

impl HeaderSyncOperationIdentity {
    /// Whether two identities are the same.
    pub fn same(&self, other: &Self) -> (r: bool)
        ensures
            r == (*self == *other),
    {
        self.wire_request.same(&other.wire_request) && self.op_kind == other.op_kind
    }
}

} // verus!
