//! Zakura protocol services: the streams that they declare and the peers that they are handed.
use std::collections::HashMap;
use tokio_util::sync::CancellationToken;
use vstd::prelude::*;
use vstd::string::StringExecFns;

use crate::frame::Frame;
use crate::header_sync::ids::ZakuraPeerId;

verus! {

broadcast use vstd::std_specs::hash::group_hash_axioms;

/// A token that tells tasks to stop.
#[verifier::external_type_specification]
#[verifier::external_body]
pub struct ExCancellationToken(CancellationToken);

/// `tokio_util::sync::CancellationToken::clone`: the clone is the same token, in that cancelling
/// either cancels the other.
#[verifier::external_body]
fn same_token(token: &CancellationToken) -> (r: CancellationToken)
    ensures
        r == *token,
{
    token.clone()
}

/// The token that a child token was made from.
pub uninterp spec fn parent_token(child: CancellationToken) -> CancellationToken;

/// `tokio_util::sync::CancellationToken::child_token`: a token of its own, made from `token` and
/// other than it. What cancelling one of the two does to the other is not stated: that is about
/// later calls.
#[verifier::external_body]
fn child_token(token: &CancellationToken) -> (r: CancellationToken)
    ensures
        parent_token(r) == *token,
        r != *token,
{
    token.child_token()
}

/// Transport mode for a service-declared stream.
#[derive(Copy, Clone, Debug, PartialEq, Eq, Structural)]
pub enum StreamMode {
    /// A long-lived ordered stream between connected peers.
    Ordered {
        /// Which side of a connection may proactively open this stream.
        opening: OrderedStreamOpening,
    },
    /// A short-lived request/response stream opened per request.
    RequestResponse,
}

/// Opening policy for a long-lived ordered stream.
#[derive(Copy, Clone, Debug, PartialEq, Eq, Structural)]
pub enum OrderedStreamOpening {
    /// Only the peer that initiated the underlying connection opens the stream.
    Initiator,
    /// Either peer may open the stream when its local service has demand.
    ///
    /// If both peers open it concurrently, the transport's deterministic
    /// collision tiebreak selects one physical stream for both services.
    EitherPeer,
}

/// A service-declared Zakura stream.
#[derive(Copy, Clone, Debug, PartialEq, Eq, Structural)]
pub struct Stream {
    /// Unique stream kind carried in `StreamPrelude.stream_kind`.
    pub kind: u16,
    /// Version of this stream kind.
    pub version: u16,
    /// Maximum application frame bytes for this stream.
    pub frame_cap: u32,
    /// Capability bit both peers must negotiate before this stream is wired.
    pub capability: u64,
    /// Stream lifetime and opening semantics.
    pub mode: StreamMode,
}

impl Stream {
    /// Whether this side may proactively open this ordered stream.
    pub open spec fn opens_ordered(self, is_connection_initiator: bool) -> bool {
        match self.mode {
            StreamMode::Ordered { opening: OrderedStreamOpening::Initiator } =>
                is_connection_initiator,
            StreamMode::Ordered { opening: OrderedStreamOpening::EitherPeer } => true,
            StreamMode::RequestResponse => false,
        }
    }

    /// Return whether this is a long-lived ordered stream.
    pub fn is_ordered(self) -> (r: bool)
        ensures
            r == (self.mode is Ordered),
    {
        match self.mode {
            StreamMode::Ordered { .. } => true,
            StreamMode::RequestResponse => false,
        }
    }

    /// Return whether this is a short-lived request/response stream.
    pub fn is_request_response(self) -> (r: bool)
        ensures
            r == (self.mode is RequestResponse),
    {
        self.mode == StreamMode::RequestResponse
    }

    /// Return whether this side may proactively open this ordered stream.
    pub fn may_open_ordered(self, is_connection_initiator: bool) -> (r: bool)
        ensures
            r == self.opens_ordered(is_connection_initiator),
    {
        match self.mode {
            StreamMode::Ordered { opening: OrderedStreamOpening::Initiator } =>
                is_connection_initiator,
            StreamMode::Ordered { opening: OrderedStreamOpening::EitherPeer } => true,
            StreamMode::RequestResponse => false,
        }
    }
}

/// The token of the service of a freshly built peer is made from that of the peer, whichever of its
/// streams it belongs to.
pub proof fn service_stops_with_its_peer<R, S>(
    streams: Map<u16, (R, S)>,
    opened: Map<u16, ServiceStream<R, S>>,
    cancel_token: CancellationToken,
    token: CancellationToken,
)
    requires
        opened_as(streams, cancel_token, opened),
        is_service_token(opened, cancel_token, token),
    ensures
        is_child(token, cancel_token),
{
}

/// On every connection some side may open an ordered stream, and no side opens a request/response
/// stream as an ordered one.
pub proof fn ordered_streams_can_be_opened(stream: Stream)
    ensures
        stream.mode is Ordered <==> stream.opens_ordered(true),
        stream.mode is RequestResponse ==> !stream.opens_ordered(true) && !stream.opens_ordered(
            false,
        ),
{
}

/// The side that opened a connection may open every ordered stream on it, and the other side
/// exactly those that either peer may open.
pub proof fn opening_policy_names_the_side(stream: Stream)
    ensures
        stream.opens_ordered(true) <==> stream.mode is Ordered,
        stream.opens_ordered(false) <==> stream.mode is Ordered && stream.mode->opening
            == OrderedStreamOpening::EitherPeer,
{
}

/// Direction of an authenticated connection.
#[derive(Copy, Clone, Debug, PartialEq, Eq, Structural)]
pub enum ServicePeerDirection {
    /// The peer connected to this node.
    Inbound,
    /// This node connected to the peer.
    Outbound,
}

/// The address of a peer, as its bytes.
#[derive(Copy, Clone, Debug, PartialEq, Eq)]
pub enum RemoteIp {
    /// An IPv4 address.
    V4([u8; 4]),
    /// An IPv6 address.
    V6([u8; 16]),
}

/// Transport state for one ordered service stream.
#[derive(Debug)]
pub struct ServiceStream<R, S> {
    /// The generation of the ordered stream.
    pub session_id: u64,
    /// The receiving half.
    pub recv: R,
    /// The sending half.
    pub send: S,
    /// Stops the work on this stream.
    pub cancel_token: CancellationToken,
}

impl<R, S> ServiceStream<R, S> {
    /// A stream from its parts.
    pub fn new(session_id: u64, recv: R, send: S, cancel_token: CancellationToken) -> (stream: Self)
        ensures
            stream == (ServiceStream { session_id, recv, send, cancel_token }),
    {
        ServiceStream { session_id, recv, send, cancel_token }
    }
}

/// Per-peer transport state handed to a service when a peer connects.
///
/// `R` and `S` are the receiving and sending halves of a stream, `C` records why a connection
/// closed.
#[derive(Debug)]
pub struct Peer<R, S, C> {
    /// Authenticated Zakura peer identity.
    pub id: ZakuraPeerId,
    /// Supervisor registration generation that owns this service session.
    pub conn_id: u64,
    /// Remote IP address when the transport knows it.
    pub remote_ip: Option<RemoteIp>,
    /// Capabilities accepted by both peers.
    pub negotiated: u64,
    /// Direction of the underlying authenticated connection.
    pub direction: ServicePeerDirection,
    /// The streams that no service has taken, by kind.
    pub streams: HashMap<u16, ServiceStream<R, S>>,
    /// Stops all work for this peer.
    pub cancel_token: CancellationToken,
    /// Stops the local session of one service.
    pub service_cancel_token: CancellationToken,
    /// Why the connection closed.
    pub close_cause: C,
}

/// Whether a token was made from another, to be stopped with it.
pub open spec fn is_child(child: CancellationToken, parent: CancellationToken) -> bool {
    parent_token(child) == parent && child != parent
}

/// Whether service streams hold the halves of `streams`, each in its first generation and with a
/// stop token made from that of the peer.
pub open spec fn opened_as<R, S>(
    streams: Map<u16, (R, S)>,
    cancel_token: CancellationToken,
    opened: Map<u16, ServiceStream<R, S>>,
) -> bool {
    &&& opened.dom() == streams.dom()
    &&& forall|kind: u16| #[trigger]
        opened.contains_key(kind) ==> {
            &&& opened[kind].session_id == 0
            &&& opened[kind].recv == streams[kind].0
            &&& opened[kind].send == streams[kind].1
            &&& is_child(opened[kind].cancel_token, cancel_token)
        }
}

/// Whether a token stops the local session of a service: that of one of its streams, or, if it
/// has none, one made from that of the peer.
pub open spec fn is_service_token<R, S>(
    streams: Map<u16, ServiceStream<R, S>>,
    cancel_token: CancellationToken,
    token: CancellationToken,
) -> bool {
    if streams.dom() == Set::<u16>::empty() {
        is_child(token, cancel_token)
    } else {
        exists|kind: u16| #[trigger] streams.contains_key(kind) && streams[kind].cancel_token
            == token
    }
}

/// The kinds of streams, in no particular order.
fn kinds_of<V>(streams: &HashMap<u16, V>) -> (kinds: Vec<u16>)
    ensures
        forall|kind: u16| #[trigger] kinds@.contains(kind) <==> streams@.contains_key(kind),
{
    let ghost all = vstd::std_specs::iter::IteratorSpec::remaining(
        &vstd::std_specs::hash::spec_keys_iter(streams),
    );
    let mut kinds: Vec<u16> = Vec::new();
    for kind in it: streams.keys()
        invariant
            it.seq() == all,
            kinds@.len() == it.index(),
            forall|i: int| 0 <= i < kinds@.len() ==> #[trigger] kinds@[i] == *all[i],
    {
        kinds.push(*kind);
    }
    proof {
        assert(all.unref().to_set() == streams@.dom());
        assert(kinds@ =~= all.unref());
    }
    kinds
}

/// Makes service streams of freshly opened streams.
fn open_streams<R, S>(
    streams: HashMap<u16, (R, S)>,
    cancel_token: &CancellationToken,
) -> (opened: HashMap<u16, ServiceStream<R, S>>)
    ensures
        opened_as(streams@, *cancel_token, opened@),
{
    let ghost start = streams@;
    let kinds = kinds_of(&streams);
    let mut rest = streams;
    let mut opened: HashMap<u16, ServiceStream<R, S>> = HashMap::new();
    let mut i: usize = 0;
    while i < kinds.len()
        invariant
            i <= kinds@.len(),
            forall|kind: u16| #[trigger] kinds@.contains(kind) <==> start.contains_key(kind),
            forall|kind: u16| #[trigger]
                rest@.contains_key(kind) <==> start.contains_key(kind) && !opened@.contains_key(
                    kind,
                ),
            forall|kind: u16| #[trigger] rest@.contains_key(kind) ==> rest@[kind] == start[kind],
            forall|j: int| 0 <= j < i ==> !rest@.contains_key(#[trigger] kinds@[j]),
            forall|kind: u16| #[trigger]
                opened@.contains_key(kind) ==> {
                    &&& start.contains_key(kind)
                    &&& opened@[kind].session_id == 0
                    &&& opened@[kind].recv == start[kind].0
                    &&& opened@[kind].send == start[kind].1
                    &&& is_child(opened@[kind].cancel_token, *cancel_token)
                },
        decreases kinds@.len() - i,
    {
        let kind: u16 = kinds[i];
        if let Some((recv, send)) = rest.remove(&kind) {
            let stream = ServiceStream::new(0, recv, send, child_token(cancel_token));
            let _ = opened.insert(kind, stream);
        }
        i = i + 1;
    }
    proof {
        assert forall|kind: u16| start.contains_key(kind) implies #[trigger] opened@.contains_key(
            kind,
        ) by {
            assert(kinds@.contains(kind));
            let j = choose|j: int| 0 <= j < kinds@.len() && kinds@[j] == kind;
            assert(!rest@.contains_key(kinds@[j]));
        }
        assert(opened@.dom() =~= start.dom());
    }
    opened
}

/// The token that stops the local session of a service.
fn service_token<R, S>(
    streams: &HashMap<u16, ServiceStream<R, S>>,
    cancel_token: &CancellationToken,
) -> (token: CancellationToken)
    ensures
        is_service_token(streams@, *cancel_token, token),
{
    let kinds = kinds_of(streams);
    if kinds.len() == 0 {
        assert forall|kind: u16| !#[trigger] streams@.contains_key(kind) by {
            assert(!kinds@.contains(kind));
        }
        assert(streams@.dom() =~= Set::<u16>::empty());
        return child_token(cancel_token);
    }
    let kind: u16 = kinds[0];
    assert(kinds@.contains(kind));
    assert(streams@.contains_key(kind));
    match streams.get(&kind) {
        Some(stream) => {
            let token = same_token(&stream.cancel_token);
            assert(streams@.dom().contains(kind));
            token
        },
        None => child_token(cancel_token),
    }
}

impl<R, S, C> Peer<R, S, C> {
    /// Whether a peer has given parts, and tokens for its service and streams made from its own.
    pub open spec fn built_from(
        self,
        conn_id: u64,
        id: ZakuraPeerId,
        remote_ip: Option<RemoteIp>,
        negotiated: u64,
        direction: ServicePeerDirection,
        streams: Map<u16, (R, S)>,
        cancel_token: CancellationToken,
        close_cause: C,
    ) -> bool {
        &&& self.id == id
        &&& self.conn_id == conn_id
        &&& self.remote_ip == remote_ip
        &&& self.negotiated == negotiated
        &&& self.direction == direction
        &&& opened_as(streams, cancel_token, self.streams@)
        &&& self.cancel_token == cancel_token
        &&& is_service_token(self.streams@, cancel_token, self.service_cancel_token)
        &&& self.close_cause == close_cause
    }

    /// Build an inbound peer from already-opened transport streams.
    pub fn new(
        id: ZakuraPeerId,
        remote_ip: Option<RemoteIp>,
        negotiated: u64,
        streams: HashMap<u16, (R, S)>,
        cancel_token: CancellationToken,
        close_cause: C,
    ) -> (peer: Self)
        ensures
            peer.built_from(
                0,
                id,
                remote_ip,
                negotiated,
                ServicePeerDirection::Inbound,
                streams@,
                cancel_token,
                close_cause,
            ),
    {
        Self::new_with_conn_id_and_direction_and_close_cause(
            0,
            id,
            remote_ip,
            negotiated,
            ServicePeerDirection::Inbound,
            streams,
            cancel_token,
            close_cause,
        )
    }

    /// Build a peer from already-opened transport streams and a known direction.
    pub fn new_with_direction(
        id: ZakuraPeerId,
        remote_ip: Option<RemoteIp>,
        negotiated: u64,
        direction: ServicePeerDirection,
        streams: HashMap<u16, (R, S)>,
        cancel_token: CancellationToken,
        close_cause: C,
    ) -> (peer: Self)
        ensures
            peer.built_from(
                0,
                id,
                remote_ip,
                negotiated,
                direction,
                streams@,
                cancel_token,
                close_cause,
            ),
    {
        Self::new_with_conn_id_and_direction_and_close_cause(
            0,
            id,
            remote_ip,
            negotiated,
            direction,
            streams,
            cancel_token,
            close_cause,
        )
    }

    /// Build a peer from transport streams, connection id, direction and close recorder.
    pub fn new_with_conn_id_and_direction_and_close_cause(
        conn_id: u64,
        id: ZakuraPeerId,
        remote_ip: Option<RemoteIp>,
        negotiated: u64,
        direction: ServicePeerDirection,
        streams: HashMap<u16, (R, S)>,
        cancel_token: CancellationToken,
        close_cause: C,
    ) -> (peer: Self)
        ensures
            peer.built_from(
                conn_id,
                id,
                remote_ip,
                negotiated,
                direction,
                streams@,
                cancel_token,
                close_cause,
            ),
    {
        let opened = open_streams(streams, &cancel_token);
        Self::new_with_service_streams(
            conn_id,
            id,
            remote_ip,
            negotiated,
            direction,
            opened,
            cancel_token,
            close_cause,
        )
    }

    /// Build a peer from service streams, whose own tokens stop them.
    pub fn new_with_service_streams(
        conn_id: u64,
        id: ZakuraPeerId,
        remote_ip: Option<RemoteIp>,
        negotiated: u64,
        direction: ServicePeerDirection,
        streams: HashMap<u16, ServiceStream<R, S>>,
        cancel_token: CancellationToken,
        close_cause: C,
    ) -> (peer: Self)
        ensures
            is_service_token(streams@, cancel_token, peer.service_cancel_token),
            peer == (Peer {
                id,
                conn_id,
                remote_ip,
                negotiated,
                direction,
                streams,
                cancel_token,
                service_cancel_token: peer.service_cancel_token,
                close_cause,
            }),
    {
        let service_cancel_token = service_token(&streams, &cancel_token);
        Self::new_with_service_cancel_token(
            conn_id,
            id,
            remote_ip,
            negotiated,
            direction,
            streams,
            cancel_token,
            service_cancel_token,
            close_cause,
        )
    }

    /// Build a peer from all of its parts.
    pub fn new_with_service_cancel_token(
        conn_id: u64,
        id: ZakuraPeerId,
        remote_ip: Option<RemoteIp>,
        negotiated: u64,
        direction: ServicePeerDirection,
        streams: HashMap<u16, ServiceStream<R, S>>,
        cancel_token: CancellationToken,
        service_cancel_token: CancellationToken,
        close_cause: C,
    ) -> (peer: Self)
        ensures
            peer == (Peer {
                id,
                conn_id,
                remote_ip,
                negotiated,
                direction,
                streams,
                cancel_token,
                service_cancel_token,
                close_cause,
            }),
    {
        Peer {
            id,
            conn_id,
            remote_ip,
            negotiated,
            direction,
            streams,
            cancel_token,
            service_cancel_token,
            close_cause,
        }
    }

    /// Whether a peer is another but for its streams.
    pub open spec fn same_but_streams(self, other: Self) -> bool {
        self == (Peer { streams: self.streams, ..other })
    }

    /// Take ownership of a stream pair for `kind`.
    pub fn take_stream(&mut self, kind: u16) -> (r: Option<(R, S)>)
        ensures
            final(self).same_but_streams(*old(self)),
            final(self).streams@ == old(self).streams@.remove(kind),
            match r {
                Some((recv, send)) => {
                    &&& old(self).streams@.contains_key(kind)
                    &&& old(self).streams@[kind].recv == recv
                    &&& old(self).streams@[kind].send == send
                },
                None => !old(self).streams@.contains_key(kind),
            },
    {
        match self.take_stream_with_session_id(kind) {
            Some((_, recv, send)) => Some((recv, send)),
            None => None,
        }
    }

    /// Take ownership of a stream pair and its owning ordered-stream generation.
    pub fn take_stream_with_session_id(&mut self, kind: u16) -> (r: Option<(u64, R, S)>)
        ensures
            final(self).same_but_streams(*old(self)),
            final(self).streams@ == old(self).streams@.remove(kind),
            match r {
                Some((session_id, recv, send)) => {
                    &&& old(self).streams@.contains_key(kind)
                    &&& old(self).streams@[kind].session_id == session_id
                    &&& old(self).streams@[kind].recv == recv
                    &&& old(self).streams@[kind].send == send
                },
                None => !old(self).streams@.contains_key(kind),
            },
    {
        match self.streams.remove(&kind) {
            Some(stream) => Some((stream.session_id, stream.recv, stream.send)),
            None => {
                assert(self.streams@ =~= old(self).streams@.remove(kind));
                None
            },
        }
    }

    /// Return the cancellation token for this peer's service tasks.
    ///
    /// The token is the transport supervisor's per-peer disconnect token, so it
    /// fires when this peer disconnects or the local node shuts down.
    pub fn cancel_token(&self) -> (token: CancellationToken)
        ensures
            token == self.cancel_token,
    {
        same_token(&self.cancel_token)
    }

    /// Return the cancellation token for this service's local session work.
    ///
    /// Cancelling this token parks only the local service session. The parent
    /// peer token still fires on connection shutdown.
    pub fn service_cancel_token(&self) -> (token: CancellationToken)
        ensures
            token == self.service_cancel_token,
    {
        same_token(&self.service_cancel_token)
    }

    /// Split this peer into fields so the registry can fan streams out by owner.
    pub fn into_parts(self) -> (parts: (
        ZakuraPeerId,
        u64,
        Option<RemoteIp>,
        u64,
        ServicePeerDirection,
        HashMap<u16, ServiceStream<R, S>>,
        CancellationToken,
        C,
    ))
        ensures
            parts == (
                self.id,
                self.conn_id,
                self.remote_ip,
                self.negotiated,
                self.direction,
                self.streams,
                self.cancel_token,
                self.close_cause,
            ),
    {
        (
            self.id,
            self.conn_id,
            self.remote_ip,
            self.negotiated,
            self.direction,
            self.streams,
            self.cancel_token,
            self.close_cause,
        )
    }
}

impl<R, S, C: Clone> Peer<R, S, C> {
    /// Return the connection close recorder.
    pub fn close_cause(&self) -> (cause: C)
        ensures
            vstd::pervasive::cloned(self.close_cause, cause),
    {
        self.close_cause.clone()
    }
}

/// Reason a service sink rejected a decoded frame stream.
#[derive(Clone, Debug, PartialEq, Eq)]
pub enum SinkReject {
    /// The peer sent protocol-invalid data, so the connection should close.
    Protocol(String),
    /// Local sink state prevented delivery; the peer is not at fault.
    Local(String),
}

impl SinkReject {
    /// Build a fatal peer-protocol rejection.
    pub fn protocol(error: &str) -> (reject: Self)
        ensures
            reject matches SinkReject::Protocol(text) && text@ == error@,
    {
        SinkReject::Protocol(error.to_owned())
    }

    /// Build a non-fatal local-delivery rejection.
    pub fn local(error: &str) -> (reject: Self)
        ensures
            reject matches SinkReject::Local(text) && text@ == error@,
    {
        SinkReject::Local(error.to_owned())
    }

    /// The rejection in words.
    pub fn message(&self) -> (text: String)
        ensures
            text@ == (match *self {
                SinkReject::Protocol(error) => "inbound sink rejected protocol-invalid frame: "@
                    + error@,
                SinkReject::Local(error) => "inbound sink could not accept frame locally: "@
                    + error@,
            }),
    {
        match self {
            SinkReject::Protocol(error) => "inbound sink rejected protocol-invalid frame: ".to_owned().concat(
                error.as_str(),
            ),
            SinkReject::Local(error) => "inbound sink could not accept frame locally: ".to_owned().concat(
                error.as_str(),
            ),
        }
    }
}

/// A Zakura protocol service.
pub trait Service<R, S, C>: Send + Sync {
    /// Stable service name for logs and diagnostics.
    fn name(&self) -> &'static str;

    /// Streams this service owns.
    fn streams(&self) -> &[Stream];

    /// Return whether this service currently wants a new session for `peer`.
    ///
    /// This is a cheap, advisory demand check used by the transport before opening an ordered
    /// stream. A `false` result is temporary: the check is repeated with bounded backoff until
    /// the service accepts a session or the connection closes. The service remains authoritative
    /// at [`Service::add_peer`].
    fn wants_peer(
        &self,
        _peer: &ZakuraPeerId,
        _negotiated: u64,
        _direction: ServicePeerDirection,
    ) -> (r: bool)
        default_ensures
            r,
    {
        true
    }

    /// Add a connected peer and spawn any per-stream work owned by this service.
    fn add_peer(&self, peer: Peer<R, S, C>);

    /// Remove a disconnected peer.
    fn remove_peer(&self, peer: &ZakuraPeerId, conn_id: u64);

    /// Deliver one request-response frame to this service.
    fn deliver_frame(&self, _peer_id: ZakuraPeerId, _stream_kind: u16, _frame: Frame) -> (r: Result<
        (),
        SinkReject,
    >)
        default_ensures
            r matches Err(SinkReject::Protocol(text)) && text@
                == "service does not accept inbound frames"@,
    {
        Err(SinkReject::protocol("service does not accept inbound frames"))
    }
}

/// A peer that is built from streams has exactly these streams, each with its own halves, in its
/// first generation and with a token made from that of the peer; its service is stopped by the
/// token of one of them or, if there is none, by one made from that of the peer.
pub proof fn built_peers_have_their_streams<R, S, C>(
    peer: Peer<R, S, C>,
    conn_id: u64,
    id: ZakuraPeerId,
    remote_ip: Option<RemoteIp>,
    negotiated: u64,
    direction: ServicePeerDirection,
    streams: Map<u16, (R, S)>,
    cancel_token: CancellationToken,
    close_cause: C,
    kind: u16,
)
    requires
        peer.built_from(
            conn_id,
            id,
            remote_ip,
            negotiated,
            direction,
            streams,
            cancel_token,
            close_cause,
        ),
    ensures
        peer.conn_id == conn_id,
        peer.id == id,
        peer.remote_ip == remote_ip,
        peer.negotiated == negotiated,
        peer.direction == direction,
        peer.cancel_token == cancel_token,
        peer.close_cause == close_cause,
        peer.streams@.contains_key(kind) <==> streams.contains_key(kind),
        streams.contains_key(kind) ==> {
            let stream = peer.streams@[kind];
            &&& stream.session_id == 0
            &&& stream.recv == streams[kind].0
            &&& stream.send == streams[kind].1
            &&& parent_token(stream.cancel_token) == cancel_token
            &&& stream.cancel_token != cancel_token
        },
        parent_token(peer.service_cancel_token) == cancel_token,
        peer.service_cancel_token != cancel_token,
        (exists|k: u16| #[trigger] streams.contains_key(k)) ==> exists|k: u16| #[trigger]
            streams.contains_key(k) && peer.streams@[k].cancel_token == peer.service_cancel_token,
{
    if exists|k: u16| #[trigger] streams.contains_key(k) {
        let k0 = choose|k: u16| #[trigger] streams.contains_key(k);
        assert(peer.streams@.dom().contains(k0));
        let k = choose|k: u16| #[trigger]
            peer.streams@.contains_key(k) && peer.streams@[k].cancel_token
                == peer.service_cancel_token;
        assert(streams.contains_key(k));
    }
    assert(peer.streams@.contains_key(kind) <==> peer.streams@.dom().contains(kind));
    assert(streams.contains_key(kind) <==> streams.dom().contains(kind));
    if peer.streams@.dom() == Set::<u16>::empty() {
    } else {
        let k = choose|k: u16| #[trigger]
            peer.streams@.contains_key(k) && peer.streams@[k].cancel_token
                == peer.service_cancel_token;
        assert(peer.streams@.contains_key(k));
    }
}

} // verus!
