use std::collections::HashMap;

use tokio_util::sync::CancellationToken;
use zakura_network::frame::Frame;
use zakura_network::header_sync::ids::ZakuraPeerId;
use zakura_network::transport::service::{
    OrderedStreamOpening, Peer, RemoteIp, Service, ServicePeerDirection, ServiceStream, SinkReject,
    Stream, StreamMode,
};

#[test]
fn sink_reject_constructors_preserve_protocol_and_local_contract() {
    let protocol = SinkReject::protocol("bad frame");
    let local = SinkReject::local("closed queue");

    assert!(matches!(protocol, SinkReject::Protocol(_)));
    assert!(matches!(local, SinkReject::Local(_)));
    assert!(protocol.message().contains("protocol-invalid"));
    assert!(local.message().contains("locally"));
}

#[test]
fn sink_reject_messages_name_the_error() {
    assert_eq!(
        SinkReject::protocol("bad frame").message(),
        "inbound sink rejected protocol-invalid frame: bad frame"
    );
    assert_eq!(
        SinkReject::local("closed queue").message(),
        "inbound sink could not accept frame locally: closed queue"
    );
}

fn stream(mode: StreamMode) -> Stream {
    Stream {
        kind: 5,
        version: 8,
        frame_cap: 1,
        capability: 2,
        mode,
    }
}

#[test]
fn opening_policy_decides_who_opens() {
    let initiator = stream(StreamMode::Ordered {
        opening: OrderedStreamOpening::Initiator,
    });
    let either = stream(StreamMode::Ordered {
        opening: OrderedStreamOpening::EitherPeer,
    });
    let request = stream(StreamMode::RequestResponse);
    assert!(initiator.is_ordered() && either.is_ordered() && !request.is_ordered());
    assert!(request.is_request_response() && !either.is_request_response());
    assert!(initiator.may_open_ordered(true) && !initiator.may_open_ordered(false));
    assert!(either.may_open_ordered(true) && either.may_open_ordered(false));
    assert!(!request.may_open_ordered(true) && !request.may_open_ordered(false));
}

type TestPeer = Peer<&'static str, &'static str, &'static str>;

fn peer(token: &CancellationToken) -> TestPeer {
    let streams = HashMap::from([(5, ("recv 5", "send 5")), (6, ("recv 6", "send 6"))]);
    Peer::new(
        ZakuraPeerId([1; 32]),
        Some(RemoteIp::V4([127, 0, 0, 1])),
        3,
        streams,
        token.clone(),
        "open",
    )
}

#[test]
fn streams_are_taken_once() {
    let token = CancellationToken::new();
    let mut peer = peer(&token);
    assert_eq!(peer.conn_id, 0);
    assert_eq!(peer.direction, ServicePeerDirection::Inbound);
    assert_eq!(peer.take_stream(7), None);
    assert_eq!(peer.take_stream(5), Some(("recv 5", "send 5")));
    assert_eq!(peer.take_stream(5), None);
    assert_eq!(
        peer.take_stream_with_session_id(6),
        Some((0, "recv 6", "send 6"))
    );
    assert!(peer.streams.is_empty());
    assert_eq!(peer.close_cause(), "open");
}

#[test]
fn stopping_the_peer_stops_its_service_but_not_the_other_way_round() {
    let token = CancellationToken::new();
    let first = peer(&token);
    assert!(first.cancel_token() == token);
    assert!(first.service_cancel_token() != token);
    first.service_cancel_token().cancel();
    assert!(!token.is_cancelled());

    let second = peer(&token);
    assert!(!second.service_cancel_token().is_cancelled());
    token.cancel();
    assert!(second.cancel_token().is_cancelled());
    assert!(second.service_cancel_token().is_cancelled());
}

#[test]
fn a_stream_stops_its_service() {
    let token = CancellationToken::new();
    let stream_token = token.child_token();
    let streams = HashMap::from([(
        5,
        ServiceStream::new(4, "recv", "send", stream_token.clone()),
    )]);
    let mut peer: TestPeer = Peer::new_with_service_streams(
        9,
        ZakuraPeerId([2; 32]),
        None,
        0,
        ServicePeerDirection::Outbound,
        streams,
        token.clone(),
        "open",
    );
    assert!(peer.service_cancel_token() == stream_token);
    assert_eq!(
        peer.take_stream_with_session_id(5),
        Some((4, "recv", "send"))
    );
    let (id, conn_id, remote_ip, negotiated, direction, streams, cancel, cause) = peer.into_parts();
    assert_eq!(id, ZakuraPeerId([2; 32]));
    assert_eq!(conn_id, 9);
    assert_eq!(remote_ip, None);
    assert_eq!(negotiated, 0);
    assert_eq!(direction, ServicePeerDirection::Outbound);
    assert!(streams.is_empty());
    assert!(cancel == token);
    assert_eq!(cause, "open");
}

#[test]
fn a_peer_without_streams_has_a_service_token_of_its_own() {
    let token = CancellationToken::new();
    let peer: TestPeer = Peer::new_with_direction(
        ZakuraPeerId([3; 32]),
        None,
        0,
        ServicePeerDirection::Outbound,
        HashMap::new(),
        token.clone(),
        "open",
    );
    assert!(peer.service_cancel_token() != token);
    token.cancel();
    assert!(peer.service_cancel_token().is_cancelled());
}

struct Quiet;

impl Service<&'static str, &'static str, &'static str> for Quiet {
    fn name(&self) -> &'static str {
        "quiet"
    }

    fn streams(&self) -> &[Stream] {
        &[]
    }

    fn add_peer(&self, _peer: TestPeer) {}

    fn remove_peer(&self, _peer: &ZakuraPeerId, _conn_id: u64) {}
}

#[test]
fn services_want_peers_and_reject_frames_by_default() {
    assert!(Quiet.wants_peer(&ZakuraPeerId([1; 32]), 0, ServicePeerDirection::Inbound));
    assert_eq!(
        Quiet.deliver_frame(
            ZakuraPeerId([1; 32]),
            5,
            Frame {
                message_type: 1,
                flags: 0,
                payload: vec![],
            }
        ),
        Err(SinkReject::protocol(
            "service does not accept inbound frames"
        ))
    );
}
