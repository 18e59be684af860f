use riptorrent::address::{IpAddr, SocketAddr};
use riptorrent::metainfo::{File, Info, Metainfo};
use riptorrent::peer::{
    AlertMessage, DialStage, HandshakeStage, Message, Peer, PeerAction, PeerCommand, PeerEvent,
    PeerFailure, PeerManager, Progress, ReadStage, ReadStep,
};
use riptorrent::piece::{unset_flags, Block, Piece, PieceCounter};
use riptorrent::request::{fill, is_fillable, missing_blocks};
use riptorrent::torrent::{Torrent, TorrentAction, TorrentContext, TorrentEvent};
use riptorrent::tracker::Response;
use riptorrent::writer::{Writer, WriterAction, WriterEvent};

const BLOCK: usize = 16384;

fn metainfo(piece_length: usize, length: usize) -> Metainfo {
    Metainfo {
        announce: "http://tracker/".to_string(),
        info: Info {
            name: "file".to_string(),
            piece_length,
            pieces: vec![],
            length: Some(length),
            files: None,
        },
        info_hash: [3; 20],
    }
}

fn peer_at(n: u8) -> SocketAddr {
    SocketAddr { ip: IpAddr::V4(10, 0, 0, n), port: 6881 }
}

fn response(peers: Vec<SocketAddr>, interval: Option<u64>) -> Response {
    Response { failure_reason: None, interval, peers }
}

/// A torrent that waits for the pause of its first round to end, with its queue
/// filled.
fn started(piece_length: usize, length: usize) -> (Torrent, TorrentContext) {
    let (mut torrent, mut ctx) = Torrent::new(metainfo(piece_length, length));
    torrent.run(&mut ctx, TorrentEvent::Done);
    torrent.run(&mut ctx, TorrentEvent::Announced(response(vec![], None)));
    torrent.run(&mut ctx, TorrentEvent::Done);
    torrent.run(&mut ctx, TorrentEvent::Done);
    torrent.run(&mut ctx, TorrentEvent::Alert(None));
    torrent.run(&mut ctx, TorrentEvent::Elapsed(0, 0));
    (torrent, ctx)
}

/// A connection that looks at the commands for the first time.
fn connected(ctx: &mut TorrentContext) -> Peer {
    let mut peer = Peer::new(peer_at(1));
    let reply = riptorrent::handshake::handshake_message(&[9; 20]);
    peer.run(ctx, PeerEvent::Done);
    peer.run(ctx, PeerEvent::Done);
    peer.run(ctx, PeerEvent::Done);
    peer.run(ctx, PeerEvent::Done);
    peer.run(ctx, PeerEvent::Bytes(reply));
    peer.run(ctx, PeerEvent::Done);
    let action = peer.run(ctx, PeerEvent::Done);
    assert!(matches!(action, PeerAction::Poll));
    peer
}

/// Lets a connection that looks at the commands read one message.
fn hear(peer: &mut Peer, ctx: &mut TorrentContext, body: Vec<u8>) -> PeerAction {
    let action = peer.run(ctx, PeerEvent::Command(None));
    assert!(matches!(action, PeerAction::ReadWithin(4, 1)));
    let length = (body.len() as u32).to_be_bytes().to_vec();
    let action = peer.run(ctx, PeerEvent::Bytes(length));
    match action {
        PeerAction::ReadWithin(n, 1) => assert_eq!(n, body.len()),
        other => panic!("{:?}", other),
    }
    assert!(peer.accepts(&PeerEvent::Bytes(body.clone())));
    peer.run(ctx, PeerEvent::Bytes(body))
}

fn written(action: PeerAction) -> Vec<u8> {
    match action {
        PeerAction::Write(bytes) => bytes,
        other => panic!("{:?}", other),
    }
}

#[test]
fn new_torrent_has_nothing() {
    let (_, ctx) = Torrent::new(metainfo(2 * BLOCK, 5 * BLOCK));
    assert_eq!(ctx.params.peer_id, "00000000000000000000");
    assert_eq!(ctx.params.info_hash, [3; 20]);
    assert_eq!(ctx.params.ip, None);
    assert_eq!(ctx.params.port, 6881);
    assert_eq!(ctx.params.uploaded, 0);
    assert_eq!(ctx.params.downloaded, 0);
    assert_eq!(ctx.params.left, 5 * BLOCK);
    assert_eq!(ctx.params.event, None);
    assert_eq!(ctx.params.compact, 1);
    assert_eq!(ctx.piece_counter.total_pieces, 2);
    assert_eq!(ctx.piece_counter.downloaded, vec![vec![false, false], vec![false, false]]);
    assert!(!ctx.piece_counter.is_complete());
    assert_eq!(ctx.outgoing_requests.len(), 0);
}

#[test]
fn blocks_are_counted() {
    let mut counter = PieceCounter::new(2, 2);
    assert!(counter.has_block(1, BLOCK + 5));
    assert!(!counter.has_block(1, 2 * BLOCK));
    assert!(!counter.has_block(2, 0));
    counter.add_block(1, BLOCK);
    assert!(counter.is_downloaded(1, BLOCK));
    assert!(!counter.is_downloaded(1, 0));
    assert!(!counter.is_downloaded(0, BLOCK));
    counter.check_piece(1);
    assert!(!counter.is_complete());
    counter.add_block(1, 0);
    counter.check_piece(1);
    assert!(!counter.is_complete());
    counter.add_block(0, 0);
    counter.add_block(0, BLOCK);
    assert!(!counter.is_complete());
    counter.check_piece(0);
    assert!(counter.is_complete());
    assert!(PieceCounter::new(0, 1).is_complete());
    assert_eq!(unset_flags(3), vec![false; 3]);
}

#[test]
fn missing_blocks_are_listed_in_order() {
    let mut counter = PieceCounter::new(3, 2);
    counter.add_block(0, 0);
    counter.add_block(1, BLOCK);
    assert_eq!(missing_blocks(&counter, 10), vec![(0, 1), (1, 0), (2, 0), (2, 1)]);
    assert_eq!(missing_blocks(&counter, 2), vec![(0, 1), (1, 0)]);
}

#[test]
fn queue_is_filled_with_ten_requests() {
    let (_, mut ctx) = Torrent::new(metainfo(4 * BLOCK, 16 * BLOCK));
    assert!(is_fillable(&ctx.outgoing_requests, &ctx.piece_counter));
    fill(&mut ctx.outgoing_requests, &ctx.piece_counter);
    let queued: Vec<(u32, u32, u32)> = ctx.outgoing_requests.iter().copied().collect();
    assert_eq!(queued.len(), 10);
    assert_eq!(queued[0], (0, 0, 16384));
    assert_eq!(queued[5], (1, 16384, 16384));
    assert_eq!(queued[9], (2, 16384, 16384));

    fill(&mut ctx.outgoing_requests, &ctx.piece_counter);
    assert_eq!(ctx.outgoing_requests.len(), 10);

    ctx.outgoing_requests.pop_front();
    fill(&mut ctx.outgoing_requests, &ctx.piece_counter);
    let queued: Vec<(u32, u32, u32)> = ctx.outgoing_requests.iter().copied().collect();
    assert_eq!(queued.len(), 10);
    assert_eq!(queued[0], (0, 16384, 16384));
    assert_eq!(queued[9], (0, 0, 16384));
}

#[test]
fn offsets_that_do_not_fit_are_not_queued() {
    let (_, mut ctx) = Torrent::new(metainfo(BLOCK, BLOCK));
    ctx.piece_counter.downloaded = vec![vec![true; 262144]];
    ctx.piece_counter.downloaded[0].push(false);
    assert!(!is_fillable(&ctx.outgoing_requests, &ctx.piece_counter));
    ctx.piece_counter.downloaded[0][262143] = false;
    ctx.piece_counter.downloaded[0].pop();
    assert!(is_fillable(&ctx.outgoing_requests, &ctx.piece_counter));
}

#[test]
fn manager_dials_five_at_a_time() {
    let mut manager = PeerManager::new();
    assert!(manager.connect_peers().is_empty());
    manager.set_available_peers((1..=7).map(peer_at).collect());
    let dialed = manager.connect_peers();
    assert_eq!(dialed, (1..=5).map(peer_at).collect::<Vec<_>>());
    assert_eq!(manager.available_peers, vec![peer_at(6), peer_at(7)]);
    assert_eq!(manager.peers.len(), 5);
    assert!(manager.is_connected(peer_at(3)));
    // Five peers are more than the two that are left to dial.
    assert!(manager.connect_peers().is_empty());
    assert_eq!(manager.available_peers.len(), 2);
    for n in 1..=3 {
        manager.shutdown_peer(peer_at(n));
    }
    assert!(!manager.is_connected(peer_at(3)));
    assert_eq!(manager.connect_peers(), vec![peer_at(6), peer_at(7)]);
    assert_eq!(manager.peers, vec![peer_at(4), peer_at(5), peer_at(6), peer_at(7)]);
}

#[test]
fn manager_connects_to_a_peer_once() {
    let mut manager = PeerManager::new();
    manager.set_available_peers(vec![peer_at(1), peer_at(1), peer_at(2)]);
    assert_eq!(manager.connect_peers().len(), 3);
    assert_eq!(manager.peers, vec![peer_at(1), peer_at(2)]);
}

#[test]
fn manager_never_has_more_than_ten_peers() {
    let mut manager = PeerManager::new();
    manager.set_available_peers((1..=200).map(peer_at).collect());
    for _ in 0..10 {
        manager.connect_peers();
    }
    assert_eq!(manager.peers.len(), 10);
    manager.shutdown_peer(peer_at(77));
    assert_eq!(manager.peers.len(), 10);
}

#[test]
fn connection_goes_well() {
    let (_, mut ctx) = started(BLOCK, 4 * BLOCK);
    let mut peer = Peer::new(peer_at(1));
    assert_eq!(peer.address, peer_at(1));
    assert_eq!(peer.peer_id, [0; 20]);
    let action = peer.run(&mut ctx, PeerEvent::Done);
    assert!(matches!(action, PeerAction::Alert(AlertMessage::Connecting(a)) if a == peer_at(1)));
    let action = peer.run(&mut ctx, PeerEvent::Done);
    assert!(matches!(action, PeerAction::Connect(a) if a == peer_at(1)));
    let bytes = written(peer.run(&mut ctx, PeerEvent::Done));
    assert_eq!(bytes, riptorrent::handshake::handshake_message(&[3; 20]));
    let action = peer.run(&mut ctx, PeerEvent::Done);
    assert!(matches!(action, PeerAction::Read(68)));
    let bytes = written(peer.run(&mut ctx, PeerEvent::Bytes(bytes)));
    assert_eq!(bytes, vec![0, 0, 0, 1, 2]);
    let action = peer.run(&mut ctx, PeerEvent::Done);
    assert!(matches!(action, PeerAction::Alert(AlertMessage::Connected(a)) if a == peer_at(1)));
    assert!(matches!(peer.run(&mut ctx, PeerEvent::Done), PeerAction::Poll));
}

#[test]
fn connection_fails_at_each_stage() {
    let mut wrong = riptorrent::handshake::handshake_message(&[3; 20]);
    wrong[0] = 20;
    let mut other = riptorrent::handshake::handshake_message(&[3; 20]);
    other[19] = b'x';
    let right = riptorrent::handshake::handshake_message(&[3; 20]);
    let cases: Vec<(Vec<PeerEvent>, PeerFailure)> = vec![
        (vec![PeerEvent::Failed], PeerFailure::Connection),
        (vec![PeerEvent::Done, PeerEvent::Failed], PeerFailure::HandshakeWrite),
        (
            vec![PeerEvent::Done, PeerEvent::Done, PeerEvent::Failed],
            PeerFailure::HandshakeRead,
        ),
        (
            vec![PeerEvent::Done, PeerEvent::Done, PeerEvent::Bytes(wrong)],
            PeerFailure::WrongFirstByte,
        ),
        (
            vec![PeerEvent::Done, PeerEvent::Done, PeerEvent::Bytes(other)],
            PeerFailure::WrongProtocol,
        ),
        (
            vec![PeerEvent::Done, PeerEvent::Done, PeerEvent::Bytes(right), PeerEvent::Failed],
            PeerFailure::Interested,
        ),
    ];
    for (events, failure) in cases {
        let (_, mut ctx) = started(BLOCK, 4 * BLOCK);
        let mut peer = Peer::new(peer_at(2));
        peer.run(&mut ctx, PeerEvent::Done);
        let mut action = peer.run(&mut ctx, PeerEvent::Done);
        for event in events {
            assert!(peer.accepts(&event));
            action = peer.run(&mut ctx, event);
        }
        assert!(matches!(action, PeerAction::Alert(AlertMessage::Quit(a)) if a == peer_at(2)));
        let action = peer.run(&mut ctx, PeerEvent::Done);
        assert!(matches!(action, PeerAction::Fail(f) if f == failure), "{:?}", failure);
        assert!(!peer.accepts(&PeerEvent::Done));
    }
}

#[test]
fn unreadable_replies_are_not_accepted() {
    let (_, mut ctx) = started(BLOCK, 4 * BLOCK);
    let mut peer = Peer::new(peer_at(2));
    for _ in 0..4 {
        peer.run(&mut ctx, PeerEvent::Done);
    }
    let mut reply = riptorrent::handshake::handshake_message(&[3; 20]);
    reply[3] = 0xFE;
    assert!(!peer.accepts(&PeerEvent::Bytes(reply)));
    assert!(!peer.accepts(&PeerEvent::Bytes(vec![19; 10])));
    assert!(!peer.accepts(&PeerEvent::Done));
    assert!(peer.accepts(&PeerEvent::Failed));
}

#[test]
fn parts_of_a_connection_need_one() {
    let mut peer = Peer::new(peer_at(1));
    assert_eq!(peer.send_message(Message::Interested), Err(PeerFailure::NotConnected));
    let progress = peer.handshake(HandshakeStage::Ready, PeerEvent::Done, &[0; 20]);
    assert!(matches!(progress, Progress::Failed(PeerFailure::NotConnected)));
    let step = peer.read_message(ReadStage::Ready, PeerEvent::Done);
    assert!(matches!(step, ReadStep::Failed(PeerFailure::NotConnected)));
    let progress = peer.initiate_outgoing_connection(DialStage::Ready, PeerEvent::Done, &[0; 20]);
    assert!(matches!(progress, Progress::Act(PeerAction::Connect(a)) if a == peer_at(1)));
    let progress =
        peer.initiate_outgoing_connection(DialStage::Connecting, PeerEvent::Done, &[0; 20]);
    assert!(matches!(progress, Progress::Act(PeerAction::Write(_))));
    assert_eq!(peer.send_message(Message::Interested), Ok(vec![0, 0, 0, 1, 2]));
    let step = peer.read_message(ReadStage::Ready, PeerEvent::Done);
    assert!(matches!(step, ReadStep::Read(4)));
}

#[test]
fn messages_are_read_in_two_parts() {
    let peer = Peer::new(peer_at(1));
    let step = peer.read_message(ReadStage::Length, PeerEvent::Bytes(vec![0, 0, 1, 2]));
    assert!(matches!(step, ReadStep::Read(258)));
    let step = peer.read_message(ReadStage::Body(1), PeerEvent::Bytes(vec![1]));
    assert!(matches!(step, ReadStep::Message(Some(Message::Unchoke))));
    let step = peer.read_message(ReadStage::Length, PeerEvent::TimedOut);
    assert!(matches!(step, ReadStep::Message(None)));
    let step = peer.read_message(ReadStage::Body(9), PeerEvent::TimedOut);
    assert!(matches!(step, ReadStep::Message(None)));
    let step = peer.read_message(ReadStage::Length, PeerEvent::Failed);
    assert!(matches!(step, ReadStep::Failed(PeerFailure::Read)));
    let step = peer.read_message(ReadStage::Body(2), PeerEvent::Failed);
    assert!(matches!(step, ReadStep::Failed(PeerFailure::Read)));
}

#[test]
fn requests_go_out_one_at_a_time() {
    let (_, mut ctx) = started(BLOCK, 4 * BLOCK);
    assert_eq!(ctx.outgoing_requests.len(), 4);
    let mut peer = connected(&mut ctx);

    // The peer has pieces 0, 1 and 2.
    let bytes = written(hear(&mut peer, &mut ctx, vec![5, 0xE0]));
    assert_eq!(bytes, Message::Request(0, 0, 16384).into());
    assert_eq!(ctx.outgoing_requests.len(), 3);
    assert!(matches!(peer.run(&mut ctx, PeerEvent::Done), PeerAction::Sleep(100)));
    assert!(matches!(peer.run(&mut ctx, PeerEvent::Done), PeerAction::Poll));

    // Nothing came: no further request.
    peer.run(&mut ctx, PeerEvent::Command(Some(PeerCommand::Send(Message::Choke))));
    assert!(matches!(peer.run(&mut ctx, PeerEvent::TimedOut), PeerAction::Sleep(100)));
    assert_eq!(ctx.outgoing_requests.len(), 3);
    peer.run(&mut ctx, PeerEvent::Done);

    // The block came: it goes to the torrent, and the next request goes out.
    let mut body = vec![7, 0, 0, 0, 0, 0, 0, 0, 0];
    body.extend(vec![1; BLOCK]);
    match hear(&mut peer, &mut ctx, body) {
        PeerAction::Alert(AlertMessage::Received(from, Message::Piece(0, 0, data))) => {
            assert_eq!(from, peer_at(1));
            assert_eq!(data.len(), BLOCK);
        }
        other => panic!("{:?}", other),
    }
    let bytes = written(peer.run(&mut ctx, PeerEvent::Done));
    assert_eq!(bytes, Message::Request(1, 0, 16384).into());
    let action = peer.run(&mut ctx, PeerEvent::Failed);
    assert!(matches!(action, PeerAction::Fail(PeerFailure::Send)));
    assert!(!peer.accepts(&PeerEvent::Done));
}

#[test]
fn requests_wait_for_the_peer_to_have_the_piece() {
    let (_, mut ctx) = started(BLOCK, 4 * BLOCK);
    let mut peer = connected(&mut ctx);
    assert!(matches!(hear(&mut peer, &mut ctx, vec![5, 0x10]), PeerAction::Sleep(100)));
    assert_eq!(ctx.outgoing_requests.len(), 4);
    peer.run(&mut ctx, PeerEvent::Done);
    let bytes = written(hear(&mut peer, &mut ctx, vec![4, 0, 0, 0, 0]));
    assert_eq!(bytes, Message::Request(0, 0, 16384).into());
}

#[test]
fn blocks_that_came_in_by_now_are_not_requested() {
    let (_, mut ctx) = started(BLOCK, 4 * BLOCK);
    let mut peer = connected(&mut ctx);
    ctx.piece_counter.add_block(0, 0);
    assert!(matches!(hear(&mut peer, &mut ctx, vec![5, 0xF0]), PeerAction::Sleep(100)));
    assert_eq!(ctx.outgoing_requests.len(), 3);
}

#[test]
fn choked_peers_get_no_requests() {
    let (_, mut ctx) = started(BLOCK, 4 * BLOCK);
    let mut peer = connected(&mut ctx);
    assert!(matches!(hear(&mut peer, &mut ctx, vec![0]), PeerAction::Sleep(100)));
    peer.run(&mut ctx, PeerEvent::Done);
    assert!(matches!(hear(&mut peer, &mut ctx, vec![5, 0xF0]), PeerAction::Sleep(100)));
    peer.run(&mut ctx, PeerEvent::Done);
    assert_eq!(ctx.outgoing_requests.len(), 4);
    let bytes = written(hear(&mut peer, &mut ctx, vec![1]));
    assert_eq!(bytes, Message::Request(0, 0, 16384).into());
}

#[test]
fn other_messages_go_to_the_torrent() {
    for (body, shown) in [
        (vec![], "KeepAlive"),
        (vec![2], "Interested"),
        (vec![3], "NotInterested"),
        (vec![77], "Invalid"),
    ] {
        let (_, mut ctx) = started(BLOCK, 4 * BLOCK);
        let mut peer = connected(&mut ctx);
        match hear(&mut peer, &mut ctx, body) {
            PeerAction::Alert(AlertMessage::Received(_, m)) => assert_eq!(m.to_string(), shown),
            other => panic!("{:?}", other),
        }
        assert!(matches!(peer.run(&mut ctx, PeerEvent::Done), PeerAction::Sleep(100)));
    }
}

#[test]
fn pieces_that_the_bit_field_has_no_room_for() {
    let (_, mut ctx) = started(BLOCK, 4 * BLOCK);
    let mut peer = connected(&mut ctx);
    hear(&mut peer, &mut ctx, vec![5, 0x00]);
    peer.run(&mut ctx, PeerEvent::Done);
    peer.run(&mut ctx, PeerEvent::Command(None));
    peer.run(&mut ctx, PeerEvent::Bytes(vec![0, 0, 0, 5]));
    assert!(peer.accepts(&PeerEvent::Bytes(vec![4, 0, 0, 0, 7])));
    assert!(!peer.accepts(&PeerEvent::Bytes(vec![4, 0, 0, 0, 8])));
    assert!(!peer.accepts(&PeerEvent::Bytes(vec![4, 0, 0, 0])));
    assert!(!peer.accepts(&PeerEvent::Bytes(vec![6, 0, 0, 0, 0])));
}

#[test]
fn connection_ends() {
    let (_, mut ctx) = started(BLOCK, 4 * BLOCK);
    let mut peer = connected(&mut ctx);
    let action = peer.run(&mut ctx, PeerEvent::Command(Some(PeerCommand::Shutdown)));
    assert!(matches!(action, PeerAction::Stop));
    assert!(!peer.accepts(&PeerEvent::Done));

    let mut peer = connected(&mut ctx);
    peer.run(&mut ctx, PeerEvent::Command(None));
    let action = peer.run(&mut ctx, PeerEvent::Failed);
    assert!(matches!(action, PeerAction::Fail(PeerFailure::Read)));
}

#[test]
fn torrent_announces_and_dials() {
    let (mut torrent, mut ctx) = Torrent::new(metainfo(BLOCK, 2 * BLOCK));
    assert!(matches!(torrent.run(&mut ctx, TorrentEvent::Done), TorrentAction::Announce));
    assert!(matches!(torrent.run(&mut ctx, TorrentEvent::AnnounceFailed), TorrentAction::Announce));
    assert!(!torrent.accepts(&ctx, &TorrentEvent::AnnounceFailed));
    let reply = response((1..=6).map(peer_at).collect(), Some(5));
    assert!(matches!(
        torrent.run(&mut ctx, TorrentEvent::Announced(reply)),
        TorrentAction::SetClock
    ));
    match torrent.run(&mut ctx, TorrentEvent::Done) {
        TorrentAction::Connect(peers) => {
            assert_eq!(peers, (1..=5).map(peer_at).collect::<Vec<_>>())
        }
        other => panic!("{:?}", other),
    }
    assert_eq!(torrent.peer_manager.available_peers, vec![peer_at(6)]);
    assert!(matches!(torrent.run(&mut ctx, TorrentEvent::Done), TorrentAction::Receive));
    let quit = TorrentEvent::Alert(Some(AlertMessage::Quit(peer_at(2))));
    assert!(torrent.accepts(&ctx, &quit));
    assert!(matches!(torrent.run(&mut ctx, quit), TorrentAction::ReadClock));
    assert!(!torrent.peer_manager.is_connected(peer_at(2)));
    assert!(torrent.peer_manager.is_connected(peer_at(1)));
    assert_eq!(ctx.outgoing_requests.len(), 2);

    // The interval is five seconds, and has to be exceeded.
    assert!(matches!(
        torrent.run(&mut ctx, TorrentEvent::Elapsed(5, 0)),
        TorrentAction::Sleep(100)
    ));
    torrent.run(&mut ctx, TorrentEvent::Done);
    torrent.run(&mut ctx, TorrentEvent::Done);
    torrent.run(&mut ctx, TorrentEvent::Alert(None));
    assert!(matches!(
        torrent.run(&mut ctx, TorrentEvent::Elapsed(5, 1)),
        TorrentAction::Announce
    ));
    torrent.run(&mut ctx, TorrentEvent::Announced(response(vec![peer_at(9)], None)));
    assert!(matches!(torrent.run(&mut ctx, TorrentEvent::Done), TorrentAction::Sleep(100)));
    assert_eq!(torrent.peer_manager.available_peers, vec![peer_at(9)]);
}

#[test]
fn torrent_announces_every_minute_by_default() {
    let (mut torrent, mut ctx) = started(BLOCK, 2 * BLOCK);
    torrent.run(&mut ctx, TorrentEvent::Done);
    torrent.run(&mut ctx, TorrentEvent::Done);
    torrent.run(&mut ctx, TorrentEvent::Alert(None));
    assert!(matches!(
        torrent.run(&mut ctx, TorrentEvent::Elapsed(60, 0)),
        TorrentAction::Sleep(100)
    ));
    torrent.run(&mut ctx, TorrentEvent::Done);
    torrent.run(&mut ctx, TorrentEvent::Done);
    torrent.run(&mut ctx, TorrentEvent::Alert(None));
    assert!(matches!(
        torrent.run(&mut ctx, TorrentEvent::Elapsed(61, 0)),
        TorrentAction::Announce
    ));
}

#[test]
fn torrent_hands_missing_blocks_to_the_writer() {
    let (mut torrent, mut ctx) = started(BLOCK, 2 * BLOCK);
    torrent.run(&mut ctx, TorrentEvent::Done);
    torrent.run(&mut ctx, TorrentEvent::Done);
    let piece = |index: u32, begin: u32| {
        TorrentEvent::Alert(Some(AlertMessage::Received(
            peer_at(1),
            Message::Piece(index, begin, vec![1, 2, 3]),
        )))
    };
    assert!(!torrent.accepts(&ctx, &piece(2, 0)));
    assert!(!torrent.accepts(&ctx, &piece(0, 16384)));
    assert!(torrent.accepts(&ctx, &piece(1, 0)));
    match torrent.run(&mut ctx, piece(1, 0)) {
        TorrentAction::Write(Piece { index: 1, begin: 0, piece }) => assert_eq!(piece, vec![1, 2, 3]),
        other => panic!("{:?}", other),
    }
    assert!(matches!(torrent.run(&mut ctx, TorrentEvent::Done), TorrentAction::ReadClock));
    torrent.run(&mut ctx, TorrentEvent::Elapsed(0, 0));
    torrent.run(&mut ctx, TorrentEvent::Done);
    torrent.run(&mut ctx, TorrentEvent::Done);
    ctx.piece_counter.add_block(1, 0);
    assert!(matches!(torrent.run(&mut ctx, piece(1, 0)), TorrentAction::ReadClock));
}

#[test]
fn torrent_takes_other_alerts_lightly() {
    for alert in [
        AlertMessage::Connecting(peer_at(1)),
        AlertMessage::Connected(peer_at(1)),
        AlertMessage::Received(peer_at(1), Message::Interested),
        AlertMessage::Received(peer_at(1), Message::KeepAlive),
    ] {
        let (mut torrent, mut ctx) = started(BLOCK, 2 * BLOCK);
        torrent.run(&mut ctx, TorrentEvent::Done);
        torrent.run(&mut ctx, TorrentEvent::Done);
        let action = torrent.run(&mut ctx, TorrentEvent::Alert(Some(alert)));
        assert!(matches!(action, TorrentAction::ReadClock));
    }
}

#[test]
fn download_finishes() {
    let (mut torrent, mut ctx) = started(2 * BLOCK, 4 * BLOCK);
    let mut writer = Writer::new(&ctx);
    writer.run(&mut ctx, WriterEvent::Done);
    writer.run(&mut ctx, WriterEvent::Done);
    for index in 0..2 {
        for begin in [0, BLOCK] {
            assert!(matches!(torrent.run(&mut ctx, TorrentEvent::Done), TorrentAction::Connect(_)));
            assert!(matches!(torrent.run(&mut ctx, TorrentEvent::Done), TorrentAction::Receive));
            let alert = AlertMessage::Received(
                peer_at(1),
                Message::Piece(index, begin as u32, vec![7; BLOCK]),
            );
            let piece = match torrent.run(&mut ctx, TorrentEvent::Alert(Some(alert))) {
                TorrentAction::Write(piece) => piece,
                other => panic!("{:?}", other),
            };
            let event = WriterEvent::Piece(Some(piece));
            assert!(writer.accepts(&ctx, &event));
            assert!(matches!(writer.run(&mut ctx, event), WriterAction::WriteAt(_, _)));
            assert!(matches!(writer.run(&mut ctx, WriterEvent::Done), WriterAction::Receive));
            torrent.run(&mut ctx, TorrentEvent::Done);
            torrent.run(&mut ctx, TorrentEvent::Elapsed(0, 0));
        }
    }
    assert!(ctx.piece_counter.is_complete());
    torrent.run(&mut ctx, TorrentEvent::Done);
    assert!(matches!(torrent.run(&mut ctx, TorrentEvent::Done), TorrentAction::Finish));
    assert!(!torrent.accepts(&ctx, &TorrentEvent::Done));
}

#[test]
fn writer_creates_one_file() {
    let (_, mut ctx) = Torrent::new(metainfo(BLOCK, 40000));
    let mut writer = Writer::new(&ctx);
    match writer.run(&mut ctx, WriterEvent::Done) {
        WriterAction::CreateFile(path, 40000) => assert_eq!(path, vec!["file"]),
        other => panic!("{:?}", other),
    }
    assert!(matches!(writer.run(&mut ctx, WriterEvent::Done), WriterAction::Receive));
    assert!(matches!(writer.run(&mut ctx, WriterEvent::Piece(None)), WriterAction::Receive));
}

#[test]
fn writer_creates_several_files() {
    let mut several = metainfo(BLOCK, 0);
    several.info.length = None;
    several.info.files = Some(vec![
        File { length: 5, path: vec!["a".to_string()] },
        File { length: 6, path: vec!["b".to_string(), "c".to_string()] },
    ]);
    let (_, mut ctx) = Torrent::new(several);
    let mut writer = Writer::new(&ctx);
    match writer.run(&mut ctx, WriterEvent::Done) {
        WriterAction::CreateDir(name) => assert_eq!(name, "file"),
        other => panic!("{:?}", other),
    }
    match writer.run(&mut ctx, WriterEvent::Done) {
        WriterAction::CreateFile(path, 5) => assert_eq!(path, vec!["a"]),
        other => panic!("{:?}", other),
    }
    match writer.run(&mut ctx, WriterEvent::Done) {
        WriterAction::CreateFile(path, 6) => assert_eq!(path, vec!["b", "c"]),
        other => panic!("{:?}", other),
    }
    assert!(matches!(writer.run(&mut ctx, WriterEvent::Done), WriterAction::Receive));
}

#[test]
fn writer_does_not_accept_what_it_cannot_do() {
    let mut no_length = metainfo(BLOCK, 0);
    no_length.info.length = None;
    let (_, ctx) = Torrent::new(no_length);
    assert!(!Writer::new(&ctx).accepts(&ctx, &WriterEvent::Done));

    let mut no_path = metainfo(BLOCK, 0);
    no_path.info.files = Some(vec![File { length: 5, path: vec![] }]);
    let (_, mut ctx) = Torrent::new(no_path);
    let mut writer = Writer::new(&ctx);
    writer.run(&mut ctx, WriterEvent::Done);
    assert!(!writer.accepts(&ctx, &WriterEvent::Done));

    let (_, mut ctx) = Torrent::new(metainfo(2 * BLOCK, 4 * BLOCK));
    let mut writer = Writer::new(&ctx);
    writer.run(&mut ctx, WriterEvent::Done);
    writer.run(&mut ctx, WriterEvent::Done);
    let block = |index: usize, begin: usize, length: usize| {
        WriterEvent::Piece(Some(Piece { index, begin, piece: vec![0; length] }))
    };
    assert!(writer.accepts(&ctx, &block(1, BLOCK, BLOCK)));
    assert!(!writer.accepts(&ctx, &block(2, 0, BLOCK)));
    assert!(!writer.accepts(&ctx, &block(0, 2 * BLOCK, 0)));
    assert!(!writer.accepts(&ctx, &block(0, BLOCK, BLOCK + 1)));
    assert!(!writer.accepts(&ctx, &WriterEvent::Done));
}

#[test]
fn writer_writes_its_buffer() {
    let (_, mut ctx) = Torrent::new(metainfo(2 * BLOCK, 4 * BLOCK));
    let mut writer = Writer::new(&ctx);
    writer.run(&mut ctx, WriterEvent::Done);
    writer.run(&mut ctx, WriterEvent::Done);

    let first = Piece { index: 1, begin: 0, piece: vec![1; BLOCK] };
    match writer.run(&mut ctx, WriterEvent::Piece(Some(first))) {
        WriterAction::WriteAt(offset, bytes) => {
            assert_eq!(offset, 2 * BLOCK);
            assert_eq!(bytes.len(), 2 * BLOCK);
            assert_eq!(bytes[..BLOCK], vec![1; BLOCK][..]);
            assert_eq!(bytes[BLOCK..], vec![0; BLOCK][..]);
        }
        other => panic!("{:?}", other),
    }
    assert!(ctx.piece_counter.is_downloaded(1, 0));
    writer.run(&mut ctx, WriterEvent::Done);

    let second = Piece { index: 1, begin: BLOCK, piece: vec![2; BLOCK] };
    match writer.run(&mut ctx, WriterEvent::Piece(Some(second))) {
        WriterAction::WriteAt(offset, bytes) => {
            assert_eq!(offset, 3 * BLOCK);
            assert_eq!(bytes[..BLOCK], vec![1; BLOCK][..]);
            assert_eq!(bytes[BLOCK..], vec![2; BLOCK][..]);
        }
        other => panic!("{:?}", other),
    }
    assert!(!ctx.piece_counter.is_complete());
    writer.run(&mut ctx, WriterEvent::Done);
    ctx.piece_counter.add_block(0, 0);
    ctx.piece_counter.add_block(0, BLOCK);
    ctx.piece_counter.check_piece(0);
    assert!(ctx.piece_counter.is_complete());
}

#[test]
fn requests_lie_within_the_torrent() {
    let length = 6 * BLOCK + 5000;
    let (_, mut ctx) = Torrent::new(metainfo(2 * BLOCK + 100, length));
    assert_eq!(ctx.piece_counter.total_pieces, 3);
    fill(&mut ctx.outgoing_requests, &ctx.piece_counter);
    assert_eq!(ctx.outgoing_requests.len(), 6);
    for (index, begin, size) in ctx.outgoing_requests.iter() {
        let piece = *index as usize * ctx.metainfo.info.piece_length;
        assert!((begin + size) as usize <= ctx.metainfo.info.piece_length);
        assert!(piece + (begin + size) as usize <= length);
    }
}

#[test]
fn pieces_shorter_than_a_block_are_never_requested() {
    let (_, mut ctx) = Torrent::new(metainfo(1000, 5000));
    assert_eq!(ctx.piece_counter.total_pieces, 5);
    fill(&mut ctx.outgoing_requests, &ctx.piece_counter);
    assert_eq!(ctx.outgoing_requests.len(), 0);
    assert!(!ctx.piece_counter.is_complete());
}

#[test]
fn blocks_are_items_of_the_queue() {
    let block = Block { index: 1, begin: 2, length: 3 };
    assert_eq!(block.to_item(), (1, 2, 3));
    assert_eq!(Block::from_item((1, 2, 3)), block);
}
