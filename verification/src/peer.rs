//! One connection to a peer.
use crate::address::SocketAddr;
use crate::bits::{bits, bits_of_bytes, Bitfield};
use crate::bytes::{be_value, quad, read_be_u32, zeros};
use crate::handshake::{
    check_reply, handshake_bytes, handshake_message, is_reply_readable, law_reply_is_accepted_by_its_opening,
    law_reply_is_turned_down, opening, reply_outcome, reply_readable, HandshakeFailure, HANDSHAKE_LENGTH,
};
use crate::message::{
    decodable, decoded, encoded, framed, law_decodable, law_decoded_fields, law_message_round_trip,
    law_plain_message_bytes, law_request_bytes, MessageView,
};
use crate::piece::Block;
use crate::queue::{queue_front, queue_pop_front};
use crate::torrent::{ContextView, TorrentContext};
use vstd::pervasive::unreached;
use vstd::prelude::*;

pub use crate::manager::PeerManager;
pub use crate::message::Message;

verus! {

/// What a connection tells the torrent.
#[derive(Debug)]
pub enum AlertMessage {
    Received(SocketAddr, Message),
    Connecting(SocketAddr),
    Connected(SocketAddr),
    Quit(SocketAddr),
}

/// What the torrent tells a connection.
#[derive(Debug)]
pub enum PeerCommand {
    Send(Message),
    Shutdown,
}

/// Why a connection ended.
#[derive(Debug, Clone, Copy, PartialEq, Eq, Structural)]
pub enum PeerFailure {
    NotConnected,
    Connection,
    HandshakeWrite,
    HandshakeRead,
    WrongFirstByte,
    WrongProtocol,
    Interested,
    Read,
    Send,
}

/// How far a handshake is.
#[derive(Debug, Clone, Copy, PartialEq, Eq, Structural)]
pub enum HandshakeStage {
    /// Nothing was sent yet.
    Ready,
    /// The handshake is being written.
    Greeting,
    /// The reply is being read.
    AwaitingReply,
}

/// How far an outgoing connection is.
#[derive(Debug, Clone, Copy, PartialEq, Eq, Structural)]
pub enum DialStage {
    /// Nothing was done yet.
    Ready,
    /// The connection is being opened.
    Connecting,
    /// The handshake is under way.
    Handshaking(HandshakeStage),
    /// The message that tells of interest is being written.
    Interesting,
}

/// How far the reading of a message is.
#[derive(Debug, Clone, Copy, PartialEq, Eq, Structural)]
pub enum ReadStage {
    /// Nothing was read yet.
    Ready,
    /// The length is being read.
    Length,
    /// The body, of this many bytes, is being read.
    Body(usize),
}

/// What a connection waits for.
#[derive(Debug, Clone, Copy, PartialEq, Eq, Structural)]
pub enum PeerState {
    /// To be started.
    Idle,
    /// The next step of the outgoing connection.
    Dialing(DialStage),
    /// The torrent was told of the connection.
    Joining,
    /// A look at the commands.
    Polling,
    /// The next step of the reading of a message.
    Reading(ReadStage),
    /// The torrent was handed a message.
    Forwarding,
    /// A request is being written.
    Requesting,
    /// The pause between two messages.
    Sleeping,
    /// The torrent was told that the connection failed.
    Quitting(PeerFailure),
    /// Nothing any more.
    Stopped,
}

/// What became of the last action.
#[derive(Debug)]
pub enum PeerEvent {
    /// It was done.
    Done,
    /// It failed.
    Failed,
    /// It took too long.
    TimedOut,
    /// These bytes were read.
    Bytes(Vec<u8>),
    /// This command was waiting, or none.
    Command(Option<PeerCommand>),
}

/// What to do next.
#[derive(Debug)]
pub enum PeerAction {
    /// Hand this to the torrent.
    Alert(AlertMessage),
    /// Open a connection.
    Connect(SocketAddr),
    /// Write all of these bytes.
    Write(Vec<u8>),
    /// Read so many bytes.
    Read(usize),
    /// Read so many bytes within so many seconds.
    ReadWithin(usize, u64),
    /// Look whether a command is waiting.
    Poll,
    /// Wait so many milliseconds.
    Sleep(u64),
    /// End, as told.
    Stop,
    /// End, with an error.
    Fail(PeerFailure),
}

/// What comes of a step of a longer undertaking.
#[derive(Debug)]
pub enum Progress {
    /// It goes on with this action.
    Act(PeerAction),
    /// It is through.
    Finished,
    /// It failed.
    Failed(PeerFailure),
}

/// What comes of a step of the reading of a message.
#[derive(Debug)]
pub enum ReadStep {
    /// So many bytes are to be read.
    Read(usize),
    /// A message was read, or none came in time.
    Message(Option<Message>),
    /// The reading failed.
    Failed(PeerFailure),
}

/// A connection to a peer.
#[derive(Debug)]
pub struct Peer {
    pub peer_id: [u8; 20],
    pub address: SocketAddr,
    connected: bool,
    bitfield: Bitfield,
    choke: bool,
    ready: bool,
    state: PeerState,
}

/// What an alert says.
pub enum AlertView {
    Received(SocketAddr, MessageView),
    Connecting(SocketAddr),
    Connected(SocketAddr),
    Quit(SocketAddr),
}

/// What a command says.
pub enum CommandView {
    Send(MessageView),
    Shutdown,
}

/// What an event says.
pub enum PeerEventView {
    Done,
    Failed,
    TimedOut,
    Bytes(Seq<u8>),
    Command(Option<CommandView>),
}

/// What an action says.
pub enum PeerActionView {
    Alert(AlertView),
    Connect(SocketAddr),
    Write(Seq<u8>),
    Read(nat),
    ReadWithin(nat, nat),
    Poll,
    Sleep(nat),
    Stop,
    Fail(PeerFailure),
}

/// What a step says.
pub enum ProgressView {
    Act(PeerActionView),
    Finished,
    Failed(PeerFailure),
}

/// What a step of reading says.
pub enum ReadView {
    Read(nat),
    Message(Option<MessageView>),
    Failed(PeerFailure),
}

impl View for AlertMessage {
    type V = AlertView;

    open spec fn view(&self) -> AlertView {
        match *self {
            AlertMessage::Received(peer, m) => AlertView::Received(peer, m@),
            AlertMessage::Connecting(peer) => AlertView::Connecting(peer),
            AlertMessage::Connected(peer) => AlertView::Connected(peer),
            AlertMessage::Quit(peer) => AlertView::Quit(peer),
        }
    }
}

impl View for PeerCommand {
    type V = CommandView;

    open spec fn view(&self) -> CommandView {
        match *self {
            PeerCommand::Send(m) => CommandView::Send(m@),
            PeerCommand::Shutdown => CommandView::Shutdown,
        }
    }
}

impl View for PeerEvent {
    type V = PeerEventView;

    open spec fn view(&self) -> PeerEventView {
        match *self {
            PeerEvent::Done => PeerEventView::Done,
            PeerEvent::Failed => PeerEventView::Failed,
            PeerEvent::TimedOut => PeerEventView::TimedOut,
            PeerEvent::Bytes(bytes) => PeerEventView::Bytes(bytes@),
            PeerEvent::Command(Some(command)) => PeerEventView::Command(Some(command@)),
            PeerEvent::Command(None) => PeerEventView::Command(None),
        }
    }
}

impl View for PeerAction {
    type V = PeerActionView;

    open spec fn view(&self) -> PeerActionView {
        match *self {
            PeerAction::Alert(alert) => PeerActionView::Alert(alert@),
            PeerAction::Connect(peer) => PeerActionView::Connect(peer),
            PeerAction::Write(bytes) => PeerActionView::Write(bytes@),
            PeerAction::Read(n) => PeerActionView::Read(n as nat),
            PeerAction::ReadWithin(n, secs) => PeerActionView::ReadWithin(n as nat, secs as nat),
            PeerAction::Poll => PeerActionView::Poll,
            PeerAction::Sleep(millis) => PeerActionView::Sleep(millis as nat),
            PeerAction::Stop => PeerActionView::Stop,
            PeerAction::Fail(failure) => PeerActionView::Fail(failure),
        }
    }
}

impl View for Progress {
    type V = ProgressView;

    open spec fn view(&self) -> ProgressView {
        match *self {
            Progress::Act(action) => ProgressView::Act(action@),
            Progress::Finished => ProgressView::Finished,
            Progress::Failed(failure) => ProgressView::Failed(failure),
        }
    }
}

impl View for ReadStep {
    type V = ReadView;

    open spec fn view(&self) -> ReadView {
        match *self {
            ReadStep::Read(n) => ReadView::Read(n as nat),
            ReadStep::Message(Some(m)) => ReadView::Message(Some(m@)),
            ReadStep::Message(None) => ReadView::Message(None),
            ReadStep::Failed(failure) => ReadView::Failed(failure),
        }
    }
}

/// What a connection knows: the pieces that the peer has, whether the peer
/// refuses requests, and whether the last request was answered.
#[verifier::ext_equal]
pub struct PeerModel {
    pub peer_id: Seq<u8>,
    pub address: SocketAddr,
    pub connected: bool,
    pub has: Seq<bool>,
    pub choke: bool,
    pub ready: bool,
    pub state: PeerState,
}

/// Where a step of a connection leads: the connection after it, the queue of
/// requests after it, and what to do.
#[verifier::ext_equal]
pub struct PeerStep {
    pub peer: PeerModel,
    pub queue: Seq<(u32, u32, u32)>,
    pub action: PeerActionView,
}

/// The pause between two messages, in milliseconds.
pub const PAUSE_MILLIS: u64 = 100;

/// How long the parts of a message may take, in seconds.
pub const READ_SECS: u64 = 1;

/// The failure of a connection whose handshake was turned down.
pub open spec fn refusal(failure: HandshakeFailure) -> PeerFailure {
    match failure {
        HandshakeFailure::WrongFirstByte => PeerFailure::WrongFirstByte,
        HandshakeFailure::WrongProtocol => PeerFailure::WrongProtocol,
    }
}

impl HandshakeStage {
    /// What can become of the action of this stage. A reply has to be readable.
    pub open spec fn expects(self, event: PeerEventView) -> bool {
        match self {
            HandshakeStage::Ready => event is Done,
            HandshakeStage::Greeting => event is Done || event is Failed,
            HandshakeStage::AwaitingReply => event is Failed || (event is Bytes && reply_readable(
                event->Bytes_0,
            )),
        }
    }

    /// The stage that follows.
    pub open spec fn next(self) -> HandshakeStage {
        match self {
            HandshakeStage::Ready => HandshakeStage::Greeting,
            _ => HandshakeStage::AwaitingReply,
        }
    }
}

impl DialStage {
    /// What can become of the action of this stage.
    pub open spec fn expects(self, event: PeerEventView) -> bool {
        match self {
            DialStage::Ready => event is Done,
            DialStage::Connecting => event is Done || event is Failed,
            DialStage::Handshaking(stage) => stage.expects(event),
            DialStage::Interesting => event is Done || event is Failed,
        }
    }

    /// The stage that follows.
    pub open spec fn next(self) -> DialStage {
        match self {
            DialStage::Ready => DialStage::Connecting,
            DialStage::Connecting => DialStage::Handshaking(HandshakeStage::Greeting),
            DialStage::Handshaking(HandshakeStage::AwaitingReply) => DialStage::Interesting,
            DialStage::Handshaking(stage) => DialStage::Handshaking(stage.next()),
            DialStage::Interesting => DialStage::Interesting,
        }
    }
}

impl ReadStage {
    /// What can become of the action of this stage. A body has to be one that
    /// can be decoded.
    pub open spec fn expects(self, event: PeerEventView) -> bool {
        match self {
            ReadStage::Ready => event is Done,
            ReadStage::Length => event is Failed || event is TimedOut || (event is Bytes
                && event->Bytes_0.len() == 4),
            ReadStage::Body(n) => event is Failed || event is TimedOut || (event is Bytes
                && event->Bytes_0.len() == n && decodable(event->Bytes_0)),
        }
    }

    /// The stage that follows, once it is known that `n` bytes are to be read.
    pub open spec fn next(self, n: nat) -> ReadStage {
        match self {
            ReadStage::Ready => ReadStage::Length,
            _ => ReadStage::Body(n as usize),
        }
    }
}

impl PeerModel {
    /// A connection that was not started yet.
    pub open spec fn fresh(address: SocketAddr) -> PeerModel {
        PeerModel {
            peer_id: zeros(20),
            address,
            connected: false,
            has: Seq::empty(),
            choke: false,
            ready: true,
            state: PeerState::Idle,
        }
    }

    /// Whoever talks to the peer is connected to it.
    pub open spec fn wf(self) -> bool {
        match self.state {
            PeerState::Idle => true,
            PeerState::Dialing(DialStage::Ready) => true,
            PeerState::Dialing(DialStage::Connecting) => true,
            PeerState::Quitting(_) => true,
            PeerState::Stopped => true,
            _ => self.connected,
        }
    }

    /// What can be reported to the connection. A message that tells of a piece
    /// has to name one that the bit field of the peer has room for.
    pub open spec fn expects(self, event: PeerEventView) -> bool {
        match self.state {
            PeerState::Idle => event is Done,
            PeerState::Dialing(stage) => stage.expects(event),
            PeerState::Joining => event is Done,
            PeerState::Polling => event is Command,
            PeerState::Reading(stage) => stage.expects(event) && (stage is Body && event is Bytes
                && decoded(event->Bytes_0) is Have ==> (decoded(event->Bytes_0)->Have_0 as int)
                < self.has.len()),
            PeerState::Forwarding => event is Done,
            PeerState::Requesting => event is Done || event is Failed,
            PeerState::Sleeping => event is Done,
            PeerState::Quitting(_) => event is Done,
            PeerState::Stopped => false,
        }
    }

    /// The same, waiting for something else.
    pub open spec fn at(self, state: PeerState) -> PeerModel {
        PeerModel { state, ..self }
    }

    /// A step of the handshake. It needs a connection. A handshake that could
    /// not be written or that was answered wrongly ends the connection.
    pub open spec fn handshake(self, stage: HandshakeStage, event: PeerEventView, info_hash: Seq<u8>) -> (
        PeerModel,
        ProgressView,
    ) {
        let dropped = PeerModel { connected: false, ..self };
        match stage {
            HandshakeStage::Ready => if self.connected {
                (self, ProgressView::Act(PeerActionView::Write(handshake_bytes(info_hash))))
            } else {
                (self, ProgressView::Failed(PeerFailure::NotConnected))
            },
            HandshakeStage::Greeting => if event is Done {
                (self, ProgressView::Act(PeerActionView::Read(HANDSHAKE_LENGTH as nat)))
            } else {
                (dropped, ProgressView::Failed(PeerFailure::HandshakeWrite))
            },
            HandshakeStage::AwaitingReply => match event {
                PeerEventView::Bytes(reply) => match reply_outcome(reply) {
                    Ok(_) => (self, ProgressView::Finished),
                    Err(failure) => (dropped, ProgressView::Failed(refusal(failure))),
                },
                _ => (self, ProgressView::Failed(PeerFailure::HandshakeRead)),
            },
        }
    }

    /// A step of the outgoing connection: open it, shake hands, tell of
    /// interest.
    pub open spec fn dial(self, stage: DialStage, event: PeerEventView, info_hash: Seq<u8>) -> (
        PeerModel,
        ProgressView,
    ) {
        match stage {
            DialStage::Ready => (self, ProgressView::Act(PeerActionView::Connect(self.address))),
            DialStage::Connecting => if event is Done {
                PeerModel { connected: true, ..self }.handshake(
                    HandshakeStage::Ready,
                    PeerEventView::Done,
                    info_hash,
                )
            } else {
                (self, ProgressView::Failed(PeerFailure::Connection))
            },
            DialStage::Handshaking(handshake) => {
                let (peer, progress) = self.handshake(handshake, event, info_hash);
                if progress is Finished {
                    (
                        peer,
                        ProgressView::Act(PeerActionView::Write(encoded(MessageView::Interested))),
                    )
                } else {
                    (peer, progress)
                }
            },
            DialStage::Interesting => if event is Done {
                (self, ProgressView::Finished)
            } else {
                (self, ProgressView::Failed(PeerFailure::Interested))
            },
        }
    }

    /// A step of the reading of a message: its length first, which is four
    /// bytes, then as many bytes as that says. If either part takes too long
    /// there is no message.
    pub open spec fn reading(self, stage: ReadStage, event: PeerEventView) -> ReadView {
        match stage {
            ReadStage::Ready => if self.connected {
                ReadView::Read(4)
            } else {
                ReadView::Failed(PeerFailure::NotConnected)
            },
            ReadStage::Length => match event {
                PeerEventView::Bytes(length) => ReadView::Read(be_value(length)),
                PeerEventView::TimedOut => ReadView::Message(None),
                _ => ReadView::Failed(PeerFailure::Read),
            },
            ReadStage::Body(_) => match event {
                PeerEventView::Bytes(body) => ReadView::Message(Some(decoded(body))),
                PeerEventView::TimedOut => ReadView::Message(None),
                _ => ReadView::Failed(PeerFailure::Read),
            },
        }
    }

    /// Whether the connection takes the oldest request: the peer accepts
    /// requests, has answered the last one, and has the piece.
    pub open spec fn takes(self, queue: Seq<(u32, u32, u32)>) -> bool {
        &&& !self.choke
        &&& self.ready
        &&& queue.len() > 0
        &&& (queue[0].0 as int) < self.has.len()
        &&& self.has[queue[0].0 as int]
    }

    /// Takes the oldest request if it can, and sends it unless the block came
    /// in by now.
    pub open spec fn ask(self, ctx: ContextView) -> PeerStep {
        if self.takes(ctx.queue) && !ctx.counter.is_downloaded(
            ctx.queue[0].0 as int,
            ctx.queue[0].1 as int,
        ) {
            PeerStep {
                peer: self.at(PeerState::Requesting),
                queue: ctx.queue.skip(1),
                action: PeerActionView::Write(
                    encoded(
                        MessageView::Request(ctx.queue[0].0, ctx.queue[0].1, ctx.queue[0].2),
                    ),
                ),
            }
        } else {
            PeerStep {
                peer: self.at(PeerState::Sleeping),
                queue: if self.takes(ctx.queue) {
                    ctx.queue.skip(1)
                } else {
                    ctx.queue
                },
                action: PeerActionView::Sleep(PAUSE_MILLIS as nat),
            }
        }
    }

    /// What a message does: those that tell of the peer are taken note of, the
    /// others go to the torrent.
    pub open spec fn hear(self, m: MessageView, ctx: ContextView) -> PeerStep {
        match m {
            MessageView::Choke => PeerModel { choke: true, ..self }.ask(ctx),
            MessageView::Unchoke => PeerModel { choke: false, ready: true, ..self }.ask(ctx),
            MessageView::Bitfield(has, _) => PeerModel { has, ..self }.ask(ctx),
            MessageView::Have(index) => PeerModel {
                has: self.has.update(index as int, true),
                ..self
            }.ask(ctx),
            _ => PeerStep {
                peer: self.at(PeerState::Forwarding),
                queue: ctx.queue,
                action: PeerActionView::Alert(AlertView::Received(self.address, m)),
            },
        }
    }

    /// A step of the reading of a message, and what follows from it.
    pub open spec fn listen(self, stage: ReadStage, event: PeerEventView, ctx: ContextView) -> PeerStep {
        match self.reading(stage, event) {
            ReadView::Read(n) => PeerStep {
                peer: self.at(PeerState::Reading(stage.next(n))),
                queue: ctx.queue,
                action: PeerActionView::ReadWithin(n, READ_SECS as nat),
            },
            ReadView::Message(Some(m)) => self.hear(m, ctx),
            ReadView::Message(None) => self.ask(ctx),
            ReadView::Failed(failure) => PeerStep {
                peer: self.at(PeerState::Stopped),
                queue: ctx.queue,
                action: PeerActionView::Fail(failure),
            },
        }
    }

    /// A step of the outgoing connection, and what follows from it: the torrent
    /// hears of its success and of its failure.
    pub open spec fn call(self, stage: DialStage, event: PeerEventView, ctx: ContextView) -> PeerStep {
        let (peer, progress) = self.dial(stage, event, ctx.metainfo.info_hash@);
        match progress {
            ProgressView::Act(action) => PeerStep {
                peer: peer.at(PeerState::Dialing(stage.next())),
                queue: ctx.queue,
                action,
            },
            ProgressView::Finished => PeerStep {
                peer: peer.at(PeerState::Joining),
                queue: ctx.queue,
                action: PeerActionView::Alert(AlertView::Connected(self.address)),
            },
            ProgressView::Failed(failure) => PeerStep {
                peer: peer.at(PeerState::Quitting(failure)),
                queue: ctx.queue,
                action: PeerActionView::Alert(AlertView::Quit(self.address)),
            },
        }
    }

    /// Where an event leads.
    pub open spec fn after(self, event: PeerEventView, ctx: ContextView) -> PeerStep {
        let poll = PeerStep {
            peer: self.at(PeerState::Polling),
            queue: ctx.queue,
            action: PeerActionView::Poll,
        };
        match self.state {
            PeerState::Idle => PeerStep {
                peer: self.at(PeerState::Dialing(DialStage::Ready)),
                queue: ctx.queue,
                action: PeerActionView::Alert(AlertView::Connecting(self.address)),
            },
            PeerState::Dialing(stage) => self.call(stage, event, ctx),
            PeerState::Joining => poll,
            PeerState::Polling => if event == PeerEventView::Command(Some(CommandView::Shutdown)) {
                PeerStep {
                    peer: self.at(PeerState::Stopped),
                    queue: ctx.queue,
                    action: PeerActionView::Stop,
                }
            } else {
                self.listen(ReadStage::Ready, PeerEventView::Done, ctx)
            },
            PeerState::Reading(stage) => self.listen(stage, event, ctx),
            PeerState::Forwarding => PeerModel { ready: true, ..self }.ask(ctx),
            PeerState::Requesting => if event is Done {
                PeerStep {
                    peer: PeerModel { ready: false, ..self }.at(PeerState::Sleeping),
                    queue: ctx.queue,
                    action: PeerActionView::Sleep(PAUSE_MILLIS as nat),
                }
            } else {
                PeerStep {
                    peer: self.at(PeerState::Stopped),
                    queue: ctx.queue,
                    action: PeerActionView::Fail(PeerFailure::Send),
                }
            },
            PeerState::Sleeping => poll,
            PeerState::Quitting(failure) => PeerStep {
                peer: self.at(PeerState::Stopped),
                queue: ctx.queue,
                action: PeerActionView::Fail(failure),
            },
            PeerState::Stopped => PeerStep {
                peer: self,
                queue: ctx.queue,
                action: PeerActionView::Stop,
            },
        }
    }
}

impl View for Peer {
    type V = PeerModel;

    closed spec fn view(&self) -> PeerModel {
        PeerModel {
            peer_id: self.peer_id@,
            address: self.address,
            connected: self.connected,
            has: bits(self.bitfield),
            choke: self.choke,
            ready: self.ready,
            state: self.state,
        }
    }
}

impl Peer {
    /// A connection to `address` that was not started yet.
    pub fn new(address: SocketAddr) -> (peer: Peer)
        ensures
            peer@ == PeerModel::fresh(address),
            peer@.wf(),
    {
        let peer = Peer {
            peer_id: [0u8; 20],
            address,
            connected: false,
            bitfield: Bitfield::new(),
            choke: false,
            ready: true,
            state: PeerState::Idle,
        };
        assert(peer@ =~= PeerModel::fresh(address));
        peer
    }

    /// The bytes to write for a message. It needs a connection.
    pub fn send_message(&self, message: Message) -> (bytes: Result<Vec<u8>, PeerFailure>)
        requires
            message@ matches MessageView::Piece(_, _, piece) ==> piece.len() < usize::MAX,
        ensures
            bytes is Ok <==> self@.connected,
            bytes matches Ok(b) ==> b@ == encoded(message@),
            bytes matches Err(failure) ==> failure == PeerFailure::NotConnected,
    {
        if self.connected {
            Ok(message.into())
        } else {
            Err(PeerFailure::NotConnected)
        }
    }

    /// A step of the handshake.
    pub fn handshake(&mut self, stage: HandshakeStage, event: PeerEvent, info_hash: &[u8]) -> (progress:
        Progress)
        requires
            stage.expects(event@),
        ensures
            (final(self)@, progress@) == old(self)@.handshake(stage, event@, info_hash@),
    {
        match stage {
            HandshakeStage::Ready => if self.connected {
                Progress::Act(PeerAction::Write(handshake_message(info_hash)))
            } else {
                Progress::Failed(PeerFailure::NotConnected)
            },
            HandshakeStage::Greeting => match event {
                PeerEvent::Done => Progress::Act(PeerAction::Read(HANDSHAKE_LENGTH)),
                _ => {
                    self.connected = false;
                    Progress::Failed(PeerFailure::HandshakeWrite)
                },
            },
            HandshakeStage::AwaitingReply => match event {
                PeerEvent::Bytes(reply) => match check_reply(reply.as_slice()) {
                    Ok(_) => Progress::Finished,
                    Err(HandshakeFailure::WrongFirstByte) => {
                        self.connected = false;
                        Progress::Failed(PeerFailure::WrongFirstByte)
                    },
                    Err(HandshakeFailure::WrongProtocol) => {
                        self.connected = false;
                        Progress::Failed(PeerFailure::WrongProtocol)
                    },
                },
                _ => Progress::Failed(PeerFailure::HandshakeRead),
            },
        }
    }

    /// A step of the outgoing connection.
    pub fn initiate_outgoing_connection(&mut self, stage: DialStage, event: PeerEvent, info_hash: &[u8]) -> (
    progress: Progress)
        requires
            stage.expects(event@),
            stage is Handshaking ==> old(self)@.connected,
        ensures
            (final(self)@, progress@) == old(self)@.dial(stage, event@, info_hash@),
    {
        match stage {
            DialStage::Ready => Progress::Act(PeerAction::Connect(self.address)),
            DialStage::Connecting => match event {
                PeerEvent::Done => {
                    self.connected = true;
                    self.handshake(HandshakeStage::Ready, PeerEvent::Done, info_hash)
                },
                _ => Progress::Failed(PeerFailure::Connection),
            },
            DialStage::Handshaking(handshake) => {
                let progress: Progress = self.handshake(handshake, event, info_hash);
                match progress {
                    Progress::Finished => match self.send_message(Message::Interested) {
                        Ok(bytes) => Progress::Act(PeerAction::Write(bytes)),
                        Err(_) => unreached(),
                    },
                    _ => progress,
                }
            },
            DialStage::Interesting => match event {
                PeerEvent::Done => Progress::Finished,
                _ => Progress::Failed(PeerFailure::Interested),
            },
        }
    }

    /// A step of the reading of a message.
    pub fn read_message(&self, stage: ReadStage, event: PeerEvent) -> (step: ReadStep)
        requires
            stage.expects(event@),
        ensures
            step@ == self@.reading(stage, event@),
    {
        match stage {
            ReadStage::Ready => if self.connected {
                ReadStep::Read(4)
            } else {
                ReadStep::Failed(PeerFailure::NotConnected)
            },
            ReadStage::Length => match event {
                PeerEvent::Bytes(length) => {
                    let n: u32 = read_be_u32(length.as_slice(), 0);
                    assert(length@.subrange(0, 4) =~= length@);
                    ReadStep::Read(n as usize)
                },
                PeerEvent::TimedOut => ReadStep::Message(None),
                _ => ReadStep::Failed(PeerFailure::Read),
            },
            ReadStage::Body(_) => match event {
                PeerEvent::Bytes(body) => ReadStep::Message(Some(Message::from(body))),
                PeerEvent::TimedOut => ReadStep::Message(None),
                _ => ReadStep::Failed(PeerFailure::Read),
            },
        }
    }

    /// Takes the oldest request if the peer can serve it.
    fn ask(&mut self, ctx: &mut TorrentContext) -> (action: PeerAction)
        requires
            old(ctx)@.wf(),
        ensures
            ({
                let step = old(self)@.ask(old(ctx)@);
                &&& final(self)@ == step.peer
                &&& final(ctx)@ == old(ctx)@.with_queue(step.queue)
                &&& action@ == step.action
            }),
    {
        let ghost before = ctx@;
        if !self.choke && self.ready {
            if let Some(front) = queue_front(&ctx.outgoing_requests) {
                assert(before.is_request(before.queue[0]));
                let block: Block = Block::from_item(front);
                if let Some(true) = self.bitfield.get(block.index as usize) {
                    queue_pop_front(&mut ctx.outgoing_requests);
                    if !ctx.piece_counter.is_downloaded(block.index as usize, block.begin as usize) {
                        self.state = PeerState::Requesting;
                        let request: Message = Message::Request(
                            block.index,
                            block.begin,
                            block.length,
                        );
                        return PeerAction::Write(request.into());
                    }
                }
            }
        }
        self.state = PeerState::Sleeping;
        PeerAction::Sleep(PAUSE_MILLIS)
    }

    /// Takes note of a message or hands it on.
    fn hear(&mut self, m: Message, ctx: &mut TorrentContext) -> (action: PeerAction)
        requires
            old(ctx)@.wf(),
            m@ is Have ==> (m@->Have_0 as int) < old(self)@.has.len(),
        ensures
            ({
                let step = old(self)@.hear(m@, old(ctx)@);
                &&& final(self)@ == step.peer
                &&& final(ctx)@ == old(ctx)@.with_queue(step.queue)
                &&& action@ == step.action
            }),
    {
        match m {
            Message::Choke => {
                self.choke = true;
                self.ask(ctx)
            },
            Message::Unchoke => {
                self.choke = false;
                self.ready = true;
                self.ask(ctx)
            },
            Message::Bitfield(index) => {
                self.bitfield = index;
                self.ask(ctx)
            },
            Message::Have(index) => {
                self.bitfield.set(index as usize, true);
                self.ask(ctx)
            },
            _ => {
                self.state = PeerState::Forwarding;
                PeerAction::Alert(AlertMessage::Received(self.address, m))
            },
        }
    }

    /// Goes on with the reading of a message.
    fn listen(&mut self, stage: ReadStage, event: PeerEvent, ctx: &mut TorrentContext) -> (action:
        PeerAction)
        requires
            old(ctx)@.wf(),
            old(self)@.at(PeerState::Reading(stage)).expects(event@),
        ensures
            ({
                let step = old(self)@.listen(stage, event@, old(ctx)@);
                &&& final(self)@ == step.peer
                &&& final(ctx)@ == old(ctx)@.with_queue(step.queue)
                &&& action@ == step.action
            }),
    {
        match self.read_message(stage, event) {
            ReadStep::Read(n) => {
                self.state = PeerState::Reading(
                    match stage {
                        ReadStage::Ready => ReadStage::Length,
                        _ => ReadStage::Body(n),
                    },
                );
                PeerAction::ReadWithin(n, READ_SECS)
            },
            ReadStep::Message(Some(m)) => self.hear(m, ctx),
            ReadStep::Message(None) => self.ask(ctx),
            ReadStep::Failed(failure) => {
                self.state = PeerState::Stopped;
                PeerAction::Fail(failure)
            },
        }
    }

    /// Goes on with the outgoing connection.
    fn call(&mut self, stage: DialStage, event: PeerEvent, ctx: &TorrentContext) -> (action: PeerAction)
        requires
            stage.expects(event@),
            stage is Handshaking ==> old(self)@.connected,
        ensures
            ({
                let step = old(self)@.call(stage, event@, ctx@);
                &&& final(self)@ == step.peer
                &&& step.queue == ctx@.queue
                &&& action@ == step.action
            }),
    {
        match self.initiate_outgoing_connection(stage, event, ctx.metainfo.info_hash.as_slice()) {
            Progress::Act(action) => {
                let next: DialStage = match stage {
                    DialStage::Ready => DialStage::Connecting,
                    DialStage::Connecting => DialStage::Handshaking(HandshakeStage::Greeting),
                    DialStage::Handshaking(HandshakeStage::AwaitingReply) => DialStage::Interesting,
                    DialStage::Handshaking(HandshakeStage::Ready) => DialStage::Handshaking(
                        HandshakeStage::Greeting,
                    ),
                    DialStage::Handshaking(HandshakeStage::Greeting) => DialStage::Handshaking(
                        HandshakeStage::AwaitingReply,
                    ),
                    DialStage::Interesting => DialStage::Interesting,
                };
                self.state = PeerState::Dialing(next);
                action
            },
            Progress::Finished => {
                self.state = PeerState::Joining;
                PeerAction::Alert(AlertMessage::Connected(self.address))
            },
            Progress::Failed(failure) => {
                self.state = PeerState::Quitting(failure);
                PeerAction::Alert(AlertMessage::Quit(self.address))
            },
        }
    }

    /// Takes in what became of the last action, and says what to do next. The
    /// first event is `Done`.
    pub fn run(&mut self, ctx: &mut TorrentContext, event: PeerEvent) -> (action: PeerAction)
        requires
            old(self)@.wf(),
            old(ctx)@.wf(),
            old(self)@.expects(event@),
        ensures
            ({
                let step = old(self)@.after(event@, old(ctx)@);
                &&& final(self)@ == step.peer
                &&& final(ctx)@ == old(ctx)@.with_queue(step.queue)
                &&& action@ == step.action
            }),
            final(self)@.wf(),
            final(ctx)@.wf(),
    {
        let ghost before = ctx@;
        let ghost peer = self@;
        proof {
            law_step_keeps_order(peer, event@, before);
            assert(before.with_queue(before.queue) =~= before);
        }
        match self.state {
            PeerState::Idle => {
                self.state = PeerState::Dialing(DialStage::Ready);
                PeerAction::Alert(AlertMessage::Connecting(self.address))
            },
            PeerState::Dialing(stage) => self.call(stage, event, ctx),
            PeerState::Joining => {
                self.state = PeerState::Polling;
                PeerAction::Poll
            },
            PeerState::Polling => match event {
                PeerEvent::Command(Some(PeerCommand::Shutdown)) => {
                    self.state = PeerState::Stopped;
                    PeerAction::Stop
                },
                _ => self.listen(ReadStage::Ready, PeerEvent::Done, ctx),
            },
            PeerState::Reading(stage) => self.listen(stage, event, ctx),
            PeerState::Forwarding => {
                self.ready = true;
                self.ask(ctx)
            },
            PeerState::Requesting => match event {
                PeerEvent::Done => {
                    self.ready = false;
                    self.state = PeerState::Sleeping;
                    PeerAction::Sleep(PAUSE_MILLIS)
                },
                _ => {
                    self.state = PeerState::Stopped;
                    PeerAction::Fail(PeerFailure::Send)
                },
            },
            PeerState::Sleeping => {
                self.state = PeerState::Polling;
                PeerAction::Poll
            },
            PeerState::Quitting(failure) => {
                self.state = PeerState::Stopped;
                PeerAction::Fail(failure)
            },
            PeerState::Stopped => PeerAction::Stop,
        }
    }

    /// Whether `run` can take in an event now.
    pub fn accepts(&self, event: &PeerEvent) -> (accepts: bool)
        ensures
            accepts == self@.expects(event@),
    {
        match self.state {
            PeerState::Idle => matches!(event, PeerEvent::Done),
            PeerState::Dialing(stage) => match stage {
                DialStage::Ready => matches!(event, PeerEvent::Done),
                DialStage::Connecting => matches!(event, PeerEvent::Done | PeerEvent::Failed),
                DialStage::Handshaking(HandshakeStage::Ready) => matches!(event, PeerEvent::Done),
                DialStage::Handshaking(HandshakeStage::Greeting) => {
                    matches!(event, PeerEvent::Done | PeerEvent::Failed)
                },
                DialStage::Handshaking(HandshakeStage::AwaitingReply) => match event {
                    PeerEvent::Failed => true,
                    PeerEvent::Bytes(reply) => is_reply_readable(reply.as_slice()),
                    _ => false,
                },
                DialStage::Interesting => matches!(event, PeerEvent::Done | PeerEvent::Failed),
            },
            PeerState::Joining => matches!(event, PeerEvent::Done),
            PeerState::Polling => matches!(event, PeerEvent::Command(_)),
            PeerState::Reading(stage) => match stage {
                ReadStage::Ready => matches!(event, PeerEvent::Done),
                ReadStage::Length => match event {
                    PeerEvent::Failed => true,
                    PeerEvent::TimedOut => true,
                    PeerEvent::Bytes(length) => length.len() == 4,
                    _ => false,
                },
                ReadStage::Body(n) => match event {
                    PeerEvent::Failed => true,
                    PeerEvent::TimedOut => true,
                    PeerEvent::Bytes(body) => {
                        body.len() == n && Message::is_decodable(body) && (body.len() == 0 || body[0]
                            != 4 || (read_be_u32(body.as_slice(), 1) as usize) < self.bitfield.len())
                    },
                    _ => false,
                },
            },
            PeerState::Forwarding => matches!(event, PeerEvent::Done),
            PeerState::Requesting => matches!(event, PeerEvent::Done | PeerEvent::Failed),
            PeerState::Sleeping => matches!(event, PeerEvent::Done),
            PeerState::Quitting(_) => matches!(event, PeerEvent::Done),
            PeerState::Stopped => false,
        }
    }
}

/// A step keeps the connection and the context in order, and at most takes the
/// oldest request out of the queue.
pub proof fn law_step_keeps_order(peer: PeerModel, event: PeerEventView, ctx: ContextView)
    requires
        peer.wf(),
        ctx.wf(),
        peer.expects(event),
    ensures
        peer.after(event, ctx).peer.wf(),
        ctx.with_queue(peer.after(event, ctx).queue).wf(),
        peer.after(event, ctx).queue == ctx.queue || (ctx.queue.len() > 0 && peer.after(
            event,
            ctx,
        ).queue == ctx.queue.skip(1)),
{
    if ctx.queue.len() > 0 {
        let rest = ctx.with_queue(ctx.queue.skip(1));
        assert forall|i: int| 0 <= i < rest.queue.len() implies rest.is_request(
            #[trigger] rest.queue[i],
        ) by {
            assert(rest.queue[i] == ctx.queue[i + 1]);
            assert(ctx.is_request(ctx.queue[i + 1]));
        }
        assert(rest.wf());
    }
    assert(ctx.with_queue(ctx.queue) =~= ctx);
}

/// A request goes out only for the oldest block in the queue, which leaves it,
/// and only where the peer accepts requests, has answered the last one and has
/// the piece, and the block is not there.
pub proof fn law_request_is_due(peer: PeerModel, event: PeerEventView, ctx: ContextView)
    requires
        peer.expects(event),
        peer.after(event, ctx).peer.state == PeerState::Requesting,
    ensures
        ({
            let step = peer.after(event, ctx);
            let block = ctx.queue[0];
            &&& ctx.queue.len() > 0
            &&& step.queue == ctx.queue.skip(1)
            &&& step.action == PeerActionView::Write(
                encoded(MessageView::Request(block.0, block.1, block.2)),
            )
            &&& !step.peer.choke
            &&& step.peer.ready
            &&& (block.0 as int) < step.peer.has.len()
            &&& step.peer.has[block.0 as int]
            &&& !ctx.counter.is_downloaded(block.0 as int, block.1 as int)
        }),
{
}

/// Whether an event brings a message from the peer, and which.
pub open spec fn heard(peer: PeerModel, event: PeerEventView) -> Option<MessageView> {
    match peer.state {
        PeerState::Reading(ReadStage::Body(_)) => match event {
            PeerEventView::Bytes(body) => Some(decoded(body)),
            _ => None,
        },
        _ => None,
    }
}

/// One request at a time: once a request was written the connection is not
/// ready, and it stays so until a message went to the torrent or the peer takes
/// back a refusal.
pub proof fn law_one_request_at_a_time(peer: PeerModel, event: PeerEventView, ctx: ContextView)
    requires
        peer.expects(event),
    ensures
        peer.state == PeerState::Requesting && event is Done ==> !peer.after(event, ctx).peer.ready,
        !peer.ready && peer.state != PeerState::Forwarding && heard(peer, event) != Some(
            MessageView::Unchoke,
        ) ==> {
            &&& !peer.after(event, ctx).peer.ready
            &&& peer.after(event, ctx).peer.state != PeerState::Requesting
        },
{
}

/// A peer that refuses requests gets none until it takes that back.
pub proof fn law_choked_until_unchoked(peer: PeerModel, event: PeerEventView, ctx: ContextView)
    requires
        peer.expects(event),
        peer.choke,
        heard(peer, event) != Some(MessageView::Unchoke),
    ensures
        peer.after(event, ctx).peer.choke,
        peer.after(event, ctx).peer.state != PeerState::Requesting,
        peer.after(event, ctx).queue == ctx.queue,
{
}

/// What one end sends with `send_message` the other end reads: the first four
/// bytes tell how much follows, and that is the message. It holds of the
/// messages whose length is sent in four bytes and counts what follows.
pub proof fn law_sent_is_read(peer: PeerModel, m: MessageView)
    requires
        peer.connected,
        framed(m),
    ensures
        peer.reading(ReadStage::Ready, PeerEventView::Done) == ReadView::Read(4),
        peer.reading(ReadStage::Length, PeerEventView::Bytes(encoded(m).take(4))) == ReadView::Read(
            (encoded(m).len() - 4) as nat,
        ),
        peer.reading(
            ReadStage::Body((encoded(m).len() - 4) as usize),
            PeerEventView::Bytes(encoded(m).skip(4)),
        ) == ReadView::Message(Some(m)),
{
    law_message_round_trip(m);
}

/// A connection that goes well: the torrent hears that the client dials, the
/// connection is opened, the handshake is written, a reply of the right length
/// is read and found right, interest is told, and the torrent hears that the
/// client is connected.
pub proof fn law_connection_succeeds(address: SocketAddr, reply: Seq<u8>, ctx: ContextView)
    requires
        reply_readable(reply),
        reply_outcome(reply) is Ok,
    ensures
        ({
            let s1 = PeerModel::fresh(address).after(PeerEventView::Done, ctx);
            let s2 = s1.peer.after(PeerEventView::Done, ctx);
            let s3 = s2.peer.after(PeerEventView::Done, ctx);
            let s4 = s3.peer.after(PeerEventView::Done, ctx);
            let s5 = s4.peer.after(PeerEventView::Bytes(reply), ctx);
            let s6 = s5.peer.after(PeerEventView::Done, ctx);
            &&& s1.action == PeerActionView::Alert(AlertView::Connecting(address))
            &&& s2.action == PeerActionView::Connect(address)
            &&& s3.action == PeerActionView::Write(handshake_bytes(ctx.metainfo.info_hash@))
            &&& s4.action == PeerActionView::Read(HANDSHAKE_LENGTH as nat)
            &&& s5.action == PeerActionView::Write(encoded(MessageView::Interested))
            &&& s6.action == PeerActionView::Alert(AlertView::Connected(address))
            &&& s6.peer == PeerModel {
                connected: true,
                state: PeerState::Joining,
                ..PeerModel::fresh(address)
            }
        }),
{
}

/// A connection that fails before it stands: the torrent hears that the peer is
/// gone, and then the connection ends with the error.
pub proof fn law_failed_connection_quits(peer: PeerModel, event: PeerEventView, ctx: ContextView)
    requires
        peer.state is Dialing,
        peer.expects(event),
        peer.after(event, ctx).peer.state is Quitting,
    ensures
        ({
            let step = peer.after(event, ctx);
            let failure = step.peer.state->Quitting_0;
            &&& step.action == PeerActionView::Alert(AlertView::Quit(peer.address))
            &&& step.peer.expects(PeerEventView::Done)
            &&& step.peer.after(PeerEventView::Done, ctx).action == PeerActionView::Fail(failure)
            &&& step.peer.after(PeerEventView::Done, ctx).peer.state == PeerState::Stopped
        }),
{
}

/// What an alert says is what its fields hold.
pub proof fn law_alert_view(alert: AlertMessage)
    ensures
        match alert {
            AlertMessage::Received(peer, m) => alert@ is Received && alert@->Received_0 == peer
                && alert@->Received_1 == m@,
            AlertMessage::Connecting(peer) => alert@ is Connecting && alert@->Connecting_0 == peer,
            AlertMessage::Connected(peer) => alert@ is Connected && alert@->Connected_0 == peer,
            AlertMessage::Quit(peer) => alert@ is Quit && alert@->Quit_0 == peer,
        },
{
}

/// What a command and an event say is what their fields hold.
pub proof fn law_event_view(event: PeerEvent)
    ensures
        match event {
            PeerEvent::Done => event@ is Done,
            PeerEvent::Failed => event@ is Failed,
            PeerEvent::TimedOut => event@ is TimedOut,
            PeerEvent::Bytes(bytes) => event@ is Bytes && event@->Bytes_0 == bytes@,
            PeerEvent::Command(None) => event@ is Command && event@->Command_0 is None,
            PeerEvent::Command(Some(PeerCommand::Shutdown)) => event@ is Command
                && event@->Command_0 is Some && event@->Command_0->0 is Shutdown,
            PeerEvent::Command(Some(PeerCommand::Send(m))) => event@ is Command && event@->Command_0
                == Some(CommandView::Send(m@)),
        },
{
}

/// What an action says is what its fields hold.
pub proof fn law_action_view(action: PeerAction)
    ensures
        match action {
            PeerAction::Alert(alert) => action@ is Alert && action@->Alert_0 == alert@,
            PeerAction::Connect(peer) => action@ is Connect && action@->Connect_0 == peer,
            PeerAction::Write(bytes) => action@ is Write && action@->Write_0 == bytes@,
            PeerAction::Read(n) => action@ is Read && action@->Read_0 == n,
            PeerAction::ReadWithin(n, secs) => action@ is ReadWithin && action@->ReadWithin_0 == n
                && action@->ReadWithin_1 == secs,
            PeerAction::Poll => action@ is Poll,
            PeerAction::Sleep(millis) => action@ is Sleep && action@->Sleep_0 == millis,
            PeerAction::Stop => action@ is Stop,
            PeerAction::Fail(failure) => action@ is Fail && action@->Fail_0 == failure,
        },
{
}

/// What the outcome of a step says is what its fields hold.
pub proof fn law_step_views(progress: Progress, step: ReadStep)
    ensures
        match progress {
            Progress::Act(action) => progress@ is Act && progress@->Act_0 == action@,
            Progress::Finished => progress@ is Finished,
            Progress::Failed(failure) => progress@ is Failed && progress@->Failed_0 == failure,
        },
        match step {
            ReadStep::Read(n) => step@ is Read && step@->Read_0 == n,
            ReadStep::Message(Some(m)) => step@ is Message && step@->Message_0 == Some(m@),
            ReadStep::Message(None) => step@ is Message && step@->Message_0 is None,
            ReadStep::Failed(failure) => step@ is Failed && step@->Failed_0 == failure,
        },
{
}

/// A connection that was not started: it knows no pieces, the peer counts as
/// willing, and nothing is owed.
pub proof fn law_fresh_peer(address: SocketAddr)
    ensures
        ({
            let p = PeerModel::fresh(address);
            &&& p.address == address
            &&& p.peer_id.len() == 20
            &&& forall|i: int| 0 <= i < 20 ==> #[trigger] p.peer_id[i] == 0
            &&& !p.connected
            &&& p.has.len() == 0
            &&& !p.choke
            &&& p.ready
            &&& p.state == PeerState::Idle
        }),
{
}

/// A connection that stands is always in order, and so is one that does not
/// stand yet or any more.
pub proof fn law_peer_in_order(p: PeerModel)
    ensures
        p.connected ==> p.wf(),
        p.state == PeerState::Idle || p.state == PeerState::Dialing(DialStage::Ready) || p.state
            == PeerState::Dialing(DialStage::Connecting) || p.state is Quitting || p.state
            == PeerState::Stopped ==> p.wf(),
{
}

/// What can be reported in which state. Nothing that an action can come to is
/// left out but a reply that is not readable, a body that cannot be decoded, and
/// word of a piece that the bit field has no room for.
pub proof fn law_what_is_expected(p: PeerModel, event: PeerEventView)
    ensures
        p.state == PeerState::Idle || p.state == PeerState::Joining || p.state == PeerState::Forwarding
            || p.state == PeerState::Sleeping || p.state is Quitting || p.state == PeerState::Dialing(
            DialStage::Ready,
        ) ==> (p.expects(event) <==> event is Done),
        p.state == PeerState::Dialing(DialStage::Connecting) || p.state == PeerState::Dialing(
            DialStage::Handshaking(HandshakeStage::Greeting),
        ) || p.state == PeerState::Dialing(DialStage::Interesting) || p.state == PeerState::Requesting
            ==> (p.expects(event) <==> event is Done || event is Failed),
        p.state == PeerState::Dialing(DialStage::Handshaking(HandshakeStage::AwaitingReply)) ==> (
        p.expects(event) <==> event is Failed || (event is Bytes && reply_readable(event->Bytes_0))),
        p.state == PeerState::Polling ==> (p.expects(event) <==> event is Command),
        p.state == PeerState::Reading(ReadStage::Length) ==> (p.expects(event) <==> event is Failed
            || event is TimedOut || (event is Bytes && event->Bytes_0.len() == 4)),
        p.state is Reading && p.state->Reading_0 is Body ==> (p.expects(event) <==> event is Failed
            || event is TimedOut || ({
            let body = event->Bytes_0;
            &&& event is Bytes
            &&& body.len() == p.state->Reading_0->Body_0
            &&& decodable(body)
            &&& body.len() > 0 && body[0] == 4 ==> quad(body, 1) < p.has.len()
        })),
        p.state == PeerState::Stopped ==> !p.expects(event),
{
    if event is Bytes && decodable(event->Bytes_0) {
        law_decoded_fields(event->Bytes_0);
    }
}

/// How a connection is opened and how its failures come out: each stage leads to
/// the next where it goes well, and to word for the torrent and an error where it
/// does not. The rest of what the connection knows stays.
pub proof fn law_dialing_steps(p: PeerModel, event: PeerEventView, ctx: ContextView)
    requires
        p.expects(event),
    ensures
        p.after(event, ctx).queue == ctx.queue || !(p.state is Dialing || p.state is Idle),
        p.state == PeerState::Idle ==> {
            &&& p.after(event, ctx).action == PeerActionView::Alert(AlertView::Connecting(p.address))
            &&& p.after(event, ctx).peer == PeerModel {
                state: PeerState::Dialing(DialStage::Ready),
                ..p
            }
        },
        p.state == PeerState::Dialing(DialStage::Ready) ==> {
            &&& p.after(event, ctx).action == PeerActionView::Connect(p.address)
            &&& p.after(event, ctx).peer == PeerModel {
                state: PeerState::Dialing(DialStage::Connecting),
                ..p
            }
        },
        p.state == PeerState::Dialing(DialStage::Connecting) && event is Done ==> {
            &&& p.after(event, ctx).action == PeerActionView::Write(
                handshake_bytes(ctx.metainfo.info_hash@),
            )
            &&& p.after(event, ctx).peer == PeerModel {
                connected: true,
                state: PeerState::Dialing(DialStage::Handshaking(HandshakeStage::Greeting)),
                ..p
            }
        },
        p.state == PeerState::Dialing(DialStage::Connecting) && event is Failed ==> quits(
            p.after(event, ctx),
            p,
            p.connected,
            PeerFailure::Connection,
        ),
        p.state == PeerState::Dialing(DialStage::Handshaking(HandshakeStage::Greeting)) && event is Done
            ==> {
            &&& p.after(event, ctx).action == PeerActionView::Read(68)
            &&& p.after(event, ctx).peer == PeerModel {
                state: PeerState::Dialing(DialStage::Handshaking(HandshakeStage::AwaitingReply)),
                ..p
            }
        },
        p.state == PeerState::Dialing(DialStage::Handshaking(HandshakeStage::Greeting)) && event
            is Failed ==> quits(p.after(event, ctx), p, false, PeerFailure::HandshakeWrite),
        p.state == PeerState::Dialing(DialStage::Handshaking(HandshakeStage::AwaitingReply)) && event
            is Bytes && event->Bytes_0.subrange(0, 20) == opening() ==> {
            &&& p.after(event, ctx).action == PeerActionView::Write(seq![0u8, 0, 0, 1, 2])
            &&& p.after(event, ctx).peer == PeerModel {
                state: PeerState::Dialing(DialStage::Interesting),
                ..p
            }
        },
        p.state == PeerState::Dialing(DialStage::Handshaking(HandshakeStage::AwaitingReply)) && event
            is Bytes && event->Bytes_0[0] != 19 ==> quits(
            p.after(event, ctx),
            p,
            false,
            PeerFailure::WrongFirstByte,
        ),
        p.state == PeerState::Dialing(DialStage::Handshaking(HandshakeStage::AwaitingReply)) && event
            is Bytes && event->Bytes_0[0] == 19 && event->Bytes_0.subrange(0, 20) != opening() ==> quits(
            p.after(event, ctx),
            p,
            false,
            PeerFailure::WrongProtocol,
        ),
        p.state == PeerState::Dialing(DialStage::Handshaking(HandshakeStage::AwaitingReply)) && event
            is Failed ==> quits(p.after(event, ctx), p, p.connected, PeerFailure::HandshakeRead),
        p.state == PeerState::Dialing(DialStage::Interesting) && event is Done ==> {
            &&& p.after(event, ctx).action == PeerActionView::Alert(AlertView::Connected(p.address))
            &&& p.after(event, ctx).peer == PeerModel { state: PeerState::Joining, ..p }
        },
        p.state == PeerState::Dialing(DialStage::Interesting) && event is Failed ==> quits(
            p.after(event, ctx),
            p,
            p.connected,
            PeerFailure::Interested,
        ),
{
    if p.state == PeerState::Dialing(DialStage::Handshaking(HandshakeStage::AwaitingReply)) && event
        is Bytes {
        law_reply_is_accepted_by_its_opening(event->Bytes_0);
        law_reply_is_turned_down(event->Bytes_0);
        law_plain_message_bytes();
    }
}

/// Whether a step tells the torrent that the peer is gone, and goes on to end
/// with this error.
pub open spec fn quits(step: PeerStep, p: PeerModel, connected: bool, failure: PeerFailure) -> bool {
    &&& step.action == PeerActionView::Alert(AlertView::Quit(p.address))
    &&& step.peer == PeerModel { connected, state: PeerState::Quitting(failure), ..p }
}

/// The handshake and the reading of a message need a connection.
pub proof fn law_nothing_without_a_connection(p: PeerModel, event: PeerEventView, info_hash: Seq<u8>)
    requires
        !p.connected,
    ensures
        p.handshake(HandshakeStage::Ready, event, info_hash) == (
            p,
            ProgressView::Failed(PeerFailure::NotConnected),
        ),
        p.reading(ReadStage::Ready, event) == ReadView::Failed(PeerFailure::NotConnected),
{
}

/// The steps between messages: a look at the commands, which may end the
/// connection; the length and the body of a message, each within a second; and a
/// pause of a tenth of a second. A request that was written makes the connection
/// wait; one that was not ends it. The rest of what the connection knows, and the
/// queue, stay.
pub proof fn law_steps_between_messages(p: PeerModel, event: PeerEventView, ctx: ContextView)
    requires
        p.wf(),
        p.expects(event),
    ensures
        p.state == PeerState::Joining || p.state == PeerState::Sleeping ==> steps(
            p.after(event, ctx),
            PeerModel { state: PeerState::Polling, ..p },
            ctx,
            PeerActionView::Poll,
        ),
        p.state == PeerState::Polling && event == PeerEventView::Command(Some(CommandView::Shutdown))
            ==> steps(
            p.after(event, ctx),
            PeerModel { state: PeerState::Stopped, ..p },
            ctx,
            PeerActionView::Stop,
        ),
        p.state == PeerState::Polling && event != PeerEventView::Command(Some(CommandView::Shutdown))
            ==> steps(
            p.after(event, ctx),
            PeerModel { state: PeerState::Reading(ReadStage::Length), ..p },
            ctx,
            PeerActionView::ReadWithin(4, 1),
        ),
        p.state == PeerState::Reading(ReadStage::Length) && event is Bytes ==> steps(
            p.after(event, ctx),
            PeerModel {
                state: PeerState::Reading(ReadStage::Body(quad(event->Bytes_0, 0) as usize)),
                ..p
            },
            ctx,
            PeerActionView::ReadWithin(quad(event->Bytes_0, 0) as nat, 1),
        ),
        p.state is Reading && event is Failed ==> steps(
            p.after(event, ctx),
            PeerModel { state: PeerState::Stopped, ..p },
            ctx,
            PeerActionView::Fail(PeerFailure::Read),
        ),
        p.state == PeerState::Requesting && event is Done ==> steps(
            p.after(event, ctx),
            PeerModel { ready: false, state: PeerState::Sleeping, ..p },
            ctx,
            PeerActionView::Sleep(100),
        ),
        p.state == PeerState::Requesting && event is Failed ==> steps(
            p.after(event, ctx),
            PeerModel { state: PeerState::Stopped, ..p },
            ctx,
            PeerActionView::Fail(PeerFailure::Send),
        ),
        p.state is Quitting ==> steps(
            p.after(event, ctx),
            PeerModel { state: PeerState::Stopped, ..p },
            ctx,
            PeerActionView::Fail(p.state->Quitting_0),
        ),
{
    if event is Bytes {
        crate::bytes::law_be_value_of_fields(event->Bytes_0);
    }
}

/// Whether a step leads here, with this action, and leaves the queue alone.
pub open spec fn steps(step: PeerStep, p: PeerModel, ctx: ContextView, action: PeerActionView) -> bool {
    &&& step.peer == p
    &&& step.queue == ctx.queue
    &&& step.action == action
}

/// Whether a step asks for a block where there is one to ask for, given what the
/// connection knows by then. Where the peer accepts requests, has answered the
/// last one and has the piece of the oldest request, that request leaves the
/// queue, and is sent unless its block is there: the bytes that go out tell the
/// piece, the offset and the number of bytes. Everywhere else nothing is sent and
/// the queue stays. Where nothing is sent the connection pauses.
pub open spec fn asks(step: PeerStep, p: PeerModel, ctx: ContextView) -> bool {
    let front = ctx.queue[0];
    let can = !p.choke && p.ready && ctx.queue.len() >= 1 && (front.0 as int) < p.has.len()
        && p.has[front.0 as int];
    let there = ctx.counter.blocks[front.0 as int][front.1 as int / 16384];
    &&& can ==> step.queue == ctx.queue.subrange(1, ctx.queue.len() as int)
    &&& !can ==> step.queue == ctx.queue
    &&& can && !there ==> {
        &&& step.peer == PeerModel { state: PeerState::Requesting, ..p }
        &&& step.action is Write
        &&& step.action->Write_0.len() == 17
        &&& step.action->Write_0.take(5) == seq![0u8, 0, 0, 13, 6]
        &&& quad(step.action->Write_0, 5) == front.0
        &&& quad(step.action->Write_0, 9) == front.1
        &&& quad(step.action->Write_0, 13) == front.2
    }
    &&& !can || there ==> {
        &&& step.peer == PeerModel { state: PeerState::Sleeping, ..p }
        &&& step.action == PeerActionView::Sleep(100)
    }
}

proof fn lemma_ask(p: PeerModel, ctx: ContextView)
    ensures
        asks(p.ask(ctx), p, ctx),
{
    if ctx.queue.len() > 0 {
        let front = ctx.queue[0];
        law_request_bytes(front.0, front.1, front.2);
        assert(ctx.queue.skip(1) =~= ctx.queue.subrange(1, ctx.queue.len() as int));
    }
}

/// Where no message came in time, and once a message went to the torrent, the
/// connection asks; in the second case it counts as ready.
pub proof fn law_asks_when_idle(p: PeerModel, event: PeerEventView, ctx: ContextView)
    requires
        p.expects(event),
    ensures
        p.state is Reading && event is TimedOut ==> asks(p.after(event, ctx), p, ctx),
        p.state == PeerState::Forwarding ==> asks(
            p.after(event, ctx),
            PeerModel { ready: true, ..p },
            ctx,
        ),
{
    lemma_ask(p, ctx);
    lemma_ask(PeerModel { ready: true, ..p }, ctx);
}

/// What each message does, by the first byte of its body. A refusal and its end
/// are noted, the end also makes the connection ready; a bit field takes the
/// place of what was known of the pieces, and word of one piece adds that piece
/// only; after each of these the connection asks. Every other message goes to the
/// torrent, and nothing else changes.
pub proof fn law_what_messages_do(p: PeerModel, body: Seq<u8>, ctx: ContextView)
    requires
        p.state is Reading,
        p.state->Reading_0 is Body,
        p.expects(PeerEventView::Bytes(body)),
    ensures
        ({
            let step = p.after(PeerEventView::Bytes(body), ctx);
            &&& body.len() > 0 && body[0] == 0 ==> asks(step, PeerModel { choke: true, ..p }, ctx)
            &&& body.len() > 0 && body[0] == 1 ==> asks(
                step,
                PeerModel { choke: false, ready: true, ..p },
                ctx,
            )
            &&& body.len() > 0 && body[0] == 5 ==> asks(
                step,
                PeerModel { has: bits_of_bytes(body.subrange(1, body.len() as int)), ..p },
                ctx,
            )
            &&& body.len() > 0 && body[0] == 4 ==> {
                &&& asks(step, PeerModel { has: step.peer.has, ..p }, ctx)
                &&& step.peer.has.len() == p.has.len()
                &&& forall|i: int|
                    0 <= i < p.has.len() ==> (#[trigger] step.peer.has[i] <==> p.has[i] || i == quad(
                        body,
                        1,
                    ))
            }
            &&& body.len() == 0 || (body[0] != 0 && body[0] != 1 && body[0] != 4 && body[0] != 5)
                ==> steps(
                step,
                PeerModel { state: PeerState::Forwarding, ..p },
                ctx,
                PeerActionView::Alert(AlertView::Received(p.address, decoded(body))),
            )
        }),
{
    law_decodable(body);
    law_decoded_fields(body);
    lemma_ask(PeerModel { choke: true, ..p }, ctx);
    lemma_ask(PeerModel { choke: false, ready: true, ..p }, ctx);
    lemma_ask(PeerModel { has: bits_of_bytes(body.subrange(1, body.len() as int)), ..p }, ctx);
    if body.len() > 0 && body[0] == 4 {
        let has = p.has.update(quad(body, 1), true);
        lemma_ask(PeerModel { has, ..p }, ctx);
        assert(p.after(PeerEventView::Bytes(body), ctx).peer.has == has);
    }
}

/// The parts of a connection by themselves: the handshake begins with its bytes,
/// and a message is read as four bytes that tell how many follow, and then those.
pub proof fn law_parts_of_a_connection(p: PeerModel, event: PeerEventView, info_hash: Seq<u8>, n: usize)
    ensures
        HandshakeStage::Ready.expects(event) <==> event is Done,
        ReadStage::Ready.expects(event) <==> event is Done,
        p.connected ==> p.handshake(HandshakeStage::Ready, event, info_hash) == (
            p,
            ProgressView::Act(PeerActionView::Write(handshake_bytes(info_hash))),
        ),
        p.connected ==> p.reading(ReadStage::Ready, event) == ReadView::Read(4),
        event is Bytes && event->Bytes_0.len() == 4 ==> p.reading(ReadStage::Length, event)
            == ReadView::Read(quad(event->Bytes_0, 0) as nat),
        event is Bytes ==> p.reading(ReadStage::Body(n), event) == ReadView::Message(
            Some(decoded(event->Bytes_0)),
        ),
        event is TimedOut ==> p.reading(ReadStage::Length, event) == ReadView::Message(None),
        event is TimedOut ==> p.reading(ReadStage::Body(n), event) == ReadView::Message(None),
        event is Failed ==> p.reading(ReadStage::Length, event) == ReadView::Failed(PeerFailure::Read),
        event is Failed ==> p.reading(ReadStage::Body(n), event) == ReadView::Failed(PeerFailure::Read),
{
    if event is Bytes {
        crate::bytes::law_be_value_of_fields(event->Bytes_0);
    }
}

} // verus!
