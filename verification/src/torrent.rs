//! The torrent: what its tasks share, and the task that drives a download.
use crate::address::SocketAddr;
use crate::bits::max_bits;
use crate::download::Download;
use crate::manager::{ManagerView, PeerManager, MAX_DIALED};
use crate::message::{Message, MessageView};
use crate::metainfo::{File, Info, Metainfo};
use crate::peer::{AlertMessage, AlertView, PAUSE_MILLIS};
use crate::piece::{all_set, CounterView, Piece, PieceCounter, BLOCK_LENGTH};
use crate::queue::{queue_new, queued, RequestQueue};
use crate::request::{can_fill, fill, filled, is_fillable, missing, BATCH};
use crate::tracker::{Params, Response};
use crate::writer::WriterModel;
use vstd::pervasive::unreached;
use vstd::prelude::*;

verus! {

/// What the tasks of a torrent share.
pub struct TorrentContext {
    pub metainfo: Metainfo,
    pub params: Params,
    pub piece_counter: PieceCounter,
    pub outgoing_requests: RequestQueue,
}

/// What a context says.
#[verifier::ext_equal]
pub struct ContextView {
    pub metainfo: Metainfo,
    pub params: Params,
    pub total_pieces: u32,
    pub counter: CounterView,
    pub queue: Seq<(u32, u32, u32)>,
}

impl View for TorrentContext {
    type V = ContextView;

    open spec fn view(&self) -> ContextView {
        ContextView {
            metainfo: self.metainfo,
            params: self.params,
            total_pieces: self.piece_counter.total_pieces,
            counter: self.piece_counter@,
            queue: queued(self.outgoing_requests),
        }
    }
}

impl ContextView {
    /// How many whole blocks a piece has.
    pub open spec fn blocks_per_piece(self) -> nat {
        (self.metainfo.info.piece_length / BLOCK_LENGTH) as nat
    }

    /// Whether an item of the queue asks for a whole block of the torrent.
    pub open spec fn is_request(self, item: (u32, u32, u32)) -> bool {
        &&& self.counter.has_block(item.0 as int, item.1 as int)
        &&& item.1 as int % BLOCK_LENGTH as int == 0
        &&& item.2 == BLOCK_LENGTH
    }

    /// The queue asks for whole blocks of the torrent, and for none twice.
    pub open spec fn queue_wf(self) -> bool {
        &&& self.queue.no_duplicates()
        &&& forall|i: int| 0 <= i < self.queue.len() ==> self.is_request(#[trigger] self.queue[i])
    }

    /// The bookkeeping is consistent: there is a row of blocks and a mark for
    /// each piece, no piece is marked that lacks a block, and the queue is in
    /// order.
    pub open spec fn wf(self) -> bool {
        &&& self.counter.blocks.len() == self.total_pieces
        &&& self.counter.shaped(self.blocks_per_piece())
        &&& self.counter.sound()
        &&& self.queue_wf()
    }

    /// The same with another queue.
    pub open spec fn with_queue(self, queue: Seq<(u32, u32, u32)>) -> ContextView {
        ContextView { queue, ..self }
    }

    /// The same with another piece counter.
    pub open spec fn with_counter(self, counter: CounterView) -> ContextView {
        ContextView { counter, ..self }
    }
}

/// The length of all of `files` together.
pub open spec fn file_total(files: Seq<File>) -> nat
    decreases files.len(),
{
    if files.len() == 0 {
        0
    } else {
        file_total(files.drop_last()) + files.last().length as nat
    }
}

impl Info {
    /// How much there is to download: the length of the one file, or that of
    /// all files together.
    pub open spec fn total(self) -> nat {
        match self.length {
            Some(length) => length as nat,
            None => match self.files {
                Some(files) => file_total(files@),
                None => 0,
            },
        }
    }

    /// How many whole pieces that is. The count is kept in 32 bits.
    pub open spec fn piece_count(self) -> int {
        (self.total() as int / self.piece_length as int) % 0x1_0000_0000
    }

    /// Whether a torrent can be made of this: the pieces have a length, the
    /// length of all files fits in a machine word, and the number of pieces in
    /// a bit string.
    pub open spec fn startable(self) -> bool {
        &&& self.piece_length > 0
        &&& self.total() <= usize::MAX
        &&& self.piece_count() <= max_bits()
    }

    /// How much there is to download, if that fits.
    pub fn total_length(&self) -> (length: Option<usize>)
        ensures
            length is Some <==> self.total() <= usize::MAX,
            length matches Some(n) ==> n == self.total(),
    {
        if let Some(length) = self.length {
            return Some(length);
        }
        match &self.files {
            Some(files) => {
                let mut total: usize = 0;
                let mut i: usize = 0;
                assert(files@.take(0) =~= Seq::empty());
                while i < files.len()
                    invariant
                        i <= files@.len(),
                        total == file_total(files@.take(i as int)),
                        self.length is None,
                        self.files == Some(*files),
                    decreases files@.len() - i,
                {
                    assert(files@.take(i + 1).drop_last() =~= files@.take(i as int));
                    match total.checked_add(files[i].length) {
                        Some(sum) => {
                            total = sum;
                        },
                        None => {
                            proof {
                                lemma_file_total_grows(files@, i + 1);
                            }
                            return None;
                        },
                    }
                    i = i + 1;
                }
                assert(files@.take(i as int) =~= files@);
                Some(total)
            },
            None => Some(0),
        }
    }

    /// Whether a torrent can be made of this.
    pub fn is_startable(&self) -> (startable: bool)
        ensures
            startable == self.startable(),
    {
        match self.total_length() {
            Some(total) => {
                self.piece_length > 0 && pieces_in(total, self.piece_length) as usize <= usize::MAX / 8
            },
            None => false,
        }
    }
}

/// How many pieces of `piece_length` bytes there are in `total` bytes, in 32
/// bits.
fn pieces_in(total: usize, piece_length: usize) -> (count: u32)
    requires
        piece_length > 0,
    ensures
        count == (total as int / piece_length as int) % 0x1_0000_0000,
{
    ((total / piece_length) as u64 % 0x1_0000_0000) as u32
}

/// The first files are not longer than all files.
proof fn lemma_file_total_grows(files: Seq<File>, i: int)
    requires
        0 <= i <= files.len(),
    ensures
        file_total(files.take(i)) <= file_total(files),
    decreases files.len(),
{
    if i == files.len() {
        assert(files.take(i) =~= files);
    } else {
        lemma_file_total_grows(files.drop_last(), i);
        assert(files.drop_last().take(i) =~= files.take(i));
    }
}

/// What the torrent waits for.
#[derive(Debug, Clone, Copy, PartialEq, Eq, Structural)]
pub enum TorrentState {
    /// To be started.
    Idle,
    /// The reply of the tracker, to the first or a later announce, at the first
    /// or the second attempt.
    Announcing { again: bool, retried: bool },
    /// The clock was set, after the first or a later announce.
    SettingClock { again: bool },
    /// Peers are being dialed.
    Connecting,
    /// A look at the alerts.
    Receiving,
    /// A block is being handed to the writer.
    Delivering,
    /// The time since the last announce.
    Timing,
    /// The pause between two rounds.
    Sleeping,
    /// Nothing any more.
    Finished,
}

/// What became of the last action.
#[derive(Debug)]
pub enum TorrentEvent {
    /// It was done.
    Done,
    /// The tracker replied.
    Announced(Response),
    /// The announce failed.
    AnnounceFailed,
    /// This alert was waiting, or none.
    Alert(Option<AlertMessage>),
    /// So many seconds and nanoseconds went by since the clock was set.
    Elapsed(u64, u32),
}

/// What to do next.
#[derive(Debug)]
pub enum TorrentAction {
    /// Announce to the tracker.
    Announce,
    /// Set the clock to zero.
    SetClock,
    /// Start a connection to each of these peers.
    Connect(Vec<SocketAddr>),
    /// Look whether an alert is waiting.
    Receive,
    /// Hand this to the writer.
    Write(Piece),
    /// Tell how much time went by since the clock was set.
    ReadClock,
    /// Wait so many milliseconds.
    Sleep(u64),
    /// End: every piece is complete.
    Finish,
}

/// The task that drives a download.
#[derive(Debug)]
pub struct Torrent {
    pub peer_manager: PeerManager,
    interval: Option<u64>,
    state: TorrentState,
}

/// What an event says.
pub enum TorrentEventView {
    Done,
    Announced(Option<u64>, Seq<SocketAddr>),
    AnnounceFailed,
    Alert(Option<AlertView>),
    Elapsed(u64, u32),
}

/// What an action says. Of a block to write it says the piece, the offset in it
/// and the data.
pub enum TorrentActionView {
    Announce,
    SetClock,
    Connect(Seq<SocketAddr>),
    Receive,
    Write(nat, nat, Seq<u8>),
    ReadClock,
    Sleep(nat),
    Finish,
}

impl View for TorrentEvent {
    type V = TorrentEventView;

    open spec fn view(&self) -> TorrentEventView {
        match *self {
            TorrentEvent::Done => TorrentEventView::Done,
            TorrentEvent::Announced(response) => TorrentEventView::Announced(
                response.interval,
                response.peers@,
            ),
            TorrentEvent::AnnounceFailed => TorrentEventView::AnnounceFailed,
            TorrentEvent::Alert(Some(alert)) => TorrentEventView::Alert(Some(alert@)),
            TorrentEvent::Alert(None) => TorrentEventView::Alert(None),
            TorrentEvent::Elapsed(secs, nanos) => TorrentEventView::Elapsed(secs, nanos),
        }
    }
}

impl View for TorrentAction {
    type V = TorrentActionView;

    open spec fn view(&self) -> TorrentActionView {
        match *self {
            TorrentAction::Announce => TorrentActionView::Announce,
            TorrentAction::SetClock => TorrentActionView::SetClock,
            TorrentAction::Connect(peers) => TorrentActionView::Connect(peers@),
            TorrentAction::Receive => TorrentActionView::Receive,
            TorrentAction::Write(piece) => TorrentActionView::Write(
                piece.index as nat,
                piece.begin as nat,
                piece.piece@,
            ),
            TorrentAction::ReadClock => TorrentActionView::ReadClock,
            TorrentAction::Sleep(millis) => TorrentActionView::Sleep(millis as nat),
            TorrentAction::Finish => TorrentActionView::Finish,
        }
    }
}

/// What the torrent knows: its peers, and how often the tracker wants to hear
/// of it.
#[verifier::ext_equal]
pub struct TorrentModel {
    pub manager: ManagerView,
    pub interval: Option<u64>,
    pub state: TorrentState,
}

/// Where a step of the torrent leads: the torrent after it, the queue of
/// requests after it, and what to do.
#[verifier::ext_equal]
pub struct TorrentStep {
    pub torrent: TorrentModel,
    pub queue: Seq<(u32, u32, u32)>,
    pub action: TorrentActionView,
}

/// The seconds between two announces where the tracker does not tell.
pub const DEFAULT_INTERVAL: u64 = 60;

/// Whether it is time to announce again: more than the interval went by.
pub open spec fn due(interval: Option<u64>, secs: u64, nanos: u32) -> bool {
    let limit = match interval {
        Some(limit) => limit,
        None => DEFAULT_INTERVAL,
    };
    secs > limit || (secs == limit && nanos > 0)
}

/// The block that an alert brings, if it brings one: the piece, the offset in
/// it and the data.
pub open spec fn delivery(alert: Option<AlertView>) -> Option<(u32, u32, Seq<u8>)> {
    match alert {
        Some(AlertView::Received(_, MessageView::Piece(index, begin, data))) => Some(
            (index, begin, data),
        ),
        _ => None,
    }
}

/// Whether an alert brings a block that is not there.
pub open spec fn brings_missing(alert: Option<AlertView>, counter: CounterView) -> bool {
    match delivery(alert) {
        Some((index, begin, _)) => !counter.is_downloaded(index as int, begin as int),
        None => false,
    }
}

impl TorrentModel {
    /// A torrent that was not started yet.
    pub open spec fn fresh() -> TorrentModel {
        TorrentModel {
            manager: ManagerView { available: Seq::empty(), peers: Seq::empty() },
            interval: None,
            state: TorrentState::Idle,
        }
    }

    /// What can be reported to the torrent. The tracker has to reply at the
    /// second attempt at the latest, a block that comes in has to be one of the
    /// torrent, and a queue that is filled has to be one that can be filled.
    pub open spec fn expects(self, event: TorrentEventView, ctx: ContextView) -> bool {
        match self.state {
            TorrentState::Idle => event is Done,
            TorrentState::Announcing { again, retried } => event is Announced || (event
                is AnnounceFailed && !retried),
            TorrentState::SettingClock { again } => event is Done,
            TorrentState::Connecting => event is Done,
            TorrentState::Receiving => {
                &&& event is Alert
                &&& delivery(event->Alert_0) matches Some((index, begin, _)) ==> ctx.counter.has_block(
                    index as int,
                    begin as int,
                )
                &&& !brings_missing(event->Alert_0, ctx.counter) ==> can_fill(
                    ctx.queue,
                    ctx.counter.blocks,
                )
            },
            TorrentState::Delivering => event is Done && can_fill(ctx.queue, ctx.counter.blocks),
            TorrentState::Timing => event is Elapsed,
            TorrentState::Sleeping => event is Done,
            TorrentState::Finished => false,
        }
    }

    /// The same, waiting for something else.
    pub open spec fn at(self, state: TorrentState) -> TorrentModel {
        TorrentModel { state, ..self }
    }

    /// The beginning of a round: dial the peers that are to be dialed.
    pub open spec fn begin_round(self, ctx: ContextView) -> TorrentStep {
        TorrentStep {
            torrent: TorrentModel { manager: self.manager.after_dialing(), ..self }.at(
                TorrentState::Connecting,
            ),
            queue: ctx.queue,
            action: TorrentActionView::Connect(self.manager.dialed()),
        }
    }

    /// Fill the queue if it ran low, then look at the clock.
    pub open spec fn refill(self, ctx: ContextView) -> TorrentStep {
        TorrentStep {
            torrent: self.at(TorrentState::Timing),
            queue: filled(ctx.queue, ctx.counter.blocks),
            action: TorrentActionView::ReadClock,
        }
    }

    /// The end of a round.
    pub open spec fn end_round(self, ctx: ContextView) -> TorrentStep {
        TorrentStep {
            torrent: self.at(TorrentState::Sleeping),
            queue: ctx.queue,
            action: TorrentActionView::Sleep(PAUSE_MILLIS as nat),
        }
    }

    /// What an alert does. A block that is not there goes to the writer, and a
    /// connection that ended is forgotten.
    pub open spec fn heed(self, alert: Option<AlertView>, ctx: ContextView) -> TorrentStep {
        if brings_missing(alert, ctx.counter) {
            let (index, begin, data) = delivery(alert)->0;
            TorrentStep {
                torrent: self.at(TorrentState::Delivering),
                queue: ctx.queue,
                action: TorrentActionView::Write(index as nat, begin as nat, data),
            }
        } else {
            match alert {
                Some(AlertView::Quit(peer)) => TorrentModel {
                    manager: self.manager.after_shutdown(peer),
                    ..self
                }.refill(ctx),
                _ => self.refill(ctx),
            }
        }
    }

    /// Where an event leads.
    pub open spec fn after(self, event: TorrentEventView, ctx: ContextView) -> TorrentStep {
        match self.state {
            TorrentState::Idle => TorrentStep {
                torrent: self.at(TorrentState::Announcing { again: false, retried: false }),
                queue: ctx.queue,
                action: TorrentActionView::Announce,
            },
            TorrentState::Announcing { again, retried } => match event {
                TorrentEventView::Announced(interval, peers) => TorrentStep {
                    torrent: TorrentModel {
                        manager: self.manager.after_announce(peers),
                        interval,
                        state: TorrentState::SettingClock { again },
                    },
                    queue: ctx.queue,
                    action: TorrentActionView::SetClock,
                },
                _ => TorrentStep {
                    torrent: self.at(TorrentState::Announcing { again, retried: true }),
                    queue: ctx.queue,
                    action: TorrentActionView::Announce,
                },
            },
            TorrentState::SettingClock { again } => if again {
                self.end_round(ctx)
            } else {
                self.begin_round(ctx)
            },
            TorrentState::Connecting => if all_set(ctx.counter.complete) {
                TorrentStep {
                    torrent: self.at(TorrentState::Finished),
                    queue: ctx.queue,
                    action: TorrentActionView::Finish,
                }
            } else {
                TorrentStep {
                    torrent: self.at(TorrentState::Receiving),
                    queue: ctx.queue,
                    action: TorrentActionView::Receive,
                }
            },
            TorrentState::Receiving => self.heed(event->Alert_0, ctx),
            TorrentState::Delivering => self.refill(ctx),
            TorrentState::Timing => match event {
                TorrentEventView::Elapsed(secs, nanos) => if due(self.interval, secs, nanos) {
                    TorrentStep {
                        torrent: self.at(TorrentState::Announcing { again: true, retried: false }),
                        queue: ctx.queue,
                        action: TorrentActionView::Announce,
                    }
                } else {
                    self.end_round(ctx)
                },
                _ => self.end_round(ctx),
            },
            TorrentState::Sleeping => self.begin_round(ctx),
            TorrentState::Finished => TorrentStep {
                torrent: self,
                queue: ctx.queue,
                action: TorrentActionView::Finish,
            },
        }
    }
}

impl View for Torrent {
    type V = TorrentModel;

    closed spec fn view(&self) -> TorrentModel {
        TorrentModel { manager: self.peer_manager@, interval: self.interval, state: self.state }
    }
}

impl Torrent {
    /// A torrent that was not started yet, and what its tasks share: nothing of
    /// it is there, nothing is queued, and the tracker will be told so.
    pub fn new(metainfo: Metainfo) -> (torrent: (Torrent, TorrentContext))
        requires
            metainfo.info.startable(),
        ensures
            torrent.0@ == TorrentModel::fresh(),
            torrent.0@.manager.wf(),
            torrent.1@.metainfo == metainfo,
            torrent.1@.params.info_hash == metainfo.info_hash,
            torrent.1@.params.peer_id@ == "00000000000000000000"@,
            torrent.1@.params.ip is None,
            torrent.1@.params.port == 6881,
            torrent.1@.params.uploaded == 0,
            torrent.1@.params.downloaded == 0,
            torrent.1@.params.left == metainfo.info.total(),
            torrent.1@.params.event is None,
            torrent.1@.params.compact == 1,
            torrent.1@.total_pieces == metainfo.info.piece_count(),
            torrent.1@.counter.complete == Seq::new(torrent.1@.total_pieces as nat, |i: int| false),
            torrent.1@.counter.blocks == Seq::new(
                torrent.1@.total_pieces as nat,
                |i: int| Seq::new(torrent.1@.blocks_per_piece(), |j: int| false),
            ),
            torrent.1@.queue == Seq::<(u32, u32, u32)>::empty(),
            torrent.1@.wf(),
            (Download {
                ctx: torrent.1@,
                torrent: torrent.0@,
                writer: WriterModel::fresh(metainfo.info.piece_length as nat),
                peers: Seq::empty(),
            }).is_new(metainfo),
    {
        let length: usize = match metainfo.info.total_length() {
            Some(length) => length,
            None => unreached(),
        };
        let params = Params {
            info_hash: metainfo.info_hash,
            peer_id: "00000000000000000000".to_owned(),
            ip: None,
            port: 6881,
            uploaded: 0,
            downloaded: 0,
            left: length,
            event: None,
            compact: 1,
        };
        let total_pieces: u32 = pieces_in(length, metainfo.info.piece_length);
        let piece_counter: PieceCounter = PieceCounter::new(
            total_pieces,
            metainfo.info.piece_length / BLOCK_LENGTH,
        );
        let ctx = TorrentContext {
            metainfo,
            params,
            piece_counter,
            outgoing_requests: queue_new(),
        };
        let torrent = Torrent {
            peer_manager: PeerManager::new(),
            interval: None,
            state: TorrentState::Idle,
        };
        (torrent, ctx)
    }

    /// Begins a round.
    fn begin_round(&mut self) -> (action: TorrentAction)
        ensures
            forall|ctx: ContextView|
                {
                    let step = #[trigger] old(self)@.begin_round(ctx);
                    &&& final(self)@ == step.torrent
                    &&& action@ == step.action
                },
    {
        let dialed: Vec<SocketAddr> = self.peer_manager.connect_peers();
        self.state = TorrentState::Connecting;
        TorrentAction::Connect(dialed)
    }

    /// Fills the queue.
    fn refill(&mut self, ctx: &mut TorrentContext) -> (action: TorrentAction)
        requires
            old(ctx)@.wf(),
            can_fill(old(ctx)@.queue, old(ctx)@.counter.blocks),
        ensures
            ({
                let step = old(self)@.refill(old(ctx)@);
                &&& final(self)@ == step.torrent
                &&& final(ctx)@ == old(ctx)@.with_queue(step.queue)
                &&& action@ == step.action
            }),
    {
        fill(&mut ctx.outgoing_requests, &ctx.piece_counter);
        self.state = TorrentState::Timing;
        TorrentAction::ReadClock
    }

    /// Ends a round.
    fn end_round(&mut self) -> (action: TorrentAction)
        ensures
            forall|ctx: ContextView|
                {
                    let step = #[trigger] old(self)@.end_round(ctx);
                    &&& final(self)@ == step.torrent
                    &&& action@ == step.action
                },
    {
        self.state = TorrentState::Sleeping;
        TorrentAction::Sleep(PAUSE_MILLIS)
    }

    /// Deals with an alert.
    fn heed(&mut self, alert: Option<AlertMessage>, ctx: &mut TorrentContext) -> (action: TorrentAction)
        requires
            old(ctx)@.wf(),
            old(self)@.at(TorrentState::Receiving).expects(TorrentEvent::Alert(alert)@, old(ctx)@),
        ensures
            ({
                let step = old(self)@.heed(TorrentEvent::Alert(alert)@->Alert_0, old(ctx)@);
                &&& final(self)@ == step.torrent
                &&& final(ctx)@ == old(ctx)@.with_queue(step.queue)
                &&& action@ == step.action
            }),
    {
        assert(ctx@.with_queue(ctx@.queue) =~= ctx@);
        match alert {
            Some(AlertMessage::Received(_, Message::Piece(index, begin, piece))) => {
                if !ctx.piece_counter.is_downloaded(index as usize, begin as usize) {
                    self.state = TorrentState::Delivering;
                    TorrentAction::Write(
                        Piece { index: index as usize, begin: begin as usize, piece },
                    )
                } else {
                    self.refill(ctx)
                }
            },
            Some(AlertMessage::Quit(peer)) => {
                self.peer_manager.shutdown_peer(peer);
                self.refill(ctx)
            },
            _ => self.refill(ctx),
        }
    }

    /// Takes in what became of the last action, and says what to do next. The
    /// first event is `Done`.
    pub fn run(&mut self, ctx: &mut TorrentContext, event: TorrentEvent) -> (action: TorrentAction)
        requires
            old(ctx)@.wf(),
            old(self)@.expects(event@, old(ctx)@),
        ensures
            ({
                let step = old(self)@.after(event@, old(ctx)@);
                &&& final(self)@ == step.torrent
                &&& final(ctx)@ == old(ctx)@.with_queue(step.queue)
                &&& action@ == step.action
            }),
            final(ctx)@.wf(),
            old(self)@.manager.wf() ==> final(self)@.manager.wf(),
    {
        proof {
            law_step_keeps_order(self@, event@, ctx@);
            assert(ctx@.with_queue(ctx@.queue) =~= ctx@);
        }
        let ghost shared = ctx@;
        let ghost torrent = self@;
        match self.state {
            TorrentState::Idle => {
                self.state = TorrentState::Announcing { again: false, retried: false };
                TorrentAction::Announce
            },
            TorrentState::Announcing { again, retried } => match event {
                TorrentEvent::Announced(response) => {
                    self.interval = response.interval;
                    self.peer_manager.set_available_peers(response.peers);
                    self.state = TorrentState::SettingClock { again };
                    TorrentAction::SetClock
                },
                _ => {
                    self.state = TorrentState::Announcing { again, retried: true };
                    TorrentAction::Announce
                },
            },
            TorrentState::SettingClock { again } => {
                if again {
                    assert(torrent.after(event@, shared) == torrent.end_round(shared));
                    self.end_round()
                } else {
                    assert(torrent.after(event@, shared) == torrent.begin_round(shared));
                    self.begin_round()
                }
            },
            TorrentState::Connecting => {
                if ctx.piece_counter.is_complete() {
                    self.state = TorrentState::Finished;
                    TorrentAction::Finish
                } else {
                    self.state = TorrentState::Receiving;
                    TorrentAction::Receive
                }
            },
            TorrentState::Receiving => match event {
                TorrentEvent::Alert(alert) => self.heed(alert, ctx),
                _ => unreached(),
            },
            TorrentState::Delivering => self.refill(ctx),
            TorrentState::Timing => match event {
                TorrentEvent::Elapsed(secs, nanos) => {
                    let limit: u64 = match self.interval {
                        Some(limit) => limit,
                        None => DEFAULT_INTERVAL,
                    };
                    if secs > limit || (secs == limit && nanos > 0) {
                        self.state = TorrentState::Announcing { again: true, retried: false };
                        TorrentAction::Announce
                    } else {
                        assert(torrent.after(event@, shared) == torrent.end_round(shared));
                        self.end_round()
                    }
                },
                _ => unreached(),
            },
            TorrentState::Sleeping => {
                assert(torrent.after(event@, shared) == torrent.begin_round(shared));
                self.begin_round()
            },
            TorrentState::Finished => TorrentAction::Finish,
        }
    }

    /// Whether `run` can take in an event now.
    pub fn accepts(&self, ctx: &TorrentContext, event: &TorrentEvent) -> (accepts: bool)
        ensures
            accepts == self@.expects(event@, ctx@),
    {
        match self.state {
            TorrentState::Idle => matches!(event, TorrentEvent::Done),
            TorrentState::Announcing { again: _, retried } => match event {
                TorrentEvent::Announced(_) => true,
                TorrentEvent::AnnounceFailed => !retried,
                _ => false,
            },
            TorrentState::SettingClock { again: _ } => matches!(event, TorrentEvent::Done),
            TorrentState::Connecting => matches!(event, TorrentEvent::Done),
            TorrentState::Receiving => match event {
                TorrentEvent::Alert(
                    Some(AlertMessage::Received(_, Message::Piece(index, begin, _))),
                ) => {
                    ctx.piece_counter.has_block(*index as usize, *begin as usize) && (
                    !ctx.piece_counter.is_downloaded(*index as usize, *begin as usize) || is_fillable(
                        &ctx.outgoing_requests,
                        &ctx.piece_counter,
                    ))
                },
                TorrentEvent::Alert(_) => is_fillable(&ctx.outgoing_requests, &ctx.piece_counter),
                _ => false,
            },
            TorrentState::Delivering => {
                matches!(event, TorrentEvent::Done) && is_fillable(
                    &ctx.outgoing_requests,
                    &ctx.piece_counter,
                )
            },
            TorrentState::Timing => matches!(event, TorrentEvent::Elapsed(_, _)),
            TorrentState::Sleeping => matches!(event, TorrentEvent::Done),
            TorrentState::Finished => false,
        }
    }
}

/// A step keeps the context and the list of connected peers in order. It leaves
/// the queue as it is or fills it.
pub proof fn law_step_keeps_order(torrent: TorrentModel, event: TorrentEventView, ctx: ContextView)
    requires
        ctx.wf(),
        torrent.expects(event, ctx),
    ensures
        ctx.with_queue(torrent.after(event, ctx).queue).wf(),
        torrent.after(event, ctx).queue == ctx.queue || torrent.after(event, ctx).queue == filled(
            ctx.queue,
            ctx.counter.blocks,
        ),
        torrent.manager.wf() ==> torrent.after(event, ctx).torrent.manager.wf(),
{
    assert(ctx.with_queue(ctx.queue) =~= ctx);
    if can_fill(ctx.queue, ctx.counter.blocks) {
        crate::request::law_fill(ctx.queue, ctx.counter);
        let full = ctx.with_queue(filled(ctx.queue, ctx.counter.blocks));
        assert forall|i: int| 0 <= i < full.queue.len() implies full.is_request(
            #[trigger] full.queue[i],
        ) by {
            if i < ctx.queue.len() {
                assert(full.queue[i] == ctx.queue[i]);
                assert(ctx.is_request(ctx.queue[i]));
            }
        }
        assert(full.wf());
    }
    if torrent.manager.wf() {
        crate::manager::law_dialing(torrent.manager);
        if event is Alert && event->Alert_0 is Some && event->Alert_0->0 is Quit {
            crate::manager::law_shutdown(torrent.manager, event->Alert_0->0->Quit_0);
        }
    }
}

/// The torrent ends only when every block of every piece is there.
pub proof fn law_finish_means_downloaded(
    torrent: TorrentModel,
    event: TorrentEventView,
    ctx: ContextView,
    index: int,
    begin: int,
)
    requires
        ctx.wf(),
        torrent.expects(event, ctx),
        torrent.after(event, ctx).action is Finish,
        ctx.counter.has_block(index, begin),
    ensures
        ctx.counter.is_downloaded(index, begin),
        missing(ctx.counter.blocks).len() == 0,
{
    crate::piece::law_complete_means_all_blocks(ctx.counter, index, begin);
    crate::request::law_missing(ctx.counter.blocks);
    if missing(ctx.counter.blocks).len() > 0 {
        let block = missing(ctx.counter.blocks)[0];
        assert(ctx.counter.complete[block.0]);
        assert(all_set(ctx.counter.blocks[block.0]));
        assert(ctx.counter.blocks[block.0][block.1]);
    }
}

/// Only a block of the torrent that is not there goes to the writer, and it goes
/// as it came.
pub proof fn law_write_only_missing(torrent: TorrentModel, event: TorrentEventView, ctx: ContextView)
    requires
        torrent.expects(event, ctx),
        torrent.after(event, ctx).action is Write,
    ensures
        ({
            let action = torrent.after(event, ctx).action;
            &&& ctx.counter.has_block(action->Write_0 as int, action->Write_1 as int)
            &&& !ctx.counter.is_downloaded(action->Write_0 as int, action->Write_1 as int)
            &&& delivery(event->Alert_0) == Some(
                (action->Write_0 as u32, action->Write_1 as u32, action->Write_2),
            )
        }),
{
}

/// As long as a block is not there, the queue holds a request after it was
/// filled.
pub proof fn law_refill_leaves_work(torrent: TorrentModel, ctx: ContextView)
    requires
        ctx.wf(),
        can_fill(ctx.queue, ctx.counter.blocks),
        missing(ctx.counter.blocks).len() > 0,
    ensures
        torrent.refill(ctx).queue.len() > 0,
{
    crate::request::law_fill(ctx.queue, ctx.counter);
}

/// The number of queued requests never reaches twenty.
pub proof fn law_queue_stays_short(torrent: TorrentModel, event: TorrentEventView, ctx: ContextView)
    requires
        ctx.wf(),
        torrent.expects(event, ctx),
        ctx.queue.len() < 2 * BATCH,
    ensures
        torrent.after(event, ctx).queue.len() < 2 * BATCH,
{
    if can_fill(ctx.queue, ctx.counter.blocks) {
        crate::request::law_fill(ctx.queue, ctx.counter);
    }
}

/// The client is never connected to more than ten peers.
pub proof fn law_peers_stay_few(torrent: TorrentModel, event: TorrentEventView, ctx: ContextView)
    requires
        torrent.expects(event, ctx),
        torrent.manager.wf(),
        torrent.manager.peers.len() <= 2 * MAX_DIALED,
    ensures
        torrent.after(event, ctx).torrent.manager.peers.len() <= 2 * MAX_DIALED,
{
    crate::manager::law_dialing(torrent.manager);
    if event is Alert && event->Alert_0 is Some && event->Alert_0->0 is Quit {
        crate::manager::law_without(torrent.manager.peers, event->Alert_0->0->Quit_0);
    }
}

/// A tracker that fails once is asked once more, and what it replies then
/// counts as if it had replied at once.
pub proof fn law_announce_is_retried(
    torrent: TorrentModel,
    again: bool,
    interval: Option<u64>,
    peers: Seq<SocketAddr>,
    ctx: ContextView,
)
    requires
        torrent.state == (TorrentState::Announcing { again, retried: false }),
    ensures
        torrent.expects(TorrentEventView::AnnounceFailed, ctx),
        torrent.after(TorrentEventView::AnnounceFailed, ctx).action is Announce,
        torrent.after(TorrentEventView::AnnounceFailed, ctx).torrent.after(
            TorrentEventView::Announced(interval, peers),
            ctx,
        ) == torrent.after(TorrentEventView::Announced(interval, peers), ctx),
{
}

/// Every request in the queue lies within its piece, and the piece within the
/// torrent.
pub proof fn law_requests_lie_within_the_torrent(ctx: ContextView, k: int)
    requires
        ctx.wf(),
        ctx.metainfo.info.startable(),
        ctx.total_pieces == ctx.metainfo.info.piece_count(),
        0 <= k < ctx.queue.len(),
    ensures
        ctx.queue[k].1 + ctx.queue[k].2 <= ctx.metainfo.info.piece_length,
        ctx.queue[k].0 * ctx.metainfo.info.piece_length + ctx.queue[k].1 + ctx.queue[k].2
            <= ctx.metainfo.info.total(),
{
    let item = ctx.queue[k];
    let index = item.0 as int;
    let piece_length = ctx.metainfo.info.piece_length as int;
    let total = ctx.metainfo.info.total() as int;
    assert(ctx.is_request(item));
    assert(index + 1 <= total / piece_length) by {
        assert(index < ctx.metainfo.info.piece_count());
        assert(ctx.metainfo.info.piece_count() <= total / piece_length) by {
            assert(0 <= total / piece_length) by (nonlinear_arith)
                requires
                    total >= 0,
                    piece_length > 0,
            ;
        }
    }
    assert((index + 1) * piece_length <= total) by (nonlinear_arith)
        requires
            index + 1 <= total / piece_length,
            piece_length > 0,
            total >= 0,
    ;
    assert((index + 1) * piece_length == index * piece_length + piece_length) by (nonlinear_arith);
}

/// What a context says is what its fields hold.
pub proof fn law_context_view(ctx: TorrentContext)
    ensures
        ctx@.metainfo == ctx.metainfo,
        ctx@.params == ctx.params,
        ctx@.total_pieces == ctx.piece_counter.total_pieces,
        ctx@.counter == ctx.piece_counter@,
        ctx@.queue == queued(ctx.outgoing_requests),
{
}

/// What an event and an action say is what their fields hold.
pub proof fn law_torrent_views(event: TorrentEvent, action: TorrentAction)
    ensures
        match event {
            TorrentEvent::Done => event@ is Done,
            TorrentEvent::Announced(response) => event@ is Announced && event@->Announced_0
                == response.interval && event@->Announced_1 == response.peers@,
            TorrentEvent::AnnounceFailed => event@ is AnnounceFailed,
            TorrentEvent::Alert(None) => event@ is Alert && event@->Alert_0 is None,
            TorrentEvent::Alert(Some(alert)) => event@ is Alert && event@->Alert_0 == Some(alert@),
            TorrentEvent::Elapsed(secs, nanos) => event@ is Elapsed && event@->Elapsed_0 == secs
                && event@->Elapsed_1 == nanos,
        },
        match action {
            TorrentAction::Announce => action@ is Announce,
            TorrentAction::SetClock => action@ is SetClock,
            TorrentAction::Connect(peers) => action@ is Connect && action@->Connect_0 == peers@,
            TorrentAction::Receive => action@ is Receive,
            TorrentAction::Write(piece) => action@ is Write && action@->Write_0 == piece.index
                && action@->Write_1 == piece.begin && action@->Write_2 == piece.piece@,
            TorrentAction::ReadClock => action@ is ReadClock,
            TorrentAction::Sleep(millis) => action@ is Sleep && action@->Sleep_0 == millis,
            TorrentAction::Finish => action@ is Finish,
        },
{
}

/// Another queue or another counter changes nothing else of a context.
pub proof fn law_context_parts(ctx: ContextView, queue: Seq<(u32, u32, u32)>, counter: CounterView)
    ensures
        ctx.with_queue(queue) == (ContextView {
            metainfo: ctx.metainfo,
            params: ctx.params,
            total_pieces: ctx.total_pieces,
            counter: ctx.counter,
            queue,
        }),
        ctx.with_counter(counter) == (ContextView {
            metainfo: ctx.metainfo,
            params: ctx.params,
            total_pieces: ctx.total_pieces,
            counter,
            queue: ctx.queue,
        }),
{
}

/// A piece has as many blocks as 16384 bytes go into it whole.
pub proof fn law_blocks_per_piece(ctx: ContextView)
    ensures
        16384 * ctx.blocks_per_piece() <= ctx.metainfo.info.piece_length < 16384 * (
        ctx.blocks_per_piece() + 1),
{
}

/// The length of files together is the sum of their lengths.
pub proof fn law_file_total(a: Seq<File>, b: Seq<File>, file: File)
    ensures
        file_total(Seq::empty()) == 0,
        file_total(seq![file]) == file.length,
        file_total(a + b) == file_total(a) + file_total(b),
    decreases b.len(),
{
    reveal_with_fuel(file_total, 2);
    assert(seq![file].drop_last() =~= Seq::empty());
    if b.len() == 0 {
        assert(a + b =~= a);
    } else {
        law_file_total(a, b.drop_last(), file);
        assert((a + b).drop_last() =~= a + b.drop_last());
        assert((a + b).last() == b.last());
    }
}

/// How much there is to download: the length where it is given, whatever the
/// files; else the files; else nothing.
pub proof fn law_total(info: Info)
    ensures
        info.length matches Some(length) ==> info.total() == length,
        info.length is None && info.files is Some ==> info.total() == file_total(info.files->0@),
        info.length is None && info.files is None ==> info.total() == 0,
{
}

/// How many pieces there are: as many as go whole into what there is to
/// download. The count is kept in 32 bits, so that it is off by a multiple of
/// their range where it does not fit.
pub proof fn law_piece_count(info: Info)
    requires
        info.piece_length > 0,
    ensures
        0 <= info.piece_count() < 0x1_0000_0000,
        info.total() < info.piece_length * 0x1_0000_0000 ==> info.piece_count() * info.piece_length
            <= info.total() < (info.piece_count() + 1) * info.piece_length,
        exists|k: int|
            k >= 0 && #[trigger] ((info.piece_count() + k * 0x1_0000_0000) * info.piece_length)
                <= info.total() < (info.piece_count() + k * 0x1_0000_0000 + 1) * info.piece_length,
{
    let total = info.total() as int;
    let length = info.piece_length as int;
    let whole = total / length;
    vstd::arithmetic::div_mod::lemma_fundamental_div_mod(total, length);
    vstd::arithmetic::div_mod::lemma_mod_bound(total, length);
    vstd::arithmetic::div_mod::lemma_div_pos_is_pos(total, length);
    assert(whole * length <= total < (whole + 1) * length) by (nonlinear_arith)
        requires
            total == length * whole + total % length,
            0 <= total % length < length,
    ;
    let k = whole / 0x1_0000_0000;
    assert(whole == info.piece_count() + k * 0x1_0000_0000);
    assert(((info.piece_count() + k * 0x1_0000_0000) * info.piece_length) <= total);
    if total < length * 0x1_0000_0000 {
        assert(whole < 0x1_0000_0000) by (nonlinear_arith)
            requires
                whole * length <= total,
                total < length * 0x1_0000_0000,
                length > 0,
        ;
    }
}

/// Of what a torrent can be made.
pub proof fn law_startable(info: Info)
    ensures
        info.startable() <==> info.piece_length > 0 && info.total() <= usize::MAX && 8
            * info.piece_count() <= usize::MAX,
{
}

/// A torrent that was not started knows no peers.
pub proof fn law_fresh_torrent()
    ensures
        TorrentModel::fresh().manager.available.len() == 0,
        TorrentModel::fresh().manager.peers.len() == 0,
        TorrentModel::fresh().interval is None,
        TorrentModel::fresh().state == TorrentState::Idle,
{
}

/// Whether an alert brings a block, and whether its flag is not set.
pub open spec fn brings_unset(event: TorrentEventView, ctx: ContextView) -> bool {
    match event {
        TorrentEventView::Alert(
            Some(AlertView::Received(_, MessageView::Piece(index, begin, _))),
        ) => !ctx.counter.blocks[index as int][begin as int / 16384],
        _ => false,
    }
}

/// What can be reported in which state. The second announce has to succeed, a
/// block has to be one of the torrent, and where the queue is filled next it has
/// to be one that can be filled.
pub proof fn law_what_is_expected(t: TorrentModel, event: TorrentEventView, ctx: ContextView)
    ensures
        t.state == TorrentState::Idle || t.state is SettingClock || t.state
            == TorrentState::Connecting || t.state == TorrentState::Sleeping ==> (t.expects(event, ctx)
            <==> event is Done),
        t.state is Announcing ==> (t.expects(event, ctx) <==> event is Announced || (event
            is AnnounceFailed && !t.state->retried)),
        t.state == TorrentState::Receiving ==> (t.expects(event, ctx) <==> event is Alert && (match event {
            TorrentEventView::Alert(
                Some(AlertView::Received(_, MessageView::Piece(index, begin, _))),
            ) => (index as int) < ctx.counter.blocks.len() && begin as int / 16384
                < ctx.counter.blocks[index as int].len(),
            _ => true,
        }) && (brings_unset(event, ctx) || can_fill(ctx.queue, ctx.counter.blocks))),
        t.state == TorrentState::Delivering ==> (t.expects(event, ctx) <==> event is Done && can_fill(
            ctx.queue,
            ctx.counter.blocks,
        )),
        t.state == TorrentState::Timing ==> (t.expects(event, ctx) <==> event is Elapsed),
        t.state == TorrentState::Finished ==> !t.expects(event, ctx),
{
}

/// Whether a step leads here, with this action, and leaves the queue alone.
pub open spec fn goes(step: TorrentStep, t: TorrentModel, ctx: ContextView, action: TorrentActionView) -> bool {
    &&& step.torrent == t
    &&& step.queue == ctx.queue
    &&& step.action == action
}

/// How announces go: the first at once, and again once more than the interval
/// went by since the clock was set, or than a minute where the tracker gave none;
/// one that failed is repeated. What the tracker replies takes the place of what
/// it replied before, and sets the clock. Nothing else changes.
pub proof fn law_announces(t: TorrentModel, event: TorrentEventView, ctx: ContextView)
    requires
        t.expects(event, ctx),
    ensures
        t.state == TorrentState::Idle ==> goes(
            t.after(event, ctx),
            TorrentModel { state: TorrentState::Announcing { again: false, retried: false }, ..t },
            ctx,
            TorrentActionView::Announce,
        ),
        t.state is Announcing && event is Announced ==> goes(
            t.after(event, ctx),
            TorrentModel {
                manager: ManagerView { available: event->Announced_1, peers: t.manager.peers },
                interval: event->Announced_0,
                state: TorrentState::SettingClock { again: t.state->Announcing_again },
            },
            ctx,
            TorrentActionView::SetClock,
        ),
        t.state is Announcing && event is AnnounceFailed ==> goes(
            t.after(event, ctx),
            TorrentModel {
                state: TorrentState::Announcing { again: t.state->Announcing_again, retried: true },
                ..t
            },
            ctx,
            TorrentActionView::Announce,
        ),
        t.state == TorrentState::Timing && event->Elapsed_1 < 1_000_000_000 ==> {
            let limit: int = match t.interval {
                Some(secs) => secs as int,
                None => 60,
            };
            let passed: int = event->Elapsed_0 * 1_000_000_000 + event->Elapsed_1;
            &&& passed > limit * 1_000_000_000 ==> goes(
                t.after(event, ctx),
                TorrentModel { state: TorrentState::Announcing { again: true, retried: false }, ..t },
                ctx,
                TorrentActionView::Announce,
            )
            &&& passed <= limit * 1_000_000_000 ==> goes(
                t.after(event, ctx),
                TorrentModel { state: TorrentState::Sleeping, ..t },
                ctx,
                TorrentActionView::Sleep(100),
            )
        },
{
}

/// How a round goes: it begins after the first announce and after each pause of a
/// tenth of a second, with the peers that are to be dialed; then the download
/// ends if no mark is unset, and else the alerts are looked at. After a later
/// announce there is a pause.
pub proof fn law_rounds(t: TorrentModel, event: TorrentEventView, ctx: ContextView)
    requires
        t.expects(event, ctx),
    ensures
        t.state == TorrentState::Sleeping || t.state == (TorrentState::SettingClock { again: false })
            ==> goes(
            t.after(event, ctx),
            TorrentModel {
                manager: t.manager.after_dialing(),
                interval: t.interval,
                state: TorrentState::Connecting,
            },
            ctx,
            TorrentActionView::Connect(t.manager.dialed()),
        ),
        t.state == (TorrentState::SettingClock { again: true }) ==> goes(
            t.after(event, ctx),
            TorrentModel { state: TorrentState::Sleeping, ..t },
            ctx,
            TorrentActionView::Sleep(100),
        ),
        t.state == TorrentState::Connecting && !ctx.counter.complete.contains(false) ==> goes(
            t.after(event, ctx),
            TorrentModel { state: TorrentState::Finished, ..t },
            ctx,
            TorrentActionView::Finish,
        ),
        t.state == TorrentState::Connecting && ctx.counter.complete.contains(false) ==> goes(
            t.after(event, ctx),
            TorrentModel { state: TorrentState::Receiving, ..t },
            ctx,
            TorrentActionView::Receive,
        ),
{
    crate::piece::law_all_set(ctx.counter.complete);
}

/// What alerts do: a block whose flag is not set goes to the writer as it came.
/// After that, and after any other alert or none, the queue is filled and the
/// clock is looked at. Word that a peer is gone makes the torrent forget it;
/// nothing else changes what the torrent knows.
pub proof fn law_what_alerts_do(t: TorrentModel, event: TorrentEventView, ctx: ContextView)
    requires
        t.state == TorrentState::Receiving || t.state == TorrentState::Delivering,
        t.expects(event, ctx),
    ensures
        t.state == TorrentState::Receiving && brings_unset(event, ctx) ==> {
            let m = event->Alert_0->0->Received_1;
            goes(
                t.after(event, ctx),
                TorrentModel { state: TorrentState::Delivering, ..t },
                ctx,
                TorrentActionView::Write(m->Piece_0 as nat, m->Piece_1 as nat, m->Piece_2),
            )
        },
        t.state == TorrentState::Delivering || !brings_unset(event, ctx) ==> {
            let step = t.after(event, ctx);
            &&& step.action == TorrentActionView::ReadClock
            &&& step.queue == filled(ctx.queue, ctx.counter.blocks)
            &&& step.torrent.interval == t.interval
            &&& step.torrent.state == TorrentState::Timing
            &&& match event {
                TorrentEventView::Alert(Some(AlertView::Quit(peer))) => step.torrent.manager
                    == t.manager.after_shutdown(peer),
                _ => step.torrent.manager == t.manager,
            }
        },
{
}

} // verus!
