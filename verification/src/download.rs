//! All tasks of a download together: what holds whatever order their steps come
//! in.
use crate::address::SocketAddr;
use crate::manager::MAX_DIALED;
use crate::metainfo::Metainfo;
use crate::peer::{PeerEventView, PeerModel};
use crate::request::BATCH;
use crate::text::is_numeral;
use crate::torrent::{ContextView, TorrentEventView, TorrentModel};
use crate::tracker::law_request_tells_the_fields;
use crate::writer::{WriterEventView, WriterModel, WriterState};
use vstd::prelude::*;

verus! {

/// A download: what its tasks share, the torrent, the writer, and every
/// connection that was ever started.
pub struct Download {
    pub ctx: ContextView,
    pub torrent: TorrentModel,
    pub writer: WriterModel,
    pub peers: Seq<PeerModel>,
}

/// Something that happens in a download.
pub enum Occurrence {
    /// A connection to a peer is started.
    Dialed(SocketAddr),
    /// Something is reported to the torrent.
    Torrent(TorrentEventView),
    /// Something is reported to the writer.
    Writer(WriterEventView),
    /// Something is reported to the connection of this number.
    Peer(int, PeerEventView),
}

impl Download {
    /// Whether nothing happened yet.
    pub open spec fn is_new(self, metainfo: Metainfo) -> bool {
        &&& metainfo.info.startable()
        &&& self.ctx.metainfo == metainfo
        &&& self.ctx.params.info_hash == metainfo.info_hash
        &&& self.ctx.params.peer_id@ == "00000000000000000000"@
        &&& self.ctx.params.ip is None
        &&& self.ctx.params.port == 6881
        &&& self.ctx.params.uploaded == 0
        &&& self.ctx.params.downloaded == 0
        &&& self.ctx.params.left == metainfo.info.total()
        &&& self.ctx.params.event is None
        &&& self.ctx.params.compact == 1
        &&& self.ctx.total_pieces == metainfo.info.piece_count()
        &&& self.ctx.counter.complete == Seq::new(self.ctx.total_pieces as nat, |i: int| false)
        &&& self.ctx.counter.blocks == Seq::new(
            self.ctx.total_pieces as nat,
            |i: int| Seq::new(self.ctx.blocks_per_piece(), |j: int| false),
        )
        &&& self.ctx.queue == Seq::<(u32, u32, u32)>::empty()
        &&& self.torrent == TorrentModel::fresh()
        &&& self.writer == WriterModel::fresh(metainfo.info.piece_length as nat)
        &&& self.peers == Seq::<PeerModel>::empty()
    }

    /// Whether something can happen now.
    pub open spec fn allows(self, what: Occurrence) -> bool {
        match what {
            Occurrence::Dialed(_) => true,
            Occurrence::Torrent(event) => self.torrent.expects(event, self.ctx),
            Occurrence::Writer(event) => self.writer.expects(event, self.ctx),
            Occurrence::Peer(i, event) => 0 <= i < self.peers.len() && self.peers[i].expects(event),
        }
    }

    /// The download after something happened.
    pub open spec fn after(self, what: Occurrence) -> Download {
        match what {
            Occurrence::Dialed(address) => Download {
                peers: self.peers.push(PeerModel::fresh(address)),
                ..self
            },
            Occurrence::Torrent(event) => {
                let step = self.torrent.after(event, self.ctx);
                Download {
                    ctx: self.ctx.with_queue(step.queue),
                    torrent: step.torrent,
                    ..self
                }
            },
            Occurrence::Writer(event) => {
                let step = self.writer.after(event, self.ctx);
                Download {
                    ctx: self.ctx.with_counter(step.counter),
                    writer: step.writer,
                    ..self
                }
            },
            Occurrence::Peer(i, event) => {
                let step = self.peers[i].after(event, self.ctx);
                Download {
                    ctx: self.ctx.with_queue(step.queue),
                    peers: self.peers.update(i, step.peer),
                    ..self
                }
            },
        }
    }

    /// What always holds: the bookkeeping is consistent, fewer than twenty
    /// requests are queued, at most ten peers count as connected, none of them
    /// twice, and every piece whose blocks are all there is marked complete, but
    /// for one that is being written.
    pub open spec fn wf(self) -> bool {
        &&& self.ctx.wf()
        &&& self.ctx.metainfo.info.startable()
        &&& self.ctx.total_pieces == self.ctx.metainfo.info.piece_count()
        &&& self.ctx.queue.len() < 2 * BATCH
        &&& self.torrent.manager.wf()
        &&& self.torrent.manager.peers.len() <= 2 * MAX_DIALED
        &&& self.writer.wf(self.ctx)
        &&& self.writer.caught_up(self.ctx.counter)
        &&& forall|i: int| 0 <= i < self.peers.len() ==> (#[trigger] self.peers[i]).wf()
    }
}

/// What always holds, holds at the beginning.
pub proof fn law_new_download(download: Download, metainfo: Metainfo)
    requires
        download.is_new(metainfo),
    ensures
        download.wf(),
{
    let counter = download.ctx.counter;
    assert forall|i: int, j: int|
        0 <= i < counter.blocks.len() && 0 <= j
            < counter.blocks[i].len() implies !#[trigger] counter.blocks[i][j] by {}
    crate::writer::law_fresh_writer_is_caught_up(metainfo.info.piece_length as nat, counter);
}

/// Whatever happens, what always holds goes on to hold, nothing is taken back of
/// what is there, and the torrent stays the same.
pub proof fn law_download_goes_on(download: Download, what: Occurrence)
    requires
        download.wf(),
        download.allows(what),
    ensures
        download.after(what).wf(),
        download.ctx.counter.grows_to(download.after(what).ctx.counter),
        download.after(what).ctx.metainfo == download.ctx.metainfo,
        download.after(what).ctx.params == download.ctx.params,
{
    let next = download.after(what);
    match what {
        Occurrence::Dialed(address) => {},
        Occurrence::Torrent(event) => {
            crate::torrent::law_step_keeps_order(download.torrent, event, download.ctx);
            crate::torrent::law_queue_stays_short(download.torrent, event, download.ctx);
            crate::torrent::law_peers_stay_few(download.torrent, event, download.ctx);
            assert(next.writer.wf(next.ctx));
        },
        Occurrence::Writer(event) => {
            crate::writer::law_step_keeps_order(download.writer, event, download.ctx);
        },
        Occurrence::Peer(i, event) => {
            crate::peer::law_step_keeps_order(download.peers[i], event, download.ctx);
            assert(next.writer.wf(next.ctx));
        },
    }
}

/// The download after a list of things happened.
pub open spec fn history(download: Download, events: Seq<Occurrence>) -> Download
    decreases events.len(),
{
    if events.len() == 0 {
        download
    } else {
        history(download, events.drop_last()).after(events.last())
    }
}

/// Whether a list of things can happen.
pub open spec fn possible(download: Download, events: Seq<Occurrence>) -> bool
    decreases events.len(),
{
    events.len() > 0 ==> {
        &&& possible(download, events.drop_last())
        &&& history(download, events.drop_last()).allows(events.last())
    }
}

/// What always holds, holds after anything that can happen from the beginning.
pub proof fn law_every_state(download: Download, metainfo: Metainfo, events: Seq<Occurrence>)
    requires
        download.is_new(metainfo),
        possible(download, events),
    ensures
        history(download, events).wf(),
        history(download, events).ctx.metainfo == metainfo,
    decreases events.len(),
{
    if events.len() == 0 {
        law_new_download(download, metainfo);
    } else {
        law_every_state(download, metainfo, events.drop_last());
        law_download_goes_on(history(download, events.drop_last()), events.last());
    }
}

/// A download that ends is whole: if the torrent finishes after anything that
/// can happen from the beginning, every block of every piece is there.
pub proof fn law_finished_download_is_whole(
    download: Download,
    metainfo: Metainfo,
    events: Seq<Occurrence>,
    event: TorrentEventView,
    index: int,
    begin: int,
)
    requires
        download.is_new(metainfo),
        possible(download, events.push(Occurrence::Torrent(event))),
        history(download, events).torrent.after(event, history(download, events).ctx).action
            is Finish,
        history(download, events).ctx.counter.has_block(index, begin),
    ensures
        history(download, events).ctx.counter.is_downloaded(index, begin),
{
    assert(events.push(Occurrence::Torrent(event)).drop_last() =~= events);
    law_every_state(download, metainfo, events);
    crate::torrent::law_finish_means_downloaded(
        history(download, events).torrent,
        event,
        history(download, events).ctx,
        index,
        begin,
    );
}

/// Whether the writer took in block `j` of piece `i`.
pub open spec fn took_in(events: Seq<Occurrence>, i: int, j: int) -> bool {
    exists|k: int| 0 <= k < events.len() && brings(#[trigger] events[k], i, j)
}

/// Whether this is the writer taking in block `j` of piece `i`.
pub open spec fn brings(what: Occurrence, i: int, j: int) -> bool {
    match what {
        Occurrence::Writer(WriterEventView::Piece(Some((index, begin, _)))) => index == i && 16384 * j
            <= begin < 16384 * (j + 1),
        _ => false,
    }
}

/// A block counts as downloaded exactly where the writer took it in.
pub proof fn law_downloaded_means_taken_in(
    download: Download,
    metainfo: Metainfo,
    events: Seq<Occurrence>,
    i: int,
    j: int,
)
    requires
        download.is_new(metainfo),
        possible(download, events),
        0 <= i < download.ctx.counter.blocks.len(),
        0 <= j < download.ctx.counter.blocks[i].len(),
    ensures
        history(download, events).ctx.counter.blocks.len() == download.ctx.counter.blocks.len(),
        history(download, events).ctx.counter.blocks[i].len() == download.ctx.counter.blocks[i].len(),
        history(download, events).ctx.counter.blocks[i][j] <==> took_in(events, i, j),
    decreases events.len(),
{
    if events.len() > 0 {
        let before = events.drop_last();
        let last = events.last();
        let old_state = history(download, before);
        law_downloaded_means_taken_in(download, metainfo, before, i, j);
        law_every_state(download, metainfo, before);
        law_download_goes_on(old_state, last);
        if took_in(before, i, j) {
            let k = choose|k: int| 0 <= k < before.len() && brings(#[trigger] before[k], i, j);
            assert(brings(events[k], i, j));
        }
        if took_in(events, i, j) {
            let k = choose|k: int| 0 <= k < events.len() && brings(#[trigger] events[k], i, j);
            if k < before.len() {
                assert(brings(before[k], i, j));
            }
        }
        if brings(last, i, j) {
            assert(brings(events[events.len() - 1], i, j));
        }
        match last {
            Occurrence::Writer(event) => {
                let w = old_state.writer;
                if w.state == WriterState::Receiving {
                    crate::writer::law_blocks_are_written(w, event, old_state.ctx);
                } else if w.state is Writing {
                    crate::writer::law_written_pieces_are_checked(w, event, old_state.ctx);
                } else {
                    crate::writer::law_files_are_created(w, event, old_state.ctx);
                }
            },
            _ => {},
        }
    }
}

/// What the tracker is told as long as a download goes on: that nothing was
/// uploaded or downloaded, that all there is to download is left, and the port.
pub proof fn law_tracker_is_told_that_all_is_left(
    download: Download,
    metainfo: Metainfo,
    events: Seq<Occurrence>,
)
    requires
        download.is_new(metainfo),
        possible(download, events),
    ensures
        ({
            let pairs = history(download, events).ctx.params.spec_pairs();
            &&& pairs.len() == 6
            &&& pairs[1].0 == "port"@ && is_numeral(pairs[1].1, 6881)
            &&& pairs[2].0 == "uploaded"@ && is_numeral(pairs[2].1, 0)
            &&& pairs[3].0 == "downloaded"@ && is_numeral(pairs[3].1, 0)
            &&& pairs[4].0 == "left"@ && is_numeral(pairs[4].1, metainfo.info.total())
            &&& pairs[5].0 == "compact"@ && is_numeral(pairs[5].1, 1)
        }),
{
    lemma_params_stay(download, metainfo, events);
    law_request_tells_the_fields(download.ctx.params);
}

proof fn lemma_params_stay(download: Download, metainfo: Metainfo, events: Seq<Occurrence>)
    requires
        download.is_new(metainfo),
        possible(download, events),
    ensures
        history(download, events).ctx.params == download.ctx.params,
    decreases events.len(),
{
    if events.len() > 0 {
        lemma_params_stay(download, metainfo, events.drop_last());
        law_every_state(download, metainfo, events.drop_last());
        law_download_goes_on(history(download, events.drop_last()), events.last());
    }
}

} // verus!
