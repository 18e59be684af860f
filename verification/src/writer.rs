//! The task that writes the files.
use crate::bytes::{push_zeros, tail, zeros};
use crate::metainfo::{File, Info};
use crate::piece::{all_set, CounterView, Piece};
use crate::torrent::{ContextView, TorrentContext, TorrentEventView, TorrentModel, TorrentState};
use vstd::pervasive::unreached;
use vstd::prelude::*;

verus! {

/// What the writer waits for.
#[derive(Debug, Clone, Copy, PartialEq, Eq, Structural)]
pub enum WriterState {
    /// To be started.
    Idle,
    /// The directory is being made.
    MakingDirectory,
    /// The file of this number is being created.
    Creating(usize),
    /// A block to write.
    Receiving,
    /// A block of this piece is being written.
    Writing(usize),
}

/// What became of the last action.
#[derive(Debug)]
pub enum WriterEvent {
    /// It was done.
    Done,
    /// This block came in, or none will come any more.
    Piece(Option<Piece>),
}

/// What to do next.
#[derive(Debug)]
pub enum WriterAction {
    /// Make a directory of this name.
    CreateDir(String),
    /// Create a file with this path and this length.
    CreateFile(Vec<String>, usize),
    /// Wait for a block.
    Receive,
    /// Write these bytes to the first file, from this offset on.
    WriteAt(usize, Vec<u8>),
}

/// The task that writes the files. Its buffer is as long as a piece.
#[derive(Debug)]
pub struct Writer {
    files: usize,
    buffer: Vec<u8>,
    state: WriterState,
}

/// What an event says. Of a block it says the piece, the offset in it and the
/// data.
pub enum WriterEventView {
    Done,
    Piece(Option<(nat, nat, Seq<u8>)>),
}

/// What an action says.
pub enum WriterActionView {
    CreateDir(Seq<char>),
    CreateFile(Seq<Seq<char>>, nat),
    Receive,
    WriteAt(nat, Seq<u8>),
}

/// The parts of a path.
pub open spec fn path_view(path: Seq<String>) -> Seq<Seq<char>> {
    path.map_values(|part: String| part@)
}

impl View for WriterEvent {
    type V = WriterEventView;

    open spec fn view(&self) -> WriterEventView {
        match *self {
            WriterEvent::Done => WriterEventView::Done,
            WriterEvent::Piece(Some(piece)) => WriterEventView::Piece(
                Some((piece.index as nat, piece.begin as nat, piece.piece@)),
            ),
            WriterEvent::Piece(None) => WriterEventView::Piece(None),
        }
    }
}

impl View for WriterAction {
    type V = WriterActionView;

    open spec fn view(&self) -> WriterActionView {
        match *self {
            WriterAction::CreateDir(name) => WriterActionView::CreateDir(name@),
            WriterAction::CreateFile(path, length) => WriterActionView::CreateFile(
                path_view(path@),
                length as nat,
            ),
            WriterAction::Receive => WriterActionView::Receive,
            WriterAction::WriteAt(offset, bytes) => WriterActionView::WriteAt(offset as nat, bytes@),
        }
    }
}

/// What the writer knows: how many files there are, and what its buffer holds.
#[verifier::ext_equal]
pub struct WriterModel {
    pub files: nat,
    pub buffer: Seq<u8>,
    pub state: WriterState,
}

/// Where a step of the writer leads: the writer after it, the piece counter
/// after it, and what to do.
#[verifier::ext_equal]
pub struct WriterStep {
    pub writer: WriterModel,
    pub counter: CounterView,
    pub action: WriterActionView,
}

/// The files to create, each as its path and its length: those that are listed,
/// or one that has the name of the torrent.
pub open spec fn file_plan(info: Info) -> Seq<(Seq<Seq<char>>, nat)> {
    match info.files {
        Some(files) => files@.map_values(|file: File| (path_view(file.path@), file.length as nat)),
        None => seq![(seq![info.name@], info.length->0 as nat)],
    }
}

/// Whether a torrent of one file tells its length.
pub open spec fn length_known(info: Info) -> bool {
    info.files is None ==> info.length is Some
}

/// `buffer` with `data` in it from `begin` on.
pub open spec fn spliced(buffer: Seq<u8>, begin: int, data: Seq<u8>) -> Seq<u8> {
    buffer.take(begin) + data + buffer.skip(begin + data.len())
}

impl WriterModel {
    /// A writer that was not started yet.
    pub open spec fn fresh(piece_length: nat) -> WriterModel {
        WriterModel { files: 0, buffer: zeros(piece_length), state: WriterState::Idle }
    }

    /// The buffer is as long as a piece, as many files are there as were
    /// created, and a piece that is being written is one of the torrent.
    pub open spec fn wf(self, ctx: ContextView) -> bool {
        let planned = file_plan(ctx.metainfo.info).len();
        &&& self.buffer.len() == ctx.metainfo.info.piece_length
        &&& match self.state {
            WriterState::Idle => self.files == 0,
            WriterState::MakingDirectory => self.files == 0 && ctx.metainfo.info.files is Some,
            WriterState::Creating(i) => self.files == i && i < planned && length_known(
                ctx.metainfo.info,
            ),
            WriterState::Receiving => self.files == planned,
            WriterState::Writing(index) => self.files == planned && index < ctx.counter.blocks.len(),
        }
    }

    /// Whether file `i`, if there is one, has a path.
    pub open spec fn has_path(self, i: int, ctx: ContextView) -> bool {
        i < file_plan(ctx.metainfo.info).len() ==> file_plan(ctx.metainfo.info)[i].0.len() > 0
    }

    /// What can be reported to the writer. A torrent of one file has to tell
    /// its length, a file has to have a path, and a block has to be one of the
    /// torrent, fit in its piece, and lie in a file.
    pub open spec fn expects(self, event: WriterEventView, ctx: ContextView) -> bool {
        match self.state {
            WriterState::Idle => event is Done && length_known(ctx.metainfo.info),
            WriterState::MakingDirectory => event is Done && self.has_path(0, ctx),
            WriterState::Creating(i) => event is Done && self.has_path(i + 1, ctx),
            WriterState::Receiving => match event {
                WriterEventView::Piece(Some((index, begin, data))) => {
                    &&& ctx.counter.has_block(index as int, begin as int)
                    &&& begin + data.len() <= self.buffer.len()
                    &&& self.files > 0
                    &&& index * ctx.metainfo.info.piece_length + begin <= usize::MAX
                },
                WriterEventView::Piece(None) => true,
                WriterEventView::Done => false,
            },
            WriterState::Writing(_) => event is Done,
        }
    }

    /// The same, waiting for something else.
    pub open spec fn at(self, state: WriterState) -> WriterModel {
        WriterModel { state, ..self }
    }

    /// Wait for a block.
    pub open spec fn receive(self, ctx: ContextView) -> WriterStep {
        WriterStep {
            writer: self.at(WriterState::Receiving),
            counter: ctx.counter,
            action: WriterActionView::Receive,
        }
    }

    /// Create the next file, or wait for a block where there is none left.
    pub open spec fn create(self, ctx: ContextView) -> WriterStep {
        let plan = file_plan(ctx.metainfo.info);
        if self.files < plan.len() {
            WriterStep {
                writer: self.at(WriterState::Creating(self.files as usize)),
                counter: ctx.counter,
                action: WriterActionView::CreateFile(
                    plan[self.files as int].0,
                    plan[self.files as int].1,
                ),
            }
        } else {
            self.receive(ctx)
        }
    }

    /// Puts a block in the buffer, takes note that it is there, and writes the
    /// whole buffer to the place of the block.
    pub open spec fn write(self, index: nat, begin: nat, data: Seq<u8>, ctx: ContextView) -> WriterStep {
        let buffer = spliced(self.buffer, begin as int, data);
        WriterStep {
            writer: WriterModel { buffer, ..self }.at(WriterState::Writing(index as usize)),
            counter: ctx.counter.with_block(index as int, begin as int),
            action: WriterActionView::WriteAt(
                index * ctx.metainfo.info.piece_length as nat + begin,
                buffer,
            ),
        }
    }

    /// Where an event leads.
    pub open spec fn after(self, event: WriterEventView, ctx: ContextView) -> WriterStep {
        match self.state {
            WriterState::Idle => if ctx.metainfo.info.files is Some {
                WriterStep {
                    writer: self.at(WriterState::MakingDirectory),
                    counter: ctx.counter,
                    action: WriterActionView::CreateDir(ctx.metainfo.info.name@),
                }
            } else {
                self.create(ctx)
            },
            WriterState::MakingDirectory => self.create(ctx),
            WriterState::Creating(_) => WriterModel { files: self.files + 1, ..self }.create(ctx),
            WriterState::Receiving => match event {
                WriterEventView::Piece(Some((index, begin, data))) => self.write(
                    index,
                    begin,
                    data,
                    ctx,
                ),
                _ => self.receive(ctx),
            },
            WriterState::Writing(index) => WriterStep {
                writer: self.at(WriterState::Receiving),
                counter: ctx.counter.with_piece_checked(index as int),
                action: WriterActionView::Receive,
            },
        }
    }

    /// Every piece whose blocks are all there is marked complete, but for the
    /// one that is being written.
    pub open spec fn caught_up(self, counter: CounterView) -> bool {
        forall|i: int|
            0 <= i < counter.blocks.len() && counter.blocks[i].len() > 0 && all_set(counter.blocks[i])
                && !(self.state is Writing && self.state->Writing_0 == i)
                ==> #[trigger] counter.complete[i]
    }
}

impl View for Writer {
    type V = WriterModel;

    closed spec fn view(&self) -> WriterModel {
        WriterModel { files: self.files as nat, buffer: self.buffer@, state: self.state }
    }
}

/// There are no more files than a machine word can count.
proof fn lemma_plan_len(info: Info)
    ensures
        file_plan(info).len() <= usize::MAX,
{
    if let Some(files) = info.files {
        assert(files.len() == files@.len());
    }
}

/// A copy of a path.
fn copy_path(path: &Vec<String>) -> (copy: Vec<String>)
    ensures
        path_view(copy@) == path_view(path@),
{
    let mut copy: Vec<String> = Vec::new();
    let mut i: usize = 0;
    while i < path.len()
        invariant
            i <= path@.len(),
            path_view(copy@) == path_view(path@.take(i as int)),
        decreases path@.len() - i,
    {
        let ghost before = copy@;
        copy.push(path[i].clone());
        assert(path_view(copy@) =~= path_view(before).push(path@[i as int]@));
        assert(path_view(path@.take(i + 1)) =~= path_view(path@.take(i as int)).push(
            path@[i as int]@,
        ));
        i = i + 1;
    }
    assert(path@.take(i as int) =~= path@);
    copy
}

/// Puts `data` in `buffer` from `begin` on.
fn splice(buffer: &mut Vec<u8>, begin: usize, data: &Vec<u8>)
    requires
        begin + data@.len() <= old(buffer)@.len(),
    ensures
        final(buffer)@ == spliced(old(buffer)@, begin as int, data@),
{
    let ghost before = buffer@;
    let length: usize = buffer.len();
    let mut i: usize = 0;
    while i < data.len()
        invariant
            i <= data@.len(),
            begin + data@.len() <= length,
            length == before.len(),
            buffer@ == spliced(before, begin as int, data@.take(i as int)),
            buffer@.len() == before.len(),
        decreases data@.len() - i,
    {
        let at: usize = begin + i;
        buffer.set(at, data[i]);
        i = i + 1;
        assert(buffer@ =~= spliced(before, begin as int, data@.take(i as int)));
    }
    assert(data@.take(i as int) =~= data@);
}

impl Writer {
    /// A writer that was not started yet.
    pub fn new(ctx: &TorrentContext) -> (writer: Writer)
        ensures
            writer@ == WriterModel::fresh(ctx@.metainfo.info.piece_length as nat),
            writer@.wf(ctx@),
    {
        let mut buffer: Vec<u8> = Vec::new();
        push_zeros(&mut buffer, ctx.metainfo.info.piece_length);
        let writer = Writer { files: 0, buffer, state: WriterState::Idle };
        assert(writer@ =~= WriterModel::fresh(ctx@.metainfo.info.piece_length as nat));
        writer
    }

    /// Creates the next file.
    fn create(&mut self, ctx: &TorrentContext) -> (action: WriterAction)
        requires
            length_known(ctx@.metainfo.info),
        ensures
            ({
                let step = old(self)@.create(ctx@);
                &&& final(self)@ == step.writer
                &&& ctx@.counter == step.counter
                &&& action@ == step.action
            }),
    {
        let ghost plan = file_plan(ctx@.metainfo.info);
        match &ctx.metainfo.info.files {
            Some(files) => if self.files < files.len() {
                let file: &File = &files[self.files];
                assert(plan[self.files as int] == (path_view(file.path@), file.length as nat));
                self.state = WriterState::Creating(self.files);
                return WriterAction::CreateFile(copy_path(&file.path), file.length);
            },
            None => if self.files == 0 {
                let mut path: Vec<String> = Vec::new();
                path.push(ctx.metainfo.info.name.clone());
                assert(path_view(path@) =~= seq![ctx@.metainfo.info.name@]);
                self.state = WriterState::Creating(0);
                return WriterAction::CreateFile(
                    path,
                    match ctx.metainfo.info.length {
                        Some(length) => length,
                        None => unreached(),
                    },
                );
            },
        }
        self.state = WriterState::Receiving;
        WriterAction::Receive
    }

    /// Takes in what became of the last action, and says what to do next. The
    /// first event is `Done`.
    pub fn run(&mut self, ctx: &mut TorrentContext, event: WriterEvent) -> (action: WriterAction)
        requires
            old(ctx)@.wf(),
            old(self)@.wf(old(ctx)@),
            old(self)@.expects(event@, old(ctx)@),
        ensures
            ({
                let step = old(self)@.after(event@, old(ctx)@);
                &&& final(self)@ == step.writer
                &&& final(ctx)@ == old(ctx)@.with_counter(step.counter)
                &&& action@ == step.action
            }),
            final(self)@.wf(final(ctx)@),
            final(ctx)@.wf(),
    {
        let ghost shared = ctx@;
        proof {
            law_step_keeps_order(self@, event@, ctx@);
            lemma_plan_len(shared.metainfo.info);
            assert(shared.with_counter(shared.counter) =~= shared);
        }
        match self.state {
            WriterState::Idle => if ctx.metainfo.info.files.is_some() {
                self.state = WriterState::MakingDirectory;
                WriterAction::CreateDir(ctx.metainfo.info.name.clone())
            } else {
                self.create(ctx)
            },
            WriterState::MakingDirectory => self.create(ctx),
            WriterState::Creating(_) => {
                self.files = self.files + 1;
                self.create(ctx)
            },
            WriterState::Receiving => match event {
                WriterEvent::Piece(Some(piece)) => {
                    splice(&mut self.buffer, piece.begin, &piece.piece);
                    ctx.piece_counter.add_block(piece.index, piece.begin);
                    proof {
                        assert(0 <= piece.index * ctx.metainfo.info.piece_length) by (nonlinear_arith);
                    }
                    let offset: usize = piece.index * ctx.metainfo.info.piece_length + piece.begin;
                    self.state = WriterState::Writing(piece.index);
                    let bytes: Vec<u8> = tail(self.buffer.as_slice(), 0);
                    assert(bytes@ =~= self.buffer@);
                    WriterAction::WriteAt(offset, bytes)
                },
                _ => WriterAction::Receive,
            },
            WriterState::Writing(index) => {
                ctx.piece_counter.check_piece(index);
                self.state = WriterState::Receiving;
                WriterAction::Receive
            },
        }
    }

    /// Whether `run` can take in an event now.
    pub fn accepts(&self, ctx: &TorrentContext, event: &WriterEvent) -> (accepts: bool)
        ensures
            accepts == self@.expects(event@, ctx@),
    {
        proof {
            lemma_plan_len(ctx@.metainfo.info);
        }
        match self.state {
            WriterState::Idle => {
                matches!(event, WriterEvent::Done) && (ctx.metainfo.info.files.is_some()
                    || ctx.metainfo.info.length.is_some())
            },
            WriterState::MakingDirectory => matches!(event, WriterEvent::Done) && has_path(ctx, 0),
            WriterState::Creating(i) => {
                matches!(event, WriterEvent::Done) && (i == usize::MAX || has_path(ctx, i + 1))
            },
            WriterState::Receiving => match event {
                WriterEvent::Piece(Some(piece)) => {
                    ctx.piece_counter.has_block(piece.index, piece.begin) && piece.piece.len()
                        <= self.buffer.len() && piece.begin <= self.buffer.len() - piece.piece.len()
                        && self.files > 0 && offset_fits(
                        piece.index,
                        ctx.metainfo.info.piece_length,
                        piece.begin,
                    )
                },
                WriterEvent::Piece(None) => true,
                WriterEvent::Done => false,
            },
            WriterState::Writing(_) => matches!(event, WriterEvent::Done),
        }
    }
}

/// Whether the place of a block in the file fits in a machine word.
fn offset_fits(index: usize, piece_length: usize, begin: usize) -> (fits: bool)
    ensures
        fits == (index * piece_length + begin <= usize::MAX),
{
    assert(0 <= index * piece_length) by (nonlinear_arith);
    match index.checked_mul(piece_length) {
        Some(start) => start.checked_add(begin).is_some(),
        None => false,
    }
}

/// Whether file `i`, if there is one, has a path.
fn has_path(ctx: &TorrentContext, i: usize) -> (has: bool)
    ensures
        forall|writer: WriterModel| has == #[trigger] writer.has_path(i as int, ctx@),
{
    let ghost plan = file_plan(ctx@.metainfo.info);
    match &ctx.metainfo.info.files {
        Some(files) => {
            assert(plan.len() == files@.len());
            if i < files.len() {
                assert(plan[i as int].0 == path_view(files@[i as int].path@));
                files[i].path.len() > 0
            } else {
                true
            }
        },
        None => true,
    }
}

/// A step keeps the writer and the context in order, takes nothing back of what
/// is there, and leaves no piece unmarked whose blocks are all there, but for
/// the one that it writes.
pub proof fn law_step_keeps_order(writer: WriterModel, event: WriterEventView, ctx: ContextView)
    requires
        ctx.wf(),
        writer.wf(ctx),
        writer.expects(event, ctx),
    ensures
        ctx.with_counter(writer.after(event, ctx).counter).wf(),
        writer.after(event, ctx).writer.wf(ctx.with_counter(writer.after(event, ctx).counter)),
        ctx.counter.grows_to(writer.after(event, ctx).counter),
        writer.caught_up(ctx.counter) ==> writer.after(event, ctx).writer.caught_up(
            writer.after(event, ctx).counter,
        ),
{
    let step = writer.after(event, ctx);
    let next = ctx.with_counter(step.counter);
    let per_piece = ctx.blocks_per_piece();
    assert(ctx.with_counter(ctx.counter) =~= ctx);
    lemma_plan_len(ctx.metainfo.info);
    match writer.state {
        WriterState::Receiving => {
            if let WriterEventView::Piece(Some((index, begin, data))) = event {
                crate::piece::law_add_block(ctx.counter, per_piece, index as int, begin as int);
            }
        },
        WriterState::Writing(index) => {
            crate::piece::law_check_piece(ctx.counter, per_piece, index as int);
        },
        _ => {},
    }
    assert forall|i: int| 0 <= i < next.queue.len() implies next.is_request(
        #[trigger] next.queue[i],
    ) by {
        assert(ctx.is_request(ctx.queue[i]));
    }
}

/// A writer that was not started yet, of a torrent of which nothing is there,
/// leaves no piece unmarked.
pub proof fn law_fresh_writer_is_caught_up(piece_length: nat, counter: CounterView)
    requires
        forall|i: int, j: int|
            0 <= i < counter.blocks.len() && 0 <= j < counter.blocks[i].len()
                ==> !#[trigger] counter.blocks[i][j],
    ensures
        WriterModel::fresh(piece_length).caught_up(counter),
{
    assert forall|i: int|
        0 <= i < counter.blocks.len() && counter.blocks[i].len() > 0 && all_set(
            counter.blocks[i],
        ) implies #[trigger] counter.complete[i] by {
        assert(counter.blocks[i][0]);
    }
}

/// The data of a block that begins its piece are written to their place in the
/// file: that of the piece.
pub proof fn law_first_block_lands(
    writer: WriterModel,
    index: nat,
    data: Seq<u8>,
    ctx: ContextView,
)
    requires
        writer.state is Receiving,
        writer.expects(WriterEventView::Piece(Some((index, 0, data))), ctx),
    ensures
        ({
            let action = writer.after(WriterEventView::Piece(Some((index, 0, data))), ctx).action;
            &&& action is WriteAt
            &&& action->WriteAt_0 == index * ctx.metainfo.info.piece_length
            &&& action->WriteAt_1.take(data.len() as int) == data
        }),
{
    assert(spliced(writer.buffer, 0, data).take(data.len() as int) =~= data);
}

/// What is written always holds the data of the block, as far into it as the
/// block lies in its piece, and is as long as a piece.
pub proof fn law_write_holds_block(
    writer: WriterModel,
    index: nat,
    begin: nat,
    data: Seq<u8>,
    ctx: ContextView,
)
    requires
        writer.wf(ctx),
        writer.state is Receiving,
        writer.expects(WriterEventView::Piece(Some((index, begin, data))), ctx),
    ensures
        ({
            let action = writer.after(WriterEventView::Piece(Some((index, begin, data))), ctx).action;
            &&& action is WriteAt
            &&& action->WriteAt_1.len() == ctx.metainfo.info.piece_length
            &&& action->WriteAt_1.subrange(begin as int, (begin + data.len()) as int) == data
        }),
{
    assert(spliced(writer.buffer, begin as int, data).subrange(
        begin as int,
        (begin + data.len()) as int,
    ) =~= data);
}

/// The torrent finishes once every block is there and the writer waits for
/// more: its next look at the pieces ends the download.
pub proof fn law_all_blocks_finish(writer: WriterModel, torrent: TorrentModel, ctx: ContextView)
    requires
        ctx.wf(),
        ctx.blocks_per_piece() > 0,
        writer.caught_up(ctx.counter),
        writer.state is Receiving,
        torrent.state == TorrentState::Connecting,
        forall|i: int|
            0 <= i < ctx.counter.blocks.len() ==> all_set(#[trigger] ctx.counter.blocks[i]),
    ensures
        torrent.after(TorrentEventView::Done, ctx).torrent.state == TorrentState::Finished,
{
    assert forall|i: int| 0 <= i < ctx.counter.complete.len() implies #[trigger] ctx.counter.complete[i] by {
        assert(all_set(ctx.counter.blocks[i]));
    }
}

/// What an event and an action say is what their fields hold.
pub proof fn law_writer_views(event: WriterEvent, action: WriterAction)
    ensures
        match event {
            WriterEvent::Done => event@ is Done,
            WriterEvent::Piece(None) => event@ is Piece && event@->Piece_0 is None,
            WriterEvent::Piece(Some(piece)) => event@ is Piece && event@->Piece_0 == Some(
                (piece.index as nat, piece.begin as nat, piece.piece@),
            ),
        },
        match action {
            WriterAction::CreateDir(name) => action@ is CreateDir && action@->CreateDir_0 == name@,
            WriterAction::CreateFile(path, length) => action@ is CreateFile
                && action@->CreateFile_0.len() == path@.len() && (forall|i: int|
                0 <= i < path@.len() ==> #[trigger] action@->CreateFile_0[i] == path@[i]@)
                && action@->CreateFile_1 == length,
            WriterAction::Receive => action@ is Receive,
            WriterAction::WriteAt(offset, bytes) => action@ is WriteAt && action@->WriteAt_0 == offset
                && action@->WriteAt_1 == bytes@,
        },
{
}

/// The files to create: those that are listed, each with its path and its length,
/// in their order; or one with the name and the length of the torrent.
pub proof fn law_file_plan(info: Info)
    ensures
        info.files matches Some(files) ==> {
            &&& file_plan(info).len() == files@.len()
            &&& forall|i: int|
                0 <= i < files@.len() ==> {
                    let planned = #[trigger] file_plan(info)[i];
                    &&& planned.1 == files@[i].length
                    &&& planned.0.len() == files@[i].path@.len()
                    &&& forall|j: int|
                        0 <= j < planned.0.len() ==> #[trigger] planned.0[j] == files@[i].path@[j]@
                }
        },
        info.files is None && info.length is Some ==> {
            &&& file_plan(info).len() == 1
            &&& file_plan(info)[0].0.len() == 1
            &&& file_plan(info)[0].0[0] == info.name@
            &&& file_plan(info)[0].1 == info.length->0
        },
{
}

/// Data put in a buffer are there from their place on, and every other byte is
/// what it was.
pub proof fn law_spliced(buffer: Seq<u8>, begin: int, data: Seq<u8>)
    requires
        0 <= begin,
        begin + data.len() <= buffer.len(),
    ensures
        spliced(buffer, begin, data).len() == buffer.len(),
        forall|k: int|
            0 <= k < buffer.len() ==> #[trigger] spliced(buffer, begin, data)[k] == if begin <= k < begin
                + data.len() {
                data[k - begin]
            } else {
                buffer[k]
            },
{
}

/// A writer that was not started has a buffer of zeros, as long as a piece.
pub proof fn law_fresh_writer(piece_length: nat)
    ensures
        WriterModel::fresh(piece_length).files == 0,
        WriterModel::fresh(piece_length).state == WriterState::Idle,
        WriterModel::fresh(piece_length).buffer.len() == piece_length,
        forall|i: int|
            0 <= i < piece_length ==> #[trigger] WriterModel::fresh(piece_length).buffer[i] == 0,
{
}

/// What can be reported in which state.
pub proof fn law_what_is_expected(w: WriterModel, event: WriterEventView, ctx: ContextView)
    ensures
        w.state == WriterState::Idle ==> (w.expects(event, ctx) <==> event is Done && (
        ctx.metainfo.info.files is Some || ctx.metainfo.info.length is Some)),
        w.state == WriterState::MakingDirectory ==> (w.expects(event, ctx) <==> event is Done && (
        file_plan(ctx.metainfo.info).len() > 0 ==> file_plan(ctx.metainfo.info)[0].0.len() > 0)),
        w.state is Creating ==> (w.expects(event, ctx) <==> event is Done && (file_plan(
            ctx.metainfo.info,
        ).len() > w.state->Creating_0 + 1 ==> file_plan(ctx.metainfo.info)[w.state->Creating_0 + 1].0.len()
            > 0)),
        w.state == WriterState::Receiving ==> (w.expects(event, ctx) <==> match event {
            WriterEventView::Done => false,
            WriterEventView::Piece(None) => true,
            WriterEventView::Piece(Some((index, begin, data))) => {
                &&& index < ctx.counter.blocks.len()
                &&& begin as int / 16384 < ctx.counter.blocks[index as int].len()
                &&& begin + data.len() <= w.buffer.len()
                &&& w.files > 0
                &&& index * ctx.metainfo.info.piece_length + begin <= usize::MAX
            },
        }),
        w.state is Writing ==> (w.expects(event, ctx) <==> event is Done),
{
}

/// How the files come to be: the directory first where there are several, then
/// one file after the other, and then the writer waits for blocks. The buffer and
/// what is there stay.
pub proof fn law_files_are_created(w: WriterModel, event: WriterEventView, ctx: ContextView)
    requires
        w.wf(ctx),
        w.expects(event, ctx),
        w.state == WriterState::Idle || w.state == WriterState::MakingDirectory || w.state is Creating,
    ensures
        ({
            let step = w.after(event, ctx);
            let plan = file_plan(ctx.metainfo.info);
            let next: int = if w.state is Creating {
                w.state->Creating_0 + 1
            } else {
                0
            };
            &&& step.counter == ctx.counter
            &&& step.writer.buffer == w.buffer
            &&& step.writer.files == next
            &&& w.state == WriterState::Idle && ctx.metainfo.info.files is Some ==> {
                &&& step.action == WriterActionView::CreateDir(ctx.metainfo.info.name@)
                &&& step.writer.state == WriterState::MakingDirectory
            }
            &&& !(w.state == WriterState::Idle && ctx.metainfo.info.files is Some) && next < plan.len()
                ==> {
                &&& step.action == WriterActionView::CreateFile(plan[next].0, plan[next].1)
                &&& step.writer.state == WriterState::Creating(next as usize)
            }
            &&& !(w.state == WriterState::Idle && ctx.metainfo.info.files is Some) && next >= plan.len()
                ==> {
                &&& step.action == WriterActionView::Receive
                &&& step.writer.state == WriterState::Receiving
            }
        }),
{
}

/// What becomes of a block: it goes into the buffer at its place, its flag and no
/// other is set, and the whole buffer is written from the place of the block in
/// the file on. Without a block nothing changes.
pub proof fn law_blocks_are_written(w: WriterModel, event: WriterEventView, ctx: ContextView)
    requires
        w.state == WriterState::Receiving,
        w.expects(event, ctx),
    ensures
        event->Piece_0 is None ==> {
            let step = w.after(event, ctx);
            &&& step.writer == w
            &&& step.counter == ctx.counter
            &&& step.action == WriterActionView::Receive
        },
        event->Piece_0 matches Some((index, begin, data)) ==> {
            let step = w.after(event, ctx);
            &&& step.writer.files == w.files
            &&& step.writer.state is Writing
            &&& ctx.counter.blocks.len() <= usize::MAX ==> step.writer.state->Writing_0 == index
            &&& step.writer.buffer.len() == w.buffer.len()
            &&& forall|k: int|
                0 <= k < w.buffer.len() ==> #[trigger] step.writer.buffer[k] == if begin <= k < begin
                    + data.len() {
                    data[k - begin]
                } else {
                    w.buffer[k]
                }
            &&& step.action is WriteAt
            &&& step.action->WriteAt_0 == index * ctx.metainfo.info.piece_length + begin
            &&& step.action->WriteAt_1 == step.writer.buffer
            &&& step.counter.complete == ctx.counter.complete
            &&& step.counter.blocks.len() == ctx.counter.blocks.len()
            &&& forall|i: int, j: int|
                0 <= i < ctx.counter.blocks.len() && 0 <= j < ctx.counter.blocks[i].len() ==> (
                #[trigger] step.counter.blocks[i][j] <==> ctx.counter.blocks[i][j] || (i == index && 16384
                    * j <= begin < 16384 * (j + 1)))
        },
{
    if let WriterEventView::Piece(Some((index, begin, data))) = event {
        law_spliced(w.buffer, begin as int, data);
        crate::piece::law_add_block_sets_one_flag(ctx.counter, index as int, begin as int);
    }
}

/// Once a block was written its piece is checked: its mark is set where all its
/// flags are, no other mark and no flag changes, and the writer waits for the next
/// block.
pub proof fn law_written_pieces_are_checked(w: WriterModel, event: WriterEventView, ctx: ContextView)
    requires
        w.wf(ctx),
        ctx.wf(),
        w.state is Writing,
        w.expects(event, ctx),
    ensures
        ({
            let step = w.after(event, ctx);
            let index = w.state->Writing_0 as int;
            &&& step.writer == WriterModel { state: WriterState::Receiving, ..w }
            &&& step.action == WriterActionView::Receive
            &&& step.counter.blocks == ctx.counter.blocks
            &&& step.counter.complete.len() == ctx.counter.complete.len()
            &&& forall|i: int|
                0 <= i < ctx.counter.complete.len() ==> (#[trigger] step.counter.complete[i]
                    <==> ctx.counter.complete[i] || (i == index && !ctx.counter.blocks[index].contains(
                    false,
                )))
        }),
{
    let index = w.state->Writing_0 as int;
    crate::piece::law_check_piece_sets_one_mark(ctx.counter, index);
    crate::piece::law_all_set(ctx.counter.blocks[index]);
}

} // verus!
