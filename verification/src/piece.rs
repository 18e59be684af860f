//! Which blocks and which pieces of the torrent are there.
use crate::bits::{bits, max_bits, Bitfield};
use vstd::prelude::*;

verus! {

/// The number of bytes that one request asks for.
pub const BLOCK_LENGTH: usize = 16384;

/// A block of a piece, as it is requested.
#[derive(Debug, PartialEq, Eq, Hash, Clone, Copy, Structural)]
pub struct Block {
    pub index: u32,
    pub begin: u32,
    pub length: u32,
}

impl Block {
    /// The block as an item of the queue of requests.
    pub open spec fn item(self) -> (u32, u32, u32) {
        (self.index, self.begin, self.length)
    }

    /// The block as an item of the queue of requests.
    pub fn to_item(&self) -> (item: (u32, u32, u32))
        ensures
            item == self.item(),
    {
        (self.index, self.begin, self.length)
    }

    /// The block that an item of the queue of requests stands for.
    pub fn from_item(item: (u32, u32, u32)) -> (block: Block)
        ensures
            block.item() == item,
    {
        Block { index: item.0, begin: item.1, length: item.2 }
    }
}

/// The data of a block, as it is handed to the writer.
#[derive(Debug)]
pub struct Piece {
    pub index: usize,
    pub begin: usize,
    pub piece: Vec<u8>,
}

/// The blocks that were downloaded, by piece, and the pieces that are complete.
pub struct PieceCounter {
    pub total_pieces: u32,
    pub piece_index: Bitfield,
    pub downloaded: Vec<Vec<bool>>,
}

/// What a piece counter says: for each piece which of its blocks are there,
/// and which pieces are marked complete.
#[verifier::ext_equal]
pub struct CounterView {
    pub blocks: Seq<Seq<bool>>,
    pub complete: Seq<bool>,
}

impl View for PieceCounter {
    type V = CounterView;

    open spec fn view(&self) -> CounterView {
        CounterView {
            blocks: self.downloaded@.map_values(|row: Vec<bool>| row@),
            complete: bits(self.piece_index),
        }
    }
}

/// Whether all of `flags` are set.
pub open spec fn all_set(flags: Seq<bool>) -> bool {
    forall|i: int| 0 <= i < flags.len() ==> #[trigger] flags[i]
}

impl CounterView {
    /// Whether the torrent has a piece `index` and that piece a block that
    /// starts at or holds the offset `begin`.
    pub open spec fn has_block(self, index: int, begin: int) -> bool {
        &&& 0 <= index < self.blocks.len()
        &&& 0 <= begin
        &&& begin / (BLOCK_LENGTH as int) < self.blocks[index].len()
    }

    /// Whether the block of piece `index` at the offset `begin` is there.
    pub open spec fn is_downloaded(self, index: int, begin: int) -> bool {
        self.blocks[index][begin / (BLOCK_LENGTH as int)]
    }

    /// The same with the block of piece `index` at the offset `begin` there.
    pub open spec fn with_block(self, index: int, begin: int) -> CounterView {
        CounterView {
            blocks: self.blocks.update(
                index,
                self.blocks[index].update(begin / (BLOCK_LENGTH as int), true),
            ),
            ..self
        }
    }

    /// The same with piece `index` marked complete if all its blocks are there.
    pub open spec fn with_piece_checked(self, index: int) -> CounterView {
        if all_set(self.blocks[index]) {
            CounterView { complete: self.complete.update(index, true), ..self }
        } else {
            self
        }
    }

    /// No piece is marked complete that lacks a block.
    pub open spec fn sound(self) -> bool {
        forall|i: int|
            0 <= i < self.blocks.len() && #[trigger] self.complete[i] ==> all_set(self.blocks[i])
    }

    /// There is one mark for each piece, and all pieces have `blocks_per_piece`
    /// blocks.
    pub open spec fn shaped(self, blocks_per_piece: nat) -> bool {
        &&& self.complete.len() == self.blocks.len()
        &&& forall|i: int|
            0 <= i < self.blocks.len() ==> (#[trigger] self.blocks[i]).len() == blocks_per_piece
    }

    /// Every block that is there in `self` is there in `later`, and so is every
    /// mark.
    pub open spec fn grows_to(self, later: CounterView) -> bool {
        &&& later.blocks.len() == self.blocks.len()
        &&& later.complete.len() == self.complete.len()
        &&& forall|i: int, j: int|
            0 <= i < self.blocks.len() && 0 <= j < self.blocks[i].len()
                && #[trigger] self.blocks[i][j] ==> later.blocks[i][j]
        &&& forall|i: int|
            0 <= i < self.blocks.len() ==> (#[trigger] later.blocks[i]).len()
                == self.blocks[i].len()
        &&& forall|i: int|
            0 <= i < self.complete.len() && #[trigger] self.complete[i] ==> later.complete[i]
    }
}

impl PieceCounter {
    /// The counter is consistent: as many marks and as many rows as pieces, all
    /// rows of the same length, and no piece marked complete that lacks a block.
    pub open spec fn wf(self, blocks_per_piece: nat) -> bool {
        &&& self@.blocks.len() == self.total_pieces
        &&& self@.shaped(blocks_per_piece)
        &&& self@.sound()
    }

    /// A counter for `total_pieces` pieces of `blocks_per_piece` blocks, none of
    /// which is there.
    pub fn new(total_pieces: u32, blocks_per_piece: usize) -> (counter: PieceCounter)
        requires
            total_pieces <= max_bits(),
        ensures
            counter.total_pieces == total_pieces,
            counter@.complete == Seq::new(total_pieces as nat, |i: int| false),
            counter@.blocks == Seq::new(
                total_pieces as nat,
                |i: int| Seq::new(blocks_per_piece as nat, |j: int| false),
            ),
            counter.wf(blocks_per_piece as nat),
    {
        let mut downloaded: Vec<Vec<bool>> = Vec::new();
        let ghost empty_row = Seq::new(blocks_per_piece as nat, |j: int| false);
        let mut i: u32 = 0;
        while i < total_pieces
            invariant
                i <= total_pieces,
                downloaded@.len() == i,
                empty_row == Seq::new(blocks_per_piece as nat, |j: int| false),
                forall|k: int| 0 <= k < i ==> (#[trigger] downloaded@[k])@ == empty_row,
            decreases total_pieces - i,
        {
            downloaded.push(unset_flags(blocks_per_piece));
            i = i + 1;
        }
        let counter = PieceCounter {
            total_pieces,
            piece_index: Bitfield::repeat(false, total_pieces as usize),
            downloaded,
        };
        assert(counter@.blocks =~= Seq::new(total_pieces as nat, |i: int| empty_row));
        counter
    }

    /// Whether the torrent has the block of piece `index` at the offset `begin`.
    pub fn has_block(&self, index: usize, begin: usize) -> (has: bool)
        ensures
            has == self@.has_block(index as int, begin as int),
    {
        index < self.downloaded.len() && begin / BLOCK_LENGTH < self.downloaded[index].len()
    }

    /// Whether the block of piece `index` at the offset `begin` is there.
    pub fn is_downloaded(&self, index: usize, begin: usize) -> (there: bool)
        requires
            self@.has_block(index as int, begin as int),
        ensures
            there == self@.is_downloaded(index as int, begin as int),
    {
        self.downloaded[index][begin / BLOCK_LENGTH]
    }

    /// Records that the block of piece `index` at the offset `begin` is there.
    pub fn add_block(&mut self, index: usize, begin: usize)
        requires
            old(self)@.has_block(index as int, begin as int),
        ensures
            final(self)@ == old(self)@.with_block(index as int, begin as int),
            final(self).total_pieces == old(self).total_pieces,
    {
        let ghost before = self@;
        self.downloaded[index][begin / BLOCK_LENGTH] = true;
        assert(self@.blocks =~= before.with_block(index as int, begin as int).blocks);
    }

    /// Marks piece `index` complete if all its blocks are there.
    pub fn check_piece(&mut self, index: usize)
        requires
            index < old(self)@.blocks.len(),
            old(self)@.complete.len() == old(self)@.blocks.len(),
        ensures
            final(self)@ == old(self)@.with_piece_checked(index as int),
            final(self).total_pieces == old(self).total_pieces,
    {
        let ghost before = self@;
        let mut i: usize = 0;
        while i < self.downloaded[index].len()
            invariant
                self@ == before,
                index < before.blocks.len(),
                i <= before.blocks[index as int].len(),
                forall|k: int| 0 <= k < i ==> #[trigger] before.blocks[index as int][k],
                self.total_pieces == old(self).total_pieces,
            decreases before.blocks[index as int].len() - i,
        {
            if !self.downloaded[index][i] {
                assert(!before.blocks[index as int][i as int]);
                return;
            }
            i = i + 1;
        }
        self.piece_index.set(index, true);
        assert(self@ =~= before.with_piece_checked(index as int));
    }

    /// Whether every piece is marked complete.
    pub fn is_complete(&self) -> (complete: bool)
        ensures
            complete == all_set(self@.complete),
    {
        self.piece_index.first_zero().is_none()
    }
}

/// `n` flags, none of which is set.
pub fn unset_flags(n: usize) -> (flags: Vec<bool>)
    ensures
        flags@ == Seq::new(n as nat, |j: int| false),
{
    let mut flags: Vec<bool> = Vec::new();
    let mut i: usize = 0;
    while i < n
        invariant
            i <= n,
            flags@ == Seq::new(i as nat, |j: int| false),
        decreases n - i,
    {
        flags.push(false);
        i = i + 1;
        assert(flags@ =~= Seq::new(i as nat, |j: int| false));
    }
    flags
}

/// A block that comes in only adds to what is there, and leaves every mark
/// right.
pub proof fn law_add_block(c: CounterView, blocks_per_piece: nat, index: int, begin: int)
    requires
        c.shaped(blocks_per_piece),
        c.sound(),
        c.has_block(index, begin),
    ensures
        c.with_block(index, begin).shaped(blocks_per_piece),
        c.with_block(index, begin).sound(),
        c.with_block(index, begin).is_downloaded(index, begin),
        c.grows_to(c.with_block(index, begin)),
{
    let d = c.with_block(index, begin);
    assert forall|i: int| 0 <= i < d.blocks.len() && #[trigger] d.complete[i] implies all_set(
        d.blocks[i],
    ) by {
        assert(all_set(c.blocks[i]));
        assert forall|j: int| 0 <= j < d.blocks[i].len() implies #[trigger] d.blocks[i][j] by {
            assert(c.blocks[i][j]);
        }
    }
}

/// Checking a piece leaves every mark right and takes nothing back, and marks
/// the piece exactly where all its blocks are there or it was marked before.
pub proof fn law_check_piece(c: CounterView, blocks_per_piece: nat, index: int)
    requires
        c.shaped(blocks_per_piece),
        c.sound(),
        0 <= index < c.blocks.len(),
    ensures
        c.with_piece_checked(index).shaped(blocks_per_piece),
        c.with_piece_checked(index).sound(),
        c.grows_to(c.with_piece_checked(index)),
        c.with_piece_checked(index).complete[index] <==> all_set(c.blocks[index]),
{
}

/// Once every piece is marked complete, every block of every piece is there.
pub proof fn law_complete_means_all_blocks(c: CounterView, index: int, begin: int)
    requires
        c.sound(),
        c.complete.len() == c.blocks.len(),
        all_set(c.complete),
        c.has_block(index, begin),
    ensures
        c.is_downloaded(index, begin),
{
    assert(c.complete[index]);
    assert(all_set(c.blocks[index]));
}

/// What a counter says is what its fields hold.
pub proof fn law_counter_view(counter: PieceCounter)
    ensures
        counter@.blocks.len() == counter.downloaded@.len(),
        forall|i: int|
            0 <= i < counter.downloaded@.len() ==> #[trigger] counter@.blocks[i]
                == counter.downloaded@[i]@,
        counter@.complete == bits(counter.piece_index),
{
}

/// A block as an item of the queue: the piece, the offset in it, and the number
/// of bytes.
pub proof fn law_block_item(block: Block)
    ensures
        block.item().0 == block.index,
        block.item().1 == block.begin,
        block.item().2 == block.length,
{
}

/// A piece is cut in blocks of 16384 bytes: an offset belongs to the block that
/// as many times that many bytes go before.
pub proof fn law_blocks_by_offset(c: CounterView, index: int, begin: int, j: int)
    requires
        0 <= j,
        16384 * j <= begin < 16384 * (j + 1),
    ensures
        c.has_block(index, begin) <==> 0 <= index < c.blocks.len() && j < c.blocks[index].len(),
        c.is_downloaded(index, begin) == c.blocks[index][j],
{
    assert(begin / 16384 == j);
}

/// A block that comes in changes its own flag only: that one is set, every other
/// is what it was, and so is every mark.
pub proof fn law_add_block_sets_one_flag(c: CounterView, index: int, begin: int)
    requires
        c.has_block(index, begin),
    ensures
        ({
            let d = c.with_block(index, begin);
            &&& d.complete == c.complete
            &&& d.blocks.len() == c.blocks.len()
            &&& forall|i: int|
                0 <= i < c.blocks.len() ==> (#[trigger] d.blocks[i]).len() == c.blocks[i].len()
            &&& forall|i: int, j: int|
                0 <= i < c.blocks.len() && 0 <= j < c.blocks[i].len() ==> (#[trigger] d.blocks[i][j]
                    <==> c.blocks[i][j] || (i == index && 16384 * j <= begin < 16384 * (j + 1)))
        }),
{
    let d = c.with_block(index, begin);
    assert forall|i: int, j: int|
        0 <= i < c.blocks.len() && 0 <= j < c.blocks[i].len() implies (#[trigger] d.blocks[i][j]
        <==> c.blocks[i][j] || (i == index && 16384 * j <= begin < 16384 * (j + 1))) by {
        assert(begin / 16384 == j <==> 16384 * j <= begin < 16384 * (j + 1));
    }
}

/// Checking a piece changes no flag, and no mark but its own: that is set where
/// it was, or where every block of the piece is there.
pub proof fn law_check_piece_sets_one_mark(c: CounterView, index: int)
    requires
        0 <= index < c.blocks.len(),
        c.complete.len() == c.blocks.len(),
    ensures
        ({
            let d = c.with_piece_checked(index);
            &&& d.blocks == c.blocks
            &&& d.complete.len() == c.complete.len()
            &&& forall|i: int|
                0 <= i < c.complete.len() ==> (#[trigger] d.complete[i] <==> c.complete[i] || (i
                    == index && forall|j: int|
                    0 <= j < c.blocks[index].len() ==> #[trigger] c.blocks[index][j]))
        }),
{
}

/// All of some flags are set exactly where none is not.
pub proof fn law_all_set(flags: Seq<bool>)
    ensures
        all_set(flags) <==> !flags.contains(false),
{
    if all_set(flags) && flags.contains(false) {
        let i = choose|i: int| 0 <= i < flags.len() && flags[i] == false;
        assert(flags[i]);
    }
    if !flags.contains(false) {
        assert forall|i: int| 0 <= i < flags.len() implies #[trigger] flags[i] by {
            assert(flags.contains(flags[i]));
        }
    }
}

} // verus!
