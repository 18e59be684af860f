//! Which blocks to ask for next.
use crate::piece::{Block, CounterView, PieceCounter, BLOCK_LENGTH};
use crate::queue::{insert_all, queue_insert_if_absent, queue_len, queued, RequestQueue};
use vstd::prelude::*;

verus! {

/// The queue is filled when it holds fewer requests than this, with at most so
/// many.
pub const BATCH: usize = 10;

/// The blocks of piece `index` that are not there, in order, each as the piece
/// and the number of the block in it.
pub open spec fn missing_row(row: Seq<bool>, index: int) -> Seq<(int, int)>
    decreases row.len(),
{
    if row.len() == 0 {
        Seq::empty()
    } else if row.last() {
        missing_row(row.drop_last(), index)
    } else {
        missing_row(row.drop_last(), index).push((index, row.len() - 1))
    }
}

/// The blocks that are not there, piece by piece.
pub open spec fn missing(blocks: Seq<Seq<bool>>) -> Seq<(int, int)>
    decreases blocks.len(),
{
    if blocks.len() == 0 {
        Seq::empty()
    } else {
        missing(blocks.drop_last()) + missing_row(blocks.last(), blocks.len() - 1)
    }
}

/// The first `n` items of `s`, or all where there are fewer.
pub open spec fn at_most<A>(s: Seq<A>, n: nat) -> Seq<A> {
    if s.len() <= n {
        s
    } else {
        s.take(n as int)
    }
}

/// The blocks to ask for.
pub open spec fn wanted(blocks: Seq<Seq<bool>>) -> Seq<(int, int)> {
    at_most(missing(blocks), BATCH as nat)
}

/// The request for a block.
pub open spec fn request_for(block: (int, int)) -> (u32, u32, u32) {
    (block.0 as u32, (block.1 * BLOCK_LENGTH) as u32, BLOCK_LENGTH as u32)
}

/// The requests for some blocks.
pub open spec fn requests_for(blocks: Seq<(int, int)>) -> Seq<(u32, u32, u32)> {
    blocks.map_values(|block: (int, int)| request_for(block))
}

/// Whether the offsets of the blocks to ask for fit in a request.
pub open spec fn requestable(blocks: Seq<Seq<bool>>) -> bool {
    forall|k: int|
        0 <= k < wanted(blocks).len() ==> (#[trigger] wanted(blocks)[k]).1 * BLOCK_LENGTH <= u32::MAX
}

/// Whether the queue can be filled: it is full enough, or the offsets fit.
pub open spec fn can_fill(queue: Seq<(u32, u32, u32)>, blocks: Seq<Seq<bool>>) -> bool {
    queue.len() < BATCH ==> requestable(blocks)
}

/// The queue with the blocks to ask for appended, where it ran low.
pub open spec fn filled(queue: Seq<(u32, u32, u32)>, blocks: Seq<Seq<bool>>) -> Seq<(u32, u32, u32)> {
    if queue.len() < BATCH {
        insert_all(queue, requests_for(wanted(blocks)))
    } else {
        queue
    }
}

/// What `missing_row` lists: the blocks that are not there, once each, in order.
proof fn lemma_missing_row(row: Seq<bool>, index: int)
    ensures
        missing_row(row, index).len() <= row.len(),
        forall|k: int|
            0 <= k < missing_row(row, index).len() ==> {
                let block = #[trigger] missing_row(row, index)[k];
                &&& block.0 == index
                &&& 0 <= block.1 < row.len()
                &&& !row[block.1]
            },
        forall|k: int, l: int|
            0 <= k < l < missing_row(row, index).len() ==> (#[trigger] missing_row(row, index)[k]).1 < (
            #[trigger] missing_row(row, index)[l]).1,
        forall|j: int|
            0 <= j < row.len() && !#[trigger] row[j] ==> missing_row(row, index).contains((index, j)),
    decreases row.len(),
{
    if row.len() > 0 {
        let rest = missing_row(row.drop_last(), index);
        let all = missing_row(row, index);
        lemma_missing_row(row.drop_last(), index);
        assert forall|j: int| 0 <= j < row.len() && !#[trigger] row[j] implies all.contains((index, j)) by {
            if j < row.len() - 1 {
                assert(!row.drop_last()[j]);
                assert(rest.contains((index, j)));
                let k = choose|k: int| 0 <= k < rest.len() && rest[k] == (index, j);
                assert(all[k] == (index, j));
            } else {
                assert(all.last() == (index, j));
            }
        }
    }
}

/// Whether block `a` comes before block `b`.
pub open spec fn precedes(a: (int, int), b: (int, int)) -> bool {
    a.0 < b.0 || (a.0 == b.0 && a.1 < b.1)
}

/// What is listed as missing: exactly the blocks that are not there, once each,
/// the first pieces first and the first blocks of a piece first.
pub proof fn law_missing(blocks: Seq<Seq<bool>>)
    ensures
        forall|k: int|
            0 <= k < missing(blocks).len() ==> {
                let block = #[trigger] missing(blocks)[k];
                &&& 0 <= block.0 < blocks.len()
                &&& 0 <= block.1 < blocks[block.0].len()
                &&& !blocks[block.0][block.1]
            },
        forall|i: int, j: int|
            0 <= i < blocks.len() && 0 <= j < blocks[i].len() && !#[trigger] blocks[i][j] ==> missing(
                blocks,
            ).contains((i, j)),
        forall|k: int, l: int|
            0 <= k < l < missing(blocks).len() ==> precedes(
                #[trigger] missing(blocks)[k],
                #[trigger] missing(blocks)[l],
            ),
    decreases blocks.len(),
{
    if blocks.len() > 0 {
        let n = blocks.len() - 1;
        let front = missing(blocks.drop_last());
        let row = missing_row(blocks.last(), n);
        let all = missing(blocks);
        law_missing(blocks.drop_last());
        lemma_missing_row(blocks.last(), n);
        assert forall|k: int| 0 <= k < all.len() implies {
            let block = #[trigger] all[k];
            &&& 0 <= block.0 < blocks.len()
            &&& 0 <= block.1 < blocks[block.0].len()
            &&& !blocks[block.0][block.1]
        } by {
            if k < front.len() {
                assert(all[k] == front[k]);
            } else {
                assert(all[k] == row[k - front.len()]);
            }
        }
        assert forall|i: int, j: int|
            0 <= i < blocks.len() && 0 <= j < blocks[i].len()
                && !#[trigger] blocks[i][j] implies all.contains((i, j)) by {
            if i < n {
                assert(!blocks.drop_last()[i][j]);
                let k = choose|k: int| 0 <= k < front.len() && front[k] == (i, j);
                assert(all[k] == (i, j));
            } else {
                assert(!blocks.last()[j]);
                let k = choose|k: int| 0 <= k < row.len() && row[k] == (i, j);
                assert(all[front.len() + k] == (i, j));
            }
        }
        assert forall|k: int, l: int| 0 <= k < l < all.len() implies precedes(
            #[trigger] all[k],
            #[trigger] all[l],
        ) by {
            if l < front.len() {
                assert(all[k] == front[k] && all[l] == front[l]);
            } else {
                assert(all[l] == row[l - front.len()]);
                if k < front.len() {
                    assert(all[k] == front[k]);
                } else {
                    assert(all[k] == row[k - front.len()]);
                }
            }
        }
    }
}

/// The blocks missing from the first `j` of a row begin the blocks missing from
/// the row.
proof fn lemma_missing_row_begins(row: Seq<bool>, index: int, j: int)
    requires
        0 <= j <= row.len(),
    ensures
        missing_row(row.take(j), index).is_prefix_of(missing_row(row, index)),
    decreases row.len(),
{
    if j == row.len() {
        assert(row.take(j) =~= row);
    } else {
        lemma_missing_row_begins(row.drop_last(), index, j);
        assert(row.drop_last().take(j) =~= row.take(j));
    }
}

/// The blocks missing from the first pieces and from the first blocks of the
/// next begin the blocks that are missing.
proof fn lemma_missing_begins(blocks: Seq<Seq<bool>>, i: int, j: int)
    requires
        0 <= i < blocks.len(),
        0 <= j <= blocks[i].len(),
    ensures
        (missing(blocks.take(i)) + missing_row(blocks[i].take(j), i)).is_prefix_of(missing(blocks)),
    decreases blocks.len(),
{
    if i == blocks.len() - 1 {
        assert(blocks.take(i) =~= blocks.drop_last());
        lemma_missing_row_begins(blocks[i], i, j);
    } else {
        lemma_missing_begins(blocks.drop_last(), i, j);
        assert(blocks.drop_last().take(i) =~= blocks.take(i));
    }
}

/// The first `limit` blocks that are not there, each as the piece and the
/// number of the block in it.
pub fn missing_blocks(counter: &PieceCounter, limit: usize) -> (found: Vec<(usize, usize)>)
    requires
        limit > 0,
    ensures
        found@.map_values(|b: (usize, usize)| (b.0 as int, b.1 as int)) == at_most(
            missing(counter@.blocks),
            limit as nat,
        ),
{
    let ghost blocks = counter@.blocks;
    let ghost pair = |b: (usize, usize)| (b.0 as int, b.1 as int);
    let mut found: Vec<(usize, usize)> = Vec::new();
    let mut i: usize = 0;
    assert(blocks.take(0) =~= Seq::empty());
    assert(found@.map_values(pair) =~= missing(blocks.take(0)));
    while i < counter.downloaded.len()
        invariant
            blocks == counter@.blocks,
            pair == (|b: (usize, usize)| (b.0 as int, b.1 as int)),
            i <= blocks.len(),
            found@.len() < limit,
            found@.map_values(pair) == missing(blocks.take(i as int)),
        decreases blocks.len() - i,
    {
        let mut j: usize = 0;
        assert(blocks[i as int].take(0) =~= Seq::empty());
        assert(found@.map_values(pair) =~= missing(blocks.take(i as int)) + missing_row(
            blocks[i as int].take(0),
            i as int,
        ));
        while j < counter.downloaded[i].len()
            invariant
                blocks == counter@.blocks,
                pair == (|b: (usize, usize)| (b.0 as int, b.1 as int)),
                i < blocks.len(),
                j <= blocks[i as int].len(),
                found@.len() < limit,
                found@.map_values(pair) == missing(blocks.take(i as int)) + missing_row(
                    blocks[i as int].take(j as int),
                    i as int,
                ),
            decreases blocks[i as int].len() - j,
        {
            let ghost before = found@;
            let there: bool = counter.downloaded[i][j];
            assert(blocks[i as int].take(j + 1).drop_last() =~= blocks[i as int].take(j as int));
            if !there {
                found.push((i, j));
                assert(found@.map_values(pair) =~= before.map_values(pair).push((i as int, j as int)));
            }
            j = j + 1;
            assert(found@.map_values(pair) =~= missing(blocks.take(i as int)) + missing_row(
                blocks[i as int].take(j as int),
                i as int,
            ));
            if found.len() >= limit {
                proof {
                    lemma_missing_begins(blocks, i as int, j as int);
                    assert(found@.map_values(pair) =~= missing(blocks).take(limit as int));
                    if missing(blocks).len() <= limit {
                        assert(missing(blocks).take(limit as int) =~= missing(blocks));
                    }
                }
                return found;
            }
        }
        proof {
            assert(blocks[i as int].take(j as int) =~= blocks[i as int]);
            assert(blocks.take(i + 1).drop_last() =~= blocks.take(i as int));
            assert(blocks.take(i + 1).last() == blocks[i as int]);
        }
        i = i + 1;
    }
    assert(blocks.take(i as int) =~= blocks);
    found
}

/// Whether the queue can be filled.
pub fn is_fillable(queue: &RequestQueue, counter: &PieceCounter) -> (fillable: bool)
    ensures
        fillable == can_fill(queued(*queue), counter@.blocks),
{
    if queue_len(queue) >= BATCH {
        return true;
    }
    let ghost pair = |b: (usize, usize)| (b.0 as int, b.1 as int);
    let found: Vec<(usize, usize)> = missing_blocks(counter, BATCH);
    let ghost want = wanted(counter@.blocks);
    assert(found@.map_values(pair) == want);
    let mut k: usize = 0;
    while k < found.len()
        invariant
            k <= found@.len(),
            pair == (|b: (usize, usize)| (b.0 as int, b.1 as int)),
            found@.map_values(pair) == want,
            want == wanted(counter@.blocks),
            queued(*queue).len() < BATCH,
            forall|l: int| 0 <= l < k ==> (#[trigger] want[l]).1 * BLOCK_LENGTH <= u32::MAX,
        decreases found@.len() - k,
    {
        assert(want[k as int] == pair(found@[k as int]));
        if found[k].1 > u32::MAX as usize / BLOCK_LENGTH {
            return false;
        }
        k = k + 1;
    }
    assert(want.len() == found@.len());
    true
}

/// Fills the queue if it ran low.
pub fn fill(queue: &mut RequestQueue, counter: &PieceCounter)
    requires
        counter@.blocks.len() <= u32::MAX,
        can_fill(queued(*old(queue)), counter@.blocks),
    ensures
        queued(*final(queue)) == filled(queued(*old(queue)), counter@.blocks),
{
    if queue_len(queue) >= BATCH {
        return;
    }
    let ghost before = queued(*queue);
    let ghost pair = |b: (usize, usize)| (b.0 as int, b.1 as int);
    let found: Vec<(usize, usize)> = missing_blocks(counter, BATCH);
    let ghost want = wanted(counter@.blocks);
    proof {
        assert(found@.map_values(pair) == want);
        law_missing(counter@.blocks);
        assert(requests_for(want.take(0)) =~= Seq::empty());
    }
    let mut k: usize = 0;
    while k < found.len()
        invariant
            k <= found@.len(),
            pair == (|b: (usize, usize)| (b.0 as int, b.1 as int)),
            found@.map_values(pair) == want,
            want == wanted(counter@.blocks),
            counter@.blocks.len() <= u32::MAX,
            requestable(counter@.blocks),
            forall|l: int| 0 <= l < want.len() ==> 0 <= (#[trigger] want[l]).0 < counter@.blocks.len(),
            queued(*queue) == insert_all(before, requests_for(want.take(k as int))),
        decreases found@.len() - k,
    {
        assert(want[k as int] == pair(found@[k as int]));
        let block = Block {
            index: found[k].0 as u32,
            begin: found[k].1 as u32 * BLOCK_LENGTH as u32,
            length: BLOCK_LENGTH as u32,
        };
        queue_insert_if_absent(queue, block.to_item());
        proof {
            let items = requests_for(want.take(k + 1));
            assert(items.drop_last() =~= requests_for(want.take(k as int)));
            assert(items.last() == block.item());
        }
        k = k + 1;
    }
    assert(want.take(k as int) =~= want);
}

/// Filling keeps what is queued, at its place and once each, and adds at most
/// ten requests, each for a whole block that is not there. Where the queue ran
/// low, the first ten blocks that are not there are queued afterwards; so it is
/// not empty as long as a block is not there.
pub proof fn law_fill(queue: Seq<(u32, u32, u32)>, counter: CounterView)
    requires
        queue.no_duplicates(),
        counter.blocks.len() <= u32::MAX,
        can_fill(queue, counter.blocks),
    ensures
        filled(queue, counter.blocks).no_duplicates(),
        queue.is_prefix_of(filled(queue, counter.blocks)),
        filled(queue, counter.blocks).len() <= queue.len() + BATCH,
        filled(queue, counter.blocks).len() < 2 * BATCH || filled(queue, counter.blocks) == queue,
        forall|k: int|
            queue.len() <= k < filled(queue, counter.blocks).len() ==> {
                let item = #[trigger] filled(queue, counter.blocks)[k];
                &&& counter.has_block(item.0 as int, item.1 as int)
                &&& !counter.is_downloaded(item.0 as int, item.1 as int)
                &&& item.1 as int % BLOCK_LENGTH as int == 0
                &&& item.2 == BLOCK_LENGTH
            },
        queue.len() < BATCH ==> forall|k: int|
            0 <= k < wanted(counter.blocks).len() ==> filled(queue, counter.blocks).contains(
                request_for(#[trigger] wanted(counter.blocks)[k]),
            ),
        missing(counter.blocks).len() > 0 ==> filled(queue, counter.blocks).len() > 0,
{
    let all = filled(queue, counter.blocks);
    if queue.len() < BATCH {
        let want = wanted(counter.blocks);
        let items = requests_for(want);
        crate::queue::law_insert_all(queue, items);
        law_missing(counter.blocks);
        assert(queue =~= all.take(queue.len() as int));
        assert forall|k: int| queue.len() <= k < all.len() implies {
            let item = #[trigger] all[k];
            &&& counter.has_block(item.0 as int, item.1 as int)
            &&& !counter.is_downloaded(item.0 as int, item.1 as int)
            &&& item.1 as int % BLOCK_LENGTH as int == 0
            &&& item.2 == BLOCK_LENGTH
        } by {
            let item = all[k];
            assert(all.contains(item));
            if queue.contains(item) {
                let l = choose|l: int| 0 <= l < queue.len() && queue[l] == item;
                assert(all.take(queue.len() as int)[l] == item);
                assert(all[l] == all[k]);
            }
            assert(items.contains(item));
            let l = choose|l: int| 0 <= l < items.len() && items[l] == item;
            assert(items[l] == request_for(want[l]));
            assert(want[l] == missing(counter.blocks)[l]);
            assert(want[l].1 * BLOCK_LENGTH <= u32::MAX);
        }
        assert forall|k: int| 0 <= k < want.len() implies all.contains(
            request_for(#[trigger] want[k]),
        ) by {
            assert(items[k] == request_for(want[k]));
            assert(items.contains(items[k]));
        }
        if missing(counter.blocks).len() > 0 {
            assert(all.contains(request_for(want[0])));
        }
    } else {
        assert(queue.is_prefix_of(queue));
    }
}

/// Where no piece is longer than the offsets in a request can tell, the queue can
/// always be filled.
pub proof fn law_short_pieces_can_be_requested(queue: Seq<(u32, u32, u32)>, counter: CounterView)
    requires
        forall|i: int|
            0 <= i < counter.blocks.len() ==> (#[trigger] counter.blocks[i]).len() * BLOCK_LENGTH
                <= u32::MAX + 1,
    ensures
        can_fill(queue, counter.blocks),
{
    law_missing(counter.blocks);
    let want = wanted(counter.blocks);
    assert forall|k: int| 0 <= k < want.len() implies (#[trigger] want[k]).1 * BLOCK_LENGTH <= u32::MAX by {
        assert(want[k] == missing(counter.blocks)[k]);
        assert(want[k].1 < counter.blocks[want[k].0].len());
    }
}

/// The blocks to ask for are the first ten that are not there, or all where there
/// are fewer.
pub proof fn law_wanted(blocks: Seq<Seq<bool>>)
    ensures
        missing(blocks).len() >= 10 ==> wanted(blocks).len() == 10,
        missing(blocks).len() < 10 ==> wanted(blocks).len() == missing(blocks).len(),
        forall|k: int|
            0 <= k < wanted(blocks).len() ==> #[trigger] wanted(blocks)[k] == missing(blocks)[k],
{
}

/// The request for a block: the piece, 16384 bytes for each block before it, and
/// 16384 bytes.
pub proof fn law_request_for(block: (int, int))
    requires
        0 <= block.0 <= u32::MAX,
        0 <= block.1,
        16384 * block.1 <= u32::MAX,
    ensures
        request_for(block).0 == block.0,
        request_for(block).1 == 16384 * block.1,
        request_for(block).2 == 16384,
{
}

/// When the queue can be filled: it holds ten requests, or every block that would
/// be asked for begins where 32 bits can tell.
pub proof fn law_can_fill(queue: Seq<(u32, u32, u32)>, blocks: Seq<Seq<bool>>)
    ensures
        can_fill(queue, blocks) <==> (queue.len() >= 10 || forall|k: int|
            0 <= k < 10 && k < missing(blocks).len() ==> 16384 * (#[trigger] missing(blocks)[k]).1
                < 0x1_0000_0000),
{
    law_wanted(blocks);
    let want = wanted(blocks);
    if requestable(blocks) {
        assert forall|k: int| 0 <= k < 10 && k < missing(blocks).len() implies 16384 * (
        #[trigger] missing(blocks)[k]).1 < 0x1_0000_0000 by {
            assert(want[k] == missing(blocks)[k]);
        }
    }
    if forall|k: int|
        0 <= k < 10 && k < missing(blocks).len() ==> 16384 * (#[trigger] missing(blocks)[k]).1
            < 0x1_0000_0000 {
        assert forall|k: int| 0 <= k < want.len() implies (#[trigger] want[k]).1 * BLOCK_LENGTH
            <= u32::MAX by {
            assert(want[k] == missing(blocks)[k]);
        }
    }
}

/// A queue of ten requests or more is left as it is. A shorter one gets those of
/// the first ten blocks that are not there that it lacks, and nothing else, the
/// first pieces first and the first blocks of a piece first.
pub proof fn law_fill_adds_the_first_missing(queue: Seq<(u32, u32, u32)>, counter: CounterView)
    requires
        counter.blocks.len() <= u32::MAX,
        can_fill(queue, counter.blocks),
    ensures
        queue.len() >= 10 ==> filled(queue, counter.blocks) == queue,
        queue.is_prefix_of(filled(queue, counter.blocks)),
        queue.len() < 10 ==> forall|k: int|
            queue.len() <= k < filled(queue, counter.blocks).len() ==> {
                let item = #[trigger] filled(queue, counter.blocks)[k];
                &&& exists|m: int|
                    0 <= m < 10 && m < missing(counter.blocks).len() && (
                    #[trigger] missing(counter.blocks)[m]).0 == item.0 && 16384 * missing(
                        counter.blocks,
                    )[m].1 == item.1
                &&& item.2 == 16384
            },
        queue.len() < 10 ==> forall|m: int|
            0 <= m < 10 && m < missing(counter.blocks).len() ==> exists|k: int|
                {
                    &&& 0 <= k < filled(queue, counter.blocks).len()
                    &&& (#[trigger] filled(queue, counter.blocks)[k]).0 == (
                    #[trigger] missing(counter.blocks)[m]).0
                    &&& filled(queue, counter.blocks)[k].1 == 16384 * missing(counter.blocks)[m].1
                    &&& filled(queue, counter.blocks)[k].2 == 16384
                },
        forall|k: int, l: int|
            queue.len() <= k < l < filled(queue, counter.blocks).len() ==> {
                let a = #[trigger] filled(queue, counter.blocks)[k];
                let b = #[trigger] filled(queue, counter.blocks)[l];
                a.0 < b.0 || (a.0 == b.0 && a.1 < b.1)
            },
{
    let all = filled(queue, counter.blocks);
    let lacking = missing(counter.blocks);
    if queue.len() < BATCH {
        let want = wanted(counter.blocks);
        let items = requests_for(want);
        let before = |a: (u32, u32, u32), b: (u32, u32, u32)| a.0 < b.0 || (a.0 == b.0 && a.1 < b.1);
        law_missing(counter.blocks);
        law_wanted(counter.blocks);
        assert forall|m: int| 0 <= m < want.len() implies {
            let item = #[trigger] items[m];
            &&& item.0 == lacking[m].0
            &&& item.1 == 16384 * lacking[m].1
            &&& item.2 == 16384
        } by {
            assert(items[m] == request_for(want[m]));
            assert(want[m] == lacking[m]);
            assert(want[m].1 * BLOCK_LENGTH <= u32::MAX);
            law_request_for(want[m]);
        }
        assert forall|k: int, l: int| 0 <= k < l < items.len() implies before(
            #[trigger] items[k],
            #[trigger] items[l],
        ) by {
            assert(precedes(lacking[k], lacking[l]));
        }
        crate::queue::law_insert_all(queue, items);
        crate::queue::law_insert_all_keeps_order(queue, items, before);
        assert(queue =~= all.take(queue.len() as int));
        assert forall|k: int| queue.len() <= k < all.len() implies {
            let item = #[trigger] all[k];
            &&& exists|m: int|
                0 <= m < 10 && m < lacking.len() && (#[trigger] lacking[m]).0 == item.0 && 16384
                    * lacking[m].1 == item.1
            &&& item.2 == 16384
        } by {
            assert(items.contains(all[k]));
            let m = choose|m: int| 0 <= m < items.len() && items[m] == all[k];
            assert(lacking[m].0 == all[k].0);
        }
        assert forall|m: int| 0 <= m < 10 && m < lacking.len() implies exists|k: int|
            {
                &&& 0 <= k < all.len()
                &&& (#[trigger] all[k]).0 == (#[trigger] lacking[m]).0
                &&& all[k].1 == 16384 * lacking[m].1
                &&& all[k].2 == 16384
            } by {
            assert(items.contains(items[m]));
            assert(all.contains(items[m]));
            let k = choose|k: int| 0 <= k < all.len() && all[k] == items[m];
            assert(all[k].0 == lacking[m].0);
        }
        assert forall|k: int, l: int| queue.len() <= k < l < all.len() implies {
            let a = #[trigger] all[k];
            let b = #[trigger] all[l];
            a.0 < b.0 || (a.0 == b.0 && a.1 < b.1)
        } by {
            assert(before(all[k], all[l]));
        }
    } else {
        assert(queue.is_prefix_of(queue));
    }
}

} // verus!
