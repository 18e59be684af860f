//! The queue of blocks that are to be requested: a set that remembers the
//! order in which its items came.
use linked_hash_set::LinkedHashSet;
use vstd::prelude::*;

verus! {

/// Declares `linked_hash_set::LinkedHashSet`.
#[verifier::external_type_specification]
#[verifier::external_body]
#[verifier::reject_recursive_types(T)]
#[verifier::reject_recursive_types(S)]
pub struct ExLinkedHashSet<T, S>(LinkedHashSet<T, S>);

/// The blocks to request, each as its piece index, its offset in the piece and
/// its length.
pub type RequestQueue = LinkedHashSet<(u32, u32, u32)>;

/// The items of a queue, the oldest first.
pub uninterp spec fn queued(q: LinkedHashSet<(u32, u32, u32)>) -> Seq<(u32, u32, u32)>;

/// `s` with each of `items` that it lacks appended in turn.
pub open spec fn insert_all<A>(s: Seq<A>, items: Seq<A>) -> Seq<A>
    decreases items.len(),
{
    if items.len() == 0 {
        s
    } else {
        let rest = insert_all(s, items.drop_last());
        if rest.contains(items.last()) {
            rest
        } else {
            rest.push(items.last())
        }
    }
}

/// What `insert_all` yields: it keeps `s` as its beginning, holds what `s` or
/// `items` hold and nothing else, and repeats nothing that `s` did not repeat.
pub proof fn law_insert_all<A>(s: Seq<A>, items: Seq<A>)
    ensures
        s.len() <= insert_all(s, items).len() <= s.len() + items.len(),
        insert_all(s, items).take(s.len() as int) == s,
        forall|a: A| #[trigger] insert_all(s, items).contains(a) <==> s.contains(a) || items.contains(a),
        s.no_duplicates() ==> insert_all(s, items).no_duplicates(),
    decreases items.len(),
{
    let all = insert_all(s, items);
    if items.len() == 0 {
        assert(all.take(s.len() as int) =~= s);
        assert forall|a: A| #[trigger] all.contains(a) <==> s.contains(a) || items.contains(a) by {}
    } else {
        law_insert_all(s, items.drop_last());
        let rest = insert_all(s, items.drop_last());
        assert(all.take(s.len() as int) =~= rest.take(s.len() as int));
        assert(items =~= items.drop_last().push(items.last()));
        assert forall|a: A| #[trigger] all.contains(a) <==> s.contains(a) || items.contains(a) by {
            if items.contains(a) {
                let k = choose|k: int| 0 <= k < items.len() && items[k] == a;
                if k < items.len() - 1 {
                    assert(items.drop_last()[k] == a);
                    assert(items.drop_last().contains(a));
                }
            }
            if items.drop_last().contains(a) {
                let k = choose|k: int| 0 <= k < items.len() - 1 && items.drop_last()[k] == a;
                assert(items[k] == a);
            }
            if rest.contains(a) {
                let k = choose|k: int| 0 <= k < rest.len() && rest[k] == a;
                assert(all[k] == a);
            }
            if !rest.contains(items.last()) {
                assert(all.last() == items.last());
                if all.contains(a) && a != items.last() {
                    let k = choose|k: int| 0 <= k < all.len() && all[k] == a;
                    assert(rest[k] == a);
                }
            }
            assert(items[items.len() - 1] == items.last());
        }
    }
}

/// `LinkedHashSet::new`: a queue without items.
#[verifier::external_body]
pub(crate) fn queue_new() -> (q: RequestQueue)
    ensures
        queued(q) == Seq::<(u32, u32, u32)>::empty(),
{
    LinkedHashSet::new()
}

/// `LinkedHashSet::len`: the number of items.
#[verifier::external_body]
pub(crate) fn queue_len(q: &RequestQueue) -> (n: usize)
    ensures
        n == queued(*q).len(),
{
    q.len()
}

/// `LinkedHashSet::insert_if_absent`: appends an item that is not there yet,
/// leaves the queue as it is otherwise, and tells which of the two it did.
#[verifier::external_body]
pub(crate) fn queue_insert_if_absent(q: &mut RequestQueue, item: (u32, u32, u32)) -> (added: bool)
    ensures
        added == !queued(*old(q)).contains(item),
        queued(*final(q)) == (if queued(*old(q)).contains(item) {
            queued(*old(q))
        } else {
            queued(*old(q)).push(item)
        }),
{
    q.insert_if_absent(item)
}

/// `LinkedHashSet::front`: the oldest item, if there is one.
#[verifier::external_body]
pub(crate) fn queue_front(q: &RequestQueue) -> (item: Option<(u32, u32, u32)>)
    ensures
        item == (if queued(*q).len() == 0 {
            None
        } else {
            Some(queued(*q)[0])
        }),
{
    q.front().copied()
}

/// `LinkedHashSet::pop_front`: takes the oldest item out, if there is one.
#[verifier::external_body]
pub(crate) fn queue_pop_front(q: &mut RequestQueue) -> (item: Option<(u32, u32, u32)>)
    ensures
        item == (if queued(*old(q)).len() == 0 {
            None
        } else {
            Some(queued(*old(q))[0])
        }),
        queued(*final(q)) == (if queued(*old(q)).len() == 0 {
            queued(*old(q))
        } else {
            queued(*old(q)).skip(1)
        }),
{
    q.pop_front()
}

/// What `insert_all` appends comes in the order of the items: where those are in
/// an order, so is it.
pub proof fn law_insert_all_keeps_order<A>(s: Seq<A>, items: Seq<A>, before: spec_fn(A, A) -> bool)
    requires
        forall|k: int, l: int|
            0 <= k < l < items.len() ==> before(#[trigger] items[k], #[trigger] items[l]),
    ensures
        forall|k: int|
            s.len() <= k < insert_all(s, items).len() ==> items.contains(
                #[trigger] insert_all(s, items)[k],
            ),
        forall|k: int, l: int|
            s.len() <= k < l < insert_all(s, items).len() ==> before(
                #[trigger] insert_all(s, items)[k],
                #[trigger] insert_all(s, items)[l],
            ),
    decreases items.len(),
{
    if items.len() > 0 {
        let front = items.drop_last();
        let rest = insert_all(s, front);
        let all = insert_all(s, items);
        assert forall|k: int, l: int| 0 <= k < l < front.len() implies before(
            #[trigger] front[k],
            #[trigger] front[l],
        ) by {
            assert(before(items[k], items[l]));
        }
        law_insert_all_keeps_order(s, front, before);
        assert forall|k: int| s.len() <= k < all.len() implies items.contains(#[trigger] all[k]) by {
            if k < rest.len() {
                assert(all[k] == rest[k]);
                let p = choose|p: int| 0 <= p < front.len() && front[p] == rest[k];
                assert(items[p] == all[k]);
            } else {
                assert(items[items.len() - 1] == all[k]);
            }
        }
        assert forall|k: int, l: int| s.len() <= k < l < all.len() implies before(
            #[trigger] all[k],
            #[trigger] all[l],
        ) by {
            assert(all[k] == rest[k]);
            if l < rest.len() {
                assert(all[l] == rest[l]);
            } else {
                assert(all[l] == items.last());
                let p = choose|p: int| 0 <= p < front.len() && front[p] == rest[k];
                assert(before(items[p], items[items.len() - 1]));
            }
        }
    }
}

/// Items that are new and differ from each other are all appended, as they come.
pub proof fn law_insert_all_of_new_items<A>(s: Seq<A>, items: Seq<A>)
    requires
        items.no_duplicates(),
        forall|k: int| 0 <= k < items.len() ==> !s.contains(#[trigger] items[k]),
    ensures
        insert_all(s, items) == s + items,
    decreases items.len(),
{
    if items.len() == 0 {
        assert(s + items =~= s);
    } else {
        let front = items.drop_last();
        assert forall|k: int| 0 <= k < front.len() implies !s.contains(#[trigger] front[k]) by {
            assert(!s.contains(items[k]));
        }
        law_insert_all_of_new_items(s, front);
        let last = items[items.len() - 1];
        assert(!s.contains(last));
        if (s + front).contains(last) {
            let k = choose|k: int| 0 <= k < (s + front).len() && (s + front)[k] == last;
            if k < s.len() {
                assert(s[k] == last);
            } else {
                assert(items[k - s.len()] == last);
            }
        }
        assert((s + front).push(last) =~= s + items);
    }
}

} // verus!
