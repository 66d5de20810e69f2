//! The bag randomizer: a queue of upcoming pieces that is refilled with one
//! shuffled copy of the catalog whenever it runs low.

use super::components::FigureType;
use rand::seq::SliceRandom;
use std::collections::VecDeque;
use vstd::prelude::*;

verus! {

/// The queue is refilled before a draw when it holds this many pieces or
/// fewer.
pub const REFILL_THRESHOLD: usize = 3;

/// The number of times that `t` occurs in `s`.
pub open spec fn occurrences(s: Seq<FigureType>, t: FigureType) -> nat
    decreases s.len(),
{
    if s.len() == 0 {
        0
    } else if s.last() == t {
        occurrences(s.drop_last(), t) + 1
    } else {
        occurrences(s.drop_last(), t)
    }
}

/// Whether `order` is a permutation of the catalog: seven pieces, each type
/// once.
pub open spec fn is_shuffle(order: Seq<FigureType>) -> bool {
    &&& order.len() == 7
    &&& forall|t: FigureType| occurrences(order, t) == 1
}

/// The queue as it stands when a piece is taken from it: with `order`
/// appended where it held `REFILL_THRESHOLD` pieces or fewer.
pub open spec fn refilled(queue: Seq<FigureType>, order: Seq<FigureType>) -> Seq<FigureType> {
    if queue.len() <= REFILL_THRESHOLD {
        queue + order
    } else {
        queue
    }
}

/// The piece that a draw returns.
pub open spec fn drawn(queue: Seq<FigureType>, order: Seq<FigureType>) -> FigureType {
    refilled(queue, order)[0]
}

/// The queue that a draw leaves.
pub open spec fn after_draw(queue: Seq<FigureType>, order: Seq<FigureType>) -> Seq<FigureType> {
    refilled(queue, order).drop_first()
}

/// The pieces that come out when one draw is made for each entry of
/// `orders`, in turn, each entry being the permutation on offer at that
/// draw.
pub open spec fn draws(queue: Seq<FigureType>, orders: Seq<Seq<FigureType>>) -> Seq<FigureType>
    decreases orders.len(),
{
    if orders.len() == 0 {
        Seq::empty()
    } else {
        seq![drawn(queue, orders[0])] + draws(after_draw(queue, orders[0]), orders.drop_first())
    }
}

/// The queue that those draws leave.
pub open spec fn queue_after(queue: Seq<FigureType>, orders: Seq<Seq<FigureType>>) -> Seq<
    FigureType,
>
    decreases orders.len(),
{
    if orders.len() == 0 {
        queue
    } else {
        queue_after(after_draw(queue, orders[0]), orders.drop_first())
    }
}

/// Whether the queue stands at a bag boundary: the pieces drawn so far are
/// whole bags, so the queue is empty or holds exactly one untouched bag.
pub open spec fn at_boundary(queue: Seq<FigureType>) -> bool {
    queue.len() == 0 || is_shuffle(queue)
}

/// Occurrences add up over concatenation.
pub proof fn lemma_occurrences_add(a: Seq<FigureType>, b: Seq<FigureType>, t: FigureType)
    ensures
        occurrences(a + b, t) == occurrences(a, t) + occurrences(b, t),
    decreases b.len(),
{
    if b.len() == 0 {
        assert(a + b =~= a);
    } else {
        assert((a + b).drop_last() =~= a + b.drop_last());
        assert((a + b).last() == b.last());
        lemma_occurrences_add(a, b.drop_last(), t);
    }
}

/// The catalog in its own order is a permutation of itself.
pub proof fn lemma_catalog_is_shuffle()
    ensures
        is_shuffle(FigureType::spec_all()),
{
    reveal_with_fuel(occurrences, 8);
    let all = FigureType::spec_all();
    assert(all.drop_last() =~= seq![
        FigureType::O,
        FigureType::I,
        FigureType::S,
        FigureType::Z,
        FigureType::L,
        FigureType::J,
    ]);
    assert(all.drop_last().drop_last() =~= seq![
        FigureType::O,
        FigureType::I,
        FigureType::S,
        FigureType::Z,
        FigureType::L,
    ]);
    assert(all.drop_last().drop_last().drop_last() =~= seq![
        FigureType::O,
        FigureType::I,
        FigureType::S,
        FigureType::Z,
    ]);
    assert(all.drop_last().drop_last().drop_last().drop_last() =~= seq![
        FigureType::O,
        FigureType::I,
        FigureType::S,
    ]);
    assert(all.drop_last().drop_last().drop_last().drop_last().drop_last() =~= seq![
        FigureType::O,
        FigureType::I,
    ]);
    assert(all.drop_last().drop_last().drop_last().drop_last().drop_last().drop_last() =~= seq![
        FigureType::O,
    ]);
    assert forall|t: FigureType| occurrences(all, t) == 1 by {
        match t {
            FigureType::O => {},
            FigureType::I => {},
            FigureType::S => {},
            FigureType::Z => {},
            FigureType::L => {},
            FigureType::J => {},
            FigureType::T => {},
        }
    }
}

/// Draws split where their permutations split.
pub proof fn lemma_draws_add(
    queue: Seq<FigureType>,
    a: Seq<Seq<FigureType>>,
    b: Seq<Seq<FigureType>>,
)
    ensures
        draws(queue, a + b) == draws(queue, a) + draws(queue_after(queue, a), b),
        queue_after(queue, a + b) == queue_after(queue_after(queue, a), b),
    decreases a.len(),
{
    if a.len() == 0 {
        assert(a + b =~= b);
        assert(draws(queue, a) + draws(queue, b) =~= draws(queue, b));
    } else {
        assert((a + b).drop_first() =~= a.drop_first() + b);
        assert((a + b)[0] == a[0]);
        let next = after_draw(queue, a[0]);
        lemma_draws_add(next, a.drop_first(), b);
        assert(draws(queue, a + b) =~= draws(queue, a) + draws(queue_after(queue, a), b));
    }
}

/// Seven draws from a bag boundary give one whole bag, each type once, and
/// end at a bag boundary.
pub proof fn lemma_one_bag(queue: Seq<FigureType>, orders: Seq<Seq<FigureType>>)
    requires
        at_boundary(queue),
        orders.len() == 7,
        forall|i: int| 0 <= i < 7 ==> is_shuffle(#[trigger] orders[i]),
    ensures
        is_shuffle(draws(queue, orders)),
        at_boundary(queue_after(queue, orders)),
{
    let bag = if queue.len() == 0 {
        orders[0]
    } else {
        queue
    };
    let o1 = orders.drop_first();
    let o2 = o1.drop_first();
    let o3 = o2.drop_first();
    let o4 = o3.drop_first();
    let o5 = o4.drop_first();
    let o6 = o5.drop_first();
    let o7 = o6.drop_first();
    let q1 = after_draw(queue, orders[0]);
    assert(q1 =~= bag.subrange(1, 7));
    let q2 = after_draw(q1, o1[0]);
    assert(q2 =~= bag.subrange(2, 7));
    let q3 = after_draw(q2, o2[0]);
    assert(q3 =~= bag.subrange(3, 7));
    let q4 = after_draw(q3, o3[0]);
    assert(q4 =~= bag.subrange(4, 7));
    let next = o4[0];
    assert(next == orders[4]);
    let q5 = after_draw(q4, next);
    assert(q5 =~= bag.subrange(5, 7) + next);
    let q6 = after_draw(q5, o5[0]);
    assert(q6 =~= bag.subrange(6, 7) + next);
    let q7 = after_draw(q6, o6[0]);
    assert(q7 =~= next);
    assert(o7.len() == 0);
    assert(draws(q7, o7) =~= Seq::<FigureType>::empty());
    assert(draws(q6, o6) =~= seq![bag[6]]);
    assert(draws(q5, o5) =~= seq![bag[5], bag[6]]);
    assert(draws(q4, o4) =~= seq![bag[4], bag[5], bag[6]]);
    assert(draws(q3, o3) =~= seq![bag[3], bag[4], bag[5], bag[6]]);
    assert(draws(q2, o2) =~= seq![bag[2], bag[3], bag[4], bag[5], bag[6]]);
    assert(draws(q1, o1) =~= seq![bag[1], bag[2], bag[3], bag[4], bag[5], bag[6]]);
    assert(draws(queue, orders) =~= bag);
    assert(queue_after(q7, o7) == q7);
    assert(queue_after(q6, o6) == q7);
    assert(queue_after(q5, o5) == q7);
    assert(queue_after(q4, o4) == q7);
    assert(queue_after(q3, o3) == q7);
    assert(queue_after(q2, o2) == q7);
    assert(queue_after(q1, o1) == q7);
    assert(queue_after(queue, orders) == q7);
}

/// Bag fairness: in `7 * k` draws that start at a bag boundary, every piece
/// type comes out exactly `k` times, whatever permutations the refills use;
/// and the draws end at a bag boundary again.
pub proof fn lemma_bag_fairness(queue: Seq<FigureType>, orders: Seq<Seq<FigureType>>, k: nat)
    requires
        at_boundary(queue),
        orders.len() == 7 * k,
        forall|i: int| 0 <= i < orders.len() ==> is_shuffle(#[trigger] orders[i]),
    ensures
        forall|t: FigureType| occurrences(draws(queue, orders), t) == k,
        at_boundary(queue_after(queue, orders)),
    decreases k,
{
    if k > 0 {
        let first = orders.subrange(0, 7);
        let rest = orders.subrange(7, orders.len() as int);
        assert(orders =~= first + rest);
        lemma_one_bag(queue, first);
        lemma_draws_add(queue, first, rest);
        let mid = queue_after(queue, first);
        lemma_bag_fairness(mid, rest, (k - 1) as nat);
        assert forall|t: FigureType| occurrences(draws(queue, orders), t) == k by {
            lemma_occurrences_add(draws(queue, first), draws(mid, rest), t);
        }
    } else {
        assert(orders.len() == 0);
    }
}

/// One permutation of the catalog: the order in which a refill appends the
/// seven pieces to the queue.
#[derive(Debug, Clone, Copy)]
pub struct PieceOrder {
    order: [FigureType; 7],
}

impl View for PieceOrder {
    type V = Seq<FigureType>;

    closed spec fn view(&self) -> Seq<FigureType> {
        self.order@
    }
}

/// `rand::seq::SliceRandom::shuffle`, with the generator that
/// `rand::thread_rng` hands out. The call only swaps entries of the slice, so
/// every piece type occurs as often after it as before; which order comes
/// out is left open.
#[verifier::external_body]
fn shuffle_pieces(pieces: &mut [FigureType; 7])
    ensures
        forall|t: FigureType| occurrences(final(pieces)@, t) == occurrences(old(pieces)@, t),
{
    pieces.shuffle(&mut rand::thread_rng());
}

impl PieceOrder {
    /// Whether this is a permutation of the catalog. Every constructor gives
    /// such an order.
    pub open spec fn wf(&self) -> bool {
        is_shuffle(self@)
    }

    fn count_of(order: &[FigureType; 7], t: FigureType) -> (n: usize)
        ensures
            n == occurrences(order@, t),
    {
        let mut n: usize = 0;
        let mut i: usize = 0;
        assert(order@.take(0) =~= Seq::<FigureType>::empty());
        while i < 7
            invariant
                i <= 7,
                order@.len() == 7,
                n <= i,
                n == occurrences(order@.take(i as int), t),
            decreases 7 - i,
        {
            assert(order@.take(i + 1).drop_last() =~= order@.take(i as int));
            assert(order@.take(i + 1).last() == order@[i as int]);
            if order[i] == t {
                n += 1;
            }
            i += 1;
        }
        assert(order@.take(7) =~= order@);
        n
    }

    /// The order `order`, where it names each piece type exactly once;
    /// `None` where it does not.
    pub fn new(order: [FigureType; 7]) -> (r: Option<PieceOrder>)
        ensures
            r is Some <==> is_shuffle(order@),
            r matches Some(o) ==> o@ == order@ && o.wf(),
    {
        let all = FigureType::all();
        let mut i: usize = 0;
        while i < 7
            invariant
                i <= 7,
                all@ == FigureType::spec_all(),
                order@.len() == 7,
                forall|k: int| 0 <= k < i ==> occurrences(order@, #[trigger] all@[k]) == 1,
            decreases 7 - i,
        {
            if Self::count_of(&order, all[i]) != 1 {
                return None;
            }
            i += 1;
        }
        assert forall|t: FigureType| occurrences(order@, t) == 1 by {
            assert(FigureType::spec_all()[t.index()] == t);
        }
        Some(PieceOrder { order })
    }

    /// The catalog in its own order.
    pub fn catalog() -> (r: PieceOrder)
        ensures
            r.wf(),
            r@ == FigureType::spec_all(),
    {
        proof {
            lemma_catalog_is_shuffle();
        }
        PieceOrder { order: FigureType::all() }
    }

    /// A permutation of the catalog picked at random.
    pub fn shuffled() -> (r: PieceOrder)
        ensures
            r.wf(),
    {
        let mut order = FigureType::all();
        proof {
            lemma_catalog_is_shuffle();
        }
        shuffle_pieces(&mut order);
        PieceOrder { order }
    }

    /// The seven pieces in this order.
    pub fn pieces(&self) -> (r: [FigureType; 7])
        ensures
            r@ == self@,
    {
        self.order
    }
}

/// The queue of upcoming pieces.
#[derive(Debug, Clone)]
pub struct TetroBag {
    bag: VecDeque<FigureType>,
}

impl View for TetroBag {
    type V = Seq<FigureType>;

    closed spec fn view(&self) -> Seq<FigureType> {
        self.bag@
    }
}

impl TetroBag {
    /// The empty queue. The first draw refills it.
    pub fn new() -> (r: TetroBag)
        ensures
            r@ == Seq::<FigureType>::empty(),
    {
        TetroBag { bag: VecDeque::new() }
    }

    /// The number of pieces in the queue.
    pub fn len(&self) -> (n: usize)
        ensures
            n == self@.len(),
    {
        self.bag.len()
    }

    /// Whether the next draw refills the queue first.
    pub fn needs_refill(&self) -> (r: bool)
        ensures
            r == (self@.len() <= REFILL_THRESHOLD),
    {
        self.bag.len() <= REFILL_THRESHOLD
    }

    /// Takes the next piece from the queue, with `order` as the permutation
    /// on offer: where the queue holds `REFILL_THRESHOLD` pieces or fewer,
    /// `order` is appended first; then the front piece leaves the queue and
    /// is returned.
    pub fn draw_with(&mut self, order: &PieceOrder) -> (piece: FigureType)
        requires
            order.wf(),
        ensures
            piece == drawn(old(self)@, order@),
            final(self)@ == after_draw(old(self)@, order@),
    {
        let ghost before = self@;
        if self.bag.len() <= REFILL_THRESHOLD {
            let pieces = order.pieces();
            let mut i: usize = 0;
            while i < 7
                invariant
                    i <= 7,
                    pieces@ == order@,
                    order@.len() == 7,
                    self@ == before + order@.take(i as int),
                decreases 7 - i,
            {
                self.bag.push_back(pieces[i]);
                assert(before + order@.take(i + 1) =~= (before + order@.take(i as int)).push(
                    order@[i as int],
                ));
                i += 1;
            }
            assert(order@.take(7) =~= order@);
        }
        assert(self@ == refilled(before, order@));
        match self.bag.pop_front() {
            Some(piece) => piece,
            None => vstd::pervasive::unreached(),
        }
    }

    /// Takes the next piece from the queue, refilling it first, where it has
    /// run low, with a permutation of the catalog picked at random.
    pub fn draw_next(&mut self) -> (piece: FigureType)
        ensures
            exists|order: Seq<FigureType>|
                is_shuffle(order) && piece == drawn(old(self)@, order) && final(self)@
                    == after_draw(old(self)@, order),
            old(self)@.len() > REFILL_THRESHOLD ==> piece == old(self)@[0] && final(self)@ == old(
                self,
            )@.drop_first(),
    {
        let order = if self.needs_refill() {
            PieceOrder::shuffled()
        } else {
            PieceOrder::catalog()
        };
        self.draw_with(&order)
    }

    /// Empties the queue, so that the next draw refills it.
    pub fn reset(&mut self)
        ensures
            final(self)@ == Seq::<FigureType>::empty(),
    {
        self.bag.clear();
    }
}

} // verus!
