//! The order book: two sides of price levels, changed by one snapshot and
//! then by deltas, applied strictly in order.

use std::collections::BTreeMap;
use vstd::prelude::*;
use vstd::std_specs::btree::*;
use vstd::std_specs::cmp::OrdSpec;
use vstd::std_specs::iter::IteratorSpec;

use crate::decimal::Decimal;
use crate::models::OrderType;

verus! {

/// A price and the quantity resting at it.
#[derive(Copy, Clone, PartialEq, Eq, Debug, Structural)]
pub struct PriceLevel {
    pub price: Decimal,
    pub quantity: Decimal,
}

/// An instruction to set the quantity at one price of one side. A quantity
/// of zero removes the level.
#[derive(Copy, Clone, PartialEq, Eq, Debug, Structural)]
pub struct OrderDelta {
    pub price: Decimal,
    pub quantity: Decimal,
    pub side: OrderType,
}

/// Why the book refused an update.
#[derive(Copy, Clone, PartialEq, Eq, Debug, Structural)]
pub enum BookError {
    /// A delta arrived before any snapshot.
    NotInitialized,
}

/// One side of the book as a mathematical map from price to quantity, both
/// in units.
pub type Side = Map<u64, u64>;

/// The book as a mathematical value.
pub struct BookState {
    /// Whether a snapshot has been applied.
    pub live: bool,
    pub bids: Side,
    pub offers: Side,
}

/// No level of `side` holds a zero quantity.
pub open spec fn positive_levels(side: Side) -> bool {
    forall|p: u64| side.contains_key(p) ==> side[p] > 0
}

/// The side after one upsert or removal.
pub open spec fn side_after(side: Side, price: u64, quantity: u64) -> Side {
    if quantity == 0 {
        side.remove(price)
    } else {
        side.insert(price, quantity)
    }
}

/// The side after every instruction of `changes`, taken in order. Each entry
/// is a price and a quantity.
pub open spec fn side_after_all(side: Side, changes: Seq<(u64, u64)>) -> Side
    decreases changes.len(),
{
    if changes.len() == 0 {
        side
    } else {
        side_after(side_after_all(side, changes.drop_last()), changes.last().0, changes.last().1)
    }
}

impl BookState {
    /// The book before any snapshot.
    pub open spec fn uninitialized() -> BookState {
        BookState { live: false, bids: Map::empty(), offers: Map::empty() }
    }

    /// The live book with nothing resting on either side.
    pub open spec fn cleared() -> BookState {
        BookState { live: true, bids: Map::empty(), offers: Map::empty() }
    }

    /// The levels of one side.
    pub open spec fn side(self, side: OrderType) -> Side {
        match side {
            OrderType::Buy => self.bids,
            OrderType::Sell => self.offers,
        }
    }

    /// What every reachable book satisfies: no stored quantity is zero, and
    /// nothing rests in a book that has seen no snapshot.
    pub open spec fn well_formed(self) -> bool {
        &&& positive_levels(self.bids)
        &&& positive_levels(self.offers)
        &&& !self.live ==> self.bids == Side::empty() && self.offers == Side::empty()
    }

    /// The book after one delta. Only the side the delta names changes.
    pub open spec fn after(self, delta: OrderDelta) -> BookState {
        match delta.side {
            OrderType::Buy => BookState {
                bids: side_after(self.bids, delta.price.units, delta.quantity.units),
                ..self
            },
            OrderType::Sell => BookState {
                offers: side_after(self.offers, delta.price.units, delta.quantity.units),
                ..self
            },
        }
    }

    /// The book after every delta of `deltas`, taken in order.
    pub open spec fn after_all(self, deltas: Seq<OrderDelta>) -> BookState
        decreases deltas.len(),
    {
        if deltas.len() == 0 {
            self
        } else {
            self.after_all(deltas.drop_last()).after(deltas.last())
        }
    }

    /// The book a snapshot leaves: both sides start empty, whatever was
    /// there before, and take the snapshot's orders in list order.
    pub open spec fn from_snapshot(orders: Seq<OrderDelta>) -> BookState {
        BookState::cleared().after_all(orders)
    }
}

/// `levels` is the listing of `side`: every level of the side once, by
/// ascending price.
pub open spec fn lists_side(levels: Seq<PriceLevel>, side: Side) -> bool {
    &&& forall|i: int, j: int|
        0 <= i < j < levels.len() ==> levels[i].price.units < levels[j].price.units
    &&& forall|i: int|
        0 <= i < levels.len() ==> side.contains_pair(
            #[trigger] levels[i].price.units,
            levels[i].quantity.units,
        )
    &&& forall|p: u64|
        side.contains_key(p) ==> exists|i: int|
            0 <= i < levels.len() && #[trigger] levels[i].price.units == p
}

/// The listing of `side`: its levels by ascending price. Every side that
/// a book can hold has exactly one.
pub open spec fn listing(side: Side) -> Seq<PriceLevel> {
    choose|levels: Seq<PriceLevel>| lists_side(levels, side)
}

/// The two-sided order book.
pub struct OrderBook {
    bids: BTreeMap<u64, u64>,
    offers: BTreeMap<u64, u64>,
    live: bool,
}

impl View for OrderBook {
    type V = BookState;

    closed spec fn view(&self) -> BookState {
        BookState { live: self.live, bids: self.bids@, offers: self.offers@ }
    }
}

proof fn lemma_increasing_keys(keys: Seq<u64>)
    requires
        increasing_seq(keys),
    ensures
        forall|i: int, j: int| 0 <= i < j < keys.len() ==> keys[i] < keys[j],
{
    axiom_increasing_seq_meaning(keys);
    assert forall|i: int, j: int| 0 <= i < j < keys.len() implies keys[i] < keys[j] by {
        assert(keys[i].cmp_spec(&keys[j]) is Less);
    }
}

fn list_levels(side: &BTreeMap<u64, u64>) -> (levels: Vec<PriceLevel>)
    ensures
        lists_side(levels@, side@),
{
    let mut levels: Vec<PriceLevel> = Vec::new();
    for entry in it: side.iter()
        invariant
            levels@.len() == it.index(),
            it.seq() == spec_btree_map_iter(side).remaining(),
            increasing_seq(it.seq().map_values(|kv: (&u64, &u64)| *kv.0)),
            forall|i: int|
                0 <= i < levels@.len() ==> levels@[i].price.units == *it.seq()[i].0
                    && levels@[i].quantity.units == *it.seq()[i].1,
    {
        let (price, quantity) = entry;
        levels.push(PriceLevel { price: Decimal { units: *price }, quantity: Decimal { units: *quantity } });
    }
    proof {
        let entries = spec_btree_map_iter(side).remaining();
        let keys = entries.map_values(|kv: (&u64, &u64)| *kv.0);
        lemma_increasing_keys(keys);
        assert forall|i: int| 0 <= i < levels@.len() implies side@.contains_pair(
            #[trigger] levels@[i].price.units,
            levels@[i].quantity.units,
        ) by {
            assert(side@.contains_key(*entries[i].0) && side@[*entries[i].0] == *entries[i].1);
        }
        assert forall|i: int, j: int| 0 <= i < j < levels@.len() implies levels@[i].price.units
            < levels@[j].price.units by {
            assert(keys[i] < keys[j]);
        }
        assert forall|p: u64| side@.contains_key(p) implies exists|i: int|
            0 <= i < levels@.len() && #[trigger] levels@[i].price.units == p by {
            assert(entries.contains((&p, &side@[p])));
            let i = choose|i: int| 0 <= i < entries.len() && entries[i] == (&p, &side@[p]);
            assert(levels@[i].price.units == p);
        }
    }
    levels
}

fn set_level(side: &mut BTreeMap<u64, u64>, price: u64, quantity: u64)
    ensures
        final(side)@ == side_after(old(side)@, price, quantity),
{
    if quantity == 0 {
        side.remove(&price);
    } else {
        side.insert(price, quantity);
    }
}

impl OrderBook {
    #[verifier::type_invariant]
    spec fn inv(self) -> bool {
        self@.well_formed()
    }

    /// A book that has seen no snapshot yet.
    pub fn new() -> (book: OrderBook)
        ensures
            book@ == BookState::uninitialized(),
    {
        OrderBook { bids: BTreeMap::new(), offers: BTreeMap::new(), live: false }
    }

    /// Whether a snapshot has been applied. Every book is well formed, and
    /// a caller learns it here.
    pub fn is_live(&self) -> (live: bool)
        ensures
            live == self@.live,
            self@.well_formed(),
    {
        proof {
            use_type_invariant(self);
        }
        self.live
    }

    /// Applies one delta. A zero quantity removes the level at that price,
    /// if there is one; any other quantity sets it. A book that has seen no
    /// snapshot refuses the delta and stays as it was.
    pub fn apply_delta(&mut self, delta: &OrderDelta) -> (outcome: Result<(), BookError>)
        ensures
            old(self)@.live ==> outcome is Ok && final(self)@ == old(self)@.after(*delta),
            !old(self)@.live ==> outcome == Err::<(), BookError>(BookError::NotInitialized)
                && final(self)@ == old(self)@,
            final(self)@.well_formed(),
    {
        proof {
            use_type_invariant(&*self);
        }
        if !self.live {
            return Err(BookError::NotInitialized);
        }
        match delta.side {
            OrderType::Buy => {
                let mut bids = BTreeMap::new();
                std::mem::swap(&mut bids, &mut self.bids);
                set_level(&mut bids, delta.price.units, delta.quantity.units);
                self.bids = bids;
            },
            OrderType::Sell => {
                let mut offers = BTreeMap::new();
                std::mem::swap(&mut offers, &mut self.offers);
                set_level(&mut offers, delta.price.units, delta.quantity.units);
                self.offers = offers;
            },
        }
        Ok(())
    }

    /// Applies every delta of a batch, in list order. A book that has seen
    /// no snapshot refuses the whole batch and stays as it was.
    pub fn apply_batch(&mut self, deltas: &Vec<OrderDelta>) -> (outcome: Result<(), BookError>)
        ensures
            old(self)@.live ==> outcome is Ok && final(self)@ == old(self)@.after_all(deltas@),
            !old(self)@.live ==> outcome == Err::<(), BookError>(BookError::NotInitialized)
                && final(self)@ == old(self)@,
            final(self)@.well_formed(),
    {
        proof {
            use_type_invariant(&*self);
        }
        if !self.live {
            return Err(BookError::NotInitialized);
        }
        let n: usize = deltas.len();
        let mut i: usize = 0;
        while i < n
            invariant
                n == deltas@.len(),
                i <= n,
                self@.live,
                self@.well_formed(),
                self@ == old(self)@.after_all(deltas@.take(i as int)),
            decreases n - i,
        {
            let _ = self.apply_delta(&deltas[i]);
            proof {
                assert(deltas@.take(i + 1).drop_last() =~= deltas@.take(i as int));
            }
            i += 1;
        }
        proof {
            assert(deltas@.take(n as int) =~= deltas@);
        }
        Ok(())
    }

    /// Replaces both sides by what the snapshot holds, taking its orders in
    /// list order, so that a later entry for a price overrides an earlier
    /// one. The book is live afterwards.
    pub fn apply_snapshot(&mut self, orders: &Vec<OrderDelta>)
        ensures
            final(self)@ == BookState::from_snapshot(orders@),
            final(self)@.well_formed(),
    {
        proof {
            use_type_invariant(&*self);
        }
        self.bids = BTreeMap::new();
        self.offers = BTreeMap::new();
        self.live = true;
        assert(self@ == BookState::cleared());
        let _ = self.apply_batch(orders);
    }

    /// The quantity resting at `price` on one side, if any.
    pub fn quantity_at(&self, side: OrderType, price: Decimal) -> (quantity: Option<Decimal>)
        ensures
            quantity == (if self@.side(side).contains_key(price.units) {
                Some(Decimal { units: self@.side(side)[price.units] })
            } else {
                None
            }),
    {
        let found = match side {
            OrderType::Buy => self.bids.get(&price.units),
            OrderType::Sell => self.offers.get(&price.units),
        };
        match found {
            Some(units) => Some(Decimal { units: *units }),
            None => None,
        }
    }

    /// The number of levels on one side.
    pub fn depth(&self, side: OrderType) -> (levels: usize)
        ensures
            levels == self@.side(side).len(),
    {
        match side {
            OrderType::Buy => self.bids.len(),
            OrderType::Sell => self.offers.len(),
        }
    }

    /// The levels of one side by ascending price.
    pub fn query(&self, side: OrderType) -> (levels: Vec<PriceLevel>)
        ensures
            lists_side(levels@, self@.side(side)),
            levels@ == listing(self@.side(side)),
            forall|i: int| 0 <= i < levels@.len() ==> (#[trigger] levels@[i]).quantity.units > 0,
    {
        proof {
            use_type_invariant(self);
        }
        let levels = match side {
            OrderType::Buy => list_levels(&self.bids),
            OrderType::Sell => list_levels(&self.offers),
        };
        proof {
            assert forall|i: int| 0 <= i < levels@.len() implies (#[trigger] levels@[i]).quantity.units
                > 0 by {
                assert(self@.side(side).contains_pair(
                    levels@[i].price.units,
                    levels@[i].quantity.units,
                ));
            }
            lemma_listing_unique(levels@, listing(self@.side(side)), self@.side(side));
        }
        levels
    }
}

/// Every reachable book is well formed: one delta keeps stored quantities
/// positive.
pub proof fn lemma_delta_keeps_well_formed(book: BookState, delta: OrderDelta)
    requires
        book.well_formed(),
        book.live,
    ensures
        book.after(delta).well_formed(),
        book.after(delta).live,
{
}

/// A run of deltas keeps a live book well formed.
pub proof fn lemma_deltas_keep_well_formed(book: BookState, deltas: Seq<OrderDelta>)
    requires
        book.well_formed(),
        book.live,
    ensures
        book.after_all(deltas).well_formed(),
        book.after_all(deltas).live,
    decreases deltas.len(),
{
    if deltas.len() > 0 {
        lemma_deltas_keep_well_formed(book, deltas.drop_last());
        lemma_delta_keeps_well_formed(book.after_all(deltas.drop_last()), deltas.last());
    }
}

/// A side has exactly one listing.
pub proof fn lemma_listing_unique(first: Seq<PriceLevel>, second: Seq<PriceLevel>, side: Side)
    requires
        lists_side(first, side),
        lists_side(second, side),
    ensures
        first == second,
    decreases first.len(),
{
    if first.len() == 0 {
        if second.len() > 0 {
            assert(side.contains_key(second[0].price.units));
        }
        assert(first =~= second);
    } else {
        let top = first.last().price.units;
        assert(side.contains_key(top));
        let at = choose|i: int| 0 <= i < second.len() && #[trigger] second[i].price.units == top;
        assert(side.contains_key(second.last().price.units));
        let back = choose|i: int|
            0 <= i < first.len() && #[trigger] first[i].price.units == second.last().price.units;
        assert(second.last().price.units == top);
        assert(first.last() == second.last());
        let rest = side.remove(top);
        assert(lists_side(first.drop_last(), rest)) by {
            assert forall|p: u64| rest.contains_key(p) implies exists|i: int|
                0 <= i < first.drop_last().len() && #[trigger] first.drop_last()[i].price.units
                    == p by {
                let i = choose|i: int| 0 <= i < first.len() && #[trigger] first[i].price.units == p;
                assert(first.drop_last()[i].price.units == p);
            }
        }
        assert(lists_side(second.drop_last(), rest)) by {
            assert forall|p: u64| rest.contains_key(p) implies exists|i: int|
                0 <= i < second.drop_last().len() && #[trigger] second.drop_last()[i].price.units
                    == p by {
                let i = choose|i: int|
                    0 <= i < second.len() && #[trigger] second[i].price.units == p;
                assert(second.drop_last()[i].price.units == p);
            }
        }
        lemma_listing_unique(first.drop_last(), second.drop_last(), rest);
        assert(first =~= first.drop_last().push(first.last()));
        assert(second =~= second.drop_last().push(second.last()));
    }
}

/// After a delta with a positive quantity, the listing of its side holds
/// the level that the delta names.
pub proof fn lemma_upsert_then_query(book: BookState, delta: OrderDelta, levels: Seq<PriceLevel>)
    requires
        delta.quantity.units > 0,
        lists_side(levels, book.after(delta).side(delta.side)),
    ensures
        book.after(delta).side(delta.side).contains_pair(delta.price.units, delta.quantity.units),
        levels.contains(PriceLevel { price: delta.price, quantity: delta.quantity }),
{
    let side = book.after(delta).side(delta.side);
    assert(side.contains_key(delta.price.units));
    let i = choose|i: int| 0 <= i < levels.len() && #[trigger] levels[i].price.units == delta.price.units;
    assert(side.contains_pair(levels[i].price.units, levels[i].quantity.units));
    assert(levels[i] == PriceLevel { price: delta.price, quantity: delta.quantity });
}

/// Removing a price that is not there changes nothing.
pub proof fn lemma_removal_of_absent_price(book: BookState, delta: OrderDelta)
    requires
        delta.quantity.units == 0,
        !book.side(delta.side).contains_key(delta.price.units),
    ensures
        book.after(delta) == book,
{
    assert(book.side(delta.side).remove(delta.price.units) =~= book.side(delta.side));
}

/// On one price the order of two deltas matters: set then remove leaves the
/// price absent, remove then set leaves the level present. This holds from
/// any book, an empty side included.
pub proof fn lemma_same_price_order_matters(
    book: BookState,
    price: Decimal,
    quantity: Decimal,
    side: OrderType,
)
    requires
        quantity.units > 0,
    ensures
        ({
            let set = OrderDelta { price, quantity, side };
            let remove = OrderDelta { price, quantity: Decimal { units: 0 }, side };
            &&& !book.after_all(seq![set, remove]).side(side).contains_key(price.units)
            &&& book.after_all(seq![remove, set]).side(side).contains_pair(
                price.units,
                quantity.units,
            )
        }),
{
    let set = OrderDelta { price, quantity, side };
    let remove = OrderDelta { price, quantity: Decimal { units: 0 }, side };
    lemma_after_two(book, set, remove);
    lemma_after_two(book, remove, set);
}

/// Two deltas, one after the other.
pub proof fn lemma_after_two(book: BookState, first: OrderDelta, second: OrderDelta)
    ensures
        book.after_all(seq![first, second]) == book.after(first).after(second),
{
    let both = seq![first, second];
    assert(both.drop_last() =~= seq![first]);
    assert(seq![first].drop_last() =~= Seq::<OrderDelta>::empty());
    assert(book.after_all(Seq::<OrderDelta>::empty()) == book);
    assert(book.after_all(seq![first]) == book.after(first));
}

/// Batches taken one after the other leave what the same deltas leave as
/// one list: only the order of the deltas counts, not how they are cut into
/// batches.
pub proof fn lemma_batches_in_order(book: BookState, first: Seq<OrderDelta>, second: Seq<OrderDelta>)
    ensures
        book.after_all(first + second) == book.after_all(first).after_all(second),
    decreases second.len(),
{
    if second.len() == 0 {
        assert(first + second =~= first);
    } else {
        lemma_batches_in_order(book, first, second.drop_last());
        assert((first + second).drop_last() =~= first + second.drop_last());
    }
}

/// Two deltas that name different levels can be applied in either order.
pub proof fn lemma_distinct_prices_commute(book: BookState, first: OrderDelta, second: OrderDelta)
    requires
        first.price.units != second.price.units || first.side != second.side,
    ensures
        book.after_all(seq![first, second]) == book.after_all(seq![second, first]),
{
    lemma_after_two(book, first, second);
    lemma_after_two(book, second, first);
    let one = book.after(first).after(second);
    let other = book.after(second).after(first);
    assert(one.bids =~= other.bids);
    assert(one.offers =~= other.offers);
}

/// What a run of deltas leaves at one level is decided by the last delta
/// that names the level.
pub proof fn lemma_last_delta_decides(book: BookState, deltas: Seq<OrderDelta>, last: int)
    requires
        0 <= last < deltas.len(),
        forall|j: int|
            last < j < deltas.len() ==> (#[trigger] deltas[j]).side != deltas[last].side
                || deltas[j].price.units != deltas[last].price.units,
    ensures
        ({
            let level = deltas[last];
            let side = book.after_all(deltas).side(level.side);
            if level.quantity.units == 0 {
                !side.contains_key(level.price.units)
            } else {
                side.contains_pair(level.price.units, level.quantity.units)
            }
        }),
    decreases deltas.len(),
{
    if last < deltas.len() - 1 {
        let earlier = deltas.drop_last();
        assert(forall|j: int| 0 <= j < earlier.len() ==> earlier[j] == deltas[j]);
        lemma_last_delta_decides(book, earlier, last);
        assert(deltas.last().side != deltas[last].side || deltas.last().price.units
            != deltas[last].price.units);
    }
}

/// Of two snapshot entries for one price, only the later one counts: the
/// snapshot leaves at each level what its last entry for that level says.
pub proof fn lemma_snapshot_last_entry_wins(orders: Seq<OrderDelta>, last: int)
    requires
        0 <= last < orders.len(),
        forall|j: int|
            last < j < orders.len() ==> (#[trigger] orders[j]).side != orders[last].side
                || orders[j].price.units != orders[last].price.units,
    ensures
        ({
            let level = orders[last];
            let side = BookState::from_snapshot(orders).side(level.side);
            if level.quantity.units == 0 {
                !side.contains_key(level.price.units)
            } else {
                side.contains_pair(level.price.units, level.quantity.units)
            }
        }),
{
    lemma_last_delta_decides(BookState::cleared(), orders, last);
}

} // verus!
