//! Putting clock readings in order: earliest first, and where two readings
//! are the same, the one that was listed first stays first.

use vstd::prelude::*;
use crate::zone::Clock;

verus! {

/// A clock reading as numbers: the day, the second of the day, the nanosecond.
pub type Reading = (int, int, int);

/// Whether reading `a` is earlier than reading `b`: on an earlier day, or on
/// the same day at an earlier time.
pub open spec fn earlier(a: Reading, b: Reading) -> bool {
    a.0 < b.0 || (a.0 == b.0 && (a.1 < b.1 || (a.1 == b.1 && a.2 < b.2)))
}

/// Whether the reading at `a` goes before the reading at `b`: it is earlier,
/// or it is the same and listed before it.
pub open spec fn goes_before(readings: Seq<Reading>, a: int, b: int) -> bool {
    earlier(readings[a], readings[b]) || (readings[a] == readings[b] && a < b)
}

/// Whether `order` lists the positions of `readings`, each once, so that the
/// readings rise along it and equal readings keep the order they were given
/// in.
pub open spec fn is_stable_order(readings: Seq<Reading>, order: Seq<int>) -> bool {
    &&& order.len() == readings.len()
    &&& forall|i: int| 0 <= i < order.len() ==> 0 <= #[trigger] order[i] < readings.len()
    &&& forall|k: int| 0 <= k < readings.len() ==> #[trigger] order.contains(k)
    &&& forall|i: int, j: int|
        0 <= i < j < order.len() ==> goes_before(readings, #[trigger] order[i], #[trigger] order[j])
}

/// The one order that `is_stable_order` admits for `readings`.
pub open spec fn stable_order(readings: Seq<Reading>) -> Seq<int> {
    choose|order: Seq<int>| is_stable_order(readings, order)
}

/// The positions that a vector of indices holds.
pub open spec fn positions(order: Seq<usize>) -> Seq<int> {
    Seq::new(order.len(), |i: int| order[i] as int)
}

impl Clock {
    /// Whether this reading is earlier than `other`.
    pub fn is_earlier(&self, other: &Clock) -> (yes: bool)
        ensures
            yes == earlier(self@, other@),
    {
        self.day < other.day || (self.day == other.day && (self.second < other.second || (
        self.second == other.second && self.nano < other.nano)))
    }
}

proof fn lemma_orders_agree_below(readings: Seq<Reading>, a: Seq<int>, b: Seq<int>, n: int)
    requires
        is_stable_order(readings, a),
        is_stable_order(readings, b),
        0 <= n <= readings.len(),
    ensures
        forall|i: int| 0 <= i < n ==> a[i] == b[i],
    decreases n,
{
    if n > 0 {
        lemma_orders_agree_below(readings, a, b, n - 1);
        // Each order lists what the other has at `n - 1`: not below, where the
        // two agree and neither lists a position twice; and not above in both,
        // or each of the two positions would go before the other.
        assert(b.contains(a[n - 1]));
        assert(a.contains(b[n - 1]));
    }
}

/// No list of readings has two stable orders.
pub proof fn lemma_stable_order_is_unique(readings: Seq<Reading>, a: Seq<int>, b: Seq<int>)
    requires
        is_stable_order(readings, a),
        is_stable_order(readings, b),
    ensures
        a == b,
{
    lemma_orders_agree_below(readings, a, b, readings.len() as int);
}

/// Where the position `at`, which is past all those that `order` lists, goes
/// into `order`: behind everything that is not later than it.
proof fn lemma_slot(readings: Seq<Reading>, order: Seq<int>, at: int, from: int) -> (slot: int)
    requires
        0 <= at < readings.len(),
        0 <= from <= order.len(),
        forall|i: int| 0 <= i < order.len() ==> 0 <= #[trigger] order[i] < at,
        forall|j: int|
            from <= j < order.len() ==> earlier(readings[at], readings[#[trigger] order[j]]),
    ensures
        0 <= slot <= from,
        forall|j: int|
            slot <= j < order.len() ==> earlier(readings[at], readings[#[trigger] order[j]]),
        slot > 0 ==> !earlier(readings[at], readings[order[slot - 1]]),
    decreases from,
{
    if from > 0 && earlier(readings[at], readings[order[from - 1]]) {
        lemma_slot(readings, order, at, from - 1)
    } else {
        from
    }
}

/// Putting the next position into its slot keeps a stable order stable.
proof fn lemma_insert_keeps_order(readings: Seq<Reading>, order: Seq<int>, at: int, slot: int)
    requires
        0 <= at < readings.len(),
        is_stable_order(readings.take(at), order),
        0 <= slot <= order.len(),
        forall|j: int|
            slot <= j < order.len() ==> earlier(readings[at], readings[#[trigger] order[j]]),
        slot > 0 ==> !earlier(readings[at], readings[order[slot - 1]]),
    ensures
        is_stable_order(readings.take(at + 1), order.insert(slot, at)),
{
    let grown = order.insert(slot, at);
    assert forall|k: int| 0 <= k <= at implies #[trigger] grown.contains(k) by {
        if k == at {
            assert(grown[slot] == k);
        } else {
            assert(order.contains(k));
            let i = choose|i: int| 0 <= i < order.len() && order[i] == k;
            if i < slot {
                assert(grown[i] == k);
            } else {
                assert(grown[i + 1] == k);
            }
        }
    }
    // Apart from the newcomer, two positions of the new order are a pair of
    // `order`; and the newcomer is earlier than all behind its slot, and not
    // earlier than the one before it, nor than any before that one.
}

/// Every list of readings has a stable order.
pub proof fn lemma_stable_order_exists(readings: Seq<Reading>)
    ensures
        is_stable_order(readings, stable_order(readings)),
    decreases readings.len(),
{
    if readings.len() == 0 {
        assert(is_stable_order(readings, Seq::<int>::empty()));
    } else {
        let at = readings.len() - 1;
        let before = readings.take(at);
        lemma_stable_order_exists(before);
        let order = stable_order(before);
        let slot = lemma_slot(readings, order, at, order.len() as int);
        lemma_insert_keeps_order(readings, order, at, slot);
        assert(is_stable_order(readings, order.insert(slot, at)));
    }
}

/// Along the stable order the readings never fall, and equal readings stand in
/// the order they were given in; so a reading that is earlier than another
/// stands before it.
pub proof fn lemma_stable_order_rises(readings: Seq<Reading>, i: int, j: int)
    requires
        0 <= i < readings.len(),
        0 <= j < readings.len(),
    ensures
        ({
            let order = stable_order(readings);
            &&& i < j ==> !earlier(readings[order[j]], readings[order[i]])
            &&& i < j && readings[order[i]] == readings[order[j]] ==> order[i] < order[j]
            &&& earlier(readings[order[i]], readings[order[j]]) ==> i < j
        }),
{
    lemma_stable_order_exists(readings);
}

/// Puts clock readings in order: the result lists the positions of `clocks`
/// from the earliest reading to the latest, positions with the same reading
/// in rising order.
pub fn order_by_clock(clocks: &Vec<Clock>) -> (order: Vec<usize>)
    ensures
        is_stable_order(clocks.deep_view(), positions(order@)),
        positions(order@) == stable_order(clocks.deep_view()),
{
    let ghost readings = clocks.deep_view();
    let mut order: Vec<usize> = Vec::new();
    let mut at: usize = 0;
    while at < clocks.len()
        invariant
            at <= clocks.len(),
            readings == clocks.deep_view(),
            is_stable_order(readings.take(at as int), positions(order@)),
        decreases clocks.len() - at,
    {
        let mut slot: usize = order.len();
        assert forall|i: int| 0 <= i < order.len() implies #[trigger] order[i] < at by {
            assert(positions(order@)[i] == order[i]);
        }
        while slot > 0 && clocks[at].is_earlier(&clocks[order[slot - 1]])
            invariant
                at < clocks.len(),
                slot <= order.len(),
                forall|i: int| 0 <= i < order.len() ==> #[trigger] order[i] < at,
                readings == clocks.deep_view(),
                is_stable_order(readings.take(at as int), positions(order@)),
                forall|j: int|
                    slot <= j < order.len() ==> earlier(
                        readings[at as int],
                        readings[#[trigger] positions(order@)[j]],
                    ),
            decreases slot,
        {
            slot = slot - 1;
        }
        proof {
            lemma_insert_keeps_order(readings, positions(order@), at as int, slot as int);
            assert(positions(order@.insert(slot as int, at)) =~= positions(order@).insert(
                slot as int,
                at as int,
            ));
        }
        order.insert(slot, at);
        at = at + 1;
    }
    proof {
        lemma_stable_order_exists(readings);
        lemma_stable_order_is_unique(readings, positions(order@), stable_order(readings));
    }
    order
}

} // verus!
