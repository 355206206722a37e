//! The lot ledger: the purchase lots of one product, in purchase order.

use vstd::prelude::*;

verus! {

/// A batch of units bought at one unit cost.
#[derive(Clone, Copy, Debug, PartialEq, Eq, Structural)]
pub struct PurchaseLot {
    pub quantity: u64,
    pub unit_cost: u64,
}

/// The number of units in all the lots together.
pub open spec fn units(lots: Seq<PurchaseLot>) -> nat
    decreases lots.len(),
{
    if lots.len() == 0 {
        0
    } else {
        units(lots.drop_last()) + lots.last().quantity as nat
    }
}

/// How many integers lie both in `[start, end)` and in `[lo, hi)`.
pub open spec fn overlap(start: int, end: int, lo: int, hi: int) -> nat {
    let from: int = if start > lo { start } else { lo };
    let to: int = if end < hi { end } else { hi };
    if to > from {
        (to - from) as nat
    } else {
        0
    }
}

/// What the units numbered `start`, `start + 1`, .., `end - 1` cost, where the
/// units of the first lot are numbered from 0 and each lot continues where
/// the one before it stopped. Units past the last lot cost nothing.
pub open spec fn range_cost(lots: Seq<PurchaseLot>, start: int, end: int) -> nat
    decreases lots.len(),
{
    if lots.len() == 0 {
        0
    } else {
        let earlier: Seq<PurchaseLot> = lots.drop_last();
        let first_unit: int = units(earlier) as int;
        range_cost(earlier, start, end) + overlap(
            start,
            end,
            first_unit,
            first_unit + lots.last().quantity,
        ) * (lots.last().unit_cost as nat)
    }
}

/// How many of the units numbered `start` .. `end - 1` the lots hold.
pub open spec fn range_matched(lots: Seq<PurchaseLot>, start: int, end: int) -> nat {
    overlap(start, end, 0, units(lots) as int)
}

/// What all the lots cost together.
pub open spec fn lots_value(lots: Seq<PurchaseLot>) -> nat
    decreases lots.len(),
{
    if lots.len() == 0 {
        0
    } else {
        lots_value(lots.drop_last()) + (lots.last().quantity as nat) * (lots.last().unit_cost as nat)
    }
}

/// Whether some lot was bought at `unit_cost`.
pub open spec fn has_cost(lots: Seq<PurchaseLot>, unit_cost: u64) -> bool {
    exists|i: int| 0 <= i < lots.len() && #[trigger] lots[i].unit_cost == unit_cost
}

/// The place of a lot bought at `unit_cost`, where there is one.
pub open spec fn cost_index(lots: Seq<PurchaseLot>, unit_cost: u64) -> int {
    choose|i: int| 0 <= i < lots.len() && #[trigger] lots[i].unit_cost == unit_cost
}

/// The lots after a purchase of `quantity` units at `unit_cost`: the lot
/// with that unit cost grows by `quantity` and keeps its place, or, where
/// there is none, a new lot stands at the end.
pub open spec fn merge_lot(
    lots: Seq<PurchaseLot>,
    quantity: u64,
    unit_cost: u64,
) -> Seq<PurchaseLot> {
    if has_cost(lots, unit_cost) {
        let i: int = cost_index(lots, unit_cost);
        lots.update(
            i,
            PurchaseLot { quantity: (lots[i].quantity + quantity) as u64, unit_cost: unit_cost },
        )
    } else {
        lots.push(PurchaseLot { quantity: quantity, unit_cost: unit_cost })
    }
}

/// What holds of the lots of every ledger: no lot is empty, no two lots
/// share a unit cost, and the units fit in 64 bits.
pub open spec fn ledger_wf(lots: Seq<PurchaseLot>) -> bool {
    &&& forall|i: int| 0 <= i < lots.len() ==> (#[trigger] lots[i]).quantity > 0
    &&& forall|i: int, j: int|
        0 <= i < j < lots.len() ==> (#[trigger] lots[i]).unit_cost != (#[trigger] lots[j]).unit_cost
    &&& units(lots) <= u64::MAX
}

/// An ordered sequence of purchase lots. The order is that of first purchase
/// at each unit cost, which is the order in which sales use the lots up.
#[derive(Debug)]
pub struct LotLedger {
    lots: Vec<PurchaseLot>,
}

impl View for LotLedger {
    type V = Seq<PurchaseLot>;

    closed spec fn view(&self) -> Seq<PurchaseLot> {
        self.lots@
    }
}

/// One more lot adds its quantity to the units of a prefix.
pub proof fn lemma_units_step(lots: Seq<PurchaseLot>, i: int)
    requires
        0 <= i < lots.len(),
    ensures
        lots.take(i + 1).drop_last() == lots.take(i),
        lots.take(i + 1).last() == lots[i],
        units(lots.take(i + 1)) == units(lots.take(i)) + lots[i].quantity,
{
    assert(lots.take(i + 1).drop_last() =~= lots.take(i));
}

/// A prefix of the lots holds no more units than all of them.
pub proof fn lemma_units_prefix(lots: Seq<PurchaseLot>, i: int)
    requires
        0 <= i <= lots.len(),
    ensures
        units(lots.take(i)) <= units(lots),
    decreases lots.len() - i,
{
    if i == lots.len() {
        assert(lots.take(i) =~= lots);
    } else {
        lemma_units_step(lots, i);
        lemma_units_prefix(lots, i + 1);
    }
}

/// Lots that begin at or after the end of a range add nothing to its cost.
pub proof fn lemma_range_cost_prefix(lots: Seq<PurchaseLot>, i: int, start: int, end: int)
    requires
        0 <= i <= lots.len(),
        end <= units(lots.take(i)) || end <= start,
    ensures
        range_cost(lots, start, end) == range_cost(lots.take(i), start, end),
    decreases lots.len() - i,
{
    if i == lots.len() {
        assert(lots.take(i) =~= lots);
    } else {
        lemma_units_step(lots, i);
        lemma_range_cost_prefix(lots, i + 1, start, end);
        let first_unit: int = units(lots.take(i)) as int;
        assert(overlap(start, end, first_unit, first_unit + lots[i].quantity) == 0);
    }
}

/// Replacing one lot changes the units by the difference of the quantities.
pub proof fn lemma_units_update(lots: Seq<PurchaseLot>, i: int, lot: PurchaseLot)
    requires
        0 <= i < lots.len(),
    ensures
        units(lots.update(i, lot)) == units(lots) - lots[i].quantity + lot.quantity,
        lots[i].quantity <= units(lots),
    decreases lots.len(),
{
    let changed: Seq<PurchaseLot> = lots.update(i, lot);
    if i == lots.len() - 1 {
        assert(changed.drop_last() =~= lots.drop_last());
    } else {
        assert(changed.drop_last() =~= lots.drop_last().update(i, lot));
        lemma_units_update(lots.drop_last(), i, lot);
    }
}

/// A lot at the end adds its quantity to the units.
pub proof fn lemma_units_push(lots: Seq<PurchaseLot>, lot: PurchaseLot)
    ensures
        units(lots.push(lot)) == units(lots) + lot.quantity,
{
    assert(lots.push(lot).drop_last() =~= lots);
}

/// The cost of a range is the cost of its two parts: no unit is counted
/// twice and none is left out, wherever the range is cut.
pub proof fn lemma_range_cost_split(lots: Seq<PurchaseLot>, start: int, mid: int, end: int)
    requires
        start <= mid <= end,
    ensures
        range_cost(lots, start, mid) + range_cost(lots, mid, end) == range_cost(lots, start, end),
        range_matched(lots, start, mid) + range_matched(lots, mid, end) == range_matched(
            lots,
            start,
            end,
        ),
    decreases lots.len(),
{
    if lots.len() > 0 {
        lemma_range_cost_split(lots.drop_last(), start, mid, end);
        let lo: int = units(lots.drop_last()) as int;
        let hi: int = lo + lots.last().quantity;
        let unit_cost: nat = lots.last().unit_cost as nat;
        let left: nat = overlap(start, mid, lo, hi);
        let right: nat = overlap(mid, end, lo, hi);
        assert(left + right == overlap(start, end, lo, hi));
        assert((left + right) * unit_cost == left * unit_cost + right * unit_cost)
            by (nonlinear_arith);
    }
}

/// No unit costs more than `u64::MAX`, so a range costs at most that for
/// each unit that the lots hold of it.
pub proof fn lemma_range_cost_bound(lots: Seq<PurchaseLot>, start: int, end: int)
    requires
        0 <= start,
    ensures
        range_cost(lots, start, end) <= range_matched(lots, start, end) * u64::MAX,
    decreases lots.len(),
{
    if lots.len() > 0 {
        lemma_range_cost_bound(lots.drop_last(), start, end);
        let lo: int = units(lots.drop_last()) as int;
        let hi: int = lo + lots.last().quantity;
        let unit_cost: nat = lots.last().unit_cost as nat;
        let here: nat = overlap(start, end, lo, hi);
        let before: nat = range_matched(lots.drop_last(), start, end);
        assert(before + here == range_matched(lots, start, end));
        assert(here * unit_cost <= here * u64::MAX) by (nonlinear_arith)
            requires
                unit_cost <= u64::MAX,
        ;
        assert((before + here) * u64::MAX == before * u64::MAX + here * u64::MAX)
            by (nonlinear_arith);
    }
}

/// Of a range the lots hold the units before their end, and no others: a
/// range that ends within the lots is matched whole, and of one that
/// reaches past them the units from the end of the lots on are unmatched.
pub proof fn lemma_unmatched_remainder(lots: Seq<PurchaseLot>, start: int, end: int)
    requires
        0 <= start <= end,
    ensures
        end <= units(lots) ==> range_matched(lots, start, end) == end - start,
        start <= units(lots) < end ==> (end - start) - range_matched(lots, start, end) == end
            - units(lots),
        units(lots) < start ==> range_matched(lots, start, end) == 0,
{
}

/// Units past the last lot cost nothing.
pub proof fn lemma_range_cost_past_end(lots: Seq<PurchaseLot>, start: int, end: int)
    requires
        units(lots) <= end,
    ensures
        range_cost(lots, start, end) == range_cost(lots, start, units(lots) as int),
    decreases lots.len(),
{
    if lots.len() > 0 {
        let earlier: Seq<PurchaseLot> = lots.drop_last();
        lemma_range_cost_past_end(earlier, start, end);
        lemma_range_cost_past_end(earlier, start, units(lots) as int);
        let lo: int = units(earlier) as int;
        let hi: int = lo + lots.last().quantity;
        assert(overlap(start, end, lo, hi) == overlap(start, hi, lo, hi));
    }
}

/// The range of all the units costs what the lots cost together.
pub proof fn lemma_full_range_is_value(lots: Seq<PurchaseLot>)
    ensures
        range_cost(lots, 0, units(lots) as int) == lots_value(lots),
    decreases lots.len(),
{
    if lots.len() > 0 {
        let earlier: Seq<PurchaseLot> = lots.drop_last();
        lemma_full_range_is_value(earlier);
        lemma_range_cost_past_end(earlier, 0, units(lots) as int);
        let lo: int = units(earlier) as int;
        let hi: int = lo + lots.last().quantity;
        assert(overlap(0, hi, lo, hi) == lots.last().quantity);
    }
}

/// Two purchases at one unit cost leave the lots as one purchase of both
/// quantities does: one lot with the summed quantity, not two lots.
pub proof fn lemma_merge_twice(lots: Seq<PurchaseLot>, first: u64, second: u64, unit_cost: u64)
    requires
        ledger_wf(lots),
        first > 0,
        second > 0,
        units(lots) + first + second <= u64::MAX,
    ensures
        merge_lot(merge_lot(lots, first, unit_cost), second, unit_cost) == merge_lot(
            lots,
            (first + second) as u64,
            unit_cost,
        ),
        merge_lot(merge_lot(lots, first, unit_cost), second, unit_cost).len() == merge_lot(
            lots,
            first,
            unit_cost,
        ).len(),
{
    let once: Seq<PurchaseLot> = merge_lot(lots, first, unit_cost);
    if has_cost(lots, unit_cost) {
        let i: int = cost_index(lots, unit_cost);
        lemma_units_update(lots, i, lots[i]);
        assert(once[i].unit_cost == unit_cost);
        assert(has_cost(once, unit_cost));
        let k: int = cost_index(once, unit_cost);
        assert(lots[k].unit_cost == unit_cost);
        assert(k == i);
        assert(merge_lot(once, second, unit_cost) =~= merge_lot(
            lots,
            (first + second) as u64,
            unit_cost,
        ));
    } else {
        let last: int = lots.len() as int;
        assert(once[last].unit_cost == unit_cost);
        assert(has_cost(once, unit_cost));
        let k: int = cost_index(once, unit_cost);
        assert(k == last) by {
            if k < last {
                assert(lots[k].unit_cost == unit_cost);
            }
        }
        assert(merge_lot(once, second, unit_cost) =~= merge_lot(
            lots,
            (first + second) as u64,
            unit_cost,
        ));
    }
}

/// The first purchase makes the first lot.
pub proof fn lemma_first_lot(quantity: u64, unit_cost: u64)
    ensures
        merge_lot(Seq::<PurchaseLot>::empty(), quantity, unit_cost) == seq![
            PurchaseLot { quantity: quantity, unit_cost: unit_cost },
        ],
{
    assert(!has_cost(Seq::<PurchaseLot>::empty(), unit_cost));
    assert(Seq::<PurchaseLot>::empty().push(
        PurchaseLot { quantity: quantity, unit_cost: unit_cost },
    ) =~= seq![PurchaseLot { quantity: quantity, unit_cost: unit_cost }]);
}

/// A purchase keeps a ledger well formed and adds its quantity to the units.
pub proof fn lemma_merge_wf(lots: Seq<PurchaseLot>, quantity: u64, unit_cost: u64)
    requires
        ledger_wf(lots),
        quantity > 0,
        units(lots) + quantity <= u64::MAX,
    ensures
        ledger_wf(merge_lot(lots, quantity, unit_cost)),
        units(merge_lot(lots, quantity, unit_cost)) == units(lots) + quantity,
{
    if has_cost(lots, unit_cost) {
        let i: int = cost_index(lots, unit_cost);
        lemma_units_update(
            lots,
            i,
            PurchaseLot { quantity: (lots[i].quantity + quantity) as u64, unit_cost: unit_cost },
        );
    } else {
        lemma_units_push(lots, PurchaseLot { quantity: quantity, unit_cost: unit_cost });
    }
}

/// Taking `taken` more units at `unit_cost` keeps the cost within `u64::MAX`
/// per unit taken.
proof fn lemma_cost_bound(cost: nat, consumed: nat, taken: nat, unit_cost: nat)
    requires
        cost <= consumed * u64::MAX,
        unit_cost <= u64::MAX,
        consumed + taken <= u64::MAX,
    ensures
        taken * unit_cost <= u64::MAX * u64::MAX,
        cost + taken * unit_cost <= (consumed + taken) * u64::MAX,
        (consumed + taken) * u64::MAX <= u64::MAX * u64::MAX,
        u64::MAX * u64::MAX < u128::MAX,
{
    assert(taken * unit_cost <= taken * u64::MAX) by (nonlinear_arith)
        requires
            unit_cost <= u64::MAX,
    ;
    assert((consumed + taken) * u64::MAX == consumed * u64::MAX + taken * u64::MAX)
        by (nonlinear_arith);
    assert((consumed + taken) * u64::MAX <= u64::MAX * u64::MAX) by (nonlinear_arith)
        requires
            consumed + taken <= u64::MAX,
    ;
    assert(taken * u64::MAX <= u64::MAX * u64::MAX) by (nonlinear_arith)
        requires
            taken <= u64::MAX,
    ;
    assert(u64::MAX * u64::MAX < u128::MAX);
}

impl Clone for LotLedger {
    fn clone(&self) -> (copy: Self)
        ensures
            copy@ == self@,
    {
        let copy = LotLedger { lots: self.lots.clone() };
        assert(copy@ =~= self@);
        copy
    }
}

impl LotLedger {
    /// Whether the ledger is one that purchases can have built.
    pub open spec fn wf(&self) -> bool {
        ledger_wf(self@)
    }

    /// A ledger without lots.
    pub fn new() -> (ledger: Self)
        ensures
            ledger@ == Seq::<PurchaseLot>::empty(),
            ledger.wf(),
    {
        LotLedger { lots: Vec::new() }
    }

    /// The lots, in purchase order.
    pub fn lots(&self) -> (lots: &Vec<PurchaseLot>)
        ensures
            lots@ == self@,
    {
        &self.lots
    }

    /// Records a purchase of `quantity` units at `unit_cost`: the lot with
    /// exactly that unit cost grows, or a new lot is put at the end. The
    /// other lots keep their places.
    pub fn append_or_merge(&mut self, quantity: u64, unit_cost: u64)
        requires
            old(self).wf(),
            quantity > 0,
            units(old(self)@) + quantity <= u64::MAX,
        ensures
            final(self).wf(),
            final(self)@ == merge_lot(old(self)@, quantity, unit_cost),
            units(final(self)@) == units(old(self)@) + quantity,
    {
        let mut i: usize = 0;
        while i < self.lots.len()
            invariant
                i <= self.lots.len(),
                self.lots@ == old(self)@,
                old(self).wf(),
                units(old(self)@) + quantity <= u64::MAX,
                forall|j: int| 0 <= j < i ==> (#[trigger] self.lots@[j]).unit_cost != unit_cost,
            decreases self.lots.len() - i,
        {
            let lot: PurchaseLot = self.lots[i];
            if lot.unit_cost == unit_cost {
                proof {
                    lemma_units_update(
                        self.lots@,
                        i as int,
                        PurchaseLot { quantity: (lot.quantity + quantity) as u64, unit_cost: unit_cost },
                    );
                    assert(has_cost(old(self)@, unit_cost));
                    assert(cost_index(old(self)@, unit_cost) == i);
                }
                self.lots.set(i, PurchaseLot { quantity: lot.quantity + quantity, unit_cost: unit_cost });
                return;
            }
            i = i + 1;
        }
        proof {
            lemma_units_push(self.lots@, PurchaseLot { quantity: quantity, unit_cost: unit_cost });
            assert(!has_cost(old(self)@, unit_cost));
        }
        self.lots.push(PurchaseLot { quantity: quantity, unit_cost: unit_cost });
    }

    /// The number of units in all the lots together.
    pub fn total_units(&self) -> (total: u64)
        requires
            self.wf(),
        ensures
            total == units(self@),
    {
        let mut total: u64 = 0;
        let mut i: usize = 0;
        while i < self.lots.len()
            invariant
                i <= self.lots.len(),
                self.wf(),
                total == units(self@.take(i as int)),
            decreases self.lots.len() - i,
        {
            proof {
                lemma_units_step(self@, i as int);
                lemma_units_prefix(self@, i + 1);
            }
            total = total + self.lots[i].quantity;
            i = i + 1;
        }
        proof {
            assert(self@.take(i as int) =~= self@);
        }
        total
    }

    /// What all the lots cost together.
    pub fn total_value(&self) -> (value: u128)
        requires
            self.wf(),
        ensures
            value == lots_value(self@),
    {
        let units: u64 = self.total_units();
        proof {
            lemma_full_range_is_value(self@);
        }
        self.consume_fifo(0, units).0
    }

    /// Matches `request_quantity` units against the lots in purchase order,
    /// after passing over the first `start_offset` units, and returns what
    /// the matched units cost together with the number of requested units
    /// that found no lot. Nothing is taken out of the ledger: a caller that
    /// attributes several sales in turn keeps the offset itself.
    pub fn consume_fifo(&self, start_offset: u64, request_quantity: u64) -> (r: (u128, u64))
        ensures
            r.0 == range_cost(self@, start_offset as int, start_offset + request_quantity),
            r.1 == request_quantity - range_matched(
                self@,
                start_offset as int,
                start_offset + request_quantity,
            ),
    {
        let ghost start: int = start_offset as int;
        let ghost end: int = start_offset + request_quantity;
        let mut cost: u128 = 0;
        let mut skip: u64 = start_offset;
        let mut remaining: u64 = request_quantity;
        let mut i: usize = 0;
        while i < self.lots.len() && remaining > 0
            invariant
                i <= self.lots.len(),
                start == start_offset,
                end == start_offset + request_quantity,
                cost == range_cost(self@.take(i as int), start, end),
                remaining == request_quantity - range_matched(self@.take(i as int), start, end),
                skip == overlap(units(self@.take(i as int)) as int, start, 0, start),
                cost <= (request_quantity - remaining) * u64::MAX,
            decreases self.lots.len() - i,
        {
            let lot: PurchaseLot = self.lots[i];
            proof {
                lemma_units_step(self@, i as int);
            }
            if skip >= lot.quantity {
                skip = skip - lot.quantity;
                proof {
                    let first_unit: int = units(self@.take(i as int)) as int;
                    assert(overlap(start, end, first_unit, first_unit + lot.quantity) == 0);
                }
            } else {
                let available: u64 = lot.quantity - skip;
                let taken: u64 = if remaining < available {
                    remaining
                } else {
                    available
                };
                proof {
                    lemma_cost_bound(
                        cost as nat,
                        (request_quantity - remaining) as nat,
                        taken as nat,
                        lot.unit_cost as nat,
                    );
                    assert(taken == overlap(
                        start,
                        end,
                        units(self@.take(i as int)) as int,
                        units(self@.take(i as int)) + lot.quantity,
                    ));
                }
                skip = 0;
                cost = cost + (taken as u128) * (lot.unit_cost as u128);
                remaining = remaining - taken;
            }
            i = i + 1;
        }
        proof {
            lemma_units_prefix(self@, i as int);
            if i < self.lots.len() {
                lemma_range_cost_prefix(self@, i as int, start, end);
            } else {
                assert(self@.take(i as int) =~= self@);
            }
        }
        (cost, remaining)
    }
}

} // verus!
