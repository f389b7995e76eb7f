//! The inventory ledger: what one character holds, slot by slot.
//!
//! A ledger keeps its rows in ascending slot order. Every item that is not a
//! key item stacks: adding it merges into the lowest slot that already holds
//! it. A key item takes a slot of its own each time.

use vstd::prelude::*;
use crate::error::{GameError, ValidationFault};

verus! {

pub struct Item {
    pub id: u128,
    pub name: String,
    pub description: String,
    pub sellable: bool,
    pub is_key_item: bool,
}

impl Item {
    /// Key items never share a slot; every other item stacks.
    pub open spec fn stackable(&self) -> bool {
        !self.is_key_item
    }

    pub fn is_stackable(&self) -> (b: bool)
        ensures
            b == self.stackable(),
    {
        !self.is_key_item
    }
}

#[derive(Clone, Copy, Debug, PartialEq, Eq, Structural)]
pub struct InventoryItem {
    pub character_id: u128,
    pub item_id: u128,
    pub amount: i16,
    pub slot: i16,
}

/// Why units leave a ledger. Key items cannot be sold or discarded, but a
/// quest objective or a barter may consume them.
#[derive(Clone, Copy, Debug, PartialEq, Eq, Structural)]
pub enum RemovalReason {
    Sell,
    Discard,
    Consume,
}

impl RemovalReason {
    pub open spec fn parts_with_item(self) -> bool {
        self == RemovalReason::Sell || self == RemovalReason::Discard
    }
}

/// Rows of one owner, each with at least one unit, in strictly ascending
/// slot order within `[0, limit)`.
pub open spec fn rows_wf(rows: Seq<InventoryItem>, owner: u128, limit: int) -> bool {
    &&& forall|i: int|
        0 <= i < rows.len() ==> {
            &&& (#[trigger] rows[i]).character_id == owner
            &&& rows[i].amount >= 1
            &&& 0 <= rows[i].slot < limit
        }
    &&& forall|i: int, j: int|
        0 <= i < j < rows.len() ==> (#[trigger] rows[i]).slot < (#[trigger] rows[j]).slot
}

/// How many units of `item` the rows hold, over all their slots.
pub open spec fn held(rows: Seq<InventoryItem>, item: u128) -> int
    decreases rows.len(),
{
    if rows.len() == 0 {
        0
    } else {
        units_of(rows[0], item) + held(rows.skip(1), item)
    }
}

pub open spec fn units_of(row: InventoryItem, item: u128) -> int {
    if row.item_id == item {
        row.amount as int
    } else {
        0
    }
}

pub open spec fn holds(rows: Seq<InventoryItem>, item: u128) -> bool {
    exists|i: int| 0 <= i < rows.len() && (#[trigger] rows[i]).item_id == item
}

/// `k` is the first row, that is the lowest slot, that holds `item`.
pub open spec fn is_first_holding(rows: Seq<InventoryItem>, item: u128, k: int) -> bool {
    &&& 0 <= k < rows.len()
    &&& rows[k].item_id == item
    &&& forall|j: int| 0 <= j < k ==> (#[trigger] rows[j]).item_id != item
}

pub open spec fn first_holding(rows: Seq<InventoryItem>, item: u128) -> int {
    choose|k: int| is_first_holding(rows, item, k)
}

pub open spec fn occupied(rows: Seq<InventoryItem>, slot: int) -> bool {
    exists|i: int| 0 <= i < rows.len() && (#[trigger] rows[i]).slot == slot
}

/// `slot` is free and every slot below it is taken.
pub open spec fn is_lowest_free(rows: Seq<InventoryItem>, slot: int) -> bool {
    &&& 0 <= slot
    &&& !occupied(rows, slot)
    &&& forall|g: int| 0 <= g < slot ==> #[trigger] occupied(rows, g)
}

/// Whether adding `item` merges into a row that is already there.
pub open spec fn merges(rows: Seq<InventoryItem>, item: &Item) -> bool {
    item.stackable() && holds(rows, item.id)
}

/// The rows after `amount` units were merged into row `k`.
pub open spec fn merged(rows: Seq<InventoryItem>, k: int, amount: int) -> Seq<InventoryItem> {
    rows.update(
        k,
        InventoryItem {
            character_id: rows[k].character_id,
            item_id: rows[k].item_id,
            amount: (rows[k].amount + amount) as i16,
            slot: rows[k].slot,
        },
    )
}

/// The rows after a new row took the lowest free slot. As every slot below
/// is taken, the row's place in slot order is its slot number.
pub open spec fn allocated(
    rows: Seq<InventoryItem>,
    owner: u128,
    item: u128,
    amount: i16,
    slot: i16,
) -> Seq<InventoryItem> {
    rows.insert(
        slot as int,
        InventoryItem { character_id: owner, item_id: item, amount: amount, slot: slot },
    )
}

/// The rows after `amount` units of `item` were credited to them.
pub open spec fn added(rows: Seq<InventoryItem>, owner: u128, item: &Item, amount: i16) -> Seq<
    InventoryItem,
> {
    if merges(rows, item) {
        merged(rows, first_holding(rows, item.id), amount as int)
    } else {
        allocated(rows, owner, item.id, amount, lowest_free(rows))
    }
}

/// The rows after `need` units of `item` left them, taken from the lowest
/// slots first. A row that gives its last unit is deleted.
pub open spec fn drained(rows: Seq<InventoryItem>, item: u128, need: int) -> Seq<InventoryItem>
    decreases rows.len(),
{
    if rows.len() == 0 || need <= 0 {
        rows
    } else if rows[0].item_id != item {
        seq![rows[0]] + drained(rows.skip(1), item, need)
    } else if rows[0].amount <= need {
        drained(rows.skip(1), item, need - rows[0].amount)
    } else {
        seq![
            InventoryItem {
                character_id: rows[0].character_id,
                item_id: rows[0].item_id,
                amount: (rows[0].amount - need) as i16,
                slot: rows[0].slot,
            },
        ] + rows.skip(1)
    }
}

/// In well-formed rows no slot number is below its row's index.
pub proof fn lemma_slot_at_least_index(rows: Seq<InventoryItem>, owner: u128, limit: int, i: int)
    requires
        rows_wf(rows, owner, limit),
        0 <= i < rows.len(),
    ensures
        i <= rows[i].slot,
    decreases i,
{
    if i > 0 {
        lemma_slot_at_least_index(rows, owner, limit, i - 1);
        assert(rows[i - 1].slot < rows[i].slot);
    }
}

/// Well-formed rows are never more than there are slots.
pub proof fn lemma_rows_fit(rows: Seq<InventoryItem>, owner: u128, limit: int)
    requires
        rows_wf(rows, owner, limit),
    ensures
        rows.len() > 0 ==> rows.len() <= limit,
{
    if rows.len() > 0 {
        lemma_slot_at_least_index(rows, owner, limit, rows.len() - 1);
    }
}

/// Well-formed rows hold a number of units between zero and what their
/// slots can carry.
pub proof fn lemma_held_bounds(rows: Seq<InventoryItem>, item: u128)
    requires
        forall|i: int| 0 <= i < rows.len() ==> (#[trigger] rows[i]).amount >= 1,
    ensures
        0 <= held(rows, item) <= 32767 * rows.len(),
        held(rows, item) > 0 <==> holds(rows, item),
    decreases rows.len(),
{
    if rows.len() > 0 {
        let rest = rows.skip(1);
        assert forall|i: int| 0 <= i < rest.len() implies (#[trigger] rest[i]).amount >= 1 by {
            assert(rest[i] == rows[i + 1]);
        }
        lemma_held_bounds(rest, item);
        if holds(rest, item) {
            let w = choose|i: int| 0 <= i < rest.len() && (#[trigger] rest[i]).item_id == item;
            assert(rows[w + 1].item_id == item);
        }
        if holds(rows, item) && rows[0].item_id != item {
            let w = choose|i: int| 0 <= i < rows.len() && (#[trigger] rows[i]).item_id == item;
            assert(rest[w - 1].item_id == item);
        }
        assert(rows[0].amount >= 1);
    }
}

/// Replacing one row changes what is held by the difference of the two rows.
pub proof fn lemma_held_update(rows: Seq<InventoryItem>, k: int, row: InventoryItem, item: u128)
    requires
        0 <= k < rows.len(),
    ensures
        held(rows.update(k, row), item) == held(rows, item) - units_of(rows[k], item) + units_of(
            row,
            item,
        ),
    decreases k,
{
    let after = rows.update(k, row);
    if k == 0 {
        assert(after.skip(1) =~= rows.skip(1));
    } else {
        assert(after.skip(1) =~= rows.skip(1).update(k - 1, row));
        lemma_held_update(rows.skip(1), k - 1, row, item);
    }
}

/// A new row adds its units to what is held.
pub proof fn lemma_held_insert(rows: Seq<InventoryItem>, k: int, row: InventoryItem, item: u128)
    requires
        0 <= k <= rows.len(),
    ensures
        held(rows.insert(k, row), item) == held(rows, item) + units_of(row, item),
    decreases k,
{
    let after = rows.insert(k, row);
    if k == 0 {
        assert(after.skip(1) =~= rows);
    } else {
        assert(after.skip(1) =~= rows.skip(1).insert(k - 1, row));
        lemma_held_insert(rows.skip(1), k - 1, row, item);
    }
}

/// Draining takes exactly the units asked for from the item asked for and
/// leaves every other item as it was.
pub proof fn lemma_drained_held(rows: Seq<InventoryItem>, item: u128, need: int, other: u128)
    requires
        forall|i: int| 0 <= i < rows.len() ==> (#[trigger] rows[i]).amount >= 1,
        0 <= need <= held(rows, item),
    ensures
        held(drained(rows, item, need), item) == held(rows, item) - need,
        other != item ==> held(drained(rows, item, need), other) == held(rows, other),
    decreases rows.len(),
{
    if rows.len() == 0 || need <= 0 {
    } else {
        let rest = rows.skip(1);
        assert forall|i: int| 0 <= i < rest.len() implies (#[trigger] rest[i]).amount >= 1 by {
            assert(rest[i] == rows[i + 1]);
        }
        assert(rows[0].amount >= 1);
        if rows[0].item_id != item {
            lemma_drained_held(rest, item, need, other);
            let d = seq![rows[0]] + drained(rest, item, need);
            assert(d.skip(1) =~= drained(rest, item, need));
        } else if rows[0].amount <= need {
            lemma_drained_held(rest, item, need - rows[0].amount, other);
        } else {
            let d = drained(rows, item, need);
            assert(d.skip(1) =~= rest);
        }
    }
}

/// The ledger of one character.
pub struct Inventory {
    character_id: u128,
    slot_limit: i16,
    rows: Vec<InventoryItem>,
}

impl View for Inventory {
    type V = Seq<InventoryItem>;

    /// The rows in ascending slot order.
    closed spec fn view(&self) -> Seq<InventoryItem> {
        self.rows@
    }
}

impl Inventory {
    pub closed spec fn owner(&self) -> u128 {
        self.character_id
    }

    /// The number of slots; slots are numbered from zero.
    pub closed spec fn capacity(&self) -> int {
        self.slot_limit as int
    }

    pub open spec fn wf(&self) -> bool {
        rows_wf(self@, self.owner(), self.capacity())
    }

    /// An empty ledger with `slot_limit` slots.
    pub fn new(character_id: u128, slot_limit: i16) -> (inv: Inventory)
        ensures
            inv.wf(),
            inv@ == Seq::<InventoryItem>::empty(),
            inv.owner() == character_id,
            inv.capacity() == slot_limit,
    {
        Inventory { character_id, slot_limit, rows: Vec::new() }
    }

    /// A ledger from stored rows, which must come in ascending slot order.
    pub fn from_rows(character_id: u128, slot_limit: i16, rows: Vec<InventoryItem>) -> (r: Result<
        Inventory,
        GameError,
    >)
        ensures
            r is Ok <==> rows_wf(rows@, character_id, slot_limit as int),
            r matches Ok(inv) ==> inv.wf() && inv@ == rows@ && inv.owner() == character_id
                && inv.capacity() == slot_limit,
            r matches Err(e) ==> e == GameError::ValidationError(ValidationFault::Inconsistent),
    {
        let n = rows.len();
        let mut i: usize = 0;
        while i < n
            invariant
                i <= n,
                n == rows@.len(),
                rows_wf(rows@.take(i as int), character_id, slot_limit as int),
            decreases n - i,
        {
            let row = rows[i];
            let ordered = i == 0 || rows[i - 1].slot < row.slot;
            if row.character_id != character_id || row.amount < 1 || row.slot < 0 || row.slot
                >= slot_limit || !ordered {
                return Err(GameError::ValidationError(ValidationFault::Inconsistent));
            }
            proof {
                let before = rows@.take(i as int);
                let now = rows@.take(i + 1);
                assert forall|a: int, b: int| 0 <= a < b < now.len() implies (#[trigger] now[a]).slot
                    < (#[trigger] now[b]).slot by {
                    if b == i && a < i - 1 {
                        assert(before[a].slot < before[i - 1].slot);
                    } else if b < i {
                        assert(before[a].slot < before[b].slot);
                    }
                }
                assert forall|a: int| 0 <= a < now.len() implies {
                    &&& (#[trigger] now[a]).character_id == character_id
                    &&& now[a].amount >= 1
                    &&& 0 <= now[a].slot < slot_limit
                } by {
                    if a < i {
                        assert(before[a] == now[a]);
                    }
                }
            }
            i = i + 1;
        }
        assert(rows@.take(n as int) =~= rows@);
        Ok(Inventory { character_id, slot_limit, rows })
    }

    pub fn character_id(&self) -> (id: u128)
        ensures
            id == self.owner(),
    {
        self.character_id
    }

    pub fn slot_limit(&self) -> (limit: i16)
        ensures
            limit == self.capacity(),
    {
        self.slot_limit
    }

    /// A copy of the rows, in ascending slot order.
    pub fn rows(&self) -> (out: Vec<InventoryItem>)
        ensures
            out@ == self@,
    {
        let n = self.rows.len();
        let mut out: Vec<InventoryItem> = Vec::new();
        let mut i: usize = 0;
        while i < n
            invariant
                i <= n,
                n == self.rows@.len(),
                out@ == self.rows@.take(i as int),
            decreases n - i,
        {
            out.push(self.rows[i]);
            assert(self.rows@.take(i + 1) =~= self.rows@.take(i as int).push(self.rows@[i as int]));
            i = i + 1;
        }
        assert(self.rows@.take(n as int) =~= self.rows@);
        out
    }

    /// How many units of an item the ledger holds.
    pub fn held_amount(&self, item_id: u128) -> (total: i32)
        requires
            self.wf(),
        ensures
            total == held(self@, item_id),
    {
        let n = self.rows.len();
        let mut total: i32 = 0;
        let mut i: usize = 0;
        proof {
            lemma_rows_fit(self@, self.owner(), self.capacity());
            assert(self.rows@.skip(0) =~= self.rows@);
        }
        while i < n
            invariant
                i <= n,
                n == self.rows@.len(),
                n <= 32767,
                self.wf(),
                0 <= total <= 32767 * i,
                total + held(self.rows@.skip(i as int), item_id) == held(self.rows@, item_id),
            decreases n - i,
        {
            let row = self.rows[i];
            proof {
                let tail = self.rows@.skip(i as int);
                assert(tail[0] == row);
                assert(tail.skip(1) =~= self.rows@.skip(i + 1));
            }
            assert(self@[i as int].amount >= 1);
            if row.item_id == item_id {
                total = total + (row.amount as i32);
            }
            i = i + 1;
        }
        total
    }

    /// The index of the first row that holds the item.
    pub fn find_item(&self, item_id: u128) -> (r: Option<usize>)
        ensures
            r matches Some(k) ==> is_first_holding(self@, item_id, k as int),
            r is None <==> !holds(self@, item_id),
    {
        let n = self.rows.len();
        let mut i: usize = 0;
        while i < n
            invariant
                i <= n,
                n == self.rows@.len(),
                forall|j: int| 0 <= j < i ==> (#[trigger] self.rows@[j]).item_id != item_id,
            decreases n - i,
        {
            if self.rows[i].item_id == item_id {
                return Some(i);
            }
            i = i + 1;
        }
        None
    }

    /// The lowest slot that no row takes. It is also the number of rows
    /// below it.
    pub fn lowest_free_slot(&self) -> (f: usize)
        requires
            self.wf(),
        ensures
            is_lowest_free(self@, f as int),
            f as i16 == lowest_free(self@),
            f <= self@.len() <= 32767,
            forall|j: int| 0 <= j < f ==> (#[trigger] self@[j]).slot == j,
            forall|j: int| f <= j < self@.len() ==> f < (#[trigger] self@[j]).slot,
    {
        let n = self.rows.len();
        let mut i: usize = 0;
        proof {
            lemma_rows_fit(self@, self.owner(), self.capacity());
        }
        while i < n && self.rows[i].slot == i as i16
            invariant
                i <= n,
                n == self.rows@.len(),
                n <= 32767,
                forall|j: int| 0 <= j < i ==> (#[trigger] self.rows@[j]).slot == j,
            decreases n - i,
        {
            i = i + 1;
        }
        proof {
            assert forall|g: int| 0 <= g < i implies #[trigger] occupied(self@, g) by {
                assert(self@[g].slot == g);
            }
            assert forall|j: int| i <= j < self@.len() implies i < (#[trigger] self@[j]).slot by {
                lemma_slot_at_least_index(self@, self.owner(), self.capacity(), i as int);
                if j > i {
                    assert(self@[i as int].slot < self@[j].slot);
                }
            }
            assert(!occupied(self@, i as int)) by {
                if occupied(self@, i as int) {
                    let w = choose|w: int| 0 <= w < self@.len() && (#[trigger] self@[w]).slot == i;
                    if w < i {
                        assert(self@[w].slot == w);
                    }
                }
            }
            lemma_lowest_free_unique(self@, i as int);
        }
        i
    }

    /// Credits `amount` units of `item` and returns the slot that took
    /// them. A stackable item merges into the lowest slot that holds it; any
    /// other takes the lowest free slot.
    pub fn add(&mut self, item: &Item, amount: i16) -> (r: Result<i16, GameError>)
        requires
            old(self).wf(),
        ensures
            final(self).wf(),
            final(self).owner() == old(self).owner(),
            final(self).capacity() == old(self).capacity(),
            r == Self::spec_add(old(self)@, old(self).capacity(), item, amount),
            r is Err ==> final(self)@ == old(self)@,
            r is Ok ==> final(self)@ == added(old(self)@, old(self).owner(), item, amount),
            r matches Ok(slot) ==> if merges(old(self)@, item) {
                let k = first_holding(old(self)@, item.id);
                &&& is_first_holding(old(self)@, item.id, k)
                &&& slot == old(self)@[k].slot
                &&& final(self)@ == merged(old(self)@, k, amount as int)
            } else {
                &&& is_lowest_free(old(self)@, slot as int)
                &&& final(self)@ == allocated(old(self)@, old(self).owner(), item.id, amount, slot)
            },
            r is Ok ==> held(final(self)@, item.id) == held(old(self)@, item.id) + amount,
            r is Ok ==> forall|other: u128|
                other != item.id ==> held(final(self)@, other) == held(old(self)@, other),
    {
        if amount < 1 {
            return Err(GameError::ValidationError(ValidationFault::BadAmount));
        }
        let found = if item.is_key_item {
            None
        } else {
            self.find_item(item.id)
        };
        match found {
            Some(k) => {
                let row = self.rows[k];
                assert(first_holding(self@, item.id) == k);
                if row.amount > i16::MAX - amount {
                    return Err(GameError::ValidationError(ValidationFault::BadAmount));
                }
                let sum = InventoryItem {
                    character_id: row.character_id,
                    item_id: row.item_id,
                    amount: row.amount + amount,
                    slot: row.slot,
                };
                self.rows.set(k, sum);
                proof {
                    lemma_held_update(old(self)@, k as int, sum, item.id);
                    assert forall|other: u128| other != item.id implies held(self@, other) == held(
                        old(self)@,
                        other,
                    ) by {
                        lemma_held_update(old(self)@, k as int, sum, other);
                    }
                    assert forall|i: int, j: int| 0 <= i < j < self@.len() implies (
                    #[trigger] self@[i]).slot < (#[trigger] self@[j]).slot by {
                        assert(old(self)@[i].slot < old(self)@[j].slot);
                    }
                }
                Ok(row.slot)
            },
            None => {
                let f = self.lowest_free_slot();
                proof {
                    if f as int >= self.capacity() {
                        assert forall|g: int| 0 <= g < self.capacity() implies #[trigger] occupied(
                            self@,
                            g,
                        ) by {}
                    }
                }
                if self.slot_limit <= 0 || f >= self.slot_limit as usize {
                    return Err(GameError::SlotsExhausted);
                }
                let slot = f as i16;
                let row = InventoryItem {
                    character_id: self.character_id,
                    item_id: item.id,
                    amount: amount,
                    slot: slot,
                };
                self.rows.insert(f, row);
                proof {
                    lemma_held_insert(old(self)@, f as int, row, item.id);
                    assert forall|other: u128| other != item.id implies held(self@, other) == held(
                        old(self)@,
                        other,
                    ) by {
                        lemma_held_insert(old(self)@, f as int, row, other);
                    }
                    assert forall|i: int, j: int| 0 <= i < j < self@.len() implies (
                    #[trigger] self@[i]).slot < (#[trigger] self@[j]).slot by {
                        if i < f && j > f {
                            assert(old(self)@[i].slot == i);
                            assert(f < old(self)@[j - 1].slot);
                        } else if i < f && j == f {
                            assert(old(self)@[i].slot == i);
                        } else if i < f && j < f {
                            assert(old(self)@[i].slot < old(self)@[j].slot);
                        } else if i == f {
                            assert(f < old(self)@[j - 1].slot);
                        } else {
                            assert(old(self)@[i - 1].slot < old(self)@[j - 1].slot);
                        }
                    }
                    assert forall|i: int| 0 <= i < self@.len() implies {
                        &&& (#[trigger] self@[i]).character_id == self.owner()
                        &&& self@[i].amount >= 1
                        &&& 0 <= self@[i].slot < self.capacity()
                    } by {
                        if i < f {
                            assert(self@[i] == old(self)@[i]);
                        } else if i > f {
                            assert(self@[i] == old(self)@[i - 1]);
                        }
                    }
                }
                Ok(slot)
            },
        }
    }

    /// Takes `amount` units of `item` out of the ledger, from the lowest
    /// slots first, or takes nothing. A key item is never sold or discarded.
    pub fn remove(&mut self, item: &Item, amount: i16, reason: RemovalReason) -> (r: Result<
        (),
        GameError,
    >)
        requires
            old(self).wf(),
        ensures
            final(self).wf(),
            final(self).owner() == old(self).owner(),
            final(self).capacity() == old(self).capacity(),
            r == Self::spec_remove(old(self)@, item, amount, reason),
            r is Err ==> final(self)@ == old(self)@,
            r is Ok ==> final(self)@ == drained(old(self)@, item.id, amount as int),
            r is Ok ==> held(final(self)@, item.id) == held(old(self)@, item.id) - amount,
            r is Ok ==> forall|other: u128|
                other != item.id ==> held(final(self)@, other) == held(old(self)@, other),
    {
        if amount < 1 {
            return Err(GameError::ValidationError(ValidationFault::BadAmount));
        }
        let parts = match reason {
            RemovalReason::Sell => true,
            RemovalReason::Discard => true,
            RemovalReason::Consume => false,
        };
        if item.is_key_item && parts {
            return Err(GameError::Undiscardable);
        }
        self.consume(item.id, amount)
    }

    /// Takes `amount` units of an item out of the ledger without asking
    /// what kind of item it is: the way a quest objective or a barter
    /// consumes, which may take key items too.
    pub fn consume(&mut self, item_id: u128, amount: i16) -> (r: Result<(), GameError>)
        requires
            old(self).wf(),
        ensures
            final(self).wf(),
            final(self).owner() == old(self).owner(),
            final(self).capacity() == old(self).capacity(),
            r == Self::spec_consume(old(self)@, item_id, amount),
            r is Err ==> final(self)@ == old(self)@,
            r is Ok ==> final(self)@ == drained(old(self)@, item_id, amount as int),
            r is Ok ==> held(final(self)@, item_id) == held(old(self)@, item_id) - amount,
            r is Ok ==> forall|other: u128|
                other != item_id ==> held(final(self)@, other) == held(old(self)@, other),
    {
        if amount < 1 {
            return Err(GameError::ValidationError(ValidationFault::BadAmount));
        }
        if self.held_amount(item_id) < amount as i32 {
            return Err(GameError::InsufficientQuantity);
        }
        self.drain(item_id, amount);
        proof {
            lemma_drained_held(old(self)@, item_id, amount as int, item_id);
            assert forall|other: u128| other != item_id implies held(self@, other) == held(
                old(self)@,
                other,
            ) by {
                lemma_drained_held(old(self)@, item_id, amount as int, other);
            }
        }
        Ok(())
    }

    /// A second ledger with the same owner, slots and rows.
    pub fn snapshot(&self) -> (copy: Inventory)
        ensures
            copy@ == self@,
            copy.owner() == self.owner(),
            copy.capacity() == self.capacity(),
    {
        Inventory {
            character_id: self.character_id,
            slot_limit: self.slot_limit,
            rows: self.rows(),
        }
    }

    /// Rewrites the rows without `amount` units of the item.
    fn drain(&mut self, item_id: u128, amount: i16)
        requires
            old(self).wf(),
            amount >= 1,
        ensures
            final(self).wf(),
            final(self).owner() == old(self).owner(),
            final(self).capacity() == old(self).capacity(),
            final(self)@ == drained(old(self)@, item_id, amount as int),
    {
        let n = self.rows.len();
        let mut out: Vec<InventoryItem> = Vec::new();
        let mut need: i16 = amount;
        let mut i: usize = 0;
        assert(self.rows@.skip(0) =~= self.rows@);
        while i < n
            invariant
                i <= n,
                n == self.rows@.len(),
                0 <= need,
                self.wf(),
                rows_wf(out@, self.owner(), self.capacity()),
                forall|a: int, b: int|
                    0 <= a < out@.len() && i <= b < n ==> (#[trigger] out@[a]).slot < (
                    #[trigger] self.rows@[b]).slot,
                drained(self.rows@, item_id, amount as int) == out@ + drained(
                    self.rows@.skip(i as int),
                    item_id,
                    need as int,
                ),
            decreases n - i,
        {
            let row = self.rows[i];
            let ghost tail = self.rows@.skip(i as int);
            let ghost before = out@;
            proof {
                assert(tail[0] == row);
                assert(tail.skip(1) =~= self.rows@.skip(i + 1));
                assert(self@[i as int].amount >= 1);
                assert(tail =~= seq![row] + self.rows@.skip(i + 1));
            }
            if need > 0 && row.item_id == item_id {
                if row.amount <= need {
                    need = need - row.amount;
                } else {
                    let left = InventoryItem {
                        character_id: row.character_id,
                        item_id: row.item_id,
                        amount: row.amount - need,
                        slot: row.slot,
                    };
                    out.push(left);
                    need = 0;
                    proof {
                        assert(out@ + self.rows@.skip(i + 1) =~= before + (seq![left]
                            + self.rows@.skip(i + 1)));
                    }
                }
            } else {
                out.push(row);
                proof {
                    let rest = drained(self.rows@.skip(i + 1), item_id, need as int);
                    assert(out@ + rest =~= before + (seq![row] + rest));
                }
            }
            proof {
                assert forall|a: int, b: int| 0 <= a < b < out@.len() implies (
                #[trigger] out@[a]).slot < (#[trigger] out@[b]).slot by {
                    if b < before.len() {
                        assert(before[a].slot < before[b].slot);
                    } else {
                        assert(before[a].slot < self.rows@[i as int].slot);
                    }
                }
                assert forall|a: int, b: int| 0 <= a < out@.len() && i + 1 <= b < n implies (
                #[trigger] out@[a]).slot < (#[trigger] self.rows@[b]).slot by {
                    if a < before.len() {
                        assert(before[a].slot < self.rows@[b].slot);
                    } else {
                        assert(self@[i as int].slot < self@[b].slot);
                    }
                }
                assert forall|a: int| 0 <= a < out@.len() implies {
                    &&& (#[trigger] out@[a]).character_id == self.owner()
                    &&& out@[a].amount >= 1
                    &&& 0 <= out@[a].slot < self.capacity()
                } by {
                    if a < before.len() {
                        assert(before[a] == out@[a]);
                    }
                }
            }
            i = i + 1;
        }
        assert(out@ + Seq::<InventoryItem>::empty() =~= out@);
        self.rows = out;
    }

    /// Whether `remove` succeeds, or why it does not.
    pub open spec fn spec_remove(
        rows: Seq<InventoryItem>,
        item: &Item,
        amount: i16,
        reason: RemovalReason,
    ) -> Result<(), GameError> {
        if amount < 1 {
            Err(GameError::ValidationError(ValidationFault::BadAmount))
        } else if item.is_key_item && reason.parts_with_item() {
            Err(GameError::Undiscardable)
        } else {
            Self::spec_consume(rows, item.id, amount)
        }
    }

    /// Whether `consume` succeeds, or why it does not.
    pub open spec fn spec_consume(rows: Seq<InventoryItem>, item_id: u128, amount: i16) -> Result<
        (),
        GameError,
    > {
        if amount < 1 {
            Err(GameError::ValidationError(ValidationFault::BadAmount))
        } else if held(rows, item_id) < amount {
            Err(GameError::InsufficientQuantity)
        } else {
            Ok(())
        }
    }

    /// What `add` returns: the slot that takes the units, or why none does.
    pub open spec fn spec_add(
        rows: Seq<InventoryItem>,
        capacity: int,
        item: &Item,
        amount: i16,
    ) -> Result<i16, GameError> {
        if amount < 1 {
            Err(GameError::ValidationError(ValidationFault::BadAmount))
        } else if merges(rows, item) {
            let k = first_holding(rows, item.id);
            if rows[k].amount + amount > i16::MAX {
                Err(GameError::ValidationError(ValidationFault::BadAmount))
            } else {
                Ok(rows[k].slot)
            }
        } else if forall|g: int| 0 <= g < capacity ==> #[trigger] occupied(rows, g) {
            Err(GameError::SlotsExhausted)
        } else {
            Ok(lowest_free(rows))
        }
    }
}

pub open spec fn lowest_free(rows: Seq<InventoryItem>) -> i16 {
    (choose|f: int| is_lowest_free(rows, f)) as i16
}

/// Only one slot is the lowest free one.
pub proof fn lemma_lowest_free_unique(rows: Seq<InventoryItem>, f: int)
    requires
        is_lowest_free(rows, f),
    ensures
        (choose|g: int| is_lowest_free(rows, g)) == f,
{
    let c = choose|g: int| is_lowest_free(rows, g);
    if c < f {
        assert(occupied(rows, c));
    } else if f < c {
        assert(occupied(rows, f));
    }
}

/// Asking for more units than the rows hold is refused as
/// `InsufficientQuantity`, unless the item is a key item that was to be sold
/// or discarded, which is refused as such first.
pub proof fn lemma_remove_too_many(
    rows: Seq<InventoryItem>,
    item: &Item,
    amount: i16,
    reason: RemovalReason,
)
    requires
        forall|i: int| 0 <= i < rows.len() ==> (#[trigger] rows[i]).amount >= 1,
        amount > held(rows, item.id),
        !(item.is_key_item && reason.parts_with_item()),
    ensures
        Inventory::spec_remove(rows, item, amount, reason) == Err::<(), GameError>(
            GameError::InsufficientQuantity,
        ),
        Inventory::spec_consume(rows, item.id, amount) == Err::<(), GameError>(
            GameError::InsufficientQuantity,
        ),
{
    lemma_held_bounds(rows, item.id);
}

/// No two rows of well-formed rows share a slot.
pub proof fn lemma_slots_distinct(rows: Seq<InventoryItem>, owner: u128, limit: int, i: int, j: int)
    requires
        rows_wf(rows, owner, limit),
        0 <= i < rows.len(),
        0 <= j < rows.len(),
        i != j,
    ensures
        rows[i].slot != rows[j].slot,
{
    if i < j {
        assert(rows[i].slot < rows[j].slot);
    } else {
        assert(rows[j].slot < rows[i].slot);
    }
}

} // verus!
