//! The economy catalog: shops, their listings and what a listing costs,
//! in currency or as a basket of other items.

use vstd::prelude::*;
use crate::character::{Character, CharacterView};
use crate::error::{GameError, ValidationFault};
use crate::inventory::{
    added, drained, held, lemma_drained_held, Inventory, InventoryItem, Item,
};

verus! {

pub struct ShopType {
    pub id: i16,
    pub name: String,
}

pub struct Shop {
    pub id: u128,
    pub seller: u128,
    pub description: String,
    pub shop_type: i16,
}

/// One listing of a shop. `default_order` only places the listing on
/// display; nothing here reads it.
#[derive(Clone, Copy, Debug, PartialEq, Eq, Structural)]
pub struct ShopSellsItem {
    pub id: i16,
    pub shop_id: u128,
    pub item_id: u128,
    pub price: Option<i32>,
    pub default_order: i16,
}

/// One line of a barter price: so many units of an item.
#[derive(Clone, Copy, Debug, PartialEq, Eq, Structural)]
pub struct ItemAsPrice {
    pub shop_sells_item_id: i16,
    pub item_id: u128,
    pub amount: i16,
}

/// What a listing costs: currency or a basket, never both.
pub enum Cost {
    Currency(i32),
    Barter(Vec<ItemAsPrice>),
}

pub enum CostView {
    Currency(i32),
    Barter(Seq<ItemAsPrice>),
}

impl View for Cost {
    type V = CostView;

    open spec fn view(&self) -> CostView {
        match self {
            Cost::Currency(p) => CostView::Currency(*p),
            Cost::Barter(b) => CostView::Barter(b@),
        }
    }
}

pub open spec fn belongs_to(listing: i16) -> spec_fn(ItemAsPrice) -> bool {
    |line: ItemAsPrice| line.shop_sells_item_id == listing
}

/// The price lines of one listing, in the order given.
pub open spec fn basket_of(lines: Seq<ItemAsPrice>, listing: i16) -> Seq<ItemAsPrice> {
    lines.filter(belongs_to(listing))
}

pub open spec fn amounts_positive(basket: Seq<ItemAsPrice>) -> bool {
    forall|i: int| 0 <= i < basket.len() ==> (#[trigger] basket[i]).amount >= 1
}

/// What `resolve_cost` returns. A listing with a price and a basket, or
/// with neither, contradicts itself.
pub open spec fn spec_resolve_cost(listing: &ShopSellsItem, lines: Seq<ItemAsPrice>) -> Result<
    CostView,
    GameError,
> {
    let basket = basket_of(lines, listing.id);
    match listing.price {
        Some(p) => if basket.len() > 0 {
            Err(GameError::ValidationError(ValidationFault::Inconsistent))
        } else if p < 0 {
            Err(GameError::ValidationError(ValidationFault::BadAmount))
        } else {
            Ok(CostView::Currency(p))
        },
        None => if basket.len() == 0 {
            Err(GameError::ValidationError(ValidationFault::Inconsistent))
        } else if !amounts_positive(basket) {
            Err(GameError::ValidationError(ValidationFault::BadAmount))
        } else {
            Ok(CostView::Barter(basket))
        },
    }
}

/// Resolves the cost of a listing from its price and from the price lines
/// on record, of which only those of this listing count.
pub fn resolve_cost(listing: &ShopSellsItem, lines: &Vec<ItemAsPrice>) -> (r: Result<
    Cost,
    GameError,
>)
    ensures
        match spec_resolve_cost(listing, lines@) {
            Ok(v) => r matches Ok(c) && c@ == v,
            Err(e) => r matches Err(f) && f == e,
        },
{
    let n = lines.len();
    let mut basket: Vec<ItemAsPrice> = Vec::new();
    let mut positive = true;
    let mut i: usize = 0;
    proof {
        reveal(Seq::filter);
        assert(lines@.take(0) =~= Seq::<ItemAsPrice>::empty());
    }
    while i < n
        invariant
            i <= n,
            n == lines@.len(),
            basket@ == basket_of(lines@.take(i as int), listing.id),
            positive == amounts_positive(basket@),
        decreases n - i,
    {
        let line = lines[i];
        let ghost before = basket@;
        proof {
            reveal(Seq::filter);
            assert(lines@.take(i + 1).drop_last() =~= lines@.take(i as int));
            assert(lines@.take(i + 1).last() == line);
        }
        if line.shop_sells_item_id == listing.id {
            basket.push(line);
            proof {
                if positive && line.amount >= 1 {
                    assert forall|a: int| 0 <= a < basket@.len() implies (
                    #[trigger] basket@[a]).amount >= 1 by {
                        if a < before.len() {
                            assert(before[a].amount >= 1);
                        }
                    }
                } else if positive {
                    assert(basket@[before.len() as int].amount < 1);
                } else {
                    let w = choose|w: int| 0 <= w < before.len() && !((#[trigger] before[w]).amount
                        >= 1);
                    assert(basket@[w].amount < 1);
                }
            }
            positive = positive && line.amount >= 1;
        }
        i = i + 1;
    }
    assert(lines@.take(n as int) =~= lines@);
    match listing.price {
        Some(p) => {
            if basket.len() > 0 {
                Err(GameError::ValidationError(ValidationFault::Inconsistent))
            } else if p < 0 {
                Err(GameError::ValidationError(ValidationFault::BadAmount))
            } else {
                Ok(Cost::Currency(p))
            }
        },
        None => {
            if basket.len() == 0 {
                Err(GameError::ValidationError(ValidationFault::Inconsistent))
            } else if !positive {
                Err(GameError::ValidationError(ValidationFault::BadAmount))
            } else {
                Ok(Cost::Barter(basket))
            }
        },
    }
}

/// The rows after every line of the basket was paid, one after the other,
/// or `None` where the rows fall short of a line.
pub open spec fn paid(rows: Seq<InventoryItem>, basket: Seq<ItemAsPrice>) -> Option<
    Seq<InventoryItem>,
>
    decreases basket.len(),
{
    if basket.len() == 0 {
        Some(rows)
    } else if held(rows, basket[0].item_id) < basket[0].amount {
        None
    } else {
        paid(drained(rows, basket[0].item_id, basket[0].amount as int), basket.skip(1))
    }
}

/// Whether the cost is the cost of this listing: its price, or a basket of
/// its own price lines where it has no price.
pub open spec fn cost_matches(listing: &ShopSellsItem, cost: CostView) -> bool {
    match cost {
        CostView::Currency(p) => listing.price == Some(p),
        CostView::Barter(basket) => {
            &&& listing.price is None
            &&& basket.len() > 0
            &&& forall|i: int|
                0 <= i < basket.len() ==> (#[trigger] basket[i]).shop_sells_item_id == listing.id
        },
    }
}

/// What a purchase does: the character, the rows and the slot that took
/// the sold item afterwards, or the reason why nothing was done. An item
/// that is not the listed one is `NotFound`; a ledger of another character
/// or a cost of another listing is inconsistent.
pub open spec fn spec_purchase(
    character: CharacterView,
    rows: Seq<InventoryItem>,
    owner: u128,
    capacity: int,
    listing: &ShopSellsItem,
    item: &Item,
    cost: CostView,
) -> Result<(CharacterView, Seq<InventoryItem>, i16), GameError> {
    if item.id != listing.item_id {
        Err(GameError::NotFound)
    } else if owner != character.id || !cost_matches(listing, cost) {
        Err(GameError::ValidationError(ValidationFault::Inconsistent))
    } else {
        match cost {
            CostView::Currency(p) => if p < 0 {
                Err(GameError::ValidationError(ValidationFault::BadAmount))
            } else if character.digidollar < p {
                Err(GameError::InsufficientFunds)
            } else {
                match Inventory::spec_add(rows, capacity, item, 1) {
                    Err(e) => Err(e),
                    Ok(slot) => Ok(
                        (
                            CharacterView { digidollar: character.digidollar - p, ..character },
                            added(rows, owner, item, 1),
                            slot,
                        ),
                    ),
                }
            },
            CostView::Barter(basket) => if !amounts_positive(basket) {
                Err(GameError::ValidationError(ValidationFault::BadAmount))
            } else {
                match paid(rows, basket) {
                    None => Err(GameError::InsufficientFunds),
                    Some(left) => match Inventory::spec_add(left, capacity, item, 1) {
                        Err(e) => Err(e),
                        Ok(slot) => Ok((character, added(left, owner, item, 1), slot)),
                    },
                }
            },
        }
    }
}

#[verifier::loop_isolation(false)]
fn does_cost_match(listing: &ShopSellsItem, cost: &Cost) -> (b: bool)
    ensures
        b == cost_matches(listing, cost@),
{
    match cost {
        Cost::Currency(p) => match listing.price {
            Some(q) => q == *p,
            None => false,
        },
        Cost::Barter(basket) => {
            let n = basket.len();
            if listing.price.is_some() || n == 0 {
                return false;
            }
            let mut i: usize = 0;
            while i < n
                invariant
                    i <= n,
                    n == basket@.len(),
                    forall|j: int|
                        0 <= j < i ==> (#[trigger] basket@[j]).shop_sells_item_id == listing.id,
                decreases n - i,
            {
                if basket[i].shop_sells_item_id != listing.id {
                    assert(basket@[i as int].shop_sells_item_id != listing.id);
                    return false;
                }
                i = i + 1;
            }
            true
        },
    }
}

fn all_amounts_positive(basket: &Vec<ItemAsPrice>) -> (b: bool)
    ensures
        b == amounts_positive(basket@),
{
    let n = basket.len();
    let mut i: usize = 0;
    while i < n
        invariant
            i <= n,
            n == basket@.len(),
            forall|j: int| 0 <= j < i ==> (#[trigger] basket@[j]).amount >= 1,
        decreases n - i,
    {
        if basket[i].amount < 1 {
            return false;
        }
        i = i + 1;
    }
    true
}

/// Buys one unit of the listed item for the character. The purchase is all
/// or nothing: where it fails, neither the balance nor the ledger changes.
#[verifier::loop_isolation(false)]
pub fn purchase(
    character: &mut Character,
    inventory: &mut Inventory,
    listing: &ShopSellsItem,
    item: &Item,
    cost: &Cost,
) -> (r: Result<i16, GameError>)
    requires
        old(character).wf(),
        old(inventory).wf(),
    ensures
        final(character).wf(),
        final(inventory).wf(),
        final(inventory).owner() == old(inventory).owner(),
        final(inventory).capacity() == old(inventory).capacity(),
        match spec_purchase(
            old(character)@,
            old(inventory)@,
            old(inventory).owner(),
            old(inventory).capacity(),
            listing,
            item,
            cost@,
        ) {
            Ok((c, rows, slot)) => r == Ok::<i16, GameError>(slot) && final(character)@ == c
                && final(inventory)@ == rows,
            Err(e) => r == Err::<i16, GameError>(e) && *final(character) == *old(character)
                && final(inventory)@ == old(inventory)@,
        },
{
    if item.id != listing.item_id {
        return Err(GameError::NotFound);
    }
    if inventory.character_id() != character.id() || !does_cost_match(listing, cost) {
        return Err(GameError::ValidationError(ValidationFault::Inconsistent));
    }
    match cost {
        Cost::Currency(p) => {
            let price = *p;
            if price < 0 {
                return Err(GameError::ValidationError(ValidationFault::BadAmount));
            }
            if character.digidollar() < price {
                return Err(GameError::InsufficientFunds);
            }
            match inventory.add(item, 1) {
                Err(e) => Err(e),
                Ok(slot) => {
                    let _ = character.debit(price);
                    Ok(slot)
                },
            }
        },
        Cost::Barter(basket) => {
            if !all_amounts_positive(basket) {
                return Err(GameError::ValidationError(ValidationFault::BadAmount));
            }
            let mut work = inventory.snapshot();
            let n = basket.len();
            let mut i: usize = 0;
            assert(basket@.skip(0) =~= basket@);
            while i < n
                invariant
                    i <= n,
                    n == basket@.len(),
                    amounts_positive(basket@),
                    work.wf(),
                    work.owner() == inventory.owner(),
                    work.capacity() == inventory.capacity(),
                    paid(inventory@, basket@) == paid(work@, basket@.skip(i as int)),
                decreases n - i,
            {
                let line = basket[i];
                proof {
                    let rest = basket@.skip(i as int);
                    assert(rest[0] == line);
                    assert(rest.skip(1) =~= basket@.skip(i + 1));
                    assert(basket@[i as int].amount >= 1);
                }
                match work.consume(line.item_id, line.amount) {
                    Err(_) => {
                        return Err(GameError::InsufficientFunds);
                    },
                    Ok(()) => {},
                }
                i = i + 1;
            }
            match work.add(item, 1) {
                Err(e) => Err(e),
                Ok(slot) => {
                    *inventory = work;
                    Ok(slot)
                },
            }
        },
    }
}

/// Draining leaves no row with less than one unit.
pub proof fn lemma_drained_positive(rows: Seq<InventoryItem>, item: u128, need: int)
    requires
        forall|i: int| 0 <= i < rows.len() ==> (#[trigger] rows[i]).amount >= 1,
    ensures
        forall|i: int|
            0 <= i < drained(rows, item, need).len() ==> (#[trigger] drained(
                rows,
                item,
                need,
            )[i]).amount >= 1,
    decreases rows.len(),
{
    if rows.len() == 0 || need <= 0 {
    } else {
        let rest = rows.skip(1);
        assert forall|i: int| 0 <= i < rest.len() implies (#[trigger] rest[i]).amount >= 1 by {
            assert(rest[i] == rows[i + 1]);
        }
        assert(rows[0].amount >= 1);
        let d = drained(rows, item, need);
        if rows[0].item_id != item {
            lemma_drained_positive(rest, item, need);
            let tail = drained(rest, item, need);
            assert(d == seq![rows[0]] + tail);
            assert forall|i: int| 0 <= i < d.len() implies (#[trigger] d[i]).amount >= 1 by {
                if i > 0 {
                    assert(d[i] == tail[i - 1]);
                } else {
                    assert(d[0] == rows[0]);
                }
            }
        } else if rows[0].amount <= need {
            lemma_drained_positive(rest, item, need - rows[0].amount);
            assert(d == drained(rest, item, need - rows[0].amount));
        } else {
            assert forall|i: int| 0 <= i < d.len() implies (#[trigger] d[i]).amount >= 1 by {
                if i > 0 {
                    assert(d[i] == rest[i - 1]);
                } else {
                    assert(d[0].amount == rows[0].amount - need);
                }
            }
        }
    }
}

/// A barter is all or nothing: where the rows fall short of any one line
/// of the basket, nothing is paid at all.
pub proof fn lemma_short_line_fails(rows: Seq<InventoryItem>, basket: Seq<ItemAsPrice>, i: int)
    requires
        forall|a: int| 0 <= a < rows.len() ==> (#[trigger] rows[a]).amount >= 1,
        amounts_positive(basket),
        0 <= i < basket.len(),
        held(rows, basket[i].item_id) < basket[i].amount,
    ensures
        paid(rows, basket) is None,
    decreases basket.len(),
{
    if i > 0 && held(rows, basket[0].item_id) >= basket[0].amount {
        let first = basket[0];
        let left = drained(rows, first.item_id, first.amount as int);
        let rest = basket.skip(1);
        assert(first.amount >= 1);
        lemma_drained_positive(rows, first.item_id, first.amount as int);
        lemma_drained_held(rows, first.item_id, first.amount as int, basket[i].item_id);
        assert(rest[i - 1] == basket[i]);
        assert forall|a: int| 0 <= a < rest.len() implies (#[trigger] rest[a]).amount >= 1 by {
            assert(rest[a] == basket[a + 1]);
        }
        lemma_short_line_fails(left, rest, i - 1);
    }
}

/// A barter whose basket has a line that the ledger cannot pay fails as a
/// whole, whatever the other lines are and however well they are covered.
pub proof fn lemma_barter_all_or_nothing(
    character: CharacterView,
    rows: Seq<InventoryItem>,
    owner: u128,
    capacity: int,
    listing: &ShopSellsItem,
    item: &Item,
    basket: Seq<ItemAsPrice>,
    i: int,
)
    requires
        forall|a: int| 0 <= a < rows.len() ==> (#[trigger] rows[a]).amount >= 1,
        0 <= i < basket.len(),
        held(rows, basket[i].item_id) < basket[i].amount,
    ensures
        spec_purchase(character, rows, owner, capacity, listing, item, CostView::Barter(basket))
            is Err,
{
    if amounts_positive(basket) {
        lemma_short_line_fails(rows, basket, i);
    }
}

/// A cost that `resolve_cost` yields is the cost of the listing it was
/// resolved for, with no amount below what a price may be: `purchase` never
/// refuses it as inconsistent or as a bad amount.
pub proof fn lemma_resolved_cost_matches(listing: &ShopSellsItem, lines: Seq<ItemAsPrice>)
    requires
        spec_resolve_cost(listing, lines) is Ok,
    ensures
        cost_matches(listing, spec_resolve_cost(listing, lines)->Ok_0),
        match spec_resolve_cost(listing, lines)->Ok_0 {
            CostView::Currency(p) => p >= 0,
            CostView::Barter(basket) => amounts_positive(basket),
        },
{
    let basket = basket_of(lines, listing.id);
    assert forall|i: int| 0 <= i < basket.len() implies (#[trigger] basket[i]).shop_sells_item_id
        == listing.id by {
        lines.lemma_filter_pred(belongs_to(listing.id), i);
    }
}

} // verus!
