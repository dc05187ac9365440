use vstd::prelude::*;

use crate::error::LedgerError;
use crate::timestamp::{parsed_minute, Timestamp};

verus! {

/// A named tradable entity. Its identifier never changes once assigned.
#[derive(Clone, Debug)]
pub struct Item {
    pub id: i64,
    pub name: String,
}

/// One buy or sell event of an item, as the ledger stores it.
#[derive(Clone, Copy, Debug, PartialEq, Eq, Structural)]
pub struct Trade {
    pub id: i64,
    pub item_id: i64,
    pub quantity: i64,
    /// The whole consideration of the trade, not a unit price.
    pub total_price: i64,
    pub is_purchase: bool,
    pub timestamp: Timestamp,
}

/// One trade as callers read it: the item's name stands in place of its identifier.
#[derive(Clone, Debug)]
pub struct ItemData {
    pub id: i64,
    pub item_name: String,
    pub quantity: i64,
    pub total_price: i64,
    pub is_purchase: bool,
    pub timestamp: Timestamp,
}

/// The plain content of a listed trade: identifier, item name, quantity, total price,
/// direction and time.
pub type RowView = (i64, Seq<char>, i64, i64, bool, Timestamp);

impl View for ItemData {
    type V = RowView;

    open spec fn view(&self) -> RowView {
        (self.id, self.item_name@, self.quantity, self.total_price, self.is_purchase, self.timestamp)
    }
}

pub open spec fn rows_view(rows: Seq<ItemData>) -> Seq<RowView> {
    rows.map_values(|d: ItemData| d@)
}

/// The identifier that the directory gives `name`, if it holds it.
pub open spec fn id_of(items: Seq<Item>, name: Seq<char>) -> Option<i64>
    decreases items.len(),
{
    if items.len() == 0 {
        None
    } else if items.last().name@ == name {
        Some(items.last().id)
    } else {
        id_of(items.drop_last(), name)
    }
}

/// The name of the item with identifier `id` (empty where there is none).
pub open spec fn name_of(items: Seq<Item>, id: i64) -> Seq<char>
    decreases items.len(),
{
    if items.len() == 0 {
        Seq::empty()
    } else if items.last().id == id {
        items.last().name@
    } else {
        name_of(items.drop_last(), id)
    }
}

pub open spec fn has_item_id(items: Seq<Item>, id: i64) -> bool {
    exists|k: int| 0 <= k < items.len() && #[trigger] items[k].id == id
}

pub open spec fn has_trade_id(trades: Seq<Trade>, id: i64) -> bool {
    exists|k: int| 0 <= k < trades.len() && #[trigger] trades[k].id == id
}

/// Item identifiers are positive, below the next one to hand out, and ascending; names
/// are non-empty and unique.
pub open spec fn items_wf(items: Seq<Item>, next_id: i64) -> bool {
    &&& next_id >= 1
    &&& forall|i: int|
        0 <= i < items.len() ==> 1 <= #[trigger] items[i].id < next_id && items[i].name@.len() > 0
    &&& forall|i: int, j: int|
        0 <= i < j < items.len() ==> #[trigger] items[i].id < #[trigger] items[j].id
    &&& forall|i: int, j: int|
        0 <= i < items.len() && 0 <= j < items.len() && i != j ==> #[trigger] items[i].name@
            != #[trigger] items[j].name@
}

/// A stored trade refers to an existing item and a real minute, and its identifier has
/// already been handed out.
pub open spec fn trade_fits(items: Seq<Item>, t: Trade, next_id: i64) -> bool {
    &&& 1 <= t.id < next_id
    &&& has_item_id(items, t.item_id)
    &&& t.timestamp.wf()
}

/// Every trade fits, and trades are stored in ascending order of identifier.
pub open spec fn trades_wf(items: Seq<Item>, trades: Seq<Trade>, next_id: i64) -> bool {
    &&& next_id >= 1
    &&& forall|i: int| 0 <= i < trades.len() ==> trade_fits(items, #[trigger] trades[i], next_id)
    &&& forall|i: int, j: int|
        0 <= i < j < trades.len() ==> #[trigger] trades[i].id < #[trigger] trades[j].id
}

/// What a trade adds to profit/loss: a sale brings its consideration in, a purchase pays it
/// out. The consideration is the whole price of the trade, so the quantity does not scale it.
pub open spec fn contribution(t: Trade) -> int {
    if t.is_purchase {
        -(t.total_price as int)
    } else {
        t.total_price as int
    }
}

/// The net profit/loss of a sequence of trades.
pub open spec fn total_of(trades: Seq<Trade>) -> int
    decreases trades.len(),
{
    if trades.len() == 0 {
        0
    } else {
        total_of(trades.drop_last()) + contribution(trades.last())
    }
}

/// The denormalized form of a stored trade.
pub open spec fn row_of(items: Seq<Item>, t: Trade) -> RowView {
    (t.id, name_of(items, t.item_id), t.quantity, t.total_price, t.is_purchase, t.timestamp)
}

/// Which rows a listing keeps: all of them, or those whose item name is exactly the filter.
pub open spec fn keeps(filter: Option<Seq<char>>) -> spec_fn(RowView) -> bool {
    |r: RowView|
        match filter {
            None => true,
            Some(x) => r.1 == x,
        }
}

/// The trades, in storage order, joined with their item names.
pub open spec fn rows_of(items: Seq<Item>, trades: Seq<Trade>) -> Seq<RowView> {
    trades.map_values(|t: Trade| row_of(items, t))
}

/// The trades, in storage order, joined with their item names and filtered.
pub open spec fn listing(items: Seq<Item>, trades: Seq<Trade>, filter: Option<Seq<char>>) -> Seq<
    RowView,
> {
    rows_of(items, trades).filter(keeps(filter))
}

pub open spec fn filter_view(filter: Option<&str>) -> Option<Seq<char>> {
    match filter {
        Some(x) => Some(x@),
        None => None,
    }
}

/// The trades that remain once the trade with identifier `id` is gone.
pub open spec fn without_trade(trades: Seq<Trade>, id: i64) -> Seq<Trade> {
    trades.filter(|t: Trade| t.id != id)
}

/// The store of items and trades.
pub struct Ledger {
    items: Vec<Item>,
    trades: Vec<Trade>,
    next_item_id: i64,
    next_trade_id: i64,
}

impl Ledger {
    /// The items, in the order the directory created them.
    pub closed spec fn items(&self) -> Seq<Item> {
        self.items@
    }

    /// The trades, in ascending order of identifier.
    pub closed spec fn trades(&self) -> Seq<Trade> {
        self.trades@
    }

    /// The identifier that the next new item gets.
    pub closed spec fn next_item_id(&self) -> i64 {
        self.next_item_id
    }

    /// The identifier that the next new trade gets.
    pub closed spec fn next_trade_id(&self) -> i64 {
        self.next_trade_id
    }

    pub open spec fn wf(&self) -> bool {
        &&& items_wf(self.items(), self.next_item_id())
        &&& trades_wf(self.items(), self.trades(), self.next_trade_id())
    }
}

/// Nothing in the store has changed.
pub open spec fn unchanged(pre: Ledger, post: Ledger) -> bool {
    &&& post.items() == pre.items()
    &&& post.trades() == pre.trades()
    &&& post.next_item_id() == pre.next_item_id()
    &&& post.next_trade_id() == pre.next_trade_id()
}

/// The identifier that `name` has once the directory has resolved it.
pub open spec fn item_id_after(pre: Ledger, name: Seq<char>) -> i64 {
    match id_of(pre.items(), name) {
        Some(id) => id,
        None => pre.next_item_id(),
    }
}

/// The directory after resolving `name`: kept as it was if it held the name, else grown by
/// one item that carries the next identifier.
pub open spec fn directory_after(pre: Ledger, name: Seq<char>, post: Ledger) -> bool {
    match id_of(pre.items(), name) {
        Some(_) => post.items() == pre.items() && post.next_item_id() == pre.next_item_id(),
        None => {
            &&& post.items().len() == pre.items().len() + 1
            &&& post.items().drop_last() == pre.items()
            &&& post.items().last().id == pre.next_item_id()
            &&& post.items().last().name@ == name
            &&& post.next_item_id() == pre.next_item_id() + 1
        },
    }
}

/// The outcome of resolving `name` in the directory.
pub open spec fn resolved(pre: Ledger, name: Seq<char>, r: Result<i64, LedgerError>, post: Ledger) -> bool {
    if name.len() == 0 {
        r == Err::<i64, LedgerError>(LedgerError::Validation) && unchanged(pre, post)
    } else if id_of(pre.items(), name) is None && pre.next_item_id() == i64::MAX {
        r == Err::<i64, LedgerError>(LedgerError::Storage) && unchanged(pre, post)
    } else {
        &&& r == Ok::<i64, LedgerError>(item_id_after(pre, name))
        &&& directory_after(pre, name, post)
        &&& post.trades() == pre.trades()
        &&& post.next_trade_id() == pre.next_trade_id()
    }
}

/// The outcome of recording a trade of the item named `name`.
pub open spec fn recorded(
    pre: Ledger,
    name: Seq<char>,
    quantity: i64,
    total_price: i64,
    is_purchase: bool,
    timestamp: Timestamp,
    r: Result<i64, LedgerError>,
    post: Ledger,
) -> bool {
    if name.len() == 0 {
        r == Err::<i64, LedgerError>(LedgerError::Validation) && unchanged(pre, post)
    } else if !timestamp.wf() {
        r == Err::<i64, LedgerError>(LedgerError::Timestamp) && unchanged(pre, post)
    } else if pre.next_trade_id() == i64::MAX || (id_of(pre.items(), name) is None
        && pre.next_item_id() == i64::MAX) {
        r == Err::<i64, LedgerError>(LedgerError::Storage) && unchanged(pre, post)
    } else {
        &&& r == Ok::<i64, LedgerError>(pre.next_trade_id())
        &&& directory_after(pre, name, post)
        &&& post.trades() == pre.trades().push(
            (Trade {
                id: pre.next_trade_id(),
                item_id: item_id_after(pre, name),
                quantity,
                total_price,
                is_purchase,
                timestamp,
            }),
        )
        &&& post.next_trade_id() == pre.next_trade_id() + 1
    }
}

proof fn lemma_id_of_none(items: Seq<Item>, name: Seq<char>)
    requires
        id_of(items, name) is None,
    ensures
        forall|k: int| 0 <= k < items.len() ==> #[trigger] items[k].name@ != name,
    decreases items.len(),
{
    if items.len() > 0 {
        lemma_id_of_none(items.drop_last(), name);
        assert forall|k: int| 0 <= k < items.len() implies #[trigger] items[k].name@ != name by {
            if k < items.len() - 1 {
                assert(items.drop_last()[k] == items[k]);
            }
        }
    }
}

pub(crate) proof fn lemma_id_of_some(items: Seq<Item>, name: Seq<char>)
    requires
        id_of(items, name) is Some,
    ensures
        has_item_id(items, id_of(items, name)->0),
    decreases items.len(),
{
    if items.last().name@ == name {
        assert(items[items.len() - 1].id == id_of(items, name)->0);
    } else {
        lemma_id_of_some(items.drop_last(), name);
        let k = choose|k: int|
            0 <= k < items.drop_last().len() && #[trigger] items.drop_last()[k].id == id_of(
                items,
                name,
            )->0;
        assert(items[k].id == id_of(items, name)->0);
    }
}

/// Growing the directory keeps every identifier it held.
proof fn lemma_grown_directory_keeps_ids(pre: Seq<Item>, post: Seq<Item>)
    requires
        post.len() == pre.len() + 1,
        post.drop_last() == pre,
    ensures
        forall|id: i64| has_item_id(pre, id) ==> #[trigger] has_item_id(post, id),
{
    assert forall|id: i64| has_item_id(pre, id) implies #[trigger] has_item_id(post, id) by {
        let k = choose|k: int| 0 <= k < pre.len() && #[trigger] pre[k].id == id;
        assert(post.drop_last()[k] == post[k]);
    }
}

/// A directory grown by an item with a fresh identifier and a new name is still well formed,
/// and the trades still refer to items in it.
proof fn lemma_grown_ledger_wf(pre: Ledger, name: Seq<char>, post: Ledger)
    requires
        pre.wf(),
        name.len() > 0,
        id_of(pre.items(), name) is None,
        post.items().len() == pre.items().len() + 1,
        post.items().drop_last() == pre.items(),
        post.items().last().name@ == name,
        pre.next_item_id() <= post.items().last().id < i64::MAX,
        post.next_item_id() == post.items().last().id + 1,
        post.trades() == pre.trades(),
        post.next_trade_id() == pre.next_trade_id(),
    ensures
        post.wf(),
{
    let a = pre.items();
    let b = post.items();
    lemma_id_of_none(a, name);
    assert forall|i: int| 0 <= i < b.len() - 1 implies #[trigger] b[i] == a[i] by {
        assert(b.drop_last()[i] == b[i]);
    }
    assert(b[b.len() - 1] == b.last());
    assert forall|i: int, j: int| 0 <= i < j < b.len() implies #[trigger] b[i].id
        < #[trigger] b[j].id by {
        if j < b.len() - 1 {
            assert(a[i].id < a[j].id);
        } else {
            assert(1 <= a[i].id < pre.next_item_id());
            assert(b[j].id == b.last().id);
        }
    }
    assert forall|i: int, j: int|
        0 <= i < b.len() && 0 <= j < b.len() && i != j implies #[trigger] b[i].name@
        != #[trigger] b[j].name@ by {
        if i < b.len() - 1 && j < b.len() - 1 {
            assert(a[i].name@ != a[j].name@);
        } else if i < b.len() - 1 {
            assert(a[i].name@ != name);
        } else {
            assert(a[j].name@ != name);
        }
    }
    assert(items_wf(b, post.next_item_id()));
    lemma_grown_directory_keeps_ids(a, b);
    assert forall|i: int| 0 <= i < post.trades().len() implies trade_fits(
        b,
        #[trigger] post.trades()[i],
        post.next_trade_id(),
    ) by {
        assert(trade_fits(a, pre.trades()[i], pre.next_trade_id()));
    }
}

impl Ledger {
    /// An empty ledger: no items, no trades.
    pub fn new() -> (r: Ledger)
        ensures
            r.wf(),
            r.items().len() == 0,
            r.trades().len() == 0,
            r.next_item_id() == 1,
            r.next_trade_id() == 1,
    {
        Ledger { items: Vec::new(), trades: Vec::new(), next_item_id: 1, next_trade_id: 1 }
    }

    /// Looks `name` up in the directory.
    fn find_item(&self, name: &String) -> (r: Option<i64>)
        ensures
            r == id_of(self.items(), name@),
    {
        let mut i: usize = self.items.len();
        assert(self.items@.take(i as int) =~= self.items@);
        while i > 0
            invariant
                i <= self.items@.len(),
                id_of(self.items@, name@) == id_of(self.items@.take(i as int), name@),
            decreases i,
        {
            assert(self.items@.take(i as int).drop_last() =~= self.items@.take(i - 1));
            if self.items[i - 1].name == *name {
                return Some(self.items[i - 1].id);
            }
            i = i - 1;
        }
        None
    }

    /// Whether an item with identifier `id` exists.
    fn holds_item_id(&self, id: i64) -> (r: bool)
        ensures
            r == has_item_id(self.items(), id),
    {
        let mut i: usize = 0;
        while i < self.items.len()
            invariant
                i <= self.items@.len(),
                forall|k: int| 0 <= k < i ==> #[trigger] self.items@[k].id != id,
            decreases self.items@.len() - i,
        {
            if self.items[i].id == id {
                return true;
            }
            i = i + 1;
        }
        false
    }

    /// The name of the item with identifier `id` (empty where there is none).
    fn name_for_id(&self, id: i64) -> (r: String)
        ensures
            r@ == name_of(self.items(), id),
    {
        let mut i: usize = self.items.len();
        assert(self.items@.take(i as int) =~= self.items@);
        while i > 0
            invariant
                i <= self.items@.len(),
                name_of(self.items@, id) == name_of(self.items@.take(i as int), id),
            decreases i,
        {
            assert(self.items@.take(i as int).drop_last() =~= self.items@.take(i - 1));
            if self.items[i - 1].id == id {
                return self.items[i - 1].name.clone();
            }
            i = i - 1;
        }
        String::new()
    }

    /// The identifier of the item named exactly `name`, created first if the directory does
    /// not hold it yet. Resolving a name that is held changes nothing.
    pub fn resolve_or_create(&mut self, name: &str) -> (r: Result<i64, LedgerError>)
        requires
            old(self).wf(),
        ensures
            final(self).wf(),
            resolved(*old(self), name@, r, *final(self)),
    {
        if name.is_empty() {
            return Err(LedgerError::Validation);
        }
        let owned = name.to_owned();
        match self.find_item(&owned) {
            Some(id) => Ok(id),
            None => {
                if self.next_item_id == i64::MAX {
                    return Err(LedgerError::Storage);
                }
                let id = self.next_item_id;
                let ghost pre = *self;
                self.items.push(Item { id, name: owned });
                self.next_item_id = id + 1;
                proof {
                    assert(self.items@.drop_last() =~= pre.items@);
                    lemma_grown_ledger_wf(pre, name@, *self);
                }
                Ok(id)
            },
        }
    }

    /// Records a trade of the item named `item_name` at a minute already in calendar form,
    /// creating the item first if the directory does not hold it. Returns the new trade's
    /// identifier. A refused trade leaves the ledger as it was.
    pub fn record_at(
        &mut self,
        item_name: &str,
        quantity: i64,
        total_price: i64,
        is_purchase: bool,
        timestamp: Timestamp,
    ) -> (r: Result<i64, LedgerError>)
        requires
            old(self).wf(),
        ensures
            final(self).wf(),
            recorded(
                *old(self),
                item_name@,
                quantity,
                total_price,
                is_purchase,
                timestamp,
                r,
                *final(self),
            ),
    {
        if item_name.is_empty() {
            return Err(LedgerError::Validation);
        }
        if !timestamp.is_valid() {
            return Err(LedgerError::Timestamp);
        }
        if self.next_trade_id == i64::MAX {
            return Err(LedgerError::Storage);
        }
        let ghost pre = *self;
        let item_id = match self.resolve_or_create(item_name) {
            Ok(id) => id,
            Err(e) => {
                return Err(e);
            },
        };
        let ghost mid = *self;
        proof {
            assert(id_of(mid.items(), item_name@) == Some(item_id));
            lemma_id_of_some(mid.items(), item_name@);
        }
        let id = self.next_trade_id;
        self.trades.push(Trade { id, item_id, quantity, total_price, is_purchase, timestamp });
        self.next_trade_id = id + 1;
        proof {
            assert forall|i: int| 0 <= i < self.trades@.len() implies trade_fits(
                self.items@,
                #[trigger] self.trades@[i],
                self.next_trade_id,
            ) by {
                if i < mid.trades().len() {
                    assert(trade_fits(mid.items(), mid.trades()[i], mid.next_trade_id()));
                }
            }
        }
        Ok(id)
    }

    /// Records a trade whose minute is written `YYYY-MM-DDTHH:MM`. An empty item name is
    /// refused first, then a timestamp that does not parse.
    pub fn record(
        &mut self,
        item_name: &str,
        quantity: i64,
        total_price: i64,
        is_purchase: bool,
        timestamp: &str,
    ) -> (r: Result<i64, LedgerError>)
        requires
            old(self).wf(),
        ensures
            final(self).wf(),
            item_name@.len() == 0 ==> r == Err::<i64, LedgerError>(LedgerError::Validation)
                && unchanged(*old(self), *final(self)),
            item_name@.len() > 0 ==> match parsed_minute(timestamp@) {
                None => r == Err::<i64, LedgerError>(LedgerError::Timestamp) && unchanged(
                    *old(self),
                    *final(self),
                ),
                Some(f) => recorded(
                    *old(self),
                    item_name@,
                    quantity,
                    total_price,
                    is_purchase,
                    Timestamp::from_fields(f),
                    r,
                    *final(self),
                ),
            },
    {
        if item_name.is_empty() {
            return Err(LedgerError::Validation);
        }
        match Timestamp::parse(timestamp) {
            Ok(t) => self.record_at(item_name, quantity, total_price, is_purchase, t),
            Err(e) => Err(e),
        }
    }

    /// The trades in ascending order of identifier, each with its item's name, either all of
    /// them or those whose item name is exactly `item_name`.
    pub fn list(&self, item_name: Option<&str>) -> (r: Vec<ItemData>)
        ensures
            rows_view(r@) == listing(self.items(), self.trades(), filter_view(item_name)),
    {
        let ghost filter = filter_view(item_name);
        let wanted: Option<String> = match item_name {
            Some(x) => Some(x.to_owned()),
            None => None,
        };
        let mut out: Vec<ItemData> = Vec::new();
        let mut i: usize = 0;
        while i < self.trades.len()
            invariant
                i <= self.trades@.len(),
                filter == filter_view(item_name),
                wanted matches Some(w) ==> filter == Some(w@),
                wanted is None ==> filter is None,
                rows_view(out@) == listing(self.items@, self.trades@.take(i as int), filter),
            decreases self.trades@.len() - i,
        {
            let t = self.trades[i];
            let name = self.name_for_id(t.item_id);
            let keep = match &wanted {
                Some(w) => name == *w,
                None => true,
            };
            let row = ItemData {
                id: t.id,
                item_name: name,
                quantity: t.quantity,
                total_price: t.total_price,
                is_purchase: t.is_purchase,
                timestamp: t.timestamp,
            };
            proof {
                lemma_listing_step(self.items@, self.trades@, i as int, filter);
                assert(row@ == row_of(self.items@, self.trades@[i as int]));
            }
            let ghost before = out@;
            if keep {
                out.push(row);
                assert(rows_view(out@) =~= rows_view(before).push(row@));
            }
            i = i + 1;
        }
        assert(self.trades@.take(i as int) =~= self.trades@);
        out
    }

    /// Removes the trade with identifier `id`. Removing an identifier that no trade has is
    /// not an error: nothing changes, and the result says whether a trade went.
    pub fn delete(&mut self, id: i64) -> (r: bool)
        requires
            old(self).wf(),
        ensures
            final(self).wf(),
            r == has_trade_id(old(self).trades(), id),
            final(self).trades() == without_trade(old(self).trades(), id),
            final(self).items() == old(self).items(),
            final(self).next_item_id() == old(self).next_item_id(),
            final(self).next_trade_id() == old(self).next_trade_id(),
    {
        let mut kept: Vec<Trade> = Vec::new();
        let mut found = false;
        let mut i: usize = 0;
        while i < self.trades.len()
            invariant
                self.wf(),
                i <= self.trades@.len(),
                kept@ == without_trade(self.trades@.take(i as int), id),
                found == exists|k: int| 0 <= k < i && #[trigger] self.trades@[k].id == id,
                forall|a: int|
                    0 <= a < kept@.len() ==> trade_fits(
                        self.items@,
                        #[trigger] kept@[a],
                        self.next_trade_id,
                    ),
                forall|a: int, b: int|
                    0 <= a < b < kept@.len() ==> #[trigger] kept@[a].id < #[trigger] kept@[b].id,
                forall|a: int|
                    0 <= a < kept@.len() && i < self.trades@.len() ==> #[trigger] kept@[a].id
                        < self.trades@[i as int].id,
            decreases self.trades@.len() - i,
        {
            let t = self.trades[i];
            proof {
                lemma_without_trade_step(self.trades@, i as int, id);
            }
            if t.id == id {
                found = true;
            } else {
                kept.push(t);
            }
            assert(trade_fits(self.items@, self.trades@[i as int], self.next_trade_id));
            if i + 1 < self.trades.len() {
                assert(self.trades@[i as int].id < self.trades@[i + 1].id);
            }
            i = i + 1;
        }
        assert(self.trades@.take(i as int) =~= self.trades@);
        assert(found == has_trade_id(self.trades@, id));
        self.trades = kept;
        found
    }

    /// The net profit/loss: the sum over all trades of their consideration, counted positive
    /// for a sale and negative for a purchase. The sum is exact: no count of trades that a
    /// vector can hold makes it overflow.
    pub fn compute_total(&self) -> (r: i128)
        ensures
            r as int == total_of(self.trades()),
    {
        let mut total: i128 = 0;
        let mut i: usize = 0;
        while i < self.trades.len()
            invariant
                i <= self.trades@.len(),
                total as int == total_of(self.trades@.take(i as int)),
                -(i as int) * 0x8000_0000_0000_0000 <= total <= (i as int) * 0x8000_0000_0000_0000,
            decreases self.trades@.len() - i,
        {
            let t = self.trades[i];
            assert(self.trades@.take(i + 1).drop_last() =~= self.trades@.take(i as int));
            assert((i as int + 1) * 0x8000_0000_0000_0000 <= 0xFFFF_FFFF_FFFF_FFFF
                * 0x8000_0000_0000_0000) by (nonlinear_arith)
                requires
                    i as int + 1 <= 0xFFFF_FFFF_FFFF_FFFF,
            ;
            if t.is_purchase {
                total = total - t.total_price as i128;
            } else {
                total = total + t.total_price as i128;
            }
            i = i + 1;
        }
        assert(self.trades@.take(i as int) =~= self.trades@);
        total
    }
}

impl Ledger {
    /// Puts back an item that the store held: it must come after every item put back so far,
    /// in order of identifier, and carry a name that none of them has.
    pub fn restore_item(&mut self, id: i64, name: &str) -> (r: Result<(), LedgerError>)
        requires
            old(self).wf(),
        ensures
            final(self).wf(),
            r == if name@.len() == 0 {
                Err::<(), LedgerError>(LedgerError::Validation)
            } else if id < old(self).next_item_id() || id == i64::MAX || id_of(
                old(self).items(),
                name@,
            ) is Some {
                Err::<(), LedgerError>(LedgerError::Storage)
            } else {
                Ok::<(), LedgerError>(())
            },
            r is Err ==> unchanged(*old(self), *final(self)),
            r is Ok ==> {
                &&& final(self).items().len() == old(self).items().len() + 1
                &&& final(self).items().drop_last() == old(self).items()
                &&& final(self).items().last().id == id
                &&& final(self).items().last().name@ == name@
                &&& final(self).next_item_id() == id + 1
                &&& final(self).trades() == old(self).trades()
                &&& final(self).next_trade_id() == old(self).next_trade_id()
            },
    {
        if name.is_empty() {
            return Err(LedgerError::Validation);
        }
        if id < self.next_item_id || id == i64::MAX {
            return Err(LedgerError::Storage);
        }
        let owned = name.to_owned();
        if self.find_item(&owned).is_some() {
            return Err(LedgerError::Storage);
        }
        let ghost pre = *self;
        self.items.push(Item { id, name: owned });
        self.next_item_id = id + 1;
        proof {
            assert(self.items@.drop_last() =~= pre.items@);
            lemma_grown_ledger_wf(pre, name@, *self);
        }
        Ok(())
    }

    /// Puts back a trade that the store held: it must come after every trade put back so
    /// far, in order of identifier, and refer to an item already put back.
    pub fn restore_trade(
        &mut self,
        id: i64,
        item_id: i64,
        quantity: i64,
        total_price: i64,
        is_purchase: bool,
        timestamp: Timestamp,
    ) -> (r: Result<(), LedgerError>)
        requires
            old(self).wf(),
        ensures
            final(self).wf(),
            r == if !timestamp.wf() {
                Err::<(), LedgerError>(LedgerError::Timestamp)
            } else if !has_item_id(old(self).items(), item_id) {
                Err::<(), LedgerError>(LedgerError::NotFound)
            } else if id < old(self).next_trade_id() || id == i64::MAX {
                Err::<(), LedgerError>(LedgerError::Storage)
            } else {
                Ok::<(), LedgerError>(())
            },
            r is Err ==> unchanged(*old(self), *final(self)),
            r is Ok ==> {
                &&& final(self).trades() == old(self).trades().push(
                    (Trade { id, item_id, quantity, total_price, is_purchase, timestamp }),
                )
                &&& final(self).next_trade_id() == id + 1
                &&& final(self).items() == old(self).items()
                &&& final(self).next_item_id() == old(self).next_item_id()
            },
    {
        if !timestamp.is_valid() {
            return Err(LedgerError::Timestamp);
        }
        if !self.holds_item_id(item_id) {
            return Err(LedgerError::NotFound);
        }
        if id < self.next_trade_id || id == i64::MAX {
            return Err(LedgerError::Storage);
        }
        let ghost pre = *self;
        self.trades.push(Trade { id, item_id, quantity, total_price, is_purchase, timestamp });
        self.next_trade_id = id + 1;
        proof {
            assert forall|i: int| 0 <= i < self.trades@.len() implies trade_fits(
                self.items@,
                #[trigger] self.trades@[i],
                self.next_trade_id,
            ) by {
                if i < pre.trades().len() {
                    assert(trade_fits(pre.items(), pre.trades()[i], pre.next_trade_id()));
                }
            }
        }
        Ok(())
    }
}

proof fn lemma_listing_step(items: Seq<Item>, trades: Seq<Trade>, i: int, filter: Option<Seq<char>>)
    requires
        0 <= i < trades.len(),
    ensures
        listing(items, trades.take(i + 1), filter) == if keeps(filter)(row_of(items, trades[i])) {
            listing(items, trades.take(i), filter).push(row_of(items, trades[i]))
        } else {
            listing(items, trades.take(i), filter)
        },
{
    reveal(Seq::filter);
    let s = rows_of(items, trades.take(i + 1));
    assert(s.drop_last() =~= rows_of(items, trades.take(i)));
    assert(s.last() == row_of(items, trades[i]));
}

proof fn lemma_without_trade_step(trades: Seq<Trade>, i: int, id: i64)
    requires
        0 <= i < trades.len(),
    ensures
        without_trade(trades.take(i + 1), id) == if trades[i].id != id {
            without_trade(trades.take(i), id).push(trades[i])
        } else {
            without_trade(trades.take(i), id)
        },
{
    reveal(Seq::filter);
    let s = trades.take(i + 1);
    assert(s.drop_last() =~= trades.take(i));
    assert(s.last() == trades[i]);
}

} // verus!
