//! Properties that relate several ledger operations, proved over the models that the
//! operations' own contracts use.
use vstd::prelude::*;

use crate::error::LedgerError;
use crate::ledger::{
    has_trade_id, id_of, item_id_after, keeps, lemma_id_of_some, listing, name_of,
    recorded, resolved, row_of, rows_of, total_of, trade_fits, unchanged, without_trade, Item,
    Ledger, Trade,
};
use crate::timestamp::Timestamp;

verus! {

/// A filter that keeps every element keeps the sequence as it is.
proof fn lemma_filter_keeps_all<A>(s: Seq<A>, p: spec_fn(A) -> bool)
    requires
        forall|i: int| 0 <= i < s.len() ==> p(#[trigger] s[i]),
    ensures
        s.filter(p) == s,
    decreases s.len(),
{
    reveal(Seq::filter);
    if s.len() > 0 {
        let d = s.drop_last();
        assert forall|i: int| 0 <= i < d.len() implies p(#[trigger] d[i]) by {
            assert(d[i] == s[i]);
        }
        lemma_filter_keeps_all(d, p);
        assert(p(s[s.len() - 1]));
        assert(d.push(s.last()) =~= s);
    }
}

/// Removing an identifier from trades with ascending identifiers drops one trade if some
/// trade has it, and none otherwise.
proof fn lemma_without_trade_len(s: Seq<Trade>, id: i64)
    requires
        forall|i: int, j: int| 0 <= i < j < s.len() ==> #[trigger] s[i].id < #[trigger] s[j].id,
    ensures
        without_trade(s, id).len() == s.len() - if has_trade_id(s, id) { 1int } else { 0 },
    decreases s.len(),
{
    reveal(Seq::filter);
    if s.len() > 0 {
        let d = s.drop_last();
        assert forall|i: int, j: int| 0 <= i < j < d.len() implies #[trigger] d[i].id
            < #[trigger] d[j].id by {
            assert(d[i] == s[i] && d[j] == s[j]);
        }
        lemma_without_trade_len(d, id);
        if has_trade_id(d, id) {
            let k = choose|k: int| 0 <= k < d.len() && #[trigger] d[k].id == id;
            assert(s[k].id == id);
            assert(s[k].id < s[s.len() - 1].id);
        }
        if has_trade_id(s, id) && s.last().id != id {
            let k = choose|k: int| 0 <= k < s.len() && #[trigger] s[k].id == id;
            assert(d[k].id == id);
        }
        if s.last().id == id {
            assert(s[s.len() - 1].id == id);
        }
    }
}

/// With ascending item identifiers, the item that a name resolves to carries that name.
proof fn lemma_name_of_resolved(items: Seq<Item>, name: Seq<char>)
    requires
        forall|i: int, j: int|
            0 <= i < j < items.len() ==> #[trigger] items[i].id < #[trigger] items[j].id,
        id_of(items, name) is Some,
    ensures
        name_of(items, id_of(items, name)->0) == name,
    decreases items.len(),
{
    if items.last().name@ != name {
        let d = items.drop_last();
        assert forall|i: int, j: int| 0 <= i < j < d.len() implies #[trigger] d[i].id
            < #[trigger] d[j].id by {
            assert(d[i] == items[i] && d[j] == items[j]);
        }
        lemma_name_of_resolved(d, name);
        lemma_id_of_some(d, name);
        let k = choose|k: int| 0 <= k < d.len() && #[trigger] d[k].id == id_of(d, name)->0;
        assert(items[k].id < items[items.len() - 1].id);
    }
}

/// Listing without a filter shows every stored trade, one row each, in storage order.
pub proof fn lemma_unfiltered_listing(items: Seq<Item>, trades: Seq<Trade>)
    ensures
        listing(items, trades, None) == rows_of(items, trades),
        listing(items, trades, None).len() == trades.len(),
{
    lemma_filter_keeps_all(rows_of(items, trades), keeps(None));
}

/// Resolving a name a second time gives the identifier that the first call gave, and
/// changes nothing.
pub proof fn lemma_resolve_idempotent(
    l0: Ledger,
    l1: Ledger,
    l2: Ledger,
    name: Seq<char>,
    r1: Result<i64, LedgerError>,
    r2: Result<i64, LedgerError>,
)
    requires
        resolved(l0, name, r1, l1),
        resolved(l1, name, r2, l2),
        r1 is Ok,
    ensures
        r2 == r1,
        unchanged(l1, l2),
{
    if id_of(l0.items(), name) is None {
        assert(l1.items().last().name@ == name);
    }
    assert(id_of(l1.items(), name) == Some(item_id_after(l0, name)));
}

/// In a well-formed directory two different names never resolve to the same identifier.
pub proof fn lemma_distinct_names_distinct_ids(l: Ledger, a: Seq<char>, b: Seq<char>)
    requires
        l.wf(),
        id_of(l.items(), a) is Some,
        id_of(l.items(), b) is Some,
        a != b,
    ensures
        id_of(l.items(), a) != id_of(l.items(), b),
{
    lemma_name_of_resolved(l.items(), a);
    lemma_name_of_resolved(l.items(), b);
}

/// A recorded trade adds one row to the unfiltered listing; a refused one adds none.
pub proof fn lemma_record_adds_one_row(
    pre: Ledger,
    name: Seq<char>,
    quantity: i64,
    total_price: i64,
    is_purchase: bool,
    timestamp: Timestamp,
    r: Result<i64, LedgerError>,
    post: Ledger,
)
    requires
        recorded(pre, name, quantity, total_price, is_purchase, timestamp, r, post),
    ensures
        listing(post.items(), post.trades(), None).len() == listing(
            pre.items(),
            pre.trades(),
            None,
        ).len() + if r is Ok { 1int } else { 0 },
{
    lemma_unfiltered_listing(pre.items(), pre.trades());
    lemma_unfiltered_listing(post.items(), post.trades());
}

/// Deleting an identifier removes the one row that carries it, if any, from the unfiltered
/// listing, and no other.
pub proof fn lemma_delete_removes_one_row(pre: Ledger, id: i64, post: Ledger)
    requires
        pre.wf(),
        post.trades() == without_trade(pre.trades(), id),
    ensures
        listing(post.items(), post.trades(), None).len() == listing(
            pre.items(),
            pre.trades(),
            None,
        ).len() - if has_trade_id(pre.trades(), id) { 1int } else { 0 },
        forall|k: int|
            0 <= k < listing(post.items(), post.trades(), None).len() ==> (#[trigger] listing(
                post.items(),
                post.trades(),
                None,
            )[k]).0 != id,
{
    lemma_unfiltered_listing(pre.items(), pre.trades());
    lemma_unfiltered_listing(post.items(), post.trades());
    lemma_without_trade_len(pre.trades(), id);
    assert forall|k: int| 0 <= k < post.trades().len() implies (#[trigger] post.trades()[k]).id
        != id by {
        pre.trades().lemma_filter_pred(|t: Trade| t.id != id, k);
    }
    assert forall|k: int| 0 <= k < post.trades().len() implies #[trigger] rows_of(
        post.items(),
        post.trades(),
    )[k].0 != id by {
        assert(post.trades()[k].id != id);
    }
}

/// A filtered listing holds exactly the rows of the unfiltered one whose item name is the
/// filter, character for character: every row it shows has that name, and every trade of an
/// item with that name is shown.
pub proof fn lemma_filtered_listing_exact(items: Seq<Item>, trades: Seq<Trade>, x: Seq<char>)
    ensures
        listing(items, trades, Some(x)) == listing(items, trades, None).filter(keeps(Some(x))),
        forall|k: int|
            0 <= k < listing(items, trades, Some(x)).len() ==> (#[trigger] listing(
                items,
                trades,
                Some(x),
            )[k]).1 == x,
        forall|k: int|
            0 <= k < trades.len() && name_of(items, trades[k].item_id) == x ==> listing(
                items,
                trades,
                Some(x),
            ).contains(#[trigger] row_of(items, trades[k])),
{
    lemma_unfiltered_listing(items, trades);
    let rows = rows_of(items, trades);
    assert forall|k: int| 0 <= k < listing(items, trades, Some(x)).len() implies (
    #[trigger] listing(items, trades, Some(x))[k]).1 == x by {
        rows.lemma_filter_pred(keeps(Some(x)), k);
    }
    assert forall|k: int|
        0 <= k < trades.len() && name_of(items, trades[k].item_id) == x implies listing(
        items,
        trades,
        Some(x),
    ).contains(#[trigger] row_of(items, trades[k])) by {
        assert(rows[k] == row_of(items, trades[k]));
        rows.lemma_filter_contains(keeps(Some(x)), k);
    }
}

/// An empty ledger has a profit/loss of zero.
pub proof fn lemma_empty_total(trades: Seq<Trade>)
    requires
        trades.len() == 0,
    ensures
        total_of(trades) == 0,
{
}

/// Recording a trade moves the profit/loss by that trade's consideration: down for a
/// purchase, up for a sale. A refused trade leaves it as it was.
pub proof fn lemma_record_moves_total(
    pre: Ledger,
    name: Seq<char>,
    quantity: i64,
    total_price: i64,
    is_purchase: bool,
    timestamp: Timestamp,
    r: Result<i64, LedgerError>,
    post: Ledger,
)
    requires
        recorded(pre, name, quantity, total_price, is_purchase, timestamp, r, post),
    ensures
        r is Ok ==> total_of(post.trades()) == total_of(pre.trades()) + if is_purchase {
            -(total_price as int)
        } else {
            total_price as int
        },
        r is Err ==> total_of(post.trades()) == total_of(pre.trades()),
{
    if r is Ok {
        assert(post.trades().drop_last() =~= pre.trades());
    }
}

/// Deleting the trade that was just recorded gives back the trades, and so the profit/loss
/// and the listing's length, of the ledger before it was recorded.
pub proof fn lemma_record_then_delete(
    pre: Ledger,
    name: Seq<char>,
    quantity: i64,
    total_price: i64,
    is_purchase: bool,
    timestamp: Timestamp,
    id: i64,
    mid: Ledger,
    post: Ledger,
)
    requires
        pre.wf(),
        recorded(
            pre,
            name,
            quantity,
            total_price,
            is_purchase,
            timestamp,
            Ok::<i64, LedgerError>(id),
            mid,
        ),
        post.trades() == without_trade(mid.trades(), id),
    ensures
        post.trades() == pre.trades(),
        total_of(post.trades()) == total_of(pre.trades()),
        listing(post.items(), post.trades(), None).len() == listing(
            pre.items(),
            pre.trades(),
            None,
        ).len(),
{
    reveal(Seq::filter);
    let s = mid.trades();
    assert(s.drop_last() =~= pre.trades());
    assert(s.last().id == id);
    assert forall|i: int| 0 <= i < pre.trades().len() implies (|t: Trade| t.id != id)(
        #[trigger] pre.trades()[i],
    ) by {
        assert(trade_fits(pre.items(), pre.trades()[i], pre.next_trade_id()));
    }
    lemma_filter_keeps_all(pre.trades(), |t: Trade| t.id != id);
    lemma_unfiltered_listing(pre.items(), pre.trades());
    lemma_unfiltered_listing(post.items(), post.trades());
}

/// A recorded trade reads back from the unfiltered listing as its last row, with the item
/// name, quantity, price, direction and minute that it was recorded with; so its minute
/// renders to the same text.
pub proof fn lemma_recorded_trade_reads_back(
    pre: Ledger,
    name: Seq<char>,
    quantity: i64,
    total_price: i64,
    is_purchase: bool,
    timestamp: Timestamp,
    id: i64,
    post: Ledger,
)
    requires
        post.wf(),
        recorded(
            pre,
            name,
            quantity,
            total_price,
            is_purchase,
            timestamp,
            Ok::<i64, LedgerError>(id),
            post,
        ),
    ensures
        listing(post.items(), post.trades(), None).last() == (
            id,
            name,
            quantity,
            total_price,
            is_purchase,
            timestamp,
        ),
        listing(post.items(), post.trades(), None).last().5.text() == timestamp.text(),
{
    lemma_unfiltered_listing(post.items(), post.trades());
    if id_of(pre.items(), name) is None {
        assert(post.items().last().name@ == name);
    }
    assert(id_of(post.items(), name) == Some(item_id_after(pre, name)));
    lemma_name_of_resolved(post.items(), name);
    let n = post.trades().len();
    assert(rows_of(post.items(), post.trades())[n - 1] == row_of(
        post.items(),
        post.trades()[n - 1],
    ));
}

} // verus!
