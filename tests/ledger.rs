use trade_ledger::error::LedgerError;
use trade_ledger::ledger::{ItemData, Ledger};
use trade_ledger::params::{DeleteQueryParams, Hello, QueryParams};
use trade_ledger::timestamp::Timestamp;

fn minute(year: i32, month: u32, day: u32, hour: u32, minute: u32) -> Timestamp {
    Timestamp { year, month, day, hour, minute }
}

fn names(rows: &[ItemData]) -> Vec<String> {
    rows.iter().map(|r| r.item_name.clone()).collect()
}

#[test]
fn resolve_twice_gives_same_id() {
    let mut l = Ledger::new();
    let a = l.resolve_or_create("Iron Ore").unwrap();
    let b = l.resolve_or_create("Iron Ore").unwrap();
    assert_eq!(a, b);
    let c = l.resolve_or_create("iron ore").unwrap();
    assert_ne!(a, c);
    assert_eq!(l.resolve_or_create("iron ore").unwrap(), c);
    assert_eq!(l.resolve_or_create("Iron Ore").unwrap(), a);
}

#[test]
fn resolve_empty_name_is_refused() {
    let mut l = Ledger::new();
    assert_eq!(l.resolve_or_create(""), Err(LedgerError::Validation));
    assert_eq!(l.resolve_or_create("Gold").unwrap(), 1);
}

#[test]
fn item_created_by_trade_is_reused() {
    let mut l = Ledger::new();
    l.record("Gold", 1, 10, true, "2024-01-15T09:30").unwrap();
    let id = l.resolve_or_create("Gold").unwrap();
    assert_eq!(id, 1);
    assert_eq!(l.resolve_or_create("Silver").unwrap(), 2);
}

#[test]
fn unfiltered_listing_counts_live_records() {
    let mut l = Ledger::new();
    let a = l.record("Gold", 1, 10, true, "2024-01-15T09:30").unwrap();
    let b = l.record("Silver", 2, 20, false, "2024-01-16T10:00").unwrap();
    let c = l.record("Gold", 3, 30, false, "2024-01-17T11:15").unwrap();
    assert_eq!(l.list(None).len(), 3);
    assert!(l.delete(b));
    let rows = l.list(None);
    assert_eq!(rows.len(), 2);
    let ids: Vec<i64> = rows.iter().map(|r| r.id).collect();
    assert_eq!(ids, vec![a, c]);
}

#[test]
fn trade_ids_ascend() {
    let mut l = Ledger::new();
    let a = l.record("Gold", 1, 10, true, "2024-01-15T09:30").unwrap();
    let b = l.record("Gold", 1, 10, true, "2024-01-15T09:31").unwrap();
    assert!(l.delete(b));
    let c = l.record("Gold", 1, 10, true, "2024-01-15T09:32").unwrap();
    assert_eq!((a, b, c), (1, 2, 3));
}

#[test]
fn filter_matches_name_exactly() {
    let mut l = Ledger::new();
    l.record("O'Brien's Item", 1, 100, true, "2024-01-15T09:30").unwrap();
    l.record("O'Brien", 1, 200, true, "2024-01-15T09:31").unwrap();
    l.record("Item", 1, 300, false, "2024-01-15T09:32").unwrap();
    l.record("O'Brien's Item", 2, 400, false, "2024-01-15T09:33").unwrap();
    let rows = l.list(Some("O'Brien's Item"));
    assert_eq!(rows.len(), 2);
    assert!(names(&rows).iter().all(|n| n == "O'Brien's Item"));
    assert_eq!(rows[0].total_price, 100);
    assert_eq!(rows[1].total_price, 400);
    assert_eq!(l.list(Some("O'Brien")).len(), 1);
    assert_eq!(l.list(Some("Brien")).len(), 0);
    assert_eq!(l.list(Some("x' OR '1'='1")).len(), 0);
    assert_eq!(l.list(Some("%")).len(), 0);
    assert_eq!(l.list(Some("")).len(), 0);
}

#[test]
fn query_params_filter_like_list() {
    let mut l = Ledger::new();
    l.record("Gold", 1, 10, true, "2024-01-15T09:30").unwrap();
    l.record("Silver", 1, 20, true, "2024-01-15T09:31").unwrap();
    let all = l.list_for(&QueryParams { item_name: None });
    assert_eq!(all.len(), 2);
    let silver = l.list_for(&QueryParams { item_name: Some("Silver".to_string()) });
    assert_eq!(names(&silver), vec!["Silver".to_string()]);
    let q = DeleteQueryParams { id: silver[0].id };
    assert!(l.delete(q.id));
    assert_eq!(l.list_for(&QueryParams { item_name: Some("Silver".to_string()) }).len(), 0);
}

#[test]
fn empty_ledger_total_is_zero() {
    let l = Ledger::new();
    assert_eq!(l.compute_total(), 0);
    assert!(l.list(None).is_empty());
}

#[test]
fn purchase_counts_negative() {
    let mut l = Ledger::new();
    l.record("Gold", 1, 1000, true, "2024-01-15T09:30").unwrap();
    assert_eq!(l.compute_total(), -1000);
}

#[test]
fn sale_deleted_leaves_nothing() {
    let mut l = Ledger::new();
    let id = l.record("Gold", 2, 500, false, "2024-01-15T09:30").unwrap();
    assert_eq!(l.compute_total(), 500);
    assert!(l.delete(id));
    assert!(l.list(None).iter().all(|r| r.id != id));
    assert!(l.list(None).is_empty());
    assert_eq!(l.compute_total(), 0);
}

#[test]
fn total_is_signed_sum_of_considerations() {
    let mut l = Ledger::new();
    l.record("Gold", 3, 500, false, "2024-01-15T09:30").unwrap();
    l.record("Gold", 7, 200, true, "2024-01-15T09:31").unwrap();
    l.record("Silver", 1, 45, false, "2024-01-15T09:32").unwrap();
    assert_eq!(l.compute_total(), 345);
}

#[test]
fn total_does_not_overflow() {
    let mut l = Ledger::new();
    l.record("Gold", 1, i64::MAX, false, "2024-01-15T09:30").unwrap();
    l.record("Gold", 1, i64::MAX, false, "2024-01-15T09:31").unwrap();
    l.record("Silver", 1, i64::MIN, true, "2024-01-15T09:32").unwrap();
    let expected = 2 * (i64::MAX as i128) - (i64::MIN as i128);
    assert_eq!(l.compute_total(), expected);
}

#[test]
fn timestamp_reads_back_as_written() {
    let mut l = Ledger::new();
    let id = l.record("Gold", 1, 10, true, "2024-01-15T09:30").unwrap();
    let rows = l.list(None);
    assert_eq!(rows.len(), 1);
    assert_eq!(rows[0].id, id);
    assert_eq!(rows[0].item_name, "Gold");
    assert_eq!(rows[0].quantity, 1);
    assert_eq!(rows[0].total_price, 10);
    assert!(rows[0].is_purchase);
    assert_eq!(rows[0].timestamp, minute(2024, 1, 15, 9, 30));
    assert_eq!(rows[0].timestamp.render(), "2024-01-15T09:30");
}

#[test]
fn empty_item_name_is_refused() {
    let mut l = Ledger::new();
    assert_eq!(l.record("", 1, 10, true, "2024-01-15T09:30"), Err(LedgerError::Validation));
    assert_eq!(l.record("", 1, 10, true, "garbage"), Err(LedgerError::Validation));
    assert!(l.list(None).is_empty());
}

#[test]
fn bad_timestamp_is_refused() {
    let mut l = Ledger::new();
    assert_eq!(l.record("Gold", 1, 10, true, "yesterday"), Err(LedgerError::Timestamp));
    assert_eq!(l.record("Gold", 1, 10, true, "2024-01-15 09:30"), Err(LedgerError::Timestamp));
    assert_eq!(l.record("Gold", 1, 10, true, "2024-02-30T09:30"), Err(LedgerError::Timestamp));
    assert_eq!(l.record("Gold", 1, 10, true, "2024-01-15T24:00"), Err(LedgerError::Timestamp));
    assert!(l.list(None).is_empty());
    assert_eq!(l.resolve_or_create("Gold").unwrap(), 1);
}

#[test]
fn invalid_minute_is_refused() {
    let mut l = Ledger::new();
    let r = l.record_at("Gold", 1, 10, true, minute(2023, 2, 29, 9, 30));
    assert_eq!(r, Err(LedgerError::Timestamp));
    let r = l.record_at("Gold", 1, 10, true, minute(2024, 2, 29, 9, 30));
    assert_eq!(r, Ok(1));
}

#[test]
fn delete_of_absent_id_changes_nothing() {
    let mut l = Ledger::new();
    l.record("Gold", 1, 10, true, "2024-01-15T09:30").unwrap();
    assert!(!l.delete(42));
    assert_eq!(l.list(None).len(), 1);
    assert_eq!(l.compute_total(), -10);
}

#[test]
fn timestamp_parses_fields() {
    assert_eq!(Timestamp::parse("2024-01-15T09:30"), Ok(minute(2024, 1, 15, 9, 30)));
    assert_eq!(Timestamp::parse("1999-12-31T23:59"), Ok(minute(1999, 12, 31, 23, 59)));
    assert_eq!(Timestamp::parse("not a time"), Err(LedgerError::Timestamp));
}

#[test]
fn timestamp_renders_padded() {
    assert_eq!(minute(2024, 1, 5, 7, 3).render(), "2024-01-05T07:03");
    assert_eq!(minute(987, 11, 30, 0, 0).render(), "0987-11-30T00:00");
}

#[test]
fn leap_years_follow_the_gregorian_rule() {
    assert!(minute(2024, 2, 29, 0, 0).is_valid());
    assert!(minute(2000, 2, 29, 0, 0).is_valid());
    assert!(!minute(1900, 2, 29, 0, 0).is_valid());
    assert!(!minute(2023, 4, 31, 0, 0).is_valid());
    assert!(!minute(2023, 13, 1, 0, 0).is_valid());
    assert!(!minute(2023, 1, 0, 0, 0).is_valid());
    assert!(!minute(2023, 1, 1, 0, 60).is_valid());
}

#[test]
fn restore_puts_rows_back_in_order() {
    let mut l = Ledger::new();
    assert_eq!(l.restore_item(3, "Gold"), Ok(()));
    assert_eq!(l.restore_item(2, "Silver"), Err(LedgerError::Storage));
    assert_eq!(l.restore_item(5, "Gold"), Err(LedgerError::Storage));
    assert_eq!(l.restore_item(5, ""), Err(LedgerError::Validation));
    assert_eq!(l.restore_trade(7, 3, 1, 50, false, minute(2024, 1, 15, 9, 30)), Ok(()));
    assert_eq!(
        l.restore_trade(8, 4, 1, 50, false, minute(2024, 1, 15, 9, 30)),
        Err(LedgerError::NotFound)
    );
    assert_eq!(
        l.restore_trade(6, 3, 1, 50, false, minute(2024, 1, 15, 9, 30)),
        Err(LedgerError::Storage)
    );
    assert_eq!(
        l.restore_trade(9, 3, 1, 50, false, minute(2023, 2, 29, 9, 30)),
        Err(LedgerError::Timestamp)
    );
    assert_eq!(l.resolve_or_create("Gold").unwrap(), 3);
    assert_eq!(l.resolve_or_create("Copper").unwrap(), 4);
    assert_eq!(l.record("Gold", 1, 20, true, "2024-01-16T09:30").unwrap(), 8);
    assert_eq!(l.compute_total(), 30);
    let rows = l.list(Some("Gold"));
    assert_eq!(rows.len(), 2);
    assert_eq!(rows[0].id, 7);
}

#[test]
fn hello_accepts_only_actix() {
    assert!(Hello { hello: "actix".to_string() }.is_accepted());
    assert!(!Hello { hello: "Actix".to_string() }.is_accepted());
    assert!(!Hello { hello: String::new() }.is_accepted());
}

#[test]
fn errors_have_messages() {
    assert_eq!(LedgerError::Validation.message(), "invalid input");
    assert_eq!(LedgerError::Timestamp.message(), "invalid timestamp");
    assert_eq!(LedgerError::NotFound.message(), "not found");
    assert_eq!(LedgerError::Storage.message(), "storage failure");
}

#[test]
fn exhausted_item_ids_refuse_new_names_only() {
    let mut l = Ledger::new();
    assert_eq!(l.restore_item(i64::MAX - 1, "Gold"), Ok(()));
    assert_eq!(l.record("Silver", 1, 10, true, "2024-01-15T09:30"), Err(LedgerError::Storage));
    assert_eq!(l.resolve_or_create("Silver"), Err(LedgerError::Storage));
    assert!(l.list(None).is_empty());
    assert_eq!(l.record("Gold", 1, 10, true, "2024-01-15T09:30"), Ok(1));
    assert_eq!(l.resolve_or_create("Gold"), Ok(i64::MAX - 1));
}

#[test]
fn exhausted_trade_ids_refuse_trades() {
    let mut l = Ledger::new();
    assert_eq!(l.restore_item(1, "Gold"), Ok(()));
    assert_eq!(l.restore_trade(i64::MAX - 1, 1, 1, 10, false, minute(2024, 1, 15, 9, 30)), Ok(()));
    assert_eq!(l.record("Gold", 1, 10, true, "2024-01-15T09:31"), Err(LedgerError::Storage));
    assert_eq!(l.record("Copper", 1, 10, true, "2024-01-15T09:31"), Err(LedgerError::Storage));
    assert_eq!(l.list(None).len(), 1);
    assert_eq!(l.compute_total(), 10);
    assert_eq!(l.restore_item(2, "Copper"), Ok(()));
}
