use mimir::account::handler::{
    after_statement_reply, all_monitors_updated_message, assign_ida, get_monitors, monitor_not_found, recorded_range, statement_windows,
    group_by_similarity, group_keys, mono_accounts, mono_monitors, monitor_event_message, next_range_end,
    next_range_start, spread_similar_tags, stat_window, statement_url, to_bank_transaction, MonitorEvent,
    StatementAction, StatementReply,
};
use mimir::account::model::{
    Account, AccountKind, AccountMonitor, AccountMonitorStatus, MonoAccount, StatQueryParams, UpdateAccount,
};
use mimir::account::repository::{
    insert_mono_accounts_monitor, update_account, update_monitor_status, update_monitor_timestamps,
};
use mimir::datetime::DateTimeUtc;
use mimir::error::AppError;
use mimir::sql::SqlArg;
use mimir::tags::TransactionTag;
use mimir::transaction::model::{BankTransaction, MonobankTransaction};

fn at(secs: i64) -> DateTimeUtc {
    DateTimeUtc { secs, nanos: 0 }
}

fn monitor(ida: u32, balance: u32) -> AccountMonitor {
    AccountMonitor {
        ida,
        external_id: format!("card{}", ida),
        currency_code: 980,
        balance,
        credit_limit: 0,
        iban: "UA00".to_string(),
        masked_pan: "4441**1111".to_string(),
        kind: AccountKind::Mono,
        updated_at: None,
        last_taken_date: None,
    }
}

#[test]
fn monitors_listed_by_balance_descending() {
    let out = get_monitors(vec![monitor(1, 50), monitor(2, 300), monitor(3, 50), monitor(4, 100)]);
    let ids: Vec<u32> = out.iter().map(|m| m.ida).collect();
    // equal balances come in reverse order of arrival
    assert_eq!(ids, vec![2, 4, 3, 1]);
    assert!(get_monitors(vec![]).is_empty());
}

#[test]
fn mono_filters_keep_everything_mono() {
    let ms = vec![monitor(1, 1), monitor(2, 2)];
    assert_eq!(mono_monitors(&ms).len(), 2);
    let accounts = vec![Account { ida: 1, idu: 1, kind: AccountKind::Mono, token: "token".to_string() }];
    assert_eq!(mono_accounts(&accounts)[0].ida, 1);
}

#[test]
fn accounts_get_their_ida() {
    let a = MonoAccount {
        ida: 0,
        id: "x".to_string(),
        send_id: "s".to_string(),
        currency_code: 980,
        balance: 10,
        credit_limit: 0,
        masked_pan: vec![],
        iban: "UA".to_string(),
    };
    let r = assign_ida(vec![a], 42);
    assert_eq!(r[0].ida, 42);
    assert_eq!(r[0].id, "x");
}

#[test]
fn stat_window_checks_both_ends() {
    let w = stat_window(&StatQueryParams { from: 100, to: 200 }).unwrap();
    assert_eq!(w, (at(100), at(200)));
    match stat_window(&StatQueryParams { from: i64::MIN, to: i64::MAX }) {
        Err(AppError::BadRequest(m)) => assert_eq!(m, format!("Invalid Unix timestamp: {}", i64::MIN)),
        other => panic!("unexpected {:?}", other),
    }
    match stat_window(&StatQueryParams { from: 0, to: i64::MAX }) {
        Err(AppError::BadRequest(m)) => assert_eq!(m, format!("Invalid Unix timestamp: {}", i64::MAX)),
        other => panic!("unexpected {:?}", other),
    }
}

#[test]
fn websocket_messages() {
    let m = monitor(7, 1);
    assert_eq!(
        monitor_event_message(MonitorEvent::Pending, &m),
        r#"{"event":"monitor_pending","ida":7,"external_id":"card7","masked_pan":"4441**1111"}"#
    );
    assert_eq!(
        monitor_event_message(MonitorEvent::Updated, &m),
        r#"{"event":"monitor_updated","ida":7,"external_id":"card7","masked_pan":"4441**1111"}"#
    );
    assert_eq!(all_monitors_updated_message(), r#"{"event":"all_monitors_updated"}"#);
}

#[test]
fn statement_address() {
    assert_eq!(
        statement_url("abc", 1700000000, 1702682000),
        "https://api.monobank.ua/personal/statement/abc/1700000000/1702682000"
    );
}

#[test]
fn retries_stop_after_three_attempts() {
    assert_eq!(after_statement_reply(1, StatementReply::Success), StatementAction::Accept);
    assert_eq!(after_statement_reply(1, StatementReply::UnexpectedStatus), StatementAction::GiveUp);
    assert_eq!(after_statement_reply(1, StatementReply::TooManyRequests), StatementAction::Retry);
    assert_eq!(after_statement_reply(2, StatementReply::TransportError), StatementAction::Retry);
    assert_eq!(after_statement_reply(3, StatementReply::TooManyRequests), StatementAction::GiveUp);
    assert_eq!(after_statement_reply(3, StatementReply::TransportError), StatementAction::GiveUp);
}

fn mono_tx(id: &str, time: i64) -> MonobankTransaction {
    MonobankTransaction {
        id: id.to_string(),
        time,
        description: Some("Shop".to_string()),
        mcc: Some(5411),
        hold: Some(false),
        amount: -100,
        currency_code: 980,
        balance: 900,
        receipt_id: None,
    }
}

#[test]
fn bank_transactions_from_statement() {
    let m = monitor(3, 0);
    let t = to_bank_transaction(mono_tx("a", 1_700_000_000), &m, at(5));
    assert_eq!(t.idt, "a");
    assert_eq!(t.external_id, "card3");
    assert_eq!(t.ida, 3);
    assert_eq!(t.transaction_time, at(1_700_000_000));
    assert_eq!(t.balance, Some(900));
    let late = to_bank_transaction(mono_tx("b", i64::MAX), &m, at(5));
    assert_eq!(late.transaction_time, at(5));
}

#[test]
fn stored_range_after_a_refresh() {
    assert_eq!(next_range_end(Some(at(70)), Some(at(90)), at(80), at(1000)), at(70));
    assert_eq!(next_range_end(None, Some(at(90)), at(80), at(1000)), at(90));
    assert_eq!(next_range_end(None, Some(at(50)), at(80), at(1000)), at(1000));
    assert_eq!(next_range_end(None, None, at(80), at(1000)), at(1000));
    assert_eq!(next_range_start(at(10), Some(at(20))), Some(at(10)));
    assert_eq!(next_range_start(at(30), Some(at(20))), None);
    assert_eq!(next_range_start(at(30), None), Some(at(30)));
}

fn stored(idt: &str, mcc: Option<i32>, d: Option<&str>) -> BankTransaction {
    BankTransaction {
        idt: idt.to_string(),
        external_id: "card".to_string(),
        ida: 1,
        amount: 1,
        currency_code: 980,
        description: d.map(|s| s.to_string()),
        mcc,
        hold: None,
        transaction_time: at(0),
        receipt_id: None,
        balance: None,
    }
}

#[test]
fn similar_tags_are_spread_over_groups() {
    let txs = vec![
        stored("a", Some(5411), Some("shop")),
        stored("b", Some(4111), Some("bus")),
        stored("c", Some(5411), Some("shop")),
        stored("d", None, Some("shop")),
    ];
    let groups = group_by_similarity(&txs);
    assert_eq!(groups.len(), 2);
    assert_eq!(groups[0].1, vec!["a".to_string(), "c".to_string()]);
    let keys = group_keys(&groups);
    assert_eq!(keys, vec![(5411, "shop".to_string()), (4111, "bus".to_string())]);
    let tags = vec![
        ((5411u32, "shop".to_string()), vec![TransactionTag { tag: "food".to_string(), severity: "primary".to_string() }]),
        ((9999u32, "none".to_string()), vec![TransactionTag { tag: "x".to_string(), severity: "info".to_string() }]),
    ];
    let spread = spread_similar_tags(&groups, &tags);
    let ids: Vec<&str> = spread.iter().map(|t| t.idt.as_str()).collect();
    assert_eq!(ids, vec!["a", "c"]);
    assert_eq!(spread[1].tags[0].tag, "food");
}

#[test]
fn monitor_statements() {
    let a = MonoAccount {
        ida: 2,
        id: "ext".to_string(),
        send_id: "s".to_string(),
        currency_code: 980,
        balance: 1234,
        credit_limit: 5,
        masked_pan: vec!["4441**1111".to_string(), "5375**2222".to_string()],
        iban: "UA11".to_string(),
    };
    let stmts = insert_mono_accounts_monitor(&vec![a]);
    assert_eq!(stmts.len(), 1);
    assert!(stmts[0].sql.starts_with("INSERT INTO bank_account_monitor"));
    assert!(stmts[0].sql.ends_with("ON CONFLICT(external_id) DO NOTHING"));
    match &stmts[0].args[6] {
        SqlArg::Text(t) => assert_eq!(t, "4441**1111,5375**2222"),
        other => panic!("unexpected {:?}", other),
    }
    match (&stmts[0].args[7], &stmts[0].args[8]) {
        (SqlArg::Text(k), SqlArg::Text(s)) => assert_eq!((k.as_str(), s.as_str()), ("Mono", "Never")),
        other => panic!("unexpected {:?}", other),
    }
    let s = update_monitor_status(2, "ext", AccountMonitorStatus::Pending);
    assert_eq!(s.sql, "UPDATE bank_account_monitor SET status = ? WHERE ida = ? and external_id = ?");
    assert!(matches!(&s.args[0], SqlArg::Text(t) if t == "Pending"));
    let s = update_monitor_timestamps(2, "ext", at(5), None);
    assert_eq!(s.sql, "UPDATE bank_account_monitor SET updated_at = ? WHERE ida = ? and external_id = ?");
    assert_eq!(s.args.len(), 3);
    let s = update_monitor_timestamps(2, "ext", at(5), Some(at(1)));
    assert_eq!(s.args.len(), 4);
    assert_eq!(s.sql.matches('?').count(), 4);
    assert_eq!(stmts[0].sql.matches('?').count(), stmts[0].args.len());
}

#[test]
fn account_update_statements() {
    let s = update_account(9, &UpdateAccount { name: None, token: None });
    assert_eq!(s.sql, "SELECT ida, kind, name FROM bank_account WHERE ida = ?");
    let s = update_account(9, &UpdateAccount { name: Some("n".to_string()), token: Some("t".to_string()) });
    assert_eq!(s.sql, "UPDATE bank_account SET name = ?, token = ? WHERE ida = ? RETURNING ida, kind, name");
    assert_eq!(s.args.len(), 3);
    let s = update_account(9, &UpdateAccount { name: None, token: Some("t".to_string()) });
    assert_eq!(s.sql, "UPDATE bank_account SET token = ? WHERE ida = ? RETURNING ida, kind, name");
}

#[test]
fn account_kind_names() {
    assert_eq!(AccountKind::Mono.as_str(), "Mono");
    assert_eq!(AccountKind::from_name("Mono"), Some(AccountKind::Mono));
    assert_eq!(AccountKind::from_name("Privat"), None);
}

#[test]
fn missing_monitor_is_not_found() {
    match monitor_not_found("abc") {
        AppError::NotFound(m) => assert_eq!(m, "Not Found monitor with external_id abc"),
        other => panic!("unexpected {:?}", other),
    }
}

#[test]
fn refresh_requests_each_missing_window_in_chunks() {
    let w = statement_windows(at(0), at(10_000_000), Some(at(6_000_000)), Some(at(5_000_000))).unwrap();
    assert_eq!(
        w,
        vec![
            (at(0), at(2_682_000)),
            (at(2_682_000), at(5_000_000)),
            (at(6_000_000), at(8_682_000)),
            (at(8_682_000), at(10_000_000)),
        ]
    );
    let w = statement_windows(at(10), at(20), None, None).unwrap();
    assert_eq!(w, vec![(at(10), at(20))]);
    let w = statement_windows(at(10), at(20), Some(at(30)), Some(at(0))).unwrap();
    assert!(w.is_empty());
    let max = mimir::datetime::MAX_TIMESTAMP;
    assert!(statement_windows(at(max - 5), at(max), None, None).is_none());
}

#[test]
fn range_recorded_after_a_refresh() {
    assert_eq!(recorded_range(false, Some(at(7)), Some(at(50)), Some(at(5)), at(1), at(60), at(99)), (at(99), None));
    assert_eq!(
        recorded_range(true, Some(at(40)), Some(at(50)), Some(at(5)), at(1), at(60), at(99)),
        (at(40), Some(at(1)))
    );
    assert_eq!(recorded_range(true, None, Some(at(70)), Some(at(0)), at(1), at(60), at(99)), (at(70), None));
    assert_eq!(recorded_range(true, None, None, None, at(1), at(60), at(99)), (at(99), Some(at(1))));
}
