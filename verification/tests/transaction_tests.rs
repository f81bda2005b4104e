use mimir::datetime::DateTimeUtc;
use mimir::mcc::{Group, Localized, MccEntry, MccTable};
use mimir::sql::{SqlArg, SqlStatement};
use mimir::tags::{parse_tags, TransactionTag};
use mimir::transaction::handler::{describe_transaction, describe_transactions, download_csv, get_mcc, xlsx_cells, CellValue};
use mimir::transaction::model::{
    BankTransaction, BankTransactionDTO, BankTransactionFilter, BankTransactionTag, FilterCondition,
    FilterException,
};
use mimir::transaction::repository::{
    add_transaction_tags, delete_transaction_tags, get_similar_transaction_tags, get_similar_transactions,
    get_transactions, group_similar_tags, insert_transactions, similarity_requested, TRANSACTIONS_SELECT,
};

fn tag(t: &str, s: &str) -> TransactionTag {
    TransactionTag { tag: t.to_string(), severity: s.to_string() }
}

fn pairs(tags: &[TransactionTag]) -> Vec<(String, String)> {
    tags.iter().map(|t| (t.tag.clone(), t.severity.clone())).collect()
}

#[test]
fn tags_column_is_decoded() {
    let tags = parse_tags(Some("food+primary,travel+danger".to_string()));
    assert_eq!(
        pairs(&tags),
        vec![("food".to_string(), "primary".to_string()), ("travel".to_string(), "danger".to_string())]
    );
}

#[test]
fn tags_without_severity_are_primary() {
    let tags = parse_tags(Some("food".to_string()));
    assert_eq!(pairs(&tags), vec![("food".to_string(), "primary".to_string())]);
}

#[test]
fn severity_keeps_later_plus_signs() {
    let tags = parse_tags(Some("a+b+c".to_string()));
    assert_eq!(pairs(&tags), vec![("a".to_string(), "b+c".to_string())]);
}

#[test]
fn empty_or_missing_tags_column() {
    assert!(parse_tags(None).is_empty());
    assert!(parse_tags(Some(String::new())).is_empty());
}

#[test]
fn empty_entries_are_kept() {
    let tags = parse_tags(Some("a+x,,b+y,".to_string()));
    assert_eq!(
        pairs(&tags),
        vec![
            ("a".to_string(), "x".to_string()),
            (String::new(), "primary".to_string()),
            ("b".to_string(), "y".to_string()),
            (String::new(), "primary".to_string()),
        ]
    );
}

#[test]
fn tags_roundtrip_through_the_column_text() {
    let tags = vec![tag("food", "primary"), tag("rent", "warn"), tag("x y", "")];
    let text = tags.iter().map(|t| format!("{}+{}", t.tag, t.severity)).collect::<Vec<_>>().join(",");
    assert_eq!(pairs(&parse_tags(Some(text))), pairs(&tags));
}

fn at(secs: i64) -> DateTimeUtc {
    DateTimeUtc { secs, nanos: 0 }
}

fn texts(s: &SqlStatement) -> Vec<String> {
    s.args
        .iter()
        .map(|a| match a {
            SqlArg::Text(t) => t.clone(),
            SqlArg::U32(v) => format!("u32:{}", v),
            SqlArg::I32(v) => format!("i32:{}", v),
            SqlArg::I64(v) => format!("i64:{}", v),
            SqlArg::Time(t) => format!("time:{}", t.secs),
            other => format!("{:?}", other),
        })
        .collect()
}

fn cond(field: &str, op: &str, value: &str, severity: Option<&str>) -> FilterCondition {
    FilterCondition {
        field: field.to_string(),
        operator: op.to_string(),
        value: value.to_string(),
        severity: severity.map(|s| s.to_string()),
    }
}

#[test]
fn query_for_plain_window() {
    let f = BankTransactionFilter { ida_list: None, external_id_list: None, exceptions: None, from: at(1), to: at(2) };
    let s = get_transactions(&f);
    assert_eq!(
        s.sql,
        format!(
            "{}t.ida in ( select ida from bank_account) AND t.transaction_time >= ? AND t.transaction_time <= ? order by t.transaction_time desc",
            TRANSACTIONS_SELECT
        )
    );
    assert_eq!(texts(&s), vec!["time:1", "time:2"]);
}

#[test]
fn query_with_accounts_cards_and_exceptions() {
    let f = BankTransactionFilter {
        ida_list: Some(vec![3, 4]),
        external_id_list: Some(vec!["card".to_string()]),
        exceptions: Some(vec![
            FilterException {
                combinator: "AND NOT".to_string(),
                conditions: vec![
                    cond("description", "contains", "taxi", None),
                    cond("amount", "lt", "-100", None),
                    cond("unknown", "eq", "1", None),
                ],
            },
            FilterException { combinator: "OR".to_string(), conditions: vec![] },
            FilterException {
                combinator: "OR".to_string(),
                conditions: vec![cond("tag", "neq", "food", Some("primary")), cond("mcc", "startsWith", "54", None)],
            },
        ]),
        from: at(10),
        to: at(20),
    };
    let s = get_transactions(&f);
    let expected = format!(
        "{}t.ida in (?, ?) AND t.transaction_time >= ? AND t.transaction_time <= ? AND t.external_id IN (?) AND NOT (t.description LIKE ? AND t.amount < ?) OR (NOT EXISTS (SELECT 1 FROM bank_transaction_tag WHERE idt = t.idt AND tag = ? AND severity = ?) AND t.mcc LIKE ?) order by t.transaction_time desc",
        TRANSACTIONS_SELECT
    );
    assert_eq!(s.sql, expected);
    assert_eq!(
        texts(&s),
        vec!["u32:3", "u32:4", "time:10", "time:20", "card", "%taxi%", "-100", "food", "primary", "54%"]
    );
    assert_eq!(s.sql.matches('?').count(), s.args.len());
}

#[test]
fn a_combinator_with_a_question_mark_unbalances_the_query() {
    let f = BankTransactionFilter {
        ida_list: None,
        external_id_list: None,
        exceptions: Some(vec![FilterException {
            combinator: "AND ?".to_string(),
            conditions: vec![cond("amount", "eq", "1", None)],
        }]),
        from: at(1),
        to: at(2),
    };
    let s = get_transactions(&f);
    assert_eq!(s.sql.matches('?').count(), s.args.len() + 1);
}

#[test]
fn unknown_operator_restarts_the_group() {
    let f = BankTransactionFilter {
        ida_list: Some(vec![]),
        external_id_list: Some(vec![]),
        exceptions: Some(vec![FilterException {
            combinator: "AND".to_string(),
            conditions: vec![cond("amount", "between", "1", None), cond("mcc", "eq", "5411", None)],
        }]),
        from: at(0),
        to: at(1),
    };
    let s = get_transactions(&f);
    assert!(s.sql.ends_with(
        "t.ida in ( select ida from bank_account) AND t.transaction_time >= ? AND t.transaction_time <= ? AND (t.mcc = ?) order by t.transaction_time desc"
    ));
    assert_eq!(texts(&s), vec!["time:0", "time:1", "5411"]);
}

#[test]
fn tag_condition_without_severity_adds_only_its_separator() {
    let f = BankTransactionFilter {
        ida_list: None,
        external_id_list: None,
        exceptions: Some(vec![FilterException {
            combinator: "AND".to_string(),
            conditions: vec![cond("mcc", "gte", "1", None), cond("tag", "eq", "food", None)],
        }]),
        from: at(0),
        to: at(1),
    };
    let s = get_transactions(&f);
    assert!(s.sql.ends_with("AND (t.mcc >= ? AND ) order by t.transaction_time desc"));
}

fn tx(idt: &str, mcc: Option<i32>, description: Option<&str>) -> BankTransaction {
    BankTransaction {
        idt: idt.to_string(),
        external_id: "card".to_string(),
        ida: 1,
        amount: -500,
        currency_code: 980,
        description: description.map(|s| s.to_string()),
        mcc,
        hold: Some(false),
        transaction_time: at(100),
        receipt_id: None,
        balance: Some(1000),
    }
}

#[test]
fn insert_of_transactions() {
    assert!(insert_transactions(&vec![]).is_none());
    let s = insert_transactions(&vec![tx("a", Some(5411), Some("shop")), tx("b", None, None)]).unwrap();
    assert_eq!(
        s.sql,
        "INSERT OR IGNORE INTO bank_transaction (idt, ida, external_id, amount, currency_code, description, mcc, hold, transaction_time, receipt_id, balance) VALUES (?, ?, ?, ?, ?, ?, ?, ?, ?, ?, ?), (?, ?, ?, ?, ?, ?, ?, ?, ?, ?, ?)"
    );
    assert_eq!(s.args.len(), 22);
    assert_eq!(texts(&s)[0..5], ["a", "u32:1", "card", "i64:-500", "i32:980"]);
}

#[test]
fn similar_transactions_query() {
    let base = tx("a", Some(5411), Some("shop"));
    assert!(!similarity_requested(false, false));
    assert!(get_similar_transactions(&base, false, false).is_none());
    let s = get_similar_transactions(&base, true, true).unwrap();
    assert_eq!(
        s.sql,
        "SELECT idt FROM bank_transaction WHERE (mcc = ?) AND (description = ?) ORDER BY transaction_time DESC"
    );
    assert_eq!(texts(&s), vec!["i32:5411", "shop"]);
    let s = get_similar_transactions(&tx("b", None, None), false, true).unwrap();
    assert_eq!(s.sql, "SELECT idt FROM bank_transaction WHERE (description IS NULL) ORDER BY transaction_time DESC");
}

#[test]
fn tag_insert_and_delete() {
    assert!(add_transaction_tags(&vec![]).is_none());
    let tags = vec![
        BankTransactionTag { idt: "a".to_string(), tags: vec![tag("food", "primary"), tag("x", "warn")] },
        BankTransactionTag { idt: "b".to_string(), tags: vec![tag("rent", "danger")] },
    ];
    let s = add_transaction_tags(&tags).unwrap();
    assert_eq!(
        s.sql,
        "INSERT OR IGNORE INTO bank_transaction_tag (idt, tag, severity) VALUES (?, ?, ?), (?, ?, ?), (?, ?, ?)"
    );
    assert_eq!(texts(&s), vec!["a", "food", "primary", "a", "x", "warn", "b", "rent", "danger"]);
    let d = delete_transaction_tags(&tags).unwrap();
    assert_eq!(
        d.sql,
        "DELETE FROM bank_transaction_tag WHERE (idt = ? AND tag = ? AND severity = ?) OR (idt = ? AND tag = ? AND severity = ?) OR (idt = ? AND tag = ? AND severity = ?)"
    );
    assert_eq!(texts(&d), texts(&s));
    let none = vec![BankTransactionTag { idt: "a".to_string(), tags: vec![] }];
    assert!(delete_transaction_tags(&none).is_none());
    let empty_insert = add_transaction_tags(&none).unwrap();
    assert_eq!(empty_insert.sql, "INSERT OR IGNORE INTO bank_transaction_tag (idt, tag, severity) VALUES ");
}

#[test]
fn similar_tags_query_and_grouping() {
    assert!(get_similar_transaction_tags(&vec![]).is_none());
    let s = get_similar_transaction_tags(&vec![(5411, "shop".to_string()), (4111, "bus".to_string())]).unwrap();
    assert_eq!(
        s.sql,
        "SELECT bt.mcc, bt.description, t.tag, t.severity FROM bank_transaction_tag t JOIN bank_transaction bt ON t.idt = bt.idt WHERE (bt.mcc = ? AND bt.description = ?) OR (bt.mcc = ? AND bt.description = ?) ORDER BY bt.mcc, bt.description, t.tag, t.severity"
    );
    let groups = group_similar_tags(vec![
        (5411, "shop".to_string(), "food".to_string(), "primary".to_string()),
        (5411, "shop".to_string(), "food".to_string(), "primary".to_string()),
        (4111, "bus".to_string(), "travel".to_string(), "info".to_string()),
        (5411, "shop".to_string(), "daily".to_string(), "warn".to_string()),
    ]);
    assert_eq!(groups.len(), 2);
    assert_eq!(groups[0].0, (5411, "shop".to_string()));
    assert_eq!(pairs(&groups[0].1), vec![("food".to_string(), "primary".to_string()), ("daily".to_string(), "warn".to_string())]);
    assert_eq!(groups[1].0, (4111, "bus".to_string()));
}

fn loc(uk: Option<&str>, en: Option<&str>) -> Localized {
    Localized { uk: uk.map(|s| s.to_string()), en: en.map(|s| s.to_string()) }
}

fn table() -> MccTable {
    MccTable::new(vec![
        MccEntry {
            mcc: "5411".to_string(),
            group: Group { group_type: "FOOD".to_string(), description: loc(None, None) },
            full_description: loc(Some("Продуктові магазини"), Some("Grocery Stores")),
            short_description: loc(None, Some("Groceries")),
        },
        MccEntry {
            mcc: "0742".to_string(),
            group: Group { group_type: "PETS".to_string(), description: loc(None, None) },
            full_description: loc(None, Some("Veterinary Services")),
            short_description: loc(None, None),
        },
    ])
}

fn dto(currency_code: i32, mcc: Option<i32>) -> BankTransactionDTO {
    BankTransactionDTO {
        idt: "t1".to_string(),
        external_id: "card".to_string(),
        ida: 7,
        amount: -1250,
        currency_code,
        description: Some("Shop".to_string()),
        mcc,
        hold: Some(true),
        transaction_time: DateTimeUtc { secs: 1_772_013_600, nanos: 0 },
        receipt_id: None,
        balance: Some(100),
        masked_pan: Some("4441**1111".to_string()),
        mcc_description: None,
        currency: None,
        tags: vec![tag("food", "primary"), tag("daily", "warn")],
    }
}

#[test]
fn one_transaction_gets_the_given_currency() {
    let out = describe_transaction(&table(), dto(980, Some(742)), Some("XYZ".to_string()));
    assert_eq!(out.currency.as_deref(), Some("XYZ"));
    assert_eq!(out.mcc_description.as_deref(), Some("Veterinary Services"));
    assert_eq!(out.amount, -1250);
    let out = describe_transaction(&table(), dto(980, Some(9999)), None);
    assert_eq!(out.currency, None);
    assert_eq!(out.mcc_description, None);
}

#[test]
fn transactions_get_currency_and_mcc_description() {
    let out = describe_transactions(&table(), vec![dto(980, Some(5411)), dto(840, Some(742)), dto(1, None)]);
    assert_eq!(out[0].currency.as_deref(), Some("UAH"));
    assert_eq!(out[0].mcc_description.as_deref(), Some("Продуктові магазини"));
    assert_eq!(out[1].currency.as_deref(), Some("USD"));
    assert_eq!(out[1].mcc_description.as_deref(), Some("Veterinary Services"));
    assert_eq!(out[2].currency, None);
    assert_eq!(out[2].mcc_description, None);
    assert_eq!(out[0].idt, "t1");
}

#[test]
fn csv_export() {
    let bytes = download_csv(&vec![dto(980, Some(5411))]).unwrap();
    let text = String::from_utf8(bytes).unwrap();
    assert_eq!(
        text,
        "idt,external_id,ida,amount,currency_code,description,mcc,hold,transaction_time,receipt_id,balance,masked_pan,mcc_description,currency,tags\n\
         t1,card,7,-1250,980,Shop,5411,true,2026-02-25T10:00:00+00:00,,100,4441**1111,,,\"food,daily\"\n"
    );
}

#[test]
fn xlsx_cells_export() {
    let mut d = dto(980, None);
    d.hold = None;
    let cells = xlsx_cells(&vec![d]);
    // 15 header cells, then 12 cells: no MCC and no hold cell
    assert_eq!(cells.len(), 15 + 13);
    assert!(matches!(&cells[0].value, CellValue::Text(s) if s == "idt"));
    let row: Vec<u16> = cells[15..].iter().map(|c| c.col).collect();
    assert_eq!(row, vec![0, 1, 2, 3, 4, 5, 8, 9, 10, 11, 12, 13, 14]);
    assert!(cells[15..].iter().all(|c| c.row == 1));
    assert!(matches!(cells[17].value, CellValue::Number(7)));
    assert!(matches!(&cells[27].value, CellValue::Text(s) if s == "food,daily"));
}

#[test]
fn mcc_list_skips_unknown_codes() {
    let r = get_mcc(&table(), &vec![742, 1, 5411]);
    let codes: Vec<&str> = r.iter().map(|e| e.mcc.as_str()).collect();
    assert_eq!(codes, vec!["0742", "5411"]);
}

#[test]
fn spreadsheet_cells_match_csv_fields() {
    let mut a = dto(980, Some(5411));
    a.tags = vec![tag("food", "primary")];
    let mut b = dto(840, None);
    b.idt = "t2".to_string();
    b.tags = vec![];
    let data = vec![a, b];
    let text = String::from_utf8(download_csv(&data).unwrap()).unwrap();
    let records: Vec<Vec<&str>> = text.lines().map(|l| l.split(',').collect()).collect();
    assert_eq!(records.len(), data.len() + 1);
    for cell in xlsx_cells(&data) {
        let shown = match &cell.value {
            CellValue::Text(s) => s.clone(),
            CellValue::Number(n) => n.to_string(),
            CellValue::Bool(b) => b.to_string(),
        };
        assert_eq!(records[cell.row as usize][cell.col as usize], shown);
    }
    assert_eq!(records[1][0], "t1");
    assert_eq!(records[2][0], "t2");
}
