//! The statements that write accounts and card monitors.

use vstd::prelude::*;

use crate::account::model::{AccountMonitorStatus, MonoAccount, UpdateAccount};
use crate::datetime::DateTimeUtc;
use crate::account::binding::{
    lemma_account_update_balanced, lemma_monitor_insert_balanced, lemma_status_update_balanced,
    lemma_timestamps_update_balanced,
};
use crate::sql::{args_view, balanced, ArgValue, SqlArg, SqlStatement};
use crate::text::{join, join_strings, views};

verus! {

/// The insert of a card monitor; a card already monitored is left as it is.
pub const INSERT_MONITOR: &'static str = "INSERT INTO bank_account_monitor (ida, external_id, currency_code, balance, credit_limit, iban, masked_pan, kind, status)
             VALUES (?, ?, ?, ?, ?, ?, ?, ?, ?)
             ON CONFLICT(external_id) DO NOTHING";

/// The values a new card monitor is stored with, in column order: the card
/// numbers joined by commas, the `Mono` kind and the `Never` status.
pub open spec fn monitor_insert_args(a: MonoAccount) -> Seq<ArgValue> {
    seq![
        ArgValue::U32(a.ida),
        ArgValue::Text(a.id@),
        ArgValue::I64(a.currency_code as i64),
        ArgValue::I64(a.balance as i64),
        ArgValue::I64(a.credit_limit as i64),
        ArgValue::Text(a.iban@),
        ArgValue::Text(join(views(a.masked_pan@), ","@)),
        ArgValue::Text("Mono"@),
        ArgValue::Text("Never"@),
    ]
}

/// The insert of a monitor for a card the bank reported.
pub fn monitor_insert(a: &MonoAccount) -> (s: SqlStatement)
    ensures
        s@ == (INSERT_MONITOR@, monitor_insert_args(*a)),
        balanced(s@),
{
    proof {
        lemma_monitor_insert_balanced(*a);
    }
    let mut s = SqlStatement::new(INSERT_MONITOR);
    let ghost s0 = s@;
    s.args.push(SqlArg::U32(a.ida));
    s.args.push(SqlArg::Text(a.id.clone()));
    s.args.push(SqlArg::I64(a.currency_code as i64));
    s.args.push(SqlArg::I64(a.balance as i64));
    s.args.push(SqlArg::I64(a.credit_limit as i64));
    s.args.push(SqlArg::Text(a.iban.clone()));
    s.args.push(SqlArg::Text(join_strings(&a.masked_pan, ",")));
    s.args.push(SqlArg::Text(String::from_str("Mono")));
    s.args.push(SqlArg::Text(String::from_str(AccountMonitorStatus::Never.as_str())));
    assert(s@.1 =~= ((INSERT_MONITOR@, monitor_insert_args(*a))).1);
    assert(s@ == (INSERT_MONITOR@, monitor_insert_args(*a)));
    s
}

/// The inserts of monitors for the cards the bank reported, one per card;
/// none for no cards.
pub fn insert_mono_accounts_monitor(accounts: &Vec<MonoAccount>) -> (r: Vec<SqlStatement>)
    ensures
        r@.len() == accounts@.len(),
        forall|i: int|
            0 <= i < r@.len() ==> (#[trigger] r@[i])@ == (INSERT_MONITOR@, monitor_insert_args(accounts@[i])),
        forall|i: int| 0 <= i < r@.len() ==> balanced((#[trigger] r@[i])@),
{
    let mut r: Vec<SqlStatement> = Vec::new();
    let mut i: usize = 0;
    while i < accounts.len()
        invariant
            0 <= i <= accounts@.len(),
            r@.len() == i,
            forall|k: int|
                0 <= k < i ==> (#[trigger] r@[k])@ == (INSERT_MONITOR@, monitor_insert_args(accounts@[k])),
            forall|k: int| 0 <= k < i ==> balanced((#[trigger] r@[k])@),
        decreases accounts@.len() - i,
    {
        r.push(monitor_insert(&accounts[i]));
        i = i + 1;
    }
    r
}

/// The change of a monitor's status.
pub open spec fn status_update(ida: u32, external_id: Seq<char>, status: AccountMonitorStatus) -> (Seq<char>, Seq<ArgValue>) {
    (
        "UPDATE bank_account_monitor SET status = ? WHERE ida = ? and external_id = ?"@,
        seq![
            ArgValue::Text(match status {
                AccountMonitorStatus::Never => "Never"@,
                AccountMonitorStatus::Pending => "Pending"@,
                AccountMonitorStatus::Updated => "Updated"@,
            }),
            ArgValue::U32(ida),
            ArgValue::Text(external_id),
        ],
    )
}

/// The statement that sets a monitor's status.
pub fn update_monitor_status(ida: u32, external_id: &str, status: AccountMonitorStatus) -> (s: SqlStatement)
    ensures
        s@ == status_update(ida, external_id@, status),
        balanced(s@),
{
    proof {
        lemma_status_update_balanced(ida, external_id@, status);
    }
    let mut s = SqlStatement::new("UPDATE bank_account_monitor SET status = ? WHERE ida = ? and external_id = ?");
    s.args.push(SqlArg::Text(String::from_str(status.as_str())));
    s.args.push(SqlArg::U32(ida));
    s.args.push(SqlArg::Text(String::from_str(external_id)));
    assert(s@.1 =~= (status_update(ida, external_id@, status)).1);
    assert(s@ == status_update(ida, external_id@, status));
    s
}

/// The change of a monitor's stored range: its end always, its start only
/// when a new one is given.
pub open spec fn timestamps_update(
    ida: u32,
    external_id: Seq<char>,
    updated_at: DateTimeUtc,
    last_taken: Option<DateTimeUtc>,
) -> (Seq<char>, Seq<ArgValue>) {
    match last_taken {
        Some(lt) => (
            "UPDATE bank_account_monitor SET updated_at = ?, last_taken_date = ? WHERE ida = ? and external_id = ?"@,
            seq![ArgValue::Time(updated_at), ArgValue::Time(lt), ArgValue::U32(ida), ArgValue::Text(external_id)],
        ),
        None => (
            "UPDATE bank_account_monitor SET updated_at = ? WHERE ida = ? and external_id = ?"@,
            seq![ArgValue::Time(updated_at), ArgValue::U32(ida), ArgValue::Text(external_id)],
        ),
    }
}

/// The statement that records the range a refresh has stored.
pub fn update_monitor_timestamps(
    ida: u32,
    external_id: &str,
    updated_at: DateTimeUtc,
    maybe_last_taken_date: Option<DateTimeUtc>,
) -> (s: SqlStatement)
    ensures
        s@ == timestamps_update(ida, external_id@, updated_at, maybe_last_taken_date),
        balanced(s@),
{
    proof {
        lemma_timestamps_update_balanced(ida, external_id@, updated_at, maybe_last_taken_date);
    }
    match maybe_last_taken_date {
        Some(lt) => {
            let mut s = SqlStatement::new(
                "UPDATE bank_account_monitor SET updated_at = ?, last_taken_date = ? WHERE ida = ? and external_id = ?",
            );
            s.args.push(SqlArg::Time(updated_at));
            s.args.push(SqlArg::Time(lt));
            s.args.push(SqlArg::U32(ida));
            s.args.push(SqlArg::Text(String::from_str(external_id)));
            assert(s@.1 =~= (timestamps_update(ida, external_id@, updated_at, maybe_last_taken_date)).1);
    assert(s@ == timestamps_update(ida, external_id@, updated_at, maybe_last_taken_date));
            s
        },
        None => {
            let mut s = SqlStatement::new(
                "UPDATE bank_account_monitor SET updated_at = ? WHERE ida = ? and external_id = ?",
            );
            s.args.push(SqlArg::Time(updated_at));
            s.args.push(SqlArg::U32(ida));
            s.args.push(SqlArg::Text(String::from_str(external_id)));
            assert(s@.1 =~= (timestamps_update(ida, external_id@, updated_at, maybe_last_taken_date)).1);
    assert(s@ == timestamps_update(ida, external_id@, updated_at, maybe_last_taken_date));
            s
        },
    }
}

/// The `SET` clauses of an account change: the name and/or the token.
pub open spec fn set_clauses(u: UpdateAccount) -> Seq<Seq<char>> {
    (if u.name is Some { seq!["name = ?"@] } else { Seq::empty() }) + (if u.token is Some {
        seq!["token = ?"@]
    } else {
        Seq::empty()
    })
}

/// The change of an account: the given fields replaced and the account
/// returned; with nothing to change, the account read as it is.
pub open spec fn account_update(ida: u32, u: UpdateAccount) -> (Seq<char>, Seq<ArgValue>) {
    if set_clauses(u).len() == 0 {
        ("SELECT ida, kind, name FROM bank_account WHERE ida = ?"@, seq![ArgValue::U32(ida)])
    } else {
        (
            "UPDATE bank_account SET "@ + join(set_clauses(u), ", "@) + " WHERE ida = ? RETURNING ida, kind, name"@,
            (match u.name {
                Some(n) => seq![ArgValue::Text(n@)],
                None => Seq::empty(),
            }) + (match u.token {
                Some(t) => seq![ArgValue::Text(t@)],
                None => Seq::empty(),
            }) + seq![ArgValue::U32(ida)],
        )
    }
}

/// The statement that changes an account.
pub fn update_account(ida: u32, payload: &UpdateAccount) -> (s: SqlStatement)
    ensures
        s@ == account_update(ida, *payload),
        balanced(s@),
{
    proof {
        lemma_account_update_balanced(ida, *payload);
    }
    if payload.name.is_none() && payload.token.is_none() {
        let mut s = SqlStatement::new("SELECT ida, kind, name FROM bank_account WHERE ida = ?");
        s.args.push(SqlArg::U32(ida));
        assert(s@.1 =~= (account_update(ida, *payload)).1);
    assert(s@ == account_update(ida, *payload));
        return s;
    }
    let mut clauses: Vec<String> = Vec::new();
    if payload.name.is_some() {
        clauses.push(String::from_str("name = ?"));
    }
    if payload.token.is_some() {
        clauses.push(String::from_str("token = ?"));
    }
    assert(views(clauses@) =~= set_clauses(*payload));
    let joined = join_strings(&clauses, ", ");
    let mut s = SqlStatement::new("UPDATE bank_account SET ");
    s.push(joined.as_str());
    s.push(" WHERE ida = ? RETURNING ida, kind, name");
    match &payload.name {
        Some(n) => s.args.push(SqlArg::Text(n.clone())),
        None => {},
    }
    match &payload.token {
        Some(t) => s.args.push(SqlArg::Text(t.clone())),
        None => {},
    }
    s.args.push(SqlArg::U32(ida));
    assert(s@.1 =~= (account_update(ida, *payload)).1);
    assert(s@ == account_update(ida, *payload));
    s
}

} // verus!
