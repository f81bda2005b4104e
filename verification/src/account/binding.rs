//! Every statement the account repository builds binds exactly one value
//! per `?` parameter of its text.

use vstd::prelude::*;

use crate::account::model::{AccountMonitorStatus, MonoAccount, UpdateAccount};
use crate::account::repository::{
    account_update, monitor_insert_args, set_clauses, status_update, timestamps_update, INSERT_MONITOR,
};
use crate::datetime::DateTimeUtc;
use crate::sql::{balanced, lemma_param_count_concat, lemma_short_texts, param_count, params_upto};
use crate::text::join;

verus! {

proof fn lemma_account_texts()
    ensures
        param_count(INSERT_MONITOR@) == 9,
        param_count("UPDATE bank_account_monitor SET status = ? WHERE ida = ? and external_id = ?"@) == 3,
        param_count(
            "UPDATE bank_account_monitor SET updated_at = ?, last_taken_date = ? WHERE ida = ? and external_id = ?"@,
        ) == 4,
        param_count("UPDATE bank_account_monitor SET updated_at = ? WHERE ida = ? and external_id = ?"@) == 3,
        param_count("SELECT ida, kind, name FROM bank_account WHERE ida = ?"@) == 1,
        param_count("UPDATE bank_account SET "@) == 0,
        param_count(" WHERE ida = ? RETURNING ida, kind, name"@) == 1,
        param_count("name = ?"@) == 1,
        param_count("token = ?"@) == 1,
{
    reveal_strlit(
        "INSERT INTO bank_account_monitor (ida, external_id, currency_code, balance, credit_limit, iban, masked_pan, kind, status)
             VALUES (?, ?, ?, ?, ?, ?, ?, ?, ?)
             ON CONFLICT(external_id) DO NOTHING",
    );
    reveal_strlit("UPDATE bank_account_monitor SET status = ? WHERE ida = ? and external_id = ?");
    reveal_strlit("UPDATE bank_account_monitor SET updated_at = ?, last_taken_date = ? WHERE ida = ? and external_id = ?");
    reveal_strlit("UPDATE bank_account_monitor SET updated_at = ? WHERE ida = ? and external_id = ?");
    reveal_strlit("SELECT ida, kind, name FROM bank_account WHERE ida = ?");
    reveal_strlit("UPDATE bank_account SET ");
    reveal_strlit(" WHERE ida = ? RETURNING ida, kind, name");
    reveal_strlit("name = ?");
    reveal_strlit("token = ?");
    reveal_with_fuel(params_upto, 51);
    assert(params_upto(INSERT_MONITOR@, 50) == 0);
    assert(params_upto(INSERT_MONITOR@, 100) == 0);
    assert(params_upto(INSERT_MONITOR@, 150) == 3);
    assert(params_upto(INSERT_MONITOR@, 200) == 9);
    assert(params_upto("UPDATE bank_account_monitor SET status = ? WHERE ida = ? and external_id = ?"@, 50) == 1);
    assert(params_upto(
        "UPDATE bank_account_monitor SET updated_at = ?, last_taken_date = ? WHERE ida = ? and external_id = ?"@,
        50,
    ) == 1);
    assert(params_upto(
        "UPDATE bank_account_monitor SET updated_at = ?, last_taken_date = ? WHERE ida = ? and external_id = ?"@,
        100,
    ) == 3);
    assert(params_upto("UPDATE bank_account_monitor SET updated_at = ? WHERE ida = ? and external_id = ?"@, 50) == 1);
    assert(params_upto("SELECT ida, kind, name FROM bank_account WHERE ida = ?"@, 50) == 0);
}

/// The insert of a card monitor binds one value per parameter.
pub proof fn lemma_monitor_insert_balanced(a: MonoAccount)
    ensures
        balanced((INSERT_MONITOR@, monitor_insert_args(a))),
{
    lemma_account_texts();
}

/// The change of a monitor's status binds one value per parameter.
pub proof fn lemma_status_update_balanced(ida: u32, external_id: Seq<char>, status: AccountMonitorStatus)
    ensures
        balanced(status_update(ida, external_id, status)),
{
    lemma_account_texts();
}

/// The change of a monitor's stored range binds one value per parameter.
pub proof fn lemma_timestamps_update_balanced(
    ida: u32,
    external_id: Seq<char>,
    updated_at: DateTimeUtc,
    last_taken: Option<DateTimeUtc>,
)
    ensures
        balanced(timestamps_update(ida, external_id, updated_at, last_taken)),
{
    lemma_account_texts();
}

/// The change of an account binds one value per parameter.
pub proof fn lemma_account_update_balanced(ida: u32, u: UpdateAccount)
    ensures
        balanced(account_update(ida, u)),
{
    lemma_account_texts();
    lemma_short_texts();
    let clauses = set_clauses(u);
    if clauses.len() > 0 {
        let joined = join(clauses, ", "@);
        if clauses.len() == 1 {
            assert(joined == clauses[0]);
            assert(param_count(joined) == 1);
        } else {
            assert(clauses.len() == 2);
            assert(clauses.drop_last().len() == 1);
            assert(join(clauses.drop_last(), ", "@) == clauses[0]);
            assert(joined == clauses[0] + ", "@ + clauses[1]);
            lemma_param_count_concat(clauses[0], ", "@);
            lemma_param_count_concat(clauses[0] + ", "@, clauses[1]);
            assert(param_count(joined) == 2);
        }
        lemma_param_count_concat("UPDATE bank_account SET "@, joined);
        lemma_param_count_concat("UPDATE bank_account SET "@ + joined, " WHERE ida = ? RETURNING ida, kind, name"@);
    }
}

} // verus!
