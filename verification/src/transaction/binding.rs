//! Every statement the transaction repository builds binds exactly one
//! value per `?` parameter of its text.

use vstd::prelude::*;

use crate::sql::{
    balanced, bind_list, value_rows, lemma_bind_list_params, lemma_param_count_concat, lemma_short_texts, lemma_value_rows_params, param_count,
    params_upto, ArgValue,
};
use crate::transaction::model::{BankTransaction, BankTransactionFilter, BankTransactionTag, FilterCondition, FilterException};
use crate::transaction::repository::{
    apply_condition, apply_exception, column_of, comparison_of, delete_tags_query, entries_args, exceptions_view,
    external_id_clause, external_id_list_view, fold_conditions, fold_exceptions, ida_clause, ida_list_view,
    insert_tags_query, insert_transactions_query, joined, key_match, key_matches, keys_args, like_pattern,
    similar_tags_query, similar_transactions_query, tag_entries, tag_matches, transaction_args,
    transactions_args, transactions_query, CondState, StatementView, INSERT_TAGS, INSERT_TRANSACTIONS,
    SIMILAR_TAGS_SELECT, TRANSACTIONS_SELECT,
};

verus! {

proof fn lemma_select_texts()
    ensures
        param_count(TRANSACTIONS_SELECT@) == 0,
        param_count(INSERT_TRANSACTIONS@) == 0,
        param_count(SIMILAR_TAGS_SELECT@) == 0,
        param_count(INSERT_TAGS@) == 0,
{
    reveal_strlit("SELECT t.idt, t.ida, t.external_id, t.amount, t.currency_code,
         t.description, t.mcc, t.hold, t.transaction_time, t.receipt_id, t.balance, a.masked_pan,
         NULL as mcc_description, NULL as currency,
         (SELECT GROUP_CONCAT(tag || '+' || COALESCE(severity, 'primary'), ',') FROM bank_transaction_tag WHERE idt = t.idt) as tags
        FROM bank_transaction t
            LEFT JOIN bank_account_monitor a
            ON t.external_id = a.external_id
            LEFT JOIN bank_account b
            ON a.ida = b.ida
        WHERE ");
    reveal_strlit("INSERT OR IGNORE INTO bank_transaction (idt, ida, external_id, amount, currency_code, description, mcc, hold, transaction_time, receipt_id, balance) ");
    reveal_strlit("SELECT bt.mcc, bt.description, t.tag, t.severity FROM bank_transaction_tag t JOIN bank_transaction bt ON t.idt = bt.idt WHERE ");
    reveal_strlit("INSERT OR IGNORE INTO bank_transaction_tag (idt, tag, severity) ");
    reveal_with_fuel(params_upto, 51);
    assert(params_upto(TRANSACTIONS_SELECT@, 50) == 0);
    assert(params_upto(TRANSACTIONS_SELECT@, 100) == 0);
    assert(params_upto(TRANSACTIONS_SELECT@, 150) == 0);
    assert(params_upto(TRANSACTIONS_SELECT@, 200) == 0);
    assert(params_upto(TRANSACTIONS_SELECT@, 250) == 0);
    assert(params_upto(TRANSACTIONS_SELECT@, 300) == 0);
    assert(params_upto(TRANSACTIONS_SELECT@, 350) == 0);
    assert(params_upto(TRANSACTIONS_SELECT@, 400) == 0);
    assert(params_upto(TRANSACTIONS_SELECT@, 450) == 0);
    assert(params_upto(TRANSACTIONS_SELECT@, 500) == 0);
    assert(params_upto(INSERT_TRANSACTIONS@, 50) == 0);
    assert(params_upto(INSERT_TRANSACTIONS@, 100) == 0);
    assert(params_upto(SIMILAR_TAGS_SELECT@, 50) == 0);
    assert(params_upto(SIMILAR_TAGS_SELECT@, 100) == 0);
    assert(params_upto(INSERT_TAGS@, 50) == 0);
}

proof fn lemma_filter_texts()
    ensures
        param_count("t.ida in ("@) == 0,
        param_count(" select ida from bank_account)"@) == 0,
        param_count(" AND t.transaction_time >= "@) == 0,
        param_count(" AND t.transaction_time <= "@) == 0,
        param_count(" AND t.external_id IN ("@) == 0,
        param_count(" order by t.transaction_time desc"@) == 0,
        param_count("NOT EXISTS (SELECT 1 FROM bank_transaction_tag WHERE idt = t.idt AND tag = "@) == 0,
        param_count("EXISTS (SELECT 1 FROM bank_transaction_tag WHERE idt = t.idt AND tag = "@) == 0,
        param_count(" AND severity = "@) == 0,
        param_count(" LIKE "@) == 0,
{
    reveal_strlit("t.ida in (");
    reveal_strlit(" select ida from bank_account)");
    reveal_strlit(" AND t.transaction_time >= ");
    reveal_strlit(" AND t.transaction_time <= ");
    reveal_strlit(" AND t.external_id IN (");
    reveal_strlit(" order by t.transaction_time desc");
    reveal_strlit("NOT EXISTS (SELECT 1 FROM bank_transaction_tag WHERE idt = t.idt AND tag = ");
    reveal_strlit("EXISTS (SELECT 1 FROM bank_transaction_tag WHERE idt = t.idt AND tag = ");
    reveal_strlit(" AND severity = ");
    reveal_strlit(" LIKE ");
    reveal_with_fuel(params_upto, 41);
    assert(params_upto("NOT EXISTS (SELECT 1 FROM bank_transaction_tag WHERE idt = t.idt AND tag = "@, 40) == 0);
    assert(params_upto("EXISTS (SELECT 1 FROM bank_transaction_tag WHERE idt = t.idt AND tag = "@, 40) == 0);
}

proof fn lemma_column_texts(field: Seq<char>, op: Seq<char>)
    ensures
        column_of(field) matches Some(col) ==> param_count(col) == 0,
        comparison_of(op) matches Some(cmp) ==> param_count(cmp) == 0,
{
    reveal_strlit("t.amount");
    reveal_strlit("t.mcc");
    reveal_strlit("t.currency_code");
    reveal_strlit("t.description");
    reveal_strlit("t.receipt_id");
    reveal_strlit("t.external_id");
    reveal_strlit(" = ");
    reveal_strlit(" != ");
    reveal_strlit(" < ");
    reveal_strlit(" > ");
    reveal_strlit(" <= ");
    reveal_strlit(" >= ");
    reveal_with_fuel(params_upto, 16);
}

/// A statement under construction binds one value per parameter so far.
pub open spec fn cond_balanced(st: CondState) -> bool {
    param_count(st.0) == st.1.len()
}

proof fn lemma_joined(st: CondState)
    ensures
        param_count(joined(st)) == param_count(st.0),
{
    lemma_short_texts();
    lemma_param_count_concat(st.0, " AND "@);
}

proof fn lemma_apply_condition_balanced(st: CondState, c: FilterCondition)
    requires
        cond_balanced(st),
    ensures
        cond_balanced(apply_condition(st, c)),
{
    lemma_short_texts();
    lemma_filter_texts();
    lemma_column_texts(c.field@, c.operator@);
    lemma_joined(st);
    let j = joined(st);
    if c.field@ == "tag"@ {
        if c.operator@ == "eq"@ || c.operator@ == "neq"@ {
            if let Some(sev) = c.severity {
                let head = if c.operator@ == "neq"@ {
                    "NOT EXISTS (SELECT 1 FROM bank_transaction_tag WHERE idt = t.idt AND tag = "@
                } else {
                    "EXISTS (SELECT 1 FROM bank_transaction_tag WHERE idt = t.idt AND tag = "@
                };
                lemma_param_count_concat(j, head);
                lemma_param_count_concat(j + head, "?"@);
                lemma_param_count_concat(j + head + "?"@, " AND severity = "@);
                lemma_param_count_concat(j + head + "?"@ + " AND severity = "@, "?"@);
                lemma_param_count_concat(j + head + "?"@ + " AND severity = "@ + "?"@, ")"@);
            }
        }
    } else if let Some(col) = column_of(c.field@) {
        if let Some(cmp) = comparison_of(c.operator@) {
            lemma_param_count_concat(j, col);
            lemma_param_count_concat(j + col, cmp);
            lemma_param_count_concat(j + col + cmp, "?"@);
        } else if let Some(pat) = like_pattern(c.operator@, c.value@) {
            lemma_param_count_concat(j, col);
            lemma_param_count_concat(j + col, " LIKE "@);
            lemma_param_count_concat(j + col + " LIKE "@, "?"@);
        }
    }
}

proof fn lemma_fold_conditions_balanced(st: CondState, conds: Seq<FilterCondition>)
    requires
        cond_balanced(st),
    ensures
        cond_balanced(fold_conditions(st, conds)),
    decreases conds.len(),
{
    if conds.len() > 0 {
        lemma_fold_conditions_balanced(st, conds.drop_last());
        lemma_apply_condition_balanced(fold_conditions(st, conds.drop_last()), conds.last());
    }
}

/// No exception's combinator holds a `?` of its own: the one piece of a
/// filter that goes into the query text as it is.
pub open spec fn combinators_param_free(exs: Seq<FilterException>) -> bool {
    forall|i: int| 0 <= i < exs.len() ==> param_count((#[trigger] exs[i]).combinator@) == 0
}

proof fn lemma_fold_exceptions_balanced(st: StatementView, exs: Seq<FilterException>)
    requires
        balanced(st),
        combinators_param_free(exs),
    ensures
        balanced(fold_exceptions(st, exs)),
    decreases exs.len(),
{
    if exs.len() > 0 {
        let prev = exs.drop_last();
        assert(combinators_param_free(prev)) by {
            assert forall|i: int| 0 <= i < prev.len() implies param_count((#[trigger] prev[i]).combinator@) == 0 by {
                assert(prev[i] == exs[i]);
            }
        }
        lemma_fold_exceptions_balanced(st, prev);
        let s = fold_exceptions(st, prev);
        let ex = exs.last();
        assert(param_count(ex.combinator@) == 0) by {
            assert(exs[exs.len() - 1] == ex);
        }
        if ex.conditions@.len() > 0 {
            lemma_short_texts();
            let open = s.0 + " "@ + ex.combinator@ + " ("@;
            lemma_param_count_concat(s.0, " "@);
            lemma_param_count_concat(s.0 + " "@, ex.combinator@);
            lemma_param_count_concat(s.0 + " "@ + ex.combinator@, " ("@);
            lemma_fold_conditions_balanced((open, s.1, true), ex.conditions@);
            let r = fold_conditions((open, s.1, true), ex.conditions@);
            lemma_param_count_concat(r.0, ")"@);
        }
    }
}

/// The transactions query binds one value per parameter, whenever no
/// exception's combinator holds a `?`.
pub proof fn lemma_transactions_query_balanced(f: BankTransactionFilter)
    requires
        combinators_param_free(exceptions_view(f)),
    ensures
        balanced(transactions_query(f)),
{
    lemma_short_texts();
    lemma_select_texts();
    lemma_filter_texts();
    let head = TRANSACTIONS_SELECT@ + "t.ida in ("@;
    lemma_param_count_concat(TRANSACTIONS_SELECT@, "t.ida in ("@);
    let ida = ida_clause(ida_list_view(f));
    match ida_list_view(f) {
        Some(l) => if l.len() > 0 {
            lemma_bind_list_params(l.len());
            lemma_param_count_concat(bind_list(l.len()), ")"@);
        },
        None => {},
    }
    assert(balanced(ida));
    lemma_param_count_concat(head, ida.0);
    let window = " AND t.transaction_time >= "@ + "?"@ + " AND t.transaction_time <= "@ + "?"@;
    lemma_param_count_concat(" AND t.transaction_time >= "@, "?"@);
    lemma_param_count_concat(" AND t.transaction_time >= "@ + "?"@, " AND t.transaction_time <= "@);
    lemma_param_count_concat(" AND t.transaction_time >= "@ + "?"@ + " AND t.transaction_time <= "@, "?"@);
    let s1 = (head + ida.0, Seq::<ArgValue>::empty() + ida.1);
    lemma_param_count_concat(s1.0, window);
    let s2 = (s1.0 + window, s1.1 + seq![ArgValue::Time(f.from), ArgValue::Time(f.to)]);
    let ext = external_id_clause(external_id_list_view(f));
    match external_id_list_view(f) {
        Some(l) => if l.len() > 0 {
            lemma_bind_list_params(l.len());
            lemma_param_count_concat(" AND t.external_id IN ("@, bind_list(l.len()));
            lemma_param_count_concat(" AND t.external_id IN ("@ + bind_list(l.len()), ")"@);
        },
        None => {},
    }
    assert(balanced(ext));
    lemma_param_count_concat(s2.0, ext.0);
    let s3 = (s2.0 + ext.0, s2.1 + ext.1);
    lemma_fold_exceptions_balanced(s3, exceptions_view(f));
    let s4 = fold_exceptions(s3, exceptions_view(f));
    lemma_param_count_concat(s4.0, " order by t.transaction_time desc"@);
}

proof fn lemma_other_texts()
    ensures
        param_count("SELECT idt FROM bank_transaction WHERE "@) == 0,
        param_count("(mcc = "@) == 0,
        param_count("(mcc IS NULL)"@) == 0,
        param_count("(description = "@) == 0,
        param_count("(description IS NULL)"@) == 0,
        param_count(" ORDER BY transaction_time DESC"@) == 0,
        param_count("DELETE FROM bank_transaction_tag WHERE "@) == 0,
        param_count("(idt = "@) == 0,
        param_count(" AND tag = "@) == 0,
        param_count(" OR ("@) == 0,
        param_count("bt.mcc = "@) == 0,
        param_count(" AND bt.description = "@) == 0,
        param_count(" ORDER BY bt.mcc, bt.description, t.tag, t.severity"@) == 0,
{
    reveal_strlit("SELECT idt FROM bank_transaction WHERE ");
    reveal_strlit("(mcc = ");
    reveal_strlit("(mcc IS NULL)");
    reveal_strlit("(description = ");
    reveal_strlit("(description IS NULL)");
    reveal_strlit(" ORDER BY transaction_time DESC");
    reveal_strlit("DELETE FROM bank_transaction_tag WHERE ");
    reveal_strlit("(idt = ");
    reveal_strlit(" AND tag = ");
    reveal_strlit(" OR (");
    reveal_strlit("bt.mcc = ");
    reveal_strlit(" AND bt.description = ");
    reveal_strlit(" ORDER BY bt.mcc, bt.description, t.tag, t.severity");
    reveal_with_fuel(params_upto, 41);
    assert(params_upto(" ORDER BY bt.mcc, bt.description, t.tag, t.severity"@, 40) == 0);
}

proof fn lemma_transactions_args_len(ts: Seq<BankTransaction>)
    ensures
        transactions_args(ts).len() == 11 * ts.len(),
    decreases ts.len(),
{
    if ts.len() > 0 {
        lemma_transactions_args_len(ts.drop_last());
        assert(11 * (ts.len() - 1) + 11 == 11 * ts.len()) by (nonlinear_arith);
    }
}

/// The insert of transactions binds one value per parameter.
pub proof fn lemma_insert_transactions_balanced(ts: Seq<BankTransaction>)
    ensures
        balanced(insert_transactions_query(ts)),
{
    lemma_short_texts();
    lemma_select_texts();
    lemma_value_rows_params(ts.len(), 11);
    lemma_transactions_args_len(ts);
    lemma_param_count_concat(INSERT_TRANSACTIONS@, "VALUES "@);
    lemma_param_count_concat(INSERT_TRANSACTIONS@ + "VALUES "@, value_rows(ts.len(), 11));
    assert(ts.len() * 11 == 11 * ts.len()) by (nonlinear_arith);
}

/// The query for similar transactions binds one value per parameter.
pub proof fn lemma_similar_transactions_balanced(base: BankTransaction, mcc: bool, description: bool)
    ensures
        similar_transactions_query(base, mcc, description) matches Some(q) ==> balanced(q),
{
    lemma_short_texts();
    lemma_other_texts();
    if mcc || description {
        let s0 = "SELECT idt FROM bank_transaction WHERE "@;
        let m: Seq<char> = if mcc {
            match base.mcc {
                Some(_) => "(mcc = "@ + "?"@ + ")"@,
                None => "(mcc IS NULL)"@,
            }
        } else {
            Seq::empty()
        };
        lemma_param_count_concat("(mcc = "@, "?"@);
        lemma_param_count_concat("(mcc = "@ + "?"@, ")"@);
        lemma_param_count_concat(s0, m);
        let sep: Seq<char> = if mcc && description { " AND "@ } else { Seq::empty() };
        lemma_param_count_concat(s0 + m, sep);
        let d: Seq<char> = if description {
            match base.description {
                Some(_) => "(description = "@ + "?"@ + ")"@,
                None => "(description IS NULL)"@,
            }
        } else {
            Seq::empty()
        };
        lemma_param_count_concat("(description = "@, "?"@);
        lemma_param_count_concat("(description = "@ + "?"@, ")"@);
        lemma_param_count_concat(s0 + m + sep, d);
        lemma_param_count_concat(s0 + m + sep + d, " ORDER BY transaction_time DESC"@);
        let q = similar_transactions_query(base, mcc, description).unwrap();
        assert(q.0 =~= s0 + m + sep + d + " ORDER BY transaction_time DESC"@);
    }
}

proof fn lemma_entries_args_len(es: Seq<(Seq<char>, Seq<char>, Seq<char>)>)
    ensures
        entries_args(es).len() == 3 * es.len(),
    decreases es.len(),
{
    if es.len() > 0 {
        lemma_entries_args_len(es.drop_last());
        assert(3 * (es.len() - 1) + 3 == 3 * es.len()) by (nonlinear_arith);
    }
}

/// The insert of tags binds one value per parameter.
pub proof fn lemma_insert_tags_balanced(tags: Seq<BankTransactionTag>)
    ensures
        insert_tags_query(tags) matches Some(q) ==> balanced(q),
{
    if tags.len() > 0 {
        let n = tag_entries(tags).len();
        lemma_short_texts();
        lemma_select_texts();
        lemma_value_rows_params(n, 3);
        lemma_entries_args_len(tag_entries(tags));
        lemma_param_count_concat(INSERT_TAGS@, "VALUES "@);
        lemma_param_count_concat(INSERT_TAGS@ + "VALUES "@, value_rows(n, 3));
        assert(n * 3 == 3 * n) by (nonlinear_arith);
    }
}

proof fn lemma_tag_matches_params(n: nat)
    ensures
        param_count(tag_matches(n)) == 3 * n,
    decreases n,
{
    lemma_short_texts();
    lemma_other_texts();
    lemma_filter_texts();
    let one = "(idt = "@ + "?"@ + " AND tag = "@ + "?"@ + " AND severity = "@ + "?"@ + ")"@;
    lemma_param_count_concat("(idt = "@, "?"@);
    lemma_param_count_concat("(idt = "@ + "?"@, " AND tag = "@);
    lemma_param_count_concat("(idt = "@ + "?"@ + " AND tag = "@, "?"@);
    lemma_param_count_concat("(idt = "@ + "?"@ + " AND tag = "@ + "?"@, " AND severity = "@);
    lemma_param_count_concat("(idt = "@ + "?"@ + " AND tag = "@ + "?"@ + " AND severity = "@, "?"@);
    lemma_param_count_concat("(idt = "@ + "?"@ + " AND tag = "@ + "?"@ + " AND severity = "@ + "?"@, ")"@);
    assert(param_count(one) == 3);
    if n > 1 {
        let prev = tag_matches((n - 1) as nat);
        lemma_tag_matches_params((n - 1) as nat);
        lemma_param_count_concat(prev, " OR "@);
        lemma_param_count_concat(prev + " OR "@, one);
        assert(tag_matches(n) =~= prev + " OR "@ + one);
    } else if n == 1 {
        assert(tag_matches(n) =~= one);
    }
}

/// The delete of tags binds one value per parameter.
pub proof fn lemma_delete_tags_balanced(tags: Seq<BankTransactionTag>)
    ensures
        delete_tags_query(tags) matches Some(q) ==> balanced(q),
{
    let n = tag_entries(tags).len();
    if n > 0 {
        lemma_other_texts();
        lemma_tag_matches_params(n);
        lemma_entries_args_len(tag_entries(tags));
        lemma_param_count_concat("DELETE FROM bank_transaction_tag WHERE "@, tag_matches(n));
    }
}

proof fn lemma_key_matches_params(n: nat)
    ensures
        param_count(key_matches(n)) == 2 * n,
    decreases n,
{
    if n > 0 {
        lemma_short_texts();
        lemma_other_texts();
        lemma_key_matches_params((n - 1) as nat);
        let open: Seq<char> = if n == 1 { "("@ } else { " OR ("@ };
        lemma_param_count_concat(open, "bt.mcc = "@);
        lemma_param_count_concat(open + "bt.mcc = "@, "?"@);
        lemma_param_count_concat(open + "bt.mcc = "@ + "?"@, " AND bt.description = "@);
        lemma_param_count_concat(open + "bt.mcc = "@ + "?"@ + " AND bt.description = "@, "?"@);
        lemma_param_count_concat(open + "bt.mcc = "@ + "?"@ + " AND bt.description = "@ + "?"@, ")"@);
        assert(param_count(key_match(n == 1)) == 2);
        lemma_param_count_concat(key_matches((n - 1) as nat), key_match(n == 1));
    }
}

proof fn lemma_keys_args_len(keys: Seq<(u32, String)>)
    ensures
        keys_args(keys).len() == 2 * keys.len(),
    decreases keys.len(),
{
    if keys.len() > 0 {
        lemma_keys_args_len(keys.drop_last());
    }
}

/// The query for the tags of similar transactions binds one value per
/// parameter.
pub proof fn lemma_similar_tags_balanced(keys: Seq<(u32, String)>)
    ensures
        similar_tags_query(keys) matches Some(q) ==> balanced(q),
{
    if keys.len() > 0 {
        lemma_select_texts();
        lemma_other_texts();
        lemma_key_matches_params(keys.len());
        lemma_keys_args_len(keys);
        lemma_param_count_concat(SIMILAR_TAGS_SELECT@, key_matches(keys.len()));
        lemma_param_count_concat(
            SIMILAR_TAGS_SELECT@ + key_matches(keys.len()),
            " ORDER BY bt.mcc, bt.description, t.tag, t.severity"@,
        );
    }
}

} // verus!
