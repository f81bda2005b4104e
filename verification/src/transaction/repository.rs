//! The statements that read and write transactions and their tags.

use vstd::prelude::*;

use crate::sql::{args_view, balanced, bind_list, clone_opt_text, opt_text, value_rows, ArgValue, SqlArg, SqlStatement};
use crate::text::{str_eq, views};
use crate::transaction::binding::{
    combinators_param_free, lemma_delete_tags_balanced, lemma_insert_tags_balanced, lemma_insert_transactions_balanced,
    lemma_similar_tags_balanced, lemma_similar_transactions_balanced, lemma_transactions_query_balanced,
};
use crate::tags::{tag_view, tags_view, TransactionTag};
use crate::transaction::model::{
    BankTransaction, BankTransactionFilter, BankTransactionTag, FilterCondition, FilterException,
};

verus! {

/// The select list and joins of the transactions query, up to its `WHERE`.
pub const TRANSACTIONS_SELECT: &'static str = "SELECT t.idt, t.ida, t.external_id, t.amount, t.currency_code,
         t.description, t.mcc, t.hold, t.transaction_time, t.receipt_id, t.balance, a.masked_pan,
         NULL as mcc_description, NULL as currency,
         (SELECT GROUP_CONCAT(tag || '+' || COALESCE(severity, 'primary'), ',') FROM bank_transaction_tag WHERE idt = t.idt) as tags
        FROM bank_transaction t
            LEFT JOIN bank_account_monitor a
            ON t.external_id = a.external_id
            LEFT JOIN bank_account b
            ON a.ida = b.ida
        WHERE ";

/// A statement under construction: its text and its bound values.
pub type StatementView = (Seq<char>, Seq<ArgValue>);

/// Two statement pieces, one after the other.
pub open spec fn cat(a: StatementView, b: StatementView) -> StatementView {
    (a.0 + b.0, a.1 + b.1)
}

/// The transactions' accounts: the listed ones, or every account when the
/// list is missing or empty.
pub open spec fn ida_clause(ida_list: Option<Seq<u32>>) -> StatementView {
    match ida_list {
        Some(l) => if l.len() > 0 {
            (bind_list(l.len()) + ")"@, l.map_values(|v: u32| ArgValue::U32(v)))
        } else {
            (" select ida from bank_account)"@, Seq::empty())
        },
        None => (" select ida from bank_account)"@, Seq::empty()),
    }
}

/// The transactions' cards: only the listed ones when the list is not empty.
pub open spec fn external_id_clause(list: Option<Seq<Seq<char>>>) -> StatementView {
    match list {
        Some(l) => if l.len() > 0 {
            (
                " AND t.external_id IN ("@ + bind_list(l.len()) + ")"@,
                l.map_values(|v: Seq<char>| ArgValue::Text(v)),
            )
        } else {
            (Seq::empty(), Seq::empty())
        },
        None => (Seq::empty(), Seq::empty()),
    }
}

/// The column a condition's field compares.
pub open spec fn column_of(field: Seq<char>) -> Option<Seq<char>> {
    if field == "amount"@ {
        Some("t.amount"@)
    } else if field == "mcc"@ {
        Some("t.mcc"@)
    } else if field == "currency"@ {
        Some("t.currency_code"@)
    } else if field == "description"@ {
        Some("t.description"@)
    } else if field == "receipt_id"@ {
        Some("t.receipt_id"@)
    } else if field == "external_id"@ {
        Some("t.external_id"@)
    } else {
        None
    }
}

/// The SQL comparison of an ordering operator.
pub open spec fn comparison_of(op: Seq<char>) -> Option<Seq<char>> {
    if op == "eq"@ {
        Some(" = "@)
    } else if op == "neq"@ {
        Some(" != "@)
    } else if op == "lt"@ {
        Some(" < "@)
    } else if op == "gt"@ {
        Some(" > "@)
    } else if op == "lte"@ {
        Some(" <= "@)
    } else if op == "gte"@ {
        Some(" >= "@)
    } else {
        None
    }
}

/// The `LIKE` pattern of a text operator for a value.
pub open spec fn like_pattern(op: Seq<char>, value: Seq<char>) -> Option<Seq<char>> {
    if op == "startsWith"@ {
        Some(value + "%"@)
    } else if op == "endsWith"@ {
        Some("%"@ + value)
    } else if op == "contains"@ {
        Some("%"@ + value + "%"@)
    } else {
        None
    }
}

/// The statement so far and whether the next condition is the first of its group.
pub type CondState = (Seq<char>, Seq<ArgValue>, bool);

/// ` AND ` before every condition but the first of its group.
pub open spec fn joined(st: CondState) -> Seq<char> {
    if st.2 {
        st.0
    } else {
        st.0 + " AND "@
    }
}

/// Adds one condition. A tag condition (only `eq` and `neq`, and only
/// with a severity) tests that the transaction has, or has not, the tag with
/// that severity; a column condition compares the column with the value;
/// conditions on other fields are skipped, and a column condition with an
/// unknown operator adds nothing but its separator and makes the next
/// condition count as the first.
pub open spec fn apply_condition(st: CondState, c: FilterCondition) -> CondState {
    if c.field@ == "tag"@ {
        if c.operator@ == "eq"@ || c.operator@ == "neq"@ {
            match c.severity {
                None => (joined(st), st.1, false),
                Some(sev) => (
                    joined(st) + (if c.operator@ == "neq"@ {
                        "NOT EXISTS (SELECT 1 FROM bank_transaction_tag WHERE idt = t.idt AND tag = "@
                    } else {
                        "EXISTS (SELECT 1 FROM bank_transaction_tag WHERE idt = t.idt AND tag = "@
                    }) + "?"@ + " AND severity = "@ + "?"@ + ")"@,
                    st.1.push(ArgValue::Text(c.value@)).push(ArgValue::Text(sev@)),
                    false,
                ),
            }
        } else {
            st
        }
    } else {
        match column_of(c.field@) {
            None => st,
            Some(col) => match comparison_of(c.operator@) {
                Some(cmp) => (joined(st) + col + cmp + "?"@, st.1.push(ArgValue::Text(c.value@)), false),
                None => match like_pattern(c.operator@, c.value@) {
                    Some(pat) => (joined(st) + col + " LIKE "@ + "?"@, st.1.push(ArgValue::Text(pat)), false),
                    None => (joined(st), st.1, true),
                },
            },
        }
    }
}

/// Adds the conditions of a group in order.
pub open spec fn fold_conditions(st: CondState, conds: Seq<FilterCondition>) -> CondState
    decreases conds.len(),
{
    if conds.len() == 0 {
        st
    } else {
        apply_condition(fold_conditions(st, conds.drop_last()), conds.last())
    }
}

/// Adds one exception: its combinator and its conditions in parentheses;
/// nothing for an exception without conditions.
pub open spec fn apply_exception(st: StatementView, ex: FilterException) -> StatementView {
    if ex.conditions@.len() == 0 {
        st
    } else {
        let r = fold_conditions((st.0 + " "@ + ex.combinator@ + " ("@, st.1, true), ex.conditions@);
        (r.0 + ")"@, r.1)
    }
}

/// Adds the exceptions in order.
pub open spec fn fold_exceptions(st: StatementView, exs: Seq<FilterException>) -> StatementView
    decreases exs.len(),
{
    if exs.len() == 0 {
        st
    } else {
        apply_exception(fold_exceptions(st, exs.drop_last()), exs.last())
    }
}

/// The accounts of a filter, as a sequence.
pub open spec fn ida_list_view(f: BankTransactionFilter) -> Option<Seq<u32>> {
    match f.ida_list {
        Some(l) => Some(l@),
        None => None,
    }
}

/// The cards of a filter, as texts.
pub open spec fn external_id_list_view(f: BankTransactionFilter) -> Option<Seq<Seq<char>>> {
    match f.external_id_list {
        Some(l) => Some(views(l@)),
        None => None,
    }
}

/// The exceptions of a filter; none when missing.
pub open spec fn exceptions_view(f: BankTransactionFilter) -> Seq<FilterException> {
    match f.exceptions {
        Some(l) => l@,
        None => Seq::empty(),
    }
}

/// The query for the transactions a filter selects: of the listed accounts,
/// within `[from, to]`, of the listed cards, with each exception applied,
/// newest first.
pub open spec fn transactions_query(f: BankTransactionFilter) -> StatementView {
    let s1 = cat((TRANSACTIONS_SELECT@ + "t.ida in ("@, Seq::empty()), ida_clause(ida_list_view(f)));
    let s2 = cat(
        s1,
        (
            " AND t.transaction_time >= "@ + "?"@ + " AND t.transaction_time <= "@ + "?"@,
            seq![ArgValue::Time(f.from), ArgValue::Time(f.to)],
        ),
    );
    let s3 = cat(s2, external_id_clause(external_id_list_view(f)));
    let s4 = fold_exceptions(s3, exceptions_view(f));
    (s4.0 + " order by t.transaction_time desc"@, s4.1)
}

fn column_for(field: &str) -> (r: Option<&'static str>)
    ensures
        r is Some == column_of(field@) is Some,
        r matches Some(c) ==> c@ == column_of(field@).unwrap(),
{
    if str_eq(field, "amount") {
        Some("t.amount")
    } else if str_eq(field, "mcc") {
        Some("t.mcc")
    } else if str_eq(field, "currency") {
        Some("t.currency_code")
    } else if str_eq(field, "description") {
        Some("t.description")
    } else if str_eq(field, "receipt_id") {
        Some("t.receipt_id")
    } else if str_eq(field, "external_id") {
        Some("t.external_id")
    } else {
        None
    }
}

fn comparison_for(op: &str) -> (r: Option<&'static str>)
    ensures
        r is Some == comparison_of(op@) is Some,
        r matches Some(c) ==> c@ == comparison_of(op@).unwrap(),
{
    if str_eq(op, "eq") {
        Some(" = ")
    } else if str_eq(op, "neq") {
        Some(" != ")
    } else if str_eq(op, "lt") {
        Some(" < ")
    } else if str_eq(op, "gt") {
        Some(" > ")
    } else if str_eq(op, "lte") {
        Some(" <= ")
    } else if str_eq(op, "gte") {
        Some(" >= ")
    } else {
        None
    }
}

fn like_pattern_for(op: &str, value: &str) -> (r: Option<String>)
    ensures
        r is Some == like_pattern(op@, value@) is Some,
        r matches Some(p) ==> p@ == like_pattern(op@, value@).unwrap(),
{
    if str_eq(op, "startsWith") {
        let mut p = String::from_str(value);
        p.append("%");
        Some(p)
    } else if str_eq(op, "endsWith") {
        let mut p = String::from_str("%");
        p.append(value);
        Some(p)
    } else if str_eq(op, "contains") {
        let mut p = String::from_str("%");
        p.append(value);
        p.append("%");
        Some(p)
    } else {
        None
    }
}

fn push_condition(stmt: &mut SqlStatement, first: bool, c: &FilterCondition) -> (next_first: bool)
    ensures
        (final(stmt)@.0, final(stmt)@.1, next_first) == apply_condition((old(stmt)@.0, old(stmt)@.1, first), *c),
{
    let ghost st: CondState = (stmt@.0, stmt@.1, first);
    if str_eq(c.field.as_str(), "tag") {
        let is_eq = str_eq(c.operator.as_str(), "eq");
        let is_neq = str_eq(c.operator.as_str(), "neq");
        if is_eq || is_neq {
            if !first {
                stmt.push(" AND ");
            }
            assert(stmt@.0 == joined(st));
            match &c.severity {
                None => {
                    return false;
                },
                Some(sev) => {
                    if is_neq {
                        stmt.push("NOT EXISTS (SELECT 1 FROM bank_transaction_tag WHERE idt = t.idt AND tag = ");
                    } else {
                        stmt.push("EXISTS (SELECT 1 FROM bank_transaction_tag WHERE idt = t.idt AND tag = ");
                    }
                    stmt.push_bind(SqlArg::Text(c.value.clone()));
                    stmt.push(" AND severity = ");
                    stmt.push_bind(SqlArg::Text(sev.clone()));
                    stmt.push(")");
                    return false;
                },
            }
        }
        return first;
    }
    match column_for(c.field.as_str()) {
        None => first,
        Some(col) => {
            if !first {
                stmt.push(" AND ");
            }
            assert(stmt@.0 == joined(st));
            match comparison_for(c.operator.as_str()) {
                Some(cmp) => {
                    stmt.push(col);
                    stmt.push(cmp);
                    stmt.push_bind(SqlArg::Text(c.value.clone()));
                    false
                },
                None => match like_pattern_for(c.operator.as_str(), c.value.as_str()) {
                    Some(pat) => {
                        stmt.push(col);
                        stmt.push(" LIKE ");
                        stmt.push_bind(SqlArg::Text(pat));
                        false
                    },
                    None => true,
                },
            }
        },
    }
}

fn push_exception(stmt: &mut SqlStatement, ex: &FilterException)
    ensures
        final(stmt)@ == apply_exception(old(stmt)@, *ex),
{
    if ex.conditions.len() == 0 {
        return;
    }
    stmt.push(" ");
    stmt.push(ex.combinator.as_str());
    stmt.push(" (");
    let ghost start: CondState = (stmt@.0, stmt@.1, true);
    let mut first = true;
    let mut j: usize = 0;
    assert(ex.conditions@.take(0) =~= Seq::<FilterCondition>::empty());
    while j < ex.conditions.len()
        invariant
            0 <= j <= ex.conditions@.len(),
            start == (old(stmt)@.0 + " "@ + ex.combinator@ + " ("@, old(stmt)@.1, true),
            (stmt@.0, stmt@.1, first) == fold_conditions(start, ex.conditions@.take(j as int)),
        decreases ex.conditions@.len() - j,
    {
        first = push_condition(stmt, first, &ex.conditions[j]);
        assert(ex.conditions@.take(j + 1).drop_last() =~= ex.conditions@.take(j as int));
        j = j + 1;
    }
    assert(ex.conditions@.take(j as int) =~= ex.conditions@);
    stmt.push(")");
}

/// The query for the transactions a filter selects.
pub fn get_transactions(filter: &BankTransactionFilter) -> (stmt: SqlStatement)
    ensures
        stmt@ == transactions_query(*filter),
        combinators_param_free(exceptions_view(*filter)) ==> balanced(stmt@),
{
    proof {
        if combinators_param_free(exceptions_view(*filter)) {
            lemma_transactions_query_balanced(*filter);
        }
    }
    let mut stmt = SqlStatement::new(TRANSACTIONS_SELECT);
    stmt.push("t.ida in (");
    let ghost s0 = stmt@;
    let mut listed = false;
    match &filter.ida_list {
        Some(l) => {
            if l.len() > 0 {
                listed = true;
                let mut k: usize = 0;
                while k < l.len()
                    invariant
                        0 <= k <= l@.len(),
                        stmt@ == cat(s0, (bind_list(k as nat), l@.take(k as int).map_values(|v: u32| ArgValue::U32(v)))),
                    decreases l@.len() - k,
                {
                    if k > 0 {
                        stmt.push(", ");
                    }
                    stmt.push_bind(SqlArg::U32(l[k]));
                    proof {
                        if k == 0 {
                            reveal_strlit("?");
                            reveal_strlit(", ?");
                        }
                        assert(l@.take(k + 1).map_values(|v: u32| ArgValue::U32(v)) =~= l@.take(k as int).map_values(
                            |v: u32| ArgValue::U32(v),
                        ).push(ArgValue::U32(l@[k as int])));
                        assert(s0.0 + bind_list((k + 1) as nat) =~= if k == 0 {
                            s0.0 + "?"@
                        } else {
                            s0.0 + bind_list(k as nat) + ", "@ + "?"@
                        }) by {
                            reveal_strlit("?");
                            reveal_strlit(", ?");
                            reveal_strlit(", ");
                        }
                    }
                    k = k + 1;
                }
                assert(l@.take(k as int) =~= l@);
                stmt.push(")");
            }
        },
        None => {},
    }
    if !listed {
        stmt.push(" select ida from bank_account)");
    }
    proof {
        assert(stmt@ =~= cat(s0, ida_clause(ida_list_view(*filter))));
    }
    let ghost s1 = stmt@;
    stmt.push(" AND t.transaction_time >= ");
    stmt.push_bind(SqlArg::Time(filter.from));
    stmt.push(" AND t.transaction_time <= ");
    stmt.push_bind(SqlArg::Time(filter.to));
    let ghost s2 = stmt@;
    proof {
        let piece: StatementView = (
            " AND t.transaction_time >= "@ + "?"@ + " AND t.transaction_time <= "@ + "?"@,
            seq![ArgValue::Time(filter.from), ArgValue::Time(filter.to)],
        );
        assert(s2.0 =~= cat(s1, piece).0);
        assert(s2.1 =~= cat(s1, piece).1);
        assert(s1.0 =~= cat((TRANSACTIONS_SELECT@ + "t.ida in ("@, Seq::empty()), ida_clause(ida_list_view(*filter))).0);
        assert(s1.1 =~= cat((TRANSACTIONS_SELECT@ + "t.ida in ("@, Seq::empty()), ida_clause(ida_list_view(*filter))).1);
    }
    match &filter.external_id_list {
        Some(l) => {
            if l.len() > 0 {
                stmt.push(" AND t.external_id IN (");
                let ghost s2a = stmt@;
                let mut k: usize = 0;
                while k < l.len()
                    invariant
                        0 <= k <= l@.len(),
                        stmt@ == cat(s2a, (bind_list(k as nat), views(l@).take(k as int).map_values(|v: Seq<char>| ArgValue::Text(v)))),
                    decreases l@.len() - k,
                {
                    if k > 0 {
                        stmt.push(", ");
                    }
                    stmt.push_bind(SqlArg::Text(l[k].clone()));
                    proof {
                        assert(views(l@).take(k + 1).map_values(|v: Seq<char>| ArgValue::Text(v)) =~= views(l@).take(k as int).map_values(
                            |v: Seq<char>| ArgValue::Text(v),
                        ).push(ArgValue::Text(l@[k as int]@)));
                        assert(s2a.0 + bind_list((k + 1) as nat) =~= if k == 0 {
                            s2a.0 + "?"@
                        } else {
                            s2a.0 + bind_list(k as nat) + ", "@ + "?"@
                        }) by {
                            reveal_strlit("?");
                            reveal_strlit(", ?");
                            reveal_strlit(", ");
                        }
                    }
                    k = k + 1;
                }
                assert(views(l@).take(k as int) =~= views(l@));
                stmt.push(")");
            }
        },
        None => {},
    }
    proof {
        assert(stmt@ =~= cat(s2, external_id_clause(external_id_list_view(*filter))));
    }
    let ghost s3 = stmt@;
    match &filter.exceptions {
        Some(exs) => {
            let mut k: usize = 0;
            assert(exs@.take(0) =~= Seq::<FilterException>::empty());
            while k < exs.len()
                invariant
                    0 <= k <= exs@.len(),
                    stmt@ == fold_exceptions(s3, exs@.take(k as int)),
                decreases exs@.len() - k,
            {
                push_exception(&mut stmt, &exs[k]);
                assert(exs@.take(k + 1).drop_last() =~= exs@.take(k as int));
                k = k + 1;
            }
            assert(exs@.take(k as int) =~= exs@);
        },
        None => {
            assert(exceptions_view(*filter) =~= Seq::<FilterException>::empty());
        },
    }
    assert(stmt@ == fold_exceptions(s3, exceptions_view(*filter)));
    stmt.push(" order by t.transaction_time desc");
    proof {
        assert(stmt@ =~= transactions_query(*filter));
    }
    stmt
}

/// The columns a transaction is stored under.
pub const INSERT_TRANSACTIONS: &'static str = "INSERT OR IGNORE INTO bank_transaction (idt, ida, external_id, amount, currency_code, description, mcc, hold, transaction_time, receipt_id, balance) ";

/// The values a transaction is stored with, in column order.
pub open spec fn transaction_args(t: BankTransaction) -> Seq<ArgValue> {
    seq![
        ArgValue::Text(t.idt@),
        ArgValue::U32(t.ida),
        ArgValue::Text(t.external_id@),
        ArgValue::I64(t.amount),
        ArgValue::I32(t.currency_code),
        ArgValue::OptText(opt_text(t.description)),
        ArgValue::OptI32(t.mcc),
        ArgValue::OptBool(t.hold),
        ArgValue::Time(t.transaction_time),
        ArgValue::OptText(opt_text(t.receipt_id)),
        ArgValue::OptI64(t.balance),
    ]
}

/// The values of several transactions, one after another.
pub open spec fn transactions_args(ts: Seq<BankTransaction>) -> Seq<ArgValue>
    decreases ts.len(),
{
    if ts.len() == 0 {
        Seq::empty()
    } else {
        transactions_args(ts.drop_last()) + transaction_args(ts.last())
    }
}

/// One insert of all the transactions, skipping those already stored.
pub open spec fn insert_transactions_query(ts: Seq<BankTransaction>) -> StatementView {
    (INSERT_TRANSACTIONS@ + "VALUES "@ + value_rows(ts.len(), 11), transactions_args(ts))
}

fn transaction_row(t: &BankTransaction) -> (args: Vec<SqlArg>)
    ensures
        args_view(args@) == transaction_args(*t),
        args@.len() == 11,
{
    let mut args: Vec<SqlArg> = Vec::new();
    args.push(SqlArg::Text(t.idt.clone()));
    args.push(SqlArg::U32(t.ida));
    args.push(SqlArg::Text(t.external_id.clone()));
    args.push(SqlArg::I64(t.amount));
    args.push(SqlArg::I32(t.currency_code));
    args.push(SqlArg::OptText(clone_opt_text(&t.description)));
    args.push(SqlArg::OptI32(t.mcc));
    args.push(SqlArg::OptBool(t.hold));
    args.push(SqlArg::Time(t.transaction_time));
    args.push(SqlArg::OptText(clone_opt_text(&t.receipt_id)));
    args.push(SqlArg::OptI64(t.balance));
    assert(args_view(args@) =~= transaction_args(*t));
    args
}

/// The insert for a batch of transactions; nothing to run for an empty batch.
pub fn insert_transactions(transactions: &Vec<BankTransaction>) -> (r: Option<SqlStatement>)
    ensures
        r is None <==> transactions@.len() == 0,
        r matches Some(s) ==> s@ == insert_transactions_query(transactions@),
        r matches Some(s) ==> balanced(s@),
{
    proof {
        lemma_insert_transactions_balanced(transactions@);
    }
    if transactions.len() == 0 {
        return None;
    }
    let mut stmt = SqlStatement::new(INSERT_TRANSACTIONS);
    stmt.push("VALUES ");
    let ghost s0 = stmt@;
    let mut k: usize = 0;
    while k < transactions.len()
        invariant
            0 <= k <= transactions@.len(),
            stmt@ == (s0.0 + value_rows(k as nat, 11), s0.1 + transactions_args(transactions@.take(k as int))),
        decreases transactions@.len() - k,
    {
        let row = transaction_row(&transactions[k]);
        stmt.push_row(k == 0, row);
        proof {
            assert(transactions@.take(k + 1).drop_last() =~= transactions@.take(k as int));
            assert(s0.0 + value_rows((k + 1) as nat, 11) =~= s0.0 + value_rows(k as nat, 11) + (if k == 0 {
                "("@
            } else {
                ", ("@
            }) + bind_list(11) + ")"@);
        }
        k = k + 1;
    }
    assert(transactions@.take(k as int) =~= transactions@);
    assert(stmt@ =~= insert_transactions_query(transactions@));
    Some(stmt)
}

/// Whether similar transactions are asked for at all: by MCC, by
/// description, or both.
pub fn similarity_requested(mcc: bool, description: bool) -> (r: bool)
    ensures
        r == (mcc || description),
{
    mcc || description
}

/// The query for the transactions similar to `base`: same MCC and/or same
/// description (a missing value matches a missing value), newest first;
/// nothing to run when neither is asked for.
pub open spec fn similar_transactions_query(base: BankTransaction, mcc: bool, description: bool) -> Option<
    StatementView,
> {
    if !mcc && !description {
        None
    } else {
        let s0: StatementView = ("SELECT idt FROM bank_transaction WHERE "@, Seq::empty());
        let s1 = if mcc {
            match base.mcc {
                Some(m) => cat(s0, ("(mcc = "@ + "?"@ + ")"@, seq![ArgValue::I32(m)])),
                None => cat(s0, ("(mcc IS NULL)"@, Seq::empty())),
            }
        } else {
            s0
        };
        let s2 = if description {
            let s1a: StatementView = if mcc {
                (s1.0 + " AND "@, s1.1)
            } else {
                s1
            };
            match base.description {
                Some(d) => cat(s1a, ("(description = "@ + "?"@ + ")"@, seq![ArgValue::Text(d@)])),
                None => cat(s1a, ("(description IS NULL)"@, Seq::empty())),
            }
        } else {
            s1
        };
        Some((s2.0 + " ORDER BY transaction_time DESC"@, s2.1))
    }
}

/// The query for the transactions similar to `base`.
pub fn get_similar_transactions(base: &BankTransaction, mcc: bool, description: bool) -> (r: Option<SqlStatement>)
    ensures
        r is Some == similar_transactions_query(*base, mcc, description) is Some,
        r matches Some(s) ==> s@ == similar_transactions_query(*base, mcc, description).unwrap(),
        r matches Some(s) ==> balanced(s@),
{
    proof {
        lemma_similar_transactions_balanced(*base, mcc, description);
    }
    if !mcc && !description {
        return None;
    }
    let mut stmt = SqlStatement::new("SELECT idt FROM bank_transaction WHERE ");
    let ghost s0 = stmt@;
    let mut first = true;
    if mcc {
        match base.mcc {
            Some(m) => {
                stmt.push("(mcc = ");
                stmt.push_bind(SqlArg::I32(m));
                stmt.push(")");
            },
            None => {
                stmt.push("(mcc IS NULL)");
            },
        }
        first = false;
    }
    let ghost s1 = stmt@;
    if description {
        if !first {
            stmt.push(" AND ");
        }
        match &base.description {
            Some(d) => {
                stmt.push("(description = ");
                stmt.push_bind(SqlArg::Text(d.clone()));
                stmt.push(")");
            },
            None => {
                stmt.push("(description IS NULL)");
            },
        }
    }
    stmt.push(" ORDER BY transaction_time DESC");
    proof {
        let spec_r = similar_transactions_query(*base, mcc, description).unwrap();
        assert(stmt@.0 =~= spec_r.0);
        assert(stmt@.1 =~= spec_r.1);
    }
    Some(stmt)
}

/// A tag of a transaction: its id, the tag and the severity.
pub type TagEntry = (Seq<char>, Seq<char>, Seq<char>);

/// Every tag of every listed transaction, in order.
pub open spec fn tag_entries(tags: Seq<BankTransactionTag>) -> Seq<TagEntry>
    decreases tags.len(),
{
    if tags.len() == 0 {
        Seq::empty()
    } else {
        tag_entries(tags.drop_last()) + tags.last().tags@.map_values(
            |t: TransactionTag| (tags.last().idt@, t.tag@, t.severity@),
        )
    }
}

/// The values bound for tag entries: id, tag and severity of each.
pub open spec fn entries_args(es: Seq<TagEntry>) -> Seq<ArgValue>
    decreases es.len(),
{
    if es.len() == 0 {
        Seq::empty()
    } else {
        entries_args(es.drop_last()) + seq![
            ArgValue::Text(es.last().0),
            ArgValue::Text(es.last().1),
            ArgValue::Text(es.last().2),
        ]
    }
}

/// Views of flattened tag entries.
pub open spec fn entries_view(es: Seq<(String, String, String)>) -> Seq<TagEntry> {
    es.map_values(|e: (String, String, String)| (e.0@, e.1@, e.2@))
}

/// Flattens tag lists into (transaction id, tag, severity) entries.
pub fn flatten_tag_entries(tags: &Vec<BankTransactionTag>) -> (es: Vec<(String, String, String)>)
    ensures
        entries_view(es@) == tag_entries(tags@),
{
    let mut es: Vec<(String, String, String)> = Vec::new();
    let mut i: usize = 0;
    while i < tags.len()
        invariant
            0 <= i <= tags@.len(),
            entries_view(es@) == tag_entries(tags@.take(i as int)),
        decreases tags@.len() - i,
    {
        let bt = &tags[i];
        let ghost base = es@;
        let mut j: usize = 0;
        while j < bt.tags.len()
            invariant
                0 <= j <= bt.tags@.len(),
                es@.len() == base.len() + j,
                es@.subrange(0, base.len() as int) == base,
                entries_view(es@) == entries_view(base) + bt.tags@.take(j as int).map_values(
                    |t: TransactionTag| (bt.idt@, t.tag@, t.severity@),
                ),
            decreases bt.tags@.len() - j,
        {
            let t = &bt.tags[j];
            let ghost prev = es@;
            es.push((bt.idt.clone(), t.tag.clone(), t.severity.clone()));
            proof {
                assert(entries_view(es@) =~= entries_view(prev).push((bt.idt@, t.tag@, t.severity@)));
                assert(es@.subrange(0, base.len() as int) =~= base);
                assert(bt.tags@.take(j + 1).map_values(|t: TransactionTag| (bt.idt@, t.tag@, t.severity@))
                    =~= bt.tags@.take(j as int).map_values(|t: TransactionTag| (bt.idt@, t.tag@, t.severity@)).push(
                    (bt.idt@, t.tag@, t.severity@),
                ));
            }
            j = j + 1;
        }
        proof {
            assert(bt.tags@.take(j as int) =~= bt.tags@);
            assert(tags@.take(i + 1).drop_last() =~= tags@.take(i as int));
            assert(tags@.take(i + 1).last() == tags@[i as int]);
        }
        i = i + 1;
    }
    assert(tags@.take(i as int) =~= tags@);
    es
}

fn entry_row(e: &(String, String, String)) -> (args: Vec<SqlArg>)
    ensures
        args@.len() == 3,
        args_view(args@) == seq![ArgValue::Text(e.0@), ArgValue::Text(e.1@), ArgValue::Text(e.2@)],
{
    let mut args: Vec<SqlArg> = Vec::new();
    args.push(SqlArg::Text(e.0.clone()));
    args.push(SqlArg::Text(e.1.clone()));
    args.push(SqlArg::Text(e.2.clone()));
    assert(args_view(args@) =~= seq![ArgValue::Text(e.0@), ArgValue::Text(e.1@), ArgValue::Text(e.2@)]);
    args
}

/// Where tags are stored.
pub const INSERT_TAGS: &'static str = "INSERT OR IGNORE INTO bank_transaction_tag (idt, tag, severity) ";

/// One insert of all tags of all listed transactions, skipping those already
/// stored; nothing to run when no transaction is listed.
pub open spec fn insert_tags_query(tags: Seq<BankTransactionTag>) -> Option<StatementView> {
    if tags.len() == 0 {
        None
    } else {
        Some((INSERT_TAGS@ + "VALUES "@ + value_rows(tag_entries(tags).len(), 3), entries_args(tag_entries(tags))))
    }
}

/// The insert of the given tags.
pub fn add_transaction_tags(tags: &Vec<BankTransactionTag>) -> (r: Option<SqlStatement>)
    ensures
        r is Some == insert_tags_query(tags@) is Some,
        r matches Some(s) ==> s@ == insert_tags_query(tags@).unwrap(),
        r matches Some(s) ==> balanced(s@),
{
    proof {
        lemma_insert_tags_balanced(tags@);
    }
    if tags.len() == 0 {
        return None;
    }
    let entries = flatten_tag_entries(tags);
    let mut stmt = SqlStatement::new(INSERT_TAGS);
    stmt.push("VALUES ");
    let ghost s0 = stmt@;
    let ghost ev = entries_view(entries@);
    let mut k: usize = 0;
    while k < entries.len()
        invariant
            0 <= k <= entries@.len(),
            ev == entries_view(entries@),
            stmt@ == (s0.0 + value_rows(k as nat, 3), s0.1 + entries_args(ev.take(k as int))),
        decreases entries@.len() - k,
    {
        let row = entry_row(&entries[k]);
        stmt.push_row(k == 0, row);
        proof {
            assert(ev.take(k + 1).drop_last() =~= ev.take(k as int));
            assert(s0.0 + value_rows((k + 1) as nat, 3) =~= s0.0 + value_rows(k as nat, 3) + (if k == 0 {
                "("@
            } else {
                ", ("@
            }) + bind_list(3) + ")"@);
        }
        k = k + 1;
    }
    assert(ev.take(k as int) =~= ev);
    assert(stmt@ =~= insert_tags_query(tags@).unwrap());
    Some(stmt)
}

/// `n` tag matches joined by ` OR `.
pub open spec fn tag_matches(n: nat) -> Seq<char>
    decreases n,
{
    if n == 0 {
        Seq::empty()
    } else if n == 1 {
        "(idt = "@ + "?"@ + " AND tag = "@ + "?"@ + " AND severity = "@ + "?"@ + ")"@
    } else {
        tag_matches((n - 1) as nat) + " OR "@ + "(idt = "@ + "?"@ + " AND tag = "@ + "?"@ + " AND severity = "@ + "?"@
            + ")"@
    }
}

/// One delete of all tags of all listed transactions; nothing to run when
/// there is no tag to delete.
pub open spec fn delete_tags_query(tags: Seq<BankTransactionTag>) -> Option<StatementView> {
    if tag_entries(tags).len() == 0 {
        None
    } else {
        Some(("DELETE FROM bank_transaction_tag WHERE "@ + tag_matches(tag_entries(tags).len()), entries_args(tag_entries(tags))))
    }
}

/// The delete of the given tags.
pub fn delete_transaction_tags(tags: &Vec<BankTransactionTag>) -> (r: Option<SqlStatement>)
    ensures
        r is Some == delete_tags_query(tags@) is Some,
        r matches Some(s) ==> s@ == delete_tags_query(tags@).unwrap(),
        r matches Some(s) ==> balanced(s@),
{
    proof {
        lemma_delete_tags_balanced(tags@);
    }
    let entries = flatten_tag_entries(tags);
    if entries.len() == 0 {
        return None;
    }
    let mut stmt = SqlStatement::new("DELETE FROM bank_transaction_tag WHERE ");
    let ghost s0 = stmt@;
    let ghost ev = entries_view(entries@);
    let mut k: usize = 0;
    while k < entries.len()
        invariant
            0 <= k <= entries@.len(),
            ev == entries_view(entries@),
            stmt@ == (s0.0 + tag_matches(k as nat), s0.1 + entries_args(ev.take(k as int))),
        decreases entries@.len() - k,
    {
        let ghost before = stmt@;
        if k > 0 {
            stmt.push(" OR ");
        }
        stmt.push("(idt = ");
        stmt.push_bind(SqlArg::Text(entries[k].0.clone()));
        stmt.push(" AND tag = ");
        stmt.push_bind(SqlArg::Text(entries[k].1.clone()));
        stmt.push(" AND severity = ");
        stmt.push_bind(SqlArg::Text(entries[k].2.clone()));
        stmt.push(")");
        proof {
            assert(ev.take(k + 1).drop_last() =~= ev.take(k as int));
            assert(ev[k as int] == (entries@[k as int].0@, entries@[k as int].1@, entries@[k as int].2@));
            assert(stmt@.1 =~= s0.1 + entries_args(ev.take(k + 1)));
            assert(stmt@.0 =~= s0.0 + tag_matches((k + 1) as nat));
        }
        k = k + 1;
    }
    assert(ev.take(k as int) =~= ev);
    assert(stmt@ =~= delete_tags_query(tags@).unwrap());
    Some(stmt)
}

/// The delete of a list of tags targets exactly the (transaction id, tag,
/// severity) triples the insert of the same list writes, in the same order:
/// both statements bind the same values.
pub proof fn lemma_delete_targets_inserted(tags: Seq<BankTransactionTag>)
    requires
        tag_entries(tags).len() > 0,
    ensures
        insert_tags_query(tags) is Some,
        delete_tags_query(tags) is Some,
        insert_tags_query(tags).unwrap().1 == delete_tags_query(tags).unwrap().1,
        insert_tags_query(tags).unwrap().1 == entries_args(tag_entries(tags)),
{
    if tags.len() == 0 {
        assert(tag_entries(tags).len() == 0);
    }
}

/// The select of the stored tags of transactions, up to its `WHERE`.
pub const SIMILAR_TAGS_SELECT: &'static str = "SELECT bt.mcc, bt.description, t.tag, t.severity FROM bank_transaction_tag t JOIN bank_transaction bt ON t.idt = bt.idt WHERE ";

/// The match of one (MCC, description) key: both equal; every key after the
/// first is joined by ` OR `, so a row matches when it has any of the keys.
pub open spec fn key_match(first: bool) -> Seq<char> {
    (if first { "("@ } else { " OR ("@ }) + "bt.mcc = "@ + "?"@ + " AND bt.description = "@ + "?"@ + ")"@
}

/// The matches of `n` keys.
pub open spec fn key_matches(n: nat) -> Seq<char>
    decreases n,
{
    if n == 0 {
        Seq::empty()
    } else {
        key_matches((n - 1) as nat) + key_match(n == 1)
    }
}

/// The values bound for keys: the MCC and the description of each.
pub open spec fn keys_args(keys: Seq<(u32, String)>) -> Seq<ArgValue>
    decreases keys.len(),
{
    if keys.len() == 0 {
        Seq::empty()
    } else {
        keys_args(keys.drop_last()) + seq![ArgValue::U32(keys.last().0), ArgValue::Text(keys.last().1@)]
    }
}

/// The query for the tags stored on transactions with any of the given
/// (MCC, description) keys; nothing to run for no keys.
pub open spec fn similar_tags_query(keys: Seq<(u32, String)>) -> Option<StatementView> {
    if keys.len() == 0 {
        None
    } else {
        Some((
            SIMILAR_TAGS_SELECT@ + key_matches(keys.len()) + " ORDER BY bt.mcc, bt.description, t.tag, t.severity"@,
            keys_args(keys),
        ))
    }
}

/// The query for the tags of transactions similar by MCC and description.
pub fn get_similar_transaction_tags(keys: &Vec<(u32, String)>) -> (r: Option<SqlStatement>)
    ensures
        r is Some == similar_tags_query(keys@) is Some,
        r matches Some(s) ==> s@ == similar_tags_query(keys@).unwrap(),
        r matches Some(s) ==> balanced(s@),
{
    proof {
        lemma_similar_tags_balanced(keys@);
    }
    if keys.len() == 0 {
        return None;
    }
    let mut stmt = SqlStatement::new(SIMILAR_TAGS_SELECT);
    let ghost s0 = stmt@;
    let mut k: usize = 0;
    while k < keys.len()
        invariant
            0 <= k <= keys@.len(),
            stmt@ == (s0.0 + key_matches(k as nat), s0.1 + keys_args(keys@.take(k as int))),
        decreases keys@.len() - k,
    {
        if k == 0 {
            stmt.push("(");
        } else {
            stmt.push(" OR (");
        }
        stmt.push("bt.mcc = ");
        stmt.push_bind(SqlArg::U32(keys[k].0));
        stmt.push(" AND bt.description = ");
        stmt.push_bind(SqlArg::Text(keys[k].1.clone()));
        stmt.push(")");
        proof {
            assert(keys@.take(k + 1).drop_last() =~= keys@.take(k as int));
            assert(stmt@.1 =~= s0.1 + keys_args(keys@.take(k + 1)));
            assert(stmt@.0 =~= s0.0 + key_matches((k + 1) as nat));
        }
        k = k + 1;
    }
    stmt.push(" ORDER BY bt.mcc, bt.description, t.tag, t.severity");
    assert(keys@.take(k as int) =~= keys@);
    assert(stmt@ =~= similar_tags_query(keys@).unwrap());
    Some(stmt)
}

/// A (MCC, description) key.
pub type SimilarKey = (u32, Seq<char>);

/// Index of the last group with the key.
pub open spec fn key_index<V>(groups: Seq<(SimilarKey, V)>, key: SimilarKey) -> Option<int>
    decreases groups.len(),
{
    if groups.len() == 0 {
        None
    } else if groups.last().0 == key {
        Some(groups.len() - 1)
    } else {
        key_index(groups.drop_last(), key)
    }
}

/// The tags of a key, as a set: a tag joins its key's group once.
pub open spec fn add_tag_row(
    groups: Seq<(SimilarKey, Seq<(Seq<char>, Seq<char>)>)>,
    key: SimilarKey,
    tag: (Seq<char>, Seq<char>),
) -> Seq<(SimilarKey, Seq<(Seq<char>, Seq<char>)>)> {
    match key_index(groups, key) {
        Some(i) => if groups[i].1.contains(tag) {
            groups
        } else {
            groups.update(i, (key, groups[i].1.push(tag)))
        },
        None => groups.push((key, seq![tag])),
    }
}

/// A row of the similar-tags query: MCC, description, tag, severity.
pub open spec fn row_view(r: (i32, String, String, String)) -> (SimilarKey, (Seq<char>, Seq<char>)) {
    ((r.0 as u32, r.1@), (r.2@, r.3@))
}

/// The rows grouped by key, in order of first appearance.
pub open spec fn group_tag_rows(rows: Seq<(i32, String, String, String)>) -> Seq<(SimilarKey, Seq<(Seq<char>, Seq<char>)>)>
    decreases rows.len(),
{
    if rows.len() == 0 {
        Seq::empty()
    } else {
        let r = row_view(rows.last());
        add_tag_row(group_tag_rows(rows.drop_last()), r.0, r.1)
    }
}

/// The view of grouped tags.
pub open spec fn tag_groups_view(g: Seq<((u32, String), Vec<TransactionTag>)>) -> Seq<(SimilarKey, Seq<(Seq<char>, Seq<char>)>)> {
    g.map_values(|e: ((u32, String), Vec<TransactionTag>)| ((e.0.0, e.0.1@), tags_view(e.1@)))
}

fn find_key<V>(groups: &Vec<((u32, String), V)>, key: &(u32, String)) -> (r: Option<usize>)
    ensures
        r matches Some(i) ==> i < groups@.len(),
        forall|g: Seq<(SimilarKey, Seq<(Seq<char>, Seq<char>)>)>| #![trigger key_index(g, (key.0, key.1@))]
            g.len() == groups@.len() && (forall|k: int| 0 <= k < g.len() ==> (#[trigger] g[k]).0 == (groups@[k].0.0, groups@[k].0.1@))
            ==> key_index(g, (key.0, key.1@)) == (match r { Some(i) => Some(i as int), None => None }),
{
    let mut i: usize = groups.len();
    while i > 0
        invariant
            i <= groups@.len(),
            forall|k: int| i <= k < groups@.len() ==> !((#[trigger] groups@[k]).0.0 == key.0 && groups@[k].0.1@ == key.1@),
        decreases i,
    {
        if groups[i - 1].0.0 == key.0 && groups[i - 1].0.1 == key.1 {
            proof {
                assert forall|g: Seq<(SimilarKey, Seq<(Seq<char>, Seq<char>)>)>|
                    g.len() == groups@.len() && (forall|k: int| 0 <= k < g.len() ==> (#[trigger] g[k]).0 == (groups@[k].0.0, groups@[k].0.1@))
                    implies key_index(g, (key.0, key.1@)) == Some((i - 1) as int) by {
                    lemma_key_index_suffix(g, (key.0, key.1@), i as int - 1);
                }
            }
            return Some(i - 1);
        }
        i = i - 1;
    }
    proof {
        assert forall|g: Seq<(SimilarKey, Seq<(Seq<char>, Seq<char>)>)>|
            g.len() == groups@.len() && (forall|k: int| 0 <= k < g.len() ==> (#[trigger] g[k]).0 == (groups@[k].0.0, groups@[k].0.1@))
            implies key_index(g, (key.0, key.1@)) == None::<int> by {
            lemma_key_index_absent(g, (key.0, key.1@));
        }
    }
    None
}

proof fn lemma_key_index_suffix<V>(g: Seq<(SimilarKey, V)>, key: SimilarKey, i: int)
    requires
        0 <= i < g.len(),
        g[i].0 == key,
        forall|k: int| i < k < g.len() ==> (#[trigger] g[k]).0 != key,
    ensures
        key_index(g, key) == Some(i),
    decreases g.len(),
{
    if g.len() - 1 != i {
        lemma_key_index_suffix(g.drop_last(), key, i);
    }
}

proof fn lemma_key_index_absent<V>(g: Seq<(SimilarKey, V)>, key: SimilarKey)
    requires
        forall|k: int| 0 <= k < g.len() ==> (#[trigger] g[k]).0 != key,
    ensures
        key_index(g, key) == None::<int>,
    decreases g.len(),
{
    if g.len() > 0 {
        lemma_key_index_absent(g.drop_last(), key);
    }
}

proof fn lemma_key_index_bounds<V>(g: Seq<(SimilarKey, V)>, key: SimilarKey)
    ensures
        key_index(g, key) matches Some(i) ==> 0 <= i < g.len() && g[i].0 == key,
    decreases g.len(),
{
    if g.len() > 0 && g.last().0 != key {
        lemma_key_index_bounds(g.drop_last(), key);
    }
}

fn contains_tag(tags: &Vec<TransactionTag>, tag: &TransactionTag) -> (r: bool)
    ensures
        r == tags_view(tags@).contains(tag_view(*tag)),
{
    let mut i: usize = 0;
    while i < tags.len()
        invariant
            0 <= i <= tags@.len(),
            forall|k: int| 0 <= k < i ==> tag_view(#[trigger] tags@[k]) != tag_view(*tag),
        decreases tags@.len() - i,
    {
        if tags[i].tag == tag.tag && tags[i].severity == tag.severity {
            assert(tags_view(tags@)[i as int] == tag_view(*tag));
            return true;
        }
        i = i + 1;
    }
    proof {
        if tags_view(tags@).contains(tag_view(*tag)) {
            let k = choose|k: int| 0 <= k < tags_view(tags@).len() && tags_view(tags@)[k] == tag_view(*tag);
            assert(tag_view(tags@[k]) == tag_view(*tag));
        }
    }
    false
}

/// Groups the rows of the similar-tags query by (MCC, description), each
/// key's tags without repetition.
pub fn group_similar_tags(rows: Vec<(i32, String, String, String)>) -> (groups: Vec<((u32, String), Vec<TransactionTag>)>)
    ensures
        tag_groups_view(groups@) == group_tag_rows(rows@),
{
    let mut groups: Vec<((u32, String), Vec<TransactionTag>)> = Vec::new();
    let mut i: usize = 0;
    while i < rows.len()
        invariant
            0 <= i <= rows@.len(),
            tag_groups_view(groups@) == group_tag_rows(rows@.take(i as int)),
        decreases rows@.len() - i,
    {
        let row = &rows[i];
        let key: (u32, String) = (row.0 as u32, row.1.clone());
        let tag = TransactionTag { tag: row.2.clone(), severity: row.3.clone() };
        let ghost g0 = tag_groups_view(groups@);
        proof {
            assert(rows@.take(i + 1).drop_last() =~= rows@.take(i as int));
            assert(rows@.take(i + 1).last() == rows@[i as int]);
            lemma_key_index_bounds(g0, (key.0, key.1@));
        }
        match find_key(&groups, &key) {
            Some(j) => {
                assert(key_index(g0, (key.0, key.1@)) == Some(j as int));
                if !contains_tag(&groups[j].1, &tag) {
                    let ghost before = groups@;
                    let ghost old_entry = groups@[j as int];
                    let mut entry = groups.remove(j);
                    entry.1.push(tag);
                    proof {
                        assert(tags_view(entry.1@) =~= tags_view(old_entry.1@).push(tag_view(tag)));
                        assert(g0[j as int] == ((old_entry.0.0, old_entry.0.1@), tags_view(old_entry.1@)));
                    }
                    groups.insert(j, entry);
                    proof {
                        assert(groups@ =~= before.update(j as int, groups@[j as int]));
                        assert(tag_groups_view(groups@) =~= g0.update(j as int, ((key.0, key.1@), g0[j as int].1.push(tag_view(tag)))));
                    }
                }
            },
            None => {
                let mut tags: Vec<TransactionTag> = Vec::new();
                tags.push(tag);
                let ghost before = groups@;
                groups.push((key, tags));
                proof {
                    assert(tags_view(tags@) =~= seq![tag_view(tag)]);
                    assert(tag_groups_view(groups@) =~= g0.push(((key.0, key.1@), seq![tag_view(tag)])));
                }
            },
        }
        i = i + 1;
    }
    assert(rows@.take(i as int) =~= rows@);
    groups
}

} // verus!
