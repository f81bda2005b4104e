//! What the transaction statements and exports mean, stated against the
//! names the service documents: the filter operators, the stored columns,
//! the exported hold field and the order of MCC descriptions.

use vstd::prelude::*;

use crate::sql::{opt_text, ArgValue};
use crate::mcc::{last_with_code, normalized_code, MccEntry, MccTable};
use crate::text::{int_decimal, join};
use crate::transaction::handler::{described, entry_description, export_record};
use crate::transaction::model::{BankTransaction, BankTransactionDTO, BankTransactionFilter, FilterCondition, FilterException};
use crate::transaction::repository::{
    apply_condition, apply_exception, cat, column_of, comparison_of, exceptions_view, external_id_clause,
    external_id_list_view, fold_conditions, fold_exceptions, ida_clause, ida_list_view, insert_transactions_query,
    transaction_args, transactions_args, transactions_query, CondState, INSERT_TRANSACTIONS, TRANSACTIONS_SELECT,
};

verus! {

/// The fields a filter condition may compare, each with the column it
/// compares.
pub open spec fn condition_columns() -> Seq<(Seq<char>, Seq<char>)> {
    seq![
        ("amount"@, "t.amount"@),
        ("mcc"@, "t.mcc"@),
        ("currency"@, "t.currency_code"@),
        ("description"@, "t.description"@),
        ("receipt_id"@, "t.receipt_id"@),
        ("external_id"@, "t.external_id"@),
    ]
}

/// The ordering operators of a filter condition, each with its SQL
/// comparison: equal, not equal, less, greater, at most, at least.
pub open spec fn comparison_operators() -> Seq<(Seq<char>, Seq<char>)> {
    seq![
        ("eq"@, " = "@),
        ("neq"@, " != "@),
        ("lt"@, " < "@),
        ("gt"@, " > "@),
        ("lte"@, " <= "@),
        ("gte"@, " >= "@),
    ]
}

proof fn lemma_column_table(i: int)
    requires
        0 <= i < 6,
    ensures
        column_of(condition_columns()[i].0) == Some(condition_columns()[i].1),
        condition_columns()[i].0 != "tag"@,
{
    reveal_strlit("amount");
    reveal_strlit("mcc");
    reveal_strlit("currency");
    reveal_strlit("description");
    reveal_strlit("receipt_id");
    reveal_strlit("external_id");
    reveal_strlit("tag");
    assert("amount"@.len() == 6 && "amount"@[0] == 'a');
    assert("mcc"@.len() == 3 && "mcc"@[0] == 'm');
    assert("currency"@.len() == 8 && "currency"@[0] == 'c');
    assert("description"@.len() == 11 && "description"@[0] == 'd');
    assert("receipt_id"@.len() == 10 && "receipt_id"@[0] == 'r');
    assert("external_id"@.len() == 11 && "external_id"@[0] == 'e');
    assert("tag"@.len() == 3 && "tag"@[0] == 't');
    let t = condition_columns();
    assert(t[0] == ("amount"@, "t.amount"@));
    assert(t[1] == ("mcc"@, "t.mcc"@));
    assert(t[2] == ("currency"@, "t.currency_code"@));
    assert(t[3] == ("description"@, "t.description"@));
    assert(t[4] == ("receipt_id"@, "t.receipt_id"@));
    assert(t[5] == ("external_id"@, "t.external_id"@));
}

proof fn lemma_comparison_table(j: int)
    requires
        0 <= j < 6,
    ensures
        comparison_of(comparison_operators()[j].0) == Some(comparison_operators()[j].1),
{
    reveal_strlit("eq");
    reveal_strlit("neq");
    reveal_strlit("lt");
    reveal_strlit("gt");
    reveal_strlit("lte");
    reveal_strlit("gte");
    assert("eq"@.len() == 2 && "eq"@[0] == 'e');
    assert("neq"@.len() == 3 && "neq"@[0] == 'n');
    assert("lt"@.len() == 2 && "lt"@[0] == 'l');
    assert("gt"@.len() == 2 && "gt"@[0] == 'g');
    assert("lte"@.len() == 3 && "lte"@[0] == 'l');
    assert("gte"@.len() == 3 && "gte"@[0] == 'g');
    let t = comparison_operators();
    assert(t[0] == ("eq"@, " = "@));
    assert(t[1] == ("neq"@, " != "@));
    assert(t[2] == ("lt"@, " < "@));
    assert(t[3] == ("gt"@, " > "@));
    assert(t[4] == ("lte"@, " <= "@));
    assert(t[5] == ("gte"@, " >= "@));
}

/// A filter with one exception of one ordering condition on a column ends
/// its query with that exception: the combinator, then the condition's
/// column compared by the operator's SQL comparison with a parameter, in
/// parentheses; the condition's value is the last value bound.
pub proof fn lemma_comparison_condition_query(f: BankTransactionFilter, i: int, j: int)
    requires
        0 <= i < 6,
        0 <= j < 6,
        exceptions_view(f).len() == 1,
        exceptions_view(f)[0].conditions@.len() == 1,
        exceptions_view(f)[0].conditions@[0].field@ == condition_columns()[i].0,
        exceptions_view(f)[0].conditions@[0].operator@ == comparison_operators()[j].0,
    ensures
        exists|p: Seq<char>|
            transactions_query(f).0 == p + " "@ + exceptions_view(f)[0].combinator@ + " ("@ + condition_columns()[i].1
                + comparison_operators()[j].1 + "?)"@ + " order by t.transaction_time desc"@,
        transactions_query(f).1.last() == ArgValue::Text(exceptions_view(f)[0].conditions@[0].value@),
{
    lemma_column_table(i);
    lemma_comparison_table(j);
    reveal_strlit("?)");
    reveal_strlit("?");
    reveal_strlit(")");
    let exs = exceptions_view(f);
    let ex = exs[0];
    let c = ex.conditions@[0];
    let q = transactions_query(f);
    let s1 = cat((TRANSACTIONS_SELECT@ + "t.ida in ("@, Seq::empty()), ida_clause(ida_list_view(f)));
    let s2 = cat(
        s1,
        (
            " AND t.transaction_time >= "@ + "?"@ + " AND t.transaction_time <= "@ + "?"@,
            seq![ArgValue::Time(f.from), ArgValue::Time(f.to)],
        ),
    );
    let s3 = cat(s2, external_id_clause(external_id_list_view(f)));
    assert(exs.drop_last() =~= Seq::<FilterException>::empty());
    assert(ex.conditions@.drop_last() =~= Seq::<FilterCondition>::empty());
    assert(exs.last() == ex);
    assert(ex.conditions@.last() == c);
    let st: CondState = (s3.0 + " "@ + ex.combinator@ + " ("@, s3.1, true);
    let col = condition_columns()[i].1;
    let cmp = comparison_operators()[j].1;
    assert(fold_conditions(st, Seq::<FilterCondition>::empty()) == st);
    assert(fold_conditions(st, ex.conditions@) == apply_condition(st, c));
    assert(apply_condition(st, c) == (st.0 + col + cmp + "?"@, st.1.push(ArgValue::Text(c.value@)), false));
    assert(fold_exceptions(s3, Seq::<FilterException>::empty()) == s3);
    assert(fold_exceptions(s3, exs) == apply_exception(s3, ex));
    assert(q.0 =~= s3.0 + " "@ + ex.combinator@ + " ("@ + col + cmp + "?)"@ + " order by t.transaction_time desc"@);
}

/// The columns of the transactions table, in the order the insert lists
/// them.
pub open spec fn stored_columns() -> Seq<Seq<char>> {
    seq!["idt"@, "ida"@, "external_id"@, "amount"@, "currency_code"@, "description"@, "mcc"@, "hold"@, "transaction_time"@, "receipt_id"@, "balance"@]
}

/// The value a transaction is stored with under a column of the
/// transactions table: the transaction's field of that name.
pub open spec fn column_value(t: BankTransaction, column: Seq<char>) -> ArgValue {
    if column == "idt"@ {
        ArgValue::Text(t.idt@)
    } else if column == "ida"@ {
        ArgValue::U32(t.ida)
    } else if column == "external_id"@ {
        ArgValue::Text(t.external_id@)
    } else if column == "amount"@ {
        ArgValue::I64(t.amount)
    } else if column == "currency_code"@ {
        ArgValue::I32(t.currency_code)
    } else if column == "description"@ {
        ArgValue::OptText(opt_text(t.description))
    } else if column == "mcc"@ {
        ArgValue::OptI32(t.mcc)
    } else if column == "hold"@ {
        ArgValue::OptBool(t.hold)
    } else if column == "transaction_time"@ {
        ArgValue::Time(t.transaction_time)
    } else if column == "receipt_id"@ {
        ArgValue::OptText(opt_text(t.receipt_id))
    } else if column == "balance"@ {
        ArgValue::OptI64(t.balance)
    } else {
        ArgValue::OptText(None)
    }
}

proof fn lemma_column_values(t: BankTransaction, k: int)
    requires
        0 <= k < 11,
    ensures
        transaction_args(t)[k] == column_value(t, stored_columns()[k]),
{
    reveal_strlit("idt");
    reveal_strlit("ida");
    reveal_strlit("external_id");
    reveal_strlit("amount");
    reveal_strlit("currency_code");
    reveal_strlit("description");
    reveal_strlit("mcc");
    reveal_strlit("hold");
    reveal_strlit("transaction_time");
    reveal_strlit("receipt_id");
    reveal_strlit("balance");
    assert("idt"@.len() == 3 && "idt"@[0] == 'i' && "idt"@[2] == 't');
    assert("ida"@.len() == 3 && "ida"@[0] == 'i' && "ida"@[2] == 'a');
    assert("external_id"@.len() == 11 && "external_id"@[0] == 'e' && "external_id"@[2] == 't');
    assert("amount"@.len() == 6 && "amount"@[0] == 'a' && "amount"@[2] == 'o');
    assert("currency_code"@.len() == 13 && "currency_code"@[0] == 'c' && "currency_code"@[2] == 'r');
    assert("description"@.len() == 11 && "description"@[0] == 'd' && "description"@[2] == 's');
    assert("mcc"@.len() == 3 && "mcc"@[0] == 'm' && "mcc"@[2] == 'c');
    assert("hold"@.len() == 4 && "hold"@[0] == 'h' && "hold"@[2] == 'l');
    assert("transaction_time"@.len() == 16 && "transaction_time"@[0] == 't' && "transaction_time"@[2] == 'a');
    assert("receipt_id"@.len() == 10 && "receipt_id"@[0] == 'r' && "receipt_id"@[2] == 'c');
    assert("balance"@.len() == 7 && "balance"@[0] == 'b' && "balance"@[2] == 'l');
    let s = stored_columns();
    assert(s[0] == "idt"@);
    assert(s[1] == "ida"@);
    assert(s[2] == "external_id"@);
    assert(s[3] == "amount"@);
    assert(s[4] == "currency_code"@);
    assert(s[5] == "description"@);
    assert(s[6] == "mcc"@);
    assert(s[7] == "hold"@);
    assert(s[8] == "transaction_time"@);
    assert(s[9] == "receipt_id"@);
    assert(s[10] == "balance"@);
}

proof fn lemma_args_len(ts: Seq<BankTransaction>)
    ensures
        transactions_args(ts).len() == 11 * ts.len(),
    decreases ts.len(),
{
    if ts.len() > 0 {
        lemma_args_len(ts.drop_last());
        assert(11 * (ts.len() - 1) + 11 == 11 * ts.len()) by (nonlinear_arith);
    }
}

proof fn lemma_args_index(ts: Seq<BankTransaction>, i: int, k: int)
    requires
        0 <= i < ts.len(),
        0 <= k < 11,
    ensures
        transactions_args(ts)[11 * i + k] == transaction_args(ts[i])[k],
    decreases ts.len(),
{
    let init = ts.drop_last();
    lemma_args_len(init);
    assert(11 * i + k < 11 * ts.len()) by (nonlinear_arith)
        requires
            0 <= i < ts.len(),
            0 <= k < 11,
    ;
    if i < ts.len() - 1 {
        lemma_args_index(init, i, k);
        assert(11 * i + k < 11 * init.len()) by (nonlinear_arith)
            requires
                0 <= i < init.len(),
                0 <= k < 11,
        ;
        assert(init[i] == ts[i]);
    } else {
        assert(11 * i + k - 11 * init.len() == k) by (nonlinear_arith)
            requires
                i == init.len(),
        ;
    }
}

/// The insert of transactions lists the table's columns, and binds for the
/// `i`-th transaction, at the position of each column, that transaction's
/// field of the column's name.
pub proof fn lemma_insert_binds_named_columns(ts: Seq<BankTransaction>, i: int, k: int)
    requires
        0 <= i < ts.len(),
        0 <= k < 11,
    ensures
        INSERT_TRANSACTIONS@ == "INSERT OR IGNORE INTO bank_transaction ("@ + join(stored_columns(), ", "@) + ") "@,
        insert_transactions_query(ts).1[11 * i + k] == column_value(ts[i], stored_columns()[k]),
{
    reveal_strlit("INSERT OR IGNORE INTO bank_transaction (idt, ida, external_id, amount, currency_code, description, mcc, hold, transaction_time, receipt_id, balance) ");
    reveal_strlit("INSERT OR IGNORE INTO bank_transaction (");
    reveal_strlit(", ");
    reveal_strlit(") ");
    reveal_strlit("idt");
    reveal_strlit("ida");
    reveal_strlit("external_id");
    reveal_strlit("amount");
    reveal_strlit("currency_code");
    reveal_strlit("description");
    reveal_strlit("mcc");
    reveal_strlit("hold");
    reveal_strlit("transaction_time");
    reveal_strlit("receipt_id");
    reveal_strlit("balance");
    reveal_with_fuel(join, 12);
    assert(INSERT_TRANSACTIONS@ =~= "INSERT OR IGNORE INTO bank_transaction ("@ + join(stored_columns(), ", "@) + ") "@);
    lemma_args_index(ts, i, k);
    lemma_column_values(ts[i], k);
}

/// The exported hold field of a transaction reads `true` exactly for a
/// hold, `false` exactly for no hold, and is empty when unknown; so the
/// three cases give three different fields.
pub proof fn lemma_hold_field(t: BankTransactionDTO)
    ensures
        export_record(t)[7] == "true"@ <==> t.hold == Some(true),
        export_record(t)[7] == "false"@ <==> t.hold == Some(false),
        export_record(t)[7].len() == 0 <==> t.hold is None,
{
    reveal_strlit("true");
    reveal_strlit("false");
    assert("true"@.len() == 4);
    assert("false"@.len() == 5);
}

/// The description of an MCC row is its first present text in the order:
/// short Ukrainian, full Ukrainian, short English, full English; none when
/// all are absent.
pub proof fn lemma_description_order(e: MccEntry)
    ensures
        e.short_description.uk matches Some(s) ==> entry_description(e) == Some(s@),
        e.short_description.uk is None ==> (e.full_description.uk matches Some(s) ==> entry_description(e) == Some(
            s@,
        )),
        e.short_description.uk is None && e.full_description.uk is None ==> (e.short_description.en matches Some(
            s,
        ) ==> entry_description(e) == Some(s@)),
        e.short_description.uk is None && e.full_description.uk is None && e.short_description.en is None ==> (
        e.full_description.en matches Some(s) ==> entry_description(e) == Some(s@)),
        e.short_description.uk is None && e.full_description.uk is None && e.short_description.en is None
            && e.full_description.en is None ==> entry_description(e) is None,
{
}

proof fn lemma_last_row(entries: Seq<MccEntry>, key: Seq<char>, i: int)
    requires
        0 <= i < entries.len(),
        entries[i].mcc@ == key,
        forall|j: int| i < j < entries.len() ==> (#[trigger] entries[j]).mcc@ != key,
    ensures
        last_with_code(entries, key) == Some(i),
    decreases entries.len(),
{
    if i < entries.len() - 1 {
        let init = entries.drop_last();
        assert(entries[entries.len() - 1].mcc@ != key);
        assert forall|j: int| i < j < init.len() implies (#[trigger] init[j]).mcc@ != key by {
            assert(init[j] == entries[j]);
        }
        assert(init[i] == entries[i]);
        lemma_last_row(init, key, i);
    }
}

/// A described transaction whose MCC resolves to row `i` of the table (the
/// last row with its normalized code) carries that row's first present
/// description: the short Ukrainian one whenever it is present.
pub proof fn lemma_described_mcc(table: MccTable, a: BankTransactionDTO, b: BankTransactionDTO, m: i32, i: int)
    requires
        described(table, a, b),
        a.mcc == Some(m),
        0 <= i < table.entries@.len(),
        normalized_code(int_decimal(m as int)) == Some(table.entries@[i].mcc@),
        forall|j: int| i < j < table.entries@.len() ==> (#[trigger] table.entries@[j]).mcc@ != table.entries@[i].mcc@,
    ensures
        opt_text(b.mcc_description) == entry_description(table.entries@[i]),
        table.entries@[i].short_description.uk matches Some(s) ==> (b.mcc_description matches Some(d) && d@ == s@),
{
    lemma_last_row(table.entries@, table.entries@[i].mcc@, i);
    lemma_description_order(table.entries@[i]);
}

} // verus!
