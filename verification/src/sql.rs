//! SQL statements with positional `?` parameters and the values bound to them.

use vstd::prelude::*;

use crate::datetime::DateTimeUtc;

verus! {

/// A value bound to a `?` parameter.
#[derive(Debug)]
pub enum SqlArg {
    Text(String),
    OptText(Option<String>),
    U32(u32),
    I32(i32),
    OptI32(Option<i32>),
    I64(i64),
    OptI64(Option<i64>),
    OptBool(Option<bool>),
    Time(DateTimeUtc),
}

/// A bound value, with texts taken by their characters.
pub enum ArgValue {
    Text(Seq<char>),
    OptText(Option<Seq<char>>),
    U32(u32),
    I32(i32),
    OptI32(Option<i32>),
    I64(i64),
    OptI64(Option<i64>),
    OptBool(Option<bool>),
    Time(DateTimeUtc),
}

/// A text option taken by its characters.
pub open spec fn opt_text(t: Option<String>) -> Option<Seq<char>> {
    match t {
        Some(s) => Some(s@),
        None => None,
    }
}

impl View for SqlArg {
    type V = ArgValue;

    open spec fn view(&self) -> ArgValue {
        match *self {
            SqlArg::Text(s) => ArgValue::Text(s@),
            SqlArg::OptText(t) => ArgValue::OptText(opt_text(t)),
            SqlArg::U32(v) => ArgValue::U32(v),
            SqlArg::I32(v) => ArgValue::I32(v),
            SqlArg::OptI32(v) => ArgValue::OptI32(v),
            SqlArg::I64(v) => ArgValue::I64(v),
            SqlArg::OptI64(v) => ArgValue::OptI64(v),
            SqlArg::OptBool(v) => ArgValue::OptBool(v),
            SqlArg::Time(v) => ArgValue::Time(v),
        }
    }
}

/// The views of a list of bound values.
pub open spec fn args_view(args: Seq<SqlArg>) -> Seq<ArgValue> {
    args.map_values(|a: SqlArg| a@)
}

/// A copy of an optional text.
pub fn clone_opt_text(t: &Option<String>) -> (r: Option<String>)
    ensures
        r == *t,
{
    match t {
        Some(s) => Some(s.clone()),
        None => None,
    }
}

/// An SQL text with `?` parameters and the values bound to them, in order.
#[derive(Debug)]
pub struct SqlStatement {
    pub sql: String,
    pub args: Vec<SqlArg>,
}

impl View for SqlStatement {
    type V = (Seq<char>, Seq<ArgValue>);

    open spec fn view(&self) -> (Seq<char>, Seq<ArgValue>) {
        (self.sql@, args_view(self.args@))
    }
}

/// `n` parameters separated by `, `.
pub open spec fn bind_list(n: nat) -> Seq<char>
    decreases n,
{
    if n == 0 {
        Seq::empty()
    } else if n == 1 {
        "?"@
    } else {
        bind_list((n - 1) as nat) + ", ?"@
    }
}

/// `n` parenthesized rows of `w` parameters each, separated by `, `, as
/// `VALUES` lists them.
pub open spec fn value_rows(n: nat, w: nat) -> Seq<char>
    decreases n,
{
    if n == 0 {
        Seq::empty()
    } else if n == 1 {
        "("@ + bind_list(w) + ")"@
    } else {
        value_rows((n - 1) as nat, w) + ", ("@ + bind_list(w) + ")"@
    }
}

/// The number of `?` parameters among the first `n` characters of an SQL text.
pub open spec fn params_upto(s: Seq<char>, n: int) -> nat
    decreases n,
{
    if n <= 0 {
        0
    } else {
        params_upto(s, n - 1) + if s[n - 1] == '?' { 1nat } else { 0nat }
    }
}

/// The number of `?` parameters of an SQL text.
pub open spec fn param_count(s: Seq<char>) -> nat {
    params_upto(s, s.len() as int)
}

/// A statement binds exactly one value per parameter.
pub open spec fn balanced(v: (Seq<char>, Seq<ArgValue>)) -> bool {
    param_count(v.0) == v.1.len()
}

proof fn lemma_params_upto_prefix(a: Seq<char>, b: Seq<char>, n: int)
    requires
        0 <= n <= a.len(),
    ensures
        params_upto(a + b, n) == params_upto(a, n),
    decreases n,
{
    if n > 0 {
        lemma_params_upto_prefix(a, b, n - 1);
        assert((a + b)[n - 1] == a[n - 1]);
    }
}

proof fn lemma_params_upto_suffix(a: Seq<char>, b: Seq<char>, k: int)
    requires
        0 <= k <= b.len(),
    ensures
        params_upto(a + b, a.len() + k) == param_count(a) + params_upto(b, k),
    decreases k,
{
    if k == 0 {
        lemma_params_upto_prefix(a, b, a.len() as int);
    } else {
        lemma_params_upto_suffix(a, b, k - 1);
        assert((a + b)[a.len() + k - 1] == b[k - 1]);
    }
}

/// The parameters of two texts, one after the other, add up.
pub proof fn lemma_param_count_concat(a: Seq<char>, b: Seq<char>)
    ensures
        param_count(a + b) == param_count(a) + param_count(b),
{
    lemma_params_upto_suffix(a, b, b.len() as int);
}

/// Two balanced statement pieces, one after the other, are balanced.
pub proof fn lemma_balanced_concat(a: (Seq<char>, Seq<ArgValue>), b: (Seq<char>, Seq<ArgValue>))
    requires
        balanced(a),
        balanced(b),
    ensures
        balanced((a.0 + b.0, a.1 + b.1)),
{
    lemma_param_count_concat(a.0, b.0);
}

/// The parameter counts of the short texts statements are made of.
pub proof fn lemma_short_texts()
    ensures
        param_count(Seq::<char>::empty()) == 0,
        param_count("?"@) == 1,
        param_count(", ?"@) == 1,
        param_count(", "@) == 0,
        param_count("("@) == 0,
        param_count(", ("@) == 0,
        param_count(")"@) == 0,
        param_count(" "@) == 0,
        param_count(" ("@) == 0,
        param_count(" AND "@) == 0,
        param_count(" OR "@) == 0,
        param_count("VALUES "@) == 0,
{
    reveal_strlit("?");
    reveal_strlit(", ?");
    reveal_strlit(", ");
    reveal_strlit("(");
    reveal_strlit(", (");
    reveal_strlit(")");
    reveal_strlit(" ");
    reveal_strlit(" (");
    reveal_strlit(" AND ");
    reveal_strlit(" OR ");
    reveal_strlit("VALUES ");
    reveal_with_fuel(params_upto, 8);
}

/// `n` parameters in a list.
pub proof fn lemma_bind_list_params(n: nat)
    ensures
        param_count(bind_list(n)) == n,
    decreases n,
{
    lemma_short_texts();
    if n > 1 {
        lemma_bind_list_params((n - 1) as nat);
        lemma_param_count_concat(bind_list((n - 1) as nat), ", ?"@);
    }
}

/// `n` rows of `w` parameters.
pub proof fn lemma_value_rows_params(n: nat, w: nat)
    ensures
        param_count(value_rows(n, w)) == n * w,
    decreases n,
{
    lemma_short_texts();
    lemma_bind_list_params(w);
    if n == 0 {
        assert(n * w == 0) by (nonlinear_arith)
            requires
                n == 0,
        ;
    } else if n == 1 {
        lemma_param_count_concat("("@, bind_list(w));
        lemma_param_count_concat("("@ + bind_list(w), ")"@);
        assert(n * w == w) by (nonlinear_arith)
            requires
                n == 1,
        ;
    } else {
        lemma_value_rows_params((n - 1) as nat, w);
        let prev = value_rows((n - 1) as nat, w);
        lemma_param_count_concat(prev, ", ("@);
        lemma_param_count_concat(prev + ", ("@, bind_list(w));
        lemma_param_count_concat(prev + ", ("@ + bind_list(w), ")"@);
        assert(((n - 1) as nat) * w + w == n * w) by (nonlinear_arith)
            requires
                n > 1,
        ;
    }
}

impl SqlStatement {
    /// A statement that starts with `init` and binds nothing yet.
    pub fn new(init: &str) -> (s: SqlStatement)
        ensures
            s@ == (init@, Seq::<ArgValue>::empty()),
            s.args@.len() == 0,
    {
        let s = SqlStatement { sql: String::from_str(init), args: Vec::new() };
        assert(args_view(s.args@) =~= Seq::<ArgValue>::empty());
        s
    }

    /// Appends SQL text.
    pub fn push(&mut self, text: &str)
        ensures
            final(self)@ == (old(self)@.0 + text@, old(self)@.1),
    {
        self.sql.append(text);
    }

    /// Appends `w` parameters separated by `, `, bound to `args`.
    pub fn push_bind_list(&mut self, args: Vec<SqlArg>)
        ensures
            final(self)@ == (old(self)@.0 + bind_list(args@.len()), old(self)@.1 + args_view(args@)),
    {
        let ghost start = self@;
        let mut k: usize = 0;
        let n = args.len();
        let mut rest = args;
        let ghost all = rest@;
        while k < n
            invariant
                0 <= k <= n,
                n == all.len(),
                rest@ == all.subrange(k as int, n as int),
                self@ == (start.0 + bind_list(k as nat), start.1 + args_view(all.take(k as int))),
            decreases n - k,
        {
            if k > 0 {
                self.push(", ");
            }
            let a = rest.remove(0);
            assert(a == all[k as int]);
            assert(rest@ =~= all.subrange(k + 1, n as int));
            self.push_bind(a);
            proof {
                assert(args_view(all.take(k + 1)) =~= args_view(all.take(k as int)).push(all[k as int]@));
                assert(start.0 + bind_list((k + 1) as nat) =~= if k == 0 {
                    start.0 + "?"@
                } else {
                    start.0 + bind_list(k as nat) + ", "@ + "?"@
                }) by {
                    reveal_strlit("?");
                    reveal_strlit(", ?");
                    reveal_strlit(", ");
                }
            }
            k = k + 1;
        }
        assert(all.take(n as int) =~= all);
    }

    /// Appends one parenthesized row of parameters bound to `args`, after
    /// `, ` unless it is the first row.
    pub fn push_row(&mut self, first_row: bool, args: Vec<SqlArg>)
        ensures
            final(self)@ == (
                old(self)@.0 + (if first_row { "("@ } else { ", ("@ }) + bind_list(args@.len()) + ")"@,
                old(self)@.1 + args_view(args@),
            ),
    {
        if first_row {
            self.push("(");
        } else {
            self.push(", (");
        }
        self.push_bind_list(args);
        self.push(")");
    }

    /// Appends a `?` parameter bound to `arg`.
    pub fn push_bind(&mut self, arg: SqlArg)
        ensures
            final(self)@ == (old(self)@.0 + "?"@, old(self)@.1.push(arg@)),
    {
        self.sql.append("?");
        let ghost before = self.args@;
        self.args.push(arg);
        assert(args_view(self.args@) =~= args_view(before).push(arg@));
    }
}

} // verus!
