//! The decisions taken while serving accounts and refreshing their
//! transactions from the bank.

use vstd::prelude::*;

use crate::account::model::{Account, AccountKind, AccountMonitor, MonoAccount, StatQueryParams};
use crate::datetime::{invalid_timestamp_message, DateTimeUtc, MAX_TIMESTAMP, MIN_TIMESTAMP};
use crate::ranges::{
    all_chunks_fit, all_proper, chunks_fit, compute_missing_ranges, fits_chunking, missing_ranges, split_into_chunks,
    windows_chunks, Span,
};
use crate::error::AppError;
use crate::tags::{tags_view, TransactionTag};
use crate::text::{int_decimal, push_i64, views};
use crate::transaction::model::{BankTransaction, BankTransactionTag, MonobankTransaction};
use crate::transaction::repository::{key_index, SimilarKey};

verus! {

/// The longest window one statement request may cover: 31 days and one hour.
pub const MAX_SECONDS: i64 = 2_682_000i64;

/// How many times a statement request is made before giving up.
pub const MAX_ATTEMPTS: u8 = 3u8;

/// The wait before each statement request, in seconds: the bank answers one
/// statement request per card a minute.
pub const STATEMENT_WAIT_SECONDS: u64 = 61u64;

/// The monitors ordered by balance, largest first; monitors with equal
/// balances in the reverse of their given order.
pub open spec fn ordered_by_balance(input: Seq<AccountMonitor>, out: Seq<AccountMonitor>, perm: Seq<int>) -> bool {
    &&& perm.len() == input.len()
    &&& out.len() == input.len()
    &&& forall|k: int| 0 <= k < perm.len() ==> 0 <= #[trigger] perm[k] < input.len()
    &&& forall|k: int, l: int| 0 <= k < l < perm.len() ==> #[trigger] perm[k] != #[trigger] perm[l]
    &&& forall|k: int| 0 <= k < out.len() ==> #[trigger] out[k] == input[perm[k]]
    &&& forall|k: int, l: int|
        0 <= k < l < out.len() ==> (#[trigger] out[k]).balance > (#[trigger] out[l]).balance || (out[k].balance
            == out[l].balance && perm[k] > perm[l])
}

/// The monitors as they are listed: by balance, largest first.
pub fn get_monitors(monitors: Vec<AccountMonitor>) -> (out: Vec<AccountMonitor>)
    ensures
        exists|perm: Seq<int>| ordered_by_balance(monitors@, out@, perm),
{
    let n = monitors.len();
    let mut rest = monitors;
    let ghost input = rest@;
    let mut out: Vec<AccountMonitor> = Vec::new();
    let ghost mut perm: Seq<int> = Seq::empty();
    let mut i: usize = 0;
    while i < n
        invariant
            0 <= i <= n,
            n == input.len(),
            rest@ == input.subrange(i as int, n as int),
            perm.len() == i,
            out@.len() == i,
            forall|k: int| 0 <= k < perm.len() ==> 0 <= #[trigger] perm[k] < i,
            forall|k: int, l: int| 0 <= k < l < perm.len() ==> #[trigger] perm[k] != #[trigger] perm[l],
            forall|k: int| 0 <= k < out@.len() ==> #[trigger] out@[k] == input[perm[k]],
            forall|k: int, l: int|
                0 <= k < l < out@.len() ==> (#[trigger] out@[k]).balance > (#[trigger] out@[l]).balance || (
                out@[k].balance == out@[l].balance && perm[k] > perm[l]),
        decreases n - i,
    {
        let e = rest.remove(0);
        assert(e == input[i as int]);
        assert(rest@ =~= input.subrange(i + 1, n as int));
        let mut p: usize = 0;
        while p < out.len() && out[p].balance > e.balance
            invariant
                0 <= p <= out@.len(),
                forall|k: int| 0 <= k < p ==> (#[trigger] out@[k]).balance > e.balance,
            decreases out@.len() - p,
        {
            p = p + 1;
        }
        let ghost old_out = out@;
        let ghost old_perm = perm;
        out.insert(p, e);
        proof {
            perm = old_perm.insert(p as int, i as int);
            assert(out@ == old_out.insert(p as int, e));
            assert forall|k: int| 0 <= k < out@.len() implies #[trigger] out@[k] == input[perm[k]] by {
                if k < p {
                    assert(out@[k] == old_out[k] && perm[k] == old_perm[k]);
                } else if k > p {
                    assert(out@[k] == old_out[k - 1] && perm[k] == old_perm[k - 1]);
                }
            }
            assert forall|k: int| 0 <= k < perm.len() implies 0 <= #[trigger] perm[k] < i + 1 by {
                if k < p {
                    assert(perm[k] == old_perm[k]);
                } else if k > p {
                    assert(perm[k] == old_perm[k - 1]);
                }
            }
            assert forall|k: int, l: int| 0 <= k < l < perm.len() implies #[trigger] perm[k] != #[trigger] perm[l] by {
                if k < p && l < p {
                    assert(perm[k] == old_perm[k] && perm[l] == old_perm[l]);
                } else if k < p && l == p {
                    assert(perm[k] == old_perm[k]);
                } else if k < p && l > p {
                    assert(perm[k] == old_perm[k] && perm[l] == old_perm[l - 1]);
                } else if k == p {
                    assert(perm[l] == old_perm[l - 1]);
                } else {
                    assert(perm[k] == old_perm[k - 1] && perm[l] == old_perm[l - 1]);
                }
            }
            assert forall|k: int, l: int| 0 <= k < l < out@.len() implies (#[trigger] out@[k]).balance > (
            #[trigger] out@[l]).balance || (out@[k].balance == out@[l].balance && perm[k] > perm[l]) by {
                if l < p {
                    assert(out@[k] == old_out[k] && out@[l] == old_out[l]);
                    assert(perm[k] == old_perm[k] && perm[l] == old_perm[l]);
                } else if l == p {
                    assert(out@[k] == old_out[k]);
                } else if k < p {
                    assert(out@[k] == old_out[k] && out@[l] == old_out[l - 1]);
                    assert(perm[k] == old_perm[k] && perm[l] == old_perm[l - 1]);
                } else if k == p {
                    assert(out@[l] == old_out[l - 1] && perm[l] == old_perm[l - 1]);
                    assert(old_out[p as int].balance <= e.balance);
                    if l - 1 > p {
                        assert(old_out[p as int].balance >= old_out[l - 1].balance);
                    }
                } else {
                    assert(out@[k] == old_out[k - 1] && out@[l] == old_out[l - 1]);
                    assert(perm[k] == old_perm[k - 1] && perm[l] == old_perm[l - 1]);
                }
            }
        }
        i = i + 1;
    }
    assert(ordered_by_balance(input, out@, perm));
    out
}

/// The monitors of Monobank cards, in order.
pub fn mono_monitors(monitors: &Vec<AccountMonitor>) -> (r: Vec<AccountMonitor>)
    ensures
        r@ == monitors@.filter(|m: AccountMonitor| m.kind == AccountKind::Mono),
{
    let mut r: Vec<AccountMonitor> = Vec::new();
    let mut i: usize = 0;
    while i < monitors.len()
        invariant
            0 <= i <= monitors@.len(),
            r@ == monitors@.take(i as int).filter(|m: AccountMonitor| m.kind == AccountKind::Mono),
        decreases monitors@.len() - i,
    {
        reveal_with_fuel(Seq::<_>::filter, 1);
        if monitors[i].kind == AccountKind::Mono {
            r.push(monitors[i].clone());
        }
        assert(monitors@.take(i + 1).drop_last() =~= monitors@.take(i as int));
        i = i + 1;
    }
    assert(monitors@.take(i as int) =~= monitors@);
    r
}

/// The Monobank accounts, in order.
pub fn mono_accounts(accounts: &Vec<Account>) -> (r: Vec<Account>)
    ensures
        r@ == accounts@.filter(|a: Account| a.kind == AccountKind::Mono),
{
    let mut r: Vec<Account> = Vec::new();
    let mut i: usize = 0;
    while i < accounts.len()
        invariant
            0 <= i <= accounts@.len(),
            r@ == accounts@.take(i as int).filter(|a: Account| a.kind == AccountKind::Mono),
        decreases accounts@.len() - i,
    {
        reveal_with_fuel(Seq::<_>::filter, 1);
        if accounts[i].kind == AccountKind::Mono {
            r.push(accounts[i].clone());
        }
        assert(accounts@.take(i + 1).drop_last() =~= accounts@.take(i as int));
        i = i + 1;
    }
    assert(accounts@.take(i as int) =~= accounts@);
    r
}

/// The cards the bank reported for an account, each marked with the account.
pub fn assign_ida(accounts: Vec<MonoAccount>, ida: u32) -> (r: Vec<MonoAccount>)
    ensures
        r@.len() == accounts@.len(),
        forall|i: int| 0 <= i < r@.len() ==> #[trigger] r@[i] == (MonoAccount { ida, ..accounts@[i] }),
{
    let n = accounts.len();
    let mut rest = accounts;
    let ghost all = rest@;
    let mut r: Vec<MonoAccount> = Vec::new();
    let mut k: usize = 0;
    while k < n
        invariant
            0 <= k <= n,
            n == all.len(),
            rest@ == all.subrange(k as int, n as int),
            r@.len() == k,
            forall|i: int| 0 <= i < k ==> #[trigger] r@[i] == (MonoAccount { ida, ..all[i] }),
        decreases n - k,
    {
        let mut a = rest.remove(0);
        assert(a == all[k as int]);
        assert(rest@ =~= all.subrange(k + 1, n as int));
        a.ida = ida;
        r.push(a);
        k = k + 1;
    }
    r
}

/// The statement requests of a refresh, in order: each window of
/// `[from, to]` that is not stored yet, cut into chunks the bank accepts.
/// `None` when a chunk of some window would step past the representable
/// instants.
pub fn statement_windows(
    from: DateTimeUtc,
    to: DateTimeUtc,
    range_end: Option<DateTimeUtc>,
    range_start: Option<DateTimeUtc>,
) -> (r: Option<Vec<Span>>)
    ensures
        r is Some <==> all_chunks_fit(missing_ranges(from, to, range_end, range_start), MAX_SECONDS as int),
        r matches Some(w) ==> w@ == windows_chunks(missing_ranges(from, to, range_end, range_start), MAX_SECONDS as int),
        r matches Some(w) ==> (w@.len() == 0 <==> missing_ranges(from, to, range_end, range_start).len() == 0),
{
    let ranges = compute_missing_ranges(from, to, range_end, range_start);
    let ghost m = ranges@;
    let mut w: Vec<Span> = Vec::new();
    let mut i: usize = 0;
    while i < ranges.len()
        invariant
            0 <= i <= m.len(),
            m == ranges@,
            m == missing_ranges(from, to, range_end, range_start),
            all_proper(m),
            all_chunks_fit(m.take(i as int), MAX_SECONDS as int),
            w@ == windows_chunks(m.take(i as int), MAX_SECONDS as int),
            (w@.len() == 0 <==> i == 0),
        decreases m.len() - i,
    {
        let (start, end) = ranges[i];
        if !fits_chunking(start, end, MAX_SECONDS) {
            assert(!chunks_fit(m[i as int].0, m[i as int].1, MAX_SECONDS as int));
            return None;
        }
        let mut chunks = split_into_chunks(start, end, MAX_SECONDS);
        assert(m[i as int].0.before(m[i as int].1));
        w.append(&mut chunks);
        proof {
            assert(m.take(i + 1).drop_last() =~= m.take(i as int));
            assert(m.take(i + 1).last() == m[i as int]);
            assert forall|k: int| 0 <= k < i + 1 implies chunks_fit(
                (#[trigger] m.take(i + 1)[k]).0,
                m.take(i + 1)[k].1,
                MAX_SECONDS as int,
            ) by {
                if k < i {
                    assert(m.take(i + 1)[k] == m.take(i as int)[k]);
                }
            }
        }
        i = i + 1;
    }
    assert(m.take(i as int) =~= m);
    Some(w)
}

/// The answer when no card has the requested external id.
pub fn monitor_not_found(external_id: &str) -> (e: AppError)
    ensures
        e matches AppError::NotFound(m) && m@ == "Not Found monitor with external_id "@ + external_id@,
{
    let mut m = String::from_str("Not Found monitor with external_id ");
    m.append(external_id);
    AppError::NotFound(m)
}

/// The window of a refresh: the instants at the `from` and `to` timestamps;
/// a bad request naming the first one out of range otherwise.
pub fn stat_window(params: &StatQueryParams) -> (r: Result<(DateTimeUtc, DateTimeUtc), AppError>)
    ensures
        r is Ok <==> (MIN_TIMESTAMP <= params.from <= MAX_TIMESTAMP && MIN_TIMESTAMP <= params.to <= MAX_TIMESTAMP),
        r matches Ok(w) ==> w.0.secs == params.from && w.0.nanos == 0 && w.1.secs == params.to && w.1.nanos == 0,
        !(MIN_TIMESTAMP <= params.from <= MAX_TIMESTAMP) ==> (r matches Err(AppError::BadRequest(m)) && m@
            == invalid_timestamp_message(params.from)),
        (MIN_TIMESTAMP <= params.from <= MAX_TIMESTAMP && !(MIN_TIMESTAMP <= params.to <= MAX_TIMESTAMP)) ==> (
        r matches Err(AppError::BadRequest(m)) && m@ == invalid_timestamp_message(params.to)),
{
    let last_taken = match DateTimeUtc::from_unix_timestamp(params.from) {
        Ok(d) => d,
        Err(e) => {
            return Err(AppError::BadRequest(e));
        },
    };
    let updated_at = match DateTimeUtc::from_unix_timestamp(params.to) {
        Ok(d) => d,
        Err(e) => {
            return Err(AppError::BadRequest(e));
        },
    };
    Ok((last_taken, updated_at))
}

/// What a refresh tells the listeners about a card.
#[derive(Debug, Clone, Copy, PartialEq, Eq, Structural)]
pub enum MonitorEvent {
    /// The card's refresh has started.
    Pending,
    /// The card's refresh has ended.
    Updated,
}

/// The name of an event.
pub open spec fn event_name(e: MonitorEvent) -> Seq<char> {
    match e {
        MonitorEvent::Pending => "monitor_pending"@,
        MonitorEvent::Updated => "monitor_updated"@,
    }
}

/// The JSON message of a card event: its name, the account, the card id and
/// the masked card number.
pub open spec fn monitor_message(e: MonitorEvent, ida: u32, external_id: Seq<char>, masked_pan: Seq<char>) -> Seq<char> {
    "{\"event\":\""@ + event_name(e) + "\",\"ida\":"@ + int_decimal(ida as int) + ",\"external_id\":\""@ + external_id
        + "\",\"masked_pan\":\""@ + masked_pan + "\"}"@
}

/// The message sent to the listeners about a card.
pub fn monitor_event_message(event: MonitorEvent, monitor: &AccountMonitor) -> (m: String)
    ensures
        m@ == monitor_message(event, monitor.ida, monitor.external_id@, monitor.masked_pan@),
{
    let mut m = String::from_str("{\"event\":\"");
    match event {
        MonitorEvent::Pending => m.append("monitor_pending"),
        MonitorEvent::Updated => m.append("monitor_updated"),
    }
    m.append("\",\"ida\":");
    push_i64(&mut m, monitor.ida as i64);
    m.append(",\"external_id\":\"");
    m.append(monitor.external_id.as_str());
    m.append("\",\"masked_pan\":\"");
    m.append(monitor.masked_pan.as_str());
    m.append("\"}");
    m
}

/// The message sent to the listeners when every card has been refreshed.
pub fn all_monitors_updated_message() -> (m: String)
    ensures
        m@ == "{\"event\":\"all_monitors_updated\"}"@,
{
    String::from_str("{\"event\":\"all_monitors_updated\"}")
}

/// The address of a card's statement between two Unix timestamps.
pub open spec fn statement_url_of(external_id: Seq<char>, from_ts: i64, to_ts: i64) -> Seq<char> {
    "https://api.monobank.ua/personal/statement/"@ + external_id + "/"@ + int_decimal(from_ts as int) + "/"@
        + int_decimal(to_ts as int)
}

/// The address of a card's statement between two Unix timestamps.
pub fn statement_url(external_id: &str, from_ts: i64, to_ts: i64) -> (u: String)
    ensures
        u@ == statement_url_of(external_id@, from_ts, to_ts),
{
    let mut u = String::from_str("https://api.monobank.ua/personal/statement/");
    u.append(external_id);
    u.append("/");
    push_i64(&mut u, from_ts);
    u.append("/");
    push_i64(&mut u, to_ts);
    u
}

/// How a statement request went.
#[derive(Debug, Clone, Copy, PartialEq, Eq, Structural)]
pub enum StatementReply {
    /// A success status; the body is read.
    Success,
    /// The bank limited the rate of requests.
    TooManyRequests,
    /// Any other status.
    UnexpectedStatus,
    /// The request did not complete.
    TransportError,
}

/// What to do after a statement request.
#[derive(Debug, Clone, Copy, PartialEq, Eq, Structural)]
pub enum StatementAction {
    /// Read the transactions from the reply.
    Accept,
    /// Wait and ask again.
    Retry,
    /// Stop asking for this chunk; it contributes no transactions.
    GiveUp,
}

/// The decision after the `attempts`-th request for a chunk: take a
/// success; retry a rate limit or a failed request until the third attempt;
/// give up on any other status.
pub open spec fn statement_action(attempts: u8, reply: StatementReply) -> StatementAction {
    match reply {
        StatementReply::Success => StatementAction::Accept,
        StatementReply::UnexpectedStatus => StatementAction::GiveUp,
        StatementReply::TooManyRequests | StatementReply::TransportError => if attempts >= MAX_ATTEMPTS {
            StatementAction::GiveUp
        } else {
            StatementAction::Retry
        },
    }
}

/// The decision after the `attempts`-th request for a chunk.
pub fn after_statement_reply(attempts: u8, reply: StatementReply) -> (a: StatementAction)
    ensures
        a == statement_action(attempts, reply),
{
    match reply {
        StatementReply::Success => StatementAction::Accept,
        StatementReply::UnexpectedStatus => StatementAction::GiveUp,
        StatementReply::TooManyRequests | StatementReply::TransportError => if attempts >= MAX_ATTEMPTS {
            StatementAction::GiveUp
        } else {
            StatementAction::Retry
        },
    }
}

/// A successful reply is always accepted, at every attempt; any other
/// status is given up at once; a rate limit or a failed request is retried
/// before the third attempt and given up from then on.
pub proof fn lemma_reply_outcomes(attempts: u8)
    ensures
        statement_action(attempts, StatementReply::Success) == StatementAction::Accept,
        statement_action(attempts, StatementReply::UnexpectedStatus) == StatementAction::GiveUp,
        statement_action(attempts, StatementReply::TooManyRequests) == (if attempts < 3 {
            StatementAction::Retry
        } else {
            StatementAction::GiveUp
        }),
        statement_action(attempts, StatementReply::TransportError) == (if attempts < 3 {
            StatementAction::Retry
        } else {
            StatementAction::GiveUp
        }),
{
}

/// A chunk is requested at most three times: a retry is only ever decided
/// after an attempt before the third.
pub proof fn lemma_retries_bounded(attempts: u8, reply: StatementReply)
    ensures
        statement_action(attempts, reply) == StatementAction::Retry ==> attempts < MAX_ATTEMPTS,
        attempts >= MAX_ATTEMPTS ==> statement_action(attempts, reply) != StatementAction::Retry,
{
}

/// A transaction of a card as it is stored: the bank's fields, the card and
/// account it belongs to, and its time (`now` when the bank's time is out of
/// range).
pub open spec fn stored_transaction(tx: MonobankTransaction, external_id: String, ida: u32, now: DateTimeUtc) -> BankTransaction {
    BankTransaction {
        idt: tx.id,
        external_id,
        ida,
        amount: tx.amount,
        currency_code: tx.currency_code,
        description: tx.description,
        mcc: tx.mcc,
        hold: tx.hold,
        transaction_time: if MIN_TIMESTAMP <= tx.time <= MAX_TIMESTAMP {
            DateTimeUtc { secs: tx.time, nanos: 0 }
        } else {
            now
        },
        receipt_id: tx.receipt_id,
        balance: Some(tx.balance),
    }
}

/// The stored form of a transaction the bank reported for a card.
pub fn to_bank_transaction(tx: MonobankTransaction, monitor: &AccountMonitor, now: DateTimeUtc) -> (t: BankTransaction)
    ensures
        t == stored_transaction(tx, monitor.external_id, monitor.ida, now),
{
    let transaction_time = match DateTimeUtc::from_timestamp(tx.time) {
        Some(d) => d,
        None => now,
    };
    BankTransaction {
        idt: tx.id,
        external_id: monitor.external_id.clone(),
        ida: monitor.ida,
        amount: tx.amount,
        currency_code: tx.currency_code,
        description: tx.description,
        mcc: tx.mcc,
        hold: tx.hold,
        transaction_time,
        receipt_id: tx.receipt_id,
        balance: Some(tx.balance),
    }
}

/// The new end of a card's stored range: its newest stored transaction; with
/// none, the old end when it lies after the requested window, else `now`.
pub fn next_range_end(
    highest: Option<DateTimeUtc>,
    range_end: Option<DateTimeUtc>,
    to: DateTimeUtc,
    now: DateTimeUtc,
) -> (r: DateTimeUtc)
    ensures
        highest matches Some(h) ==> r == h,
        highest is None ==> r == (match range_end {
            Some(current) => if to.before(current) { current } else { now },
            None => now,
        }),
{
    match highest {
        Some(h) => h,
        None => match range_end {
            Some(current) => if to.is_before(&current) {
                current
            } else {
                now
            },
            None => now,
        },
    }
}

/// The new start of a card's stored range, when it changes: the requested
/// `from` when it lies before the stored start or there is none.
pub fn next_range_start(from: DateTimeUtc, range_start: Option<DateTimeUtc>) -> (r: Option<DateTimeUtc>)
    ensures
        r == (match range_start {
            Some(rs) => if from.before(rs) { Some(from) } else { None },
            None => Some(from),
        }),
        r matches Some(s) ==> s == from,
        range_start matches Some(rs) ==> (r matches Some(s) ==> s.before(rs)),
{
    match range_start {
        Some(rs) => if from.is_before(&rs) {
            Some(from)
        } else {
            None
        },
        None => Some(from),
    }
}

/// The stored range a refresh records, as its new end and its new start
/// when that changes. With nothing to fetch, the end becomes `now` and the
/// start stays. Otherwise it is recorded once the requests are done,
/// whether or not every chunk was fetched (a chunk given up adds no
/// transactions): the end is the newest stored transaction time
/// (`highest`), else as `next_range_end` picks it, and the start is the
/// requested `from` when it lies before the old start or there is none.
pub fn recorded_range(
    fetched: bool,
    highest: Option<DateTimeUtc>,
    range_end: Option<DateTimeUtc>,
    range_start: Option<DateTimeUtc>,
    from: DateTimeUtc,
    to: DateTimeUtc,
    now: DateTimeUtc,
) -> (r: (DateTimeUtc, Option<DateTimeUtc>))
    ensures
        !fetched ==> r == (now, None::<DateTimeUtc>),
        fetched ==> r.0 == (match highest {
            Some(h) => h,
            None => match range_end {
                Some(current) => if to.before(current) { current } else { now },
                None => now,
            },
        }),
        fetched ==> r.1 == (match range_start {
            Some(rs) => if from.before(rs) { Some(from) } else { None },
            None => Some(from),
        }),
{
    if !fetched {
        return (now, None);
    }
    (next_range_end(highest, range_end, to, now), next_range_start(from, range_start))
}

/// The stored start never moves later: after a refresh it is the earlier of
/// the requested `from` and the old start.
pub proof fn lemma_range_start_only_grows_back(from: DateTimeUtc, range_start: Option<DateTimeUtc>)
    ensures
        ({
            let next = match range_start {
                Some(rs) => if from.before(rs) { Some(from) } else { None },
                None => Some(from),
            };
            let stored = match next {
                Some(s) => s,
                None => range_start.unwrap(),
            };
            &&& range_start matches Some(rs) ==> stored == rs.earlier_of(from) || (stored == from && from == rs)
            &&& range_start is None ==> stored == from
        }),
{
}

/// The key of a transaction for tag spreading: its MCC (as unsigned) and
/// description, when it has both.
pub open spec fn similarity_key(t: BankTransaction) -> Option<SimilarKey> {
    match (t.mcc, t.description) {
        (Some(m), Some(d)) => Some((m as u32, d@)),
        _ => None,
    }
}

/// Transaction ids grouped by key, keys in order of first appearance.
pub open spec fn groups_of(txs: Seq<BankTransaction>) -> Seq<(SimilarKey, Seq<Seq<char>>)>
    decreases txs.len(),
{
    if txs.len() == 0 {
        Seq::empty()
    } else {
        let g = groups_of(txs.drop_last());
        match similarity_key(txs.last()) {
            None => g,
            Some(k) => match key_index(g, k) {
                Some(i) => g.update(i, (k, g[i].1.push(txs.last().idt@))),
                None => g.push((k, seq![txs.last().idt@])),
            },
        }
    }
}

/// The view of grouped ids.
pub open spec fn id_groups_view(g: Seq<((u32, String), Vec<String>)>) -> Seq<(SimilarKey, Seq<Seq<char>>)> {
    g.map_values(|e: ((u32, String), Vec<String>)| ((e.0.0, e.0.1@), views(e.1@)))
}

proof fn lemma_key_index_found<V>(g: Seq<(SimilarKey, V)>, key: SimilarKey)
    ensures
        key_index(g, key) matches Some(i) ==> 0 <= i < g.len() && g[i].0 == key,
        key_index(g, key) is None ==> forall|k: int| 0 <= k < g.len() ==> (#[trigger] g[k]).0 != key,
    decreases g.len(),
{
    if g.len() > 0 {
        lemma_key_index_found(g.drop_last(), key);
        if g.last().0 != key {
            assert forall|k: int| 0 <= k < g.len() - 1 implies (#[trigger] g[k]).0 == g.drop_last()[k].0 by {}
        }
    }
}

fn find_group(groups: &Vec<((u32, String), Vec<String>)>, key: &(u32, String)) -> (r: Option<usize>)
    ensures
        r matches Some(i) ==> i < groups@.len() && key_index(id_groups_view(groups@), (key.0, key.1@)) == Some(i as int),
        r is None ==> key_index(id_groups_view(groups@), (key.0, key.1@)) is None,
{
    let ghost g = id_groups_view(groups@);
    let mut i: usize = groups.len();
    assert(g.take(i as int) =~= g);
    while i > 0
        invariant
            i <= groups@.len(),
            g == id_groups_view(groups@),
            key_index(g, (key.0, key.1@)) == key_index(g.take(i as int), (key.0, key.1@)),
        decreases i,
    {
        assert(g.take(i as int).drop_last() =~= g.take(i - 1));
        assert(g.take(i as int).last() == g[i - 1]);
        if groups[i - 1].0.0 == key.0 && groups[i - 1].0.1 == key.1 {
            return Some(i - 1);
        }
        i = i - 1;
    }
    None
}

/// Groups transaction ids by (MCC, description), for transactions that have both.
pub fn group_by_similarity(txs: &Vec<BankTransaction>) -> (groups: Vec<((u32, String), Vec<String>)>)
    ensures
        id_groups_view(groups@) == groups_of(txs@),
{
    let mut groups: Vec<((u32, String), Vec<String>)> = Vec::new();
    let mut i: usize = 0;
    while i < txs.len()
        invariant
            0 <= i <= txs@.len(),
            id_groups_view(groups@) == groups_of(txs@.take(i as int)),
        decreases txs@.len() - i,
    {
        let tx = &txs[i];
        proof {
            assert(txs@.take(i + 1).drop_last() =~= txs@.take(i as int));
            assert(txs@.take(i + 1).last() == txs@[i as int]);
        }
        match (tx.mcc, &tx.description) {
            (Some(m), Some(d)) => {
                let key: (u32, String) = (m as u32, d.clone());
                let ghost g0 = id_groups_view(groups@);
                match find_group(&groups, &key) {
                    Some(j) => {
                        let ghost before = groups@;
                        let ghost old_entry = groups@[j as int];
                        let mut entry = groups.remove(j);
                        entry.1.push(tx.idt.clone());
                        proof {
                            lemma_key_index_found(g0, (key.0, key.1@));
                            assert(views(entry.1@) =~= views(old_entry.1@).push(tx.idt@));
                        }
                        groups.insert(j, entry);
                        proof {
                            assert(groups@ =~= before.update(j as int, groups@[j as int]));
                            assert(id_groups_view(groups@) =~= g0.update(
                                j as int,
                                ((key.0, key.1@), g0[j as int].1.push(tx.idt@)),
                            ));
                        }
                    },
                    None => {
                        let mut ids: Vec<String> = Vec::new();
                        ids.push(tx.idt.clone());
                        groups.push((key, ids));
                        proof {
                            assert(views(ids@) =~= seq![tx.idt@]);
                            assert(id_groups_view(groups@) =~= g0.push(((key.0, key.1@), seq![tx.idt@])));
                        }
                    },
                }
            },
            _ => {},
        }
        i = i + 1;
    }
    assert(txs@.take(i as int) =~= txs@);
    groups
}

/// The keys of the groups, in order.
pub fn group_keys(groups: &Vec<((u32, String), Vec<String>)>) -> (keys: Vec<(u32, String)>)
    ensures
        keys@.len() == groups@.len(),
        forall|i: int| 0 <= i < keys@.len() ==> #[trigger] keys@[i] == groups@[i].0,
{
    let mut keys: Vec<(u32, String)> = Vec::new();
    let mut i: usize = 0;
    while i < groups.len()
        invariant
            0 <= i <= groups@.len(),
            keys@.len() == i,
            forall|k: int| 0 <= k < i ==> #[trigger] keys@[k] == groups@[k].0,
        decreases groups@.len() - i,
    {
        keys.push((groups[i].0.0, groups[i].0.1.clone()));
        i = i + 1;
    }
    keys
}

/// A tag list, as `(id, tags)`.
pub open spec fn tagged_view(t: BankTransactionTag) -> (Seq<char>, Seq<(Seq<char>, Seq<char>)>) {
    (t.idt@, tags_view(t.tags@))
}

/// The tags to add: for each key with stored tags, in order, those tags for
/// every transaction of the key's group; keys without a group add nothing.
pub open spec fn spread(
    groups: Seq<(SimilarKey, Seq<Seq<char>>)>,
    tags: Seq<(SimilarKey, Seq<(Seq<char>, Seq<char>)>)>,
) -> Seq<(Seq<char>, Seq<(Seq<char>, Seq<char>)>)>
    decreases tags.len(),
{
    if tags.len() == 0 {
        Seq::empty()
    } else {
        spread(groups, tags.drop_last()) + match key_index(groups, tags.last().0) {
            Some(i) => groups[i].1.map_values(|idt: Seq<char>| (idt, tags.last().1)),
            None => Seq::empty(),
        }
    }
}

fn clone_tags(tags: &Vec<TransactionTag>) -> (r: Vec<TransactionTag>)
    ensures
        r@ == tags@,
{
    let mut r: Vec<TransactionTag> = Vec::new();
    let mut i: usize = 0;
    while i < tags.len()
        invariant
            0 <= i <= tags@.len(),
            r@ == tags@.take(i as int),
        decreases tags@.len() - i,
    {
        r.push(tags[i].clone());
        assert(tags@.take(i + 1) =~= tags@.take(i as int).push(tags@[i as int]));
        i = i + 1;
    }
    assert(tags@.take(i as int) =~= tags@);
    r
}

/// Spreads the tags stored on similar transactions to the transactions of
/// each group.
pub fn spread_similar_tags(
    groups: &Vec<((u32, String), Vec<String>)>,
    tags: &Vec<((u32, String), Vec<TransactionTag>)>,
) -> (r: Vec<BankTransactionTag>)
    ensures
        r@.map_values(|t: BankTransactionTag| tagged_view(t)) == spread(
            id_groups_view(groups@),
            tags@.map_values(|e: ((u32, String), Vec<TransactionTag>)| ((e.0.0, e.0.1@), tags_view(e.1@))),
        ),
{
    let ghost gv = id_groups_view(groups@);
    let ghost tv = tags@.map_values(|e: ((u32, String), Vec<TransactionTag>)| ((e.0.0, e.0.1@), tags_view(e.1@)));
    let mut r: Vec<BankTransactionTag> = Vec::new();
    let mut i: usize = 0;
    while i < tags.len()
        invariant
            0 <= i <= tags@.len(),
            gv == id_groups_view(groups@),
            tv == tags@.map_values(|e: ((u32, String), Vec<TransactionTag>)| ((e.0.0, e.0.1@), tags_view(e.1@))),
            r@.map_values(|t: BankTransactionTag| tagged_view(t)) == spread(gv, tv.take(i as int)),
        decreases tags@.len() - i,
    {
        let entry = &tags[i];
        proof {
            assert(tv.take(i + 1).drop_last() =~= tv.take(i as int));
            assert(tv.take(i + 1).last() == tv[i as int]);
        }
        match find_group(groups, &entry.0) {
            Some(j) => {
                let ids = &groups[j].1;
                let ghost base = r@.map_values(|t: BankTransactionTag| tagged_view(t));
                let mut k: usize = 0;
                while k < ids.len()
                    invariant
                        0 <= k <= ids@.len(),
                        base == spread(gv, tv.take(i as int)),
                        views(ids@) == gv[j as int].1,
                        tv[i as int].1 == tags_view(entry.1@),
                        r@.map_values(|t: BankTransactionTag| tagged_view(t)) == base + views(ids@).take(k as int).map_values(
                            |idt: Seq<char>| (idt, tv[i as int].1),
                        ),
                    decreases ids@.len() - k,
                {
                    let ghost prev = r@;
                    r.push(BankTransactionTag { idt: ids[k].clone(), tags: clone_tags(&entry.1) });
                    proof {
                        assert(r@.map_values(|t: BankTransactionTag| tagged_view(t)) =~= prev.map_values(
                            |t: BankTransactionTag| tagged_view(t),
                        ).push((ids@[k as int]@, tv[i as int].1)));
                        assert(views(ids@).take(k + 1).map_values(|idt: Seq<char>| (idt, tv[i as int].1))
                            =~= views(ids@).take(k as int).map_values(|idt: Seq<char>| (idt, tv[i as int].1)).push(
                            (ids@[k as int]@, tv[i as int].1),
                        ));
                    }
                    k = k + 1;
                }
                proof {
                    assert(views(ids@).take(k as int) =~= views(ids@));
                }
            },
            None => {},
        }
        i = i + 1;
    }
    assert(tv.take(i as int) =~= tv);
    r
}

} // verus!
