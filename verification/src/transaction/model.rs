//! Transactions as the bank reports them, as they are stored, and the
//! filters that select them.

use vstd::prelude::*;

use crate::datetime::DateTimeUtc;
pub use crate::tags::TransactionTag;

verus! {

/// A transaction as the Monobank statement API reports it.
#[derive(Debug)]
pub struct MonobankTransaction {
    pub id: String,
    /// Seconds since the Unix epoch.
    pub time: i64,
    pub description: Option<String>,
    pub mcc: Option<i32>,
    pub hold: Option<bool>,
    pub amount: i64,
    pub currency_code: i32,
    pub balance: i64,
    pub receipt_id: Option<String>,
}

/// A stored transaction together with what is shown next to it.
#[derive(Debug)]
pub struct BankTransactionDTO {
    pub idt: String,
    pub external_id: String,
    pub ida: u32,
    pub amount: i64,
    pub currency_code: i32,
    pub description: Option<String>,
    pub mcc: Option<i32>,
    pub hold: Option<bool>,
    pub transaction_time: DateTimeUtc,
    pub receipt_id: Option<String>,
    pub balance: Option<i64>,
    pub masked_pan: Option<String>,
    pub mcc_description: Option<String>,
    pub currency: Option<String>,
    pub tags: Vec<TransactionTag>,
}

/// A transaction as it is stored.
#[derive(Debug)]
pub struct BankTransaction {
    pub idt: String,
    pub external_id: String,
    pub ida: u32,
    pub amount: i64,
    pub currency_code: i32,
    pub description: Option<String>,
    pub mcc: Option<i32>,
    pub hold: Option<bool>,
    pub transaction_time: DateTimeUtc,
    pub receipt_id: Option<String>,
    pub balance: Option<i64>,
}

/// One condition of a filter exception.
#[derive(Debug)]
pub struct FilterCondition {
    /// "amount" | "currency" | "description" | "receipt_id" | "mcc" | "external_id" | "tag"
    pub field: String,
    /// "eq" | "neq" | "lt" | "gt" | "lte" | "gte" | "startsWith" | "endsWith" | "contains"
    pub operator: String,
    pub value: String,
    /// primary | secondary | success | info | warn | danger | contrast
    pub severity: Option<String>,
}

/// A group of conditions joined to the filter by a combinator:
/// "AND NOT" | "AND" | "OR NOT" | "OR".
#[derive(Debug)]
pub struct FilterException {
    pub combinator: String,
    pub conditions: Vec<FilterCondition>,
}

/// Which transactions to select.
#[derive(Debug)]
pub struct BankTransactionFilter {
    pub ida_list: Option<Vec<u32>>,
    pub external_id_list: Option<Vec<String>>,
    pub exceptions: Option<Vec<FilterException>>,
    pub from: DateTimeUtc,
    pub to: DateTimeUtc,
}

/// The tags of one transaction.
#[derive(Debug)]
pub struct BankTransactionTag {
    pub idt: String,
    pub tags: Vec<TransactionTag>,
}

/// The tags of one transaction, with the similarity they should be spread by.
#[derive(Debug)]
pub struct MagicBankTransactionTag {
    pub idt: String,
    pub tags: Vec<TransactionTag>,
    pub by_mcc: bool,
    pub by_description: bool,
}

} // verus!
