//! Accounts, the cards the bank reports for them, and their monitors.

use vstd::prelude::*;

use crate::datetime::DateTimeUtc;

verus! {

/// The kind of bank an account belongs to.
#[derive(Debug, Clone, Copy, PartialEq, Eq, Structural)]
pub enum AccountKind {
    Mono,
}

impl AccountKind {
    /// The name the kind is stored under.
    pub fn as_str(&self) -> (r: &'static str)
        ensures
            r@ == "Mono"@,
    {
        match self {
            AccountKind::Mono => "Mono",
        }
    }

    /// The kind stored under a name, if any.
    pub fn from_name(name: &str) -> (r: Option<AccountKind>)
        ensures
            r is Some == (name@ == "Mono"@),
            r matches Some(k) ==> k == AccountKind::Mono,
    {
        if crate::text::str_eq(name, "Mono") {
            Some(AccountKind::Mono)
        } else {
            None
        }
    }
}

/// A bank account of a user.
#[derive(Debug)]
pub struct Account {
    pub ida: u32,
    pub idu: u32,
    pub kind: AccountKind,
    pub token: String,
}

impl Clone for Account {
    fn clone(&self) -> (r: Account)
        ensures
            r == *self,
    {
        Account { ida: self.ida, idu: self.idu, kind: self.kind, token: self.token.clone() }
    }
}

/// Request payload for creating an account.
#[derive(Debug)]
pub struct CreateAccount {
    pub idu: u32,
    pub kind: AccountKind,
    pub token: String,
}

/// Request payload for changing an account: the fields to replace.
#[derive(Debug)]
pub struct UpdateAccount {
    pub name: Option<String>,
    pub token: Option<String>,
}

/// The response of the Monobank client-info call.
#[derive(Debug)]
pub struct MonoClientInfo {
    pub accounts: Vec<MonoAccount>,
}

/// A card account as the Monobank API reports it.
#[derive(Debug)]
pub struct MonoAccount {
    /// The account it belongs to in this service; not part of the bank's answer.
    pub ida: u32,
    pub id: String,
    pub send_id: String,
    pub currency_code: u32,
    pub balance: u64,
    pub credit_limit: u32,
    pub masked_pan: Vec<String>,
    pub iban: String,
}

/// Where the refresh of a card stands.
#[derive(Debug, Clone, Copy, PartialEq, Eq, Structural)]
pub enum AccountMonitorStatus {
    Never,
    Pending,
    Updated,
}

impl AccountMonitorStatus {
    /// The name the status is stored under.
    pub fn as_str(&self) -> (r: &'static str)
        ensures
            *self == AccountMonitorStatus::Never ==> r@ == "Never"@,
            *self == AccountMonitorStatus::Pending ==> r@ == "Pending"@,
            *self == AccountMonitorStatus::Updated ==> r@ == "Updated"@,
    {
        match self {
            AccountMonitorStatus::Never => "Never",
            AccountMonitorStatus::Pending => "Pending",
            AccountMonitorStatus::Updated => "Updated",
        }
    }
}

/// A stored card monitor: the card, its last known figures, and the range
/// of time whose transactions are stored: from `last_taken_date` up to
/// `updated_at`.
#[derive(Debug)]
pub struct AccountMonitor {
    pub ida: u32,
    pub external_id: String,
    pub currency_code: u32,
    pub balance: u32,
    pub credit_limit: u32,
    pub iban: String,
    pub masked_pan: String,
    pub kind: AccountKind,
    pub updated_at: Option<DateTimeUtc>,
    pub last_taken_date: Option<DateTimeUtc>,
}

impl Clone for AccountMonitor {
    fn clone(&self) -> (r: AccountMonitor)
        ensures
            r == *self,
    {
        AccountMonitor {
            ida: self.ida,
            external_id: self.external_id.clone(),
            currency_code: self.currency_code,
            balance: self.balance,
            credit_limit: self.credit_limit,
            iban: self.iban.clone(),
            masked_pan: self.masked_pan.clone(),
            kind: self.kind,
            updated_at: self.updated_at,
            last_taken_date: self.last_taken_date,
        }
    }
}

/// The window of a refresh, as Unix timestamps: `from` becomes the stored
/// range's start, `to` its end.
#[derive(Debug)]
pub struct StatQueryParams {
    pub from: i64,
    pub to: i64,
}

} // verus!
