//! Merchant category codes (MCC): the reference table and lookups in it.

use vstd::prelude::*;

use crate::sql::clone_opt_text;
use crate::text::{trim, trim_end, trim_start, trim_str, is_white_space};

verus! {

/// A text in Ukrainian and English, either of which may be absent.
#[derive(Debug)]
pub struct Localized {
    pub uk: Option<String>,
    pub en: Option<String>,
}

/// The group an MCC code belongs to.
#[derive(Debug)]
pub struct Group {
    pub group_type: String,
    pub description: Localized,
}

/// One row of the MCC reference table.
#[derive(Debug)]
pub struct MccEntry {
    pub mcc: String,
    pub group: Group,
    pub full_description: Localized,
    pub short_description: Localized,
}

impl Clone for Localized {
    fn clone(&self) -> (r: Localized)
        ensures
            r == *self,
    {
        Localized { uk: clone_opt_text(&self.uk), en: clone_opt_text(&self.en) }
    }
}

impl Clone for Group {
    fn clone(&self) -> (r: Group)
        ensures
            r == *self,
    {
        Group { group_type: self.group_type.clone(), description: self.description.clone() }
    }
}

impl Clone for MccEntry {
    fn clone(&self) -> (r: MccEntry)
        ensures
            r == *self,
    {
        MccEntry {
            mcc: self.mcc.clone(),
            group: self.group.clone(),
            full_description: self.full_description.clone(),
            short_description: self.short_description.clone(),
        }
    }
}

/// The MCC reference table, in the order its rows were read. A code that
/// occurs more than once resolves to its last row.
#[derive(Debug)]
pub struct MccTable {
    pub entries: Vec<MccEntry>,
}

/// `c` is one of `0`..`9`.
pub open spec fn is_digit(c: char) -> bool {
    '0' <= c && c <= '9'
}

/// Every character of `s` is an ASCII digit.
pub open spec fn all_digits(s: Seq<char>) -> bool {
    forall|i: int| 0 <= i < s.len() ==> is_digit(#[trigger] s[i])
}

/// `n` zero characters.
pub open spec fn zeros(n: nat) -> Seq<char> {
    Seq::new(n, |i: int| '0')
}

/// The key under which a code is looked up: the code without surrounding
/// white space; a numeric code is left-padded with zeros to four digits and
/// has no key when longer; an empty code has no key.
pub open spec fn normalized_code(code: Seq<char>) -> Option<Seq<char>> {
    let s = trim(code);
    if s.len() == 0 {
        None
    } else if all_digits(s) {
        if s.len() > 4 {
            None
        } else {
            Some(zeros((4 - s.len()) as nat) + s)
        }
    } else {
        Some(s)
    }
}

fn zero_padding(n: usize) -> (r: &'static str)
    requires
        n <= 3,
    ensures
        r@ == zeros(n as nat),
{
    proof {
        reveal_strlit("");
        reveal_strlit("0");
        reveal_strlit("00");
        reveal_strlit("000");
    }
    let r = if n == 0 {
        ""
    } else if n == 1 {
        "0"
    } else if n == 2 {
        "00"
    } else {
        "000"
    };
    assert(r@ =~= zeros(n as nat));
    r
}

/// Normalizes an MCC code: trims it and left-pads a numeric code with zeros
/// to four digits. Empty codes and numeric codes longer than four digits
/// are rejected.
pub fn normalize(code: &str) -> (r: Option<String>)
    ensures
        r is Some == normalized_code(code@) is Some,
        r matches Some(k) ==> k@ == normalized_code(code@).unwrap(),
{
    let s = trim_str(code);
    let n = s.unicode_len();
    if n == 0 {
        return None;
    }
    let mut i: usize = 0;
    let mut digits = true;
    while i < n
        invariant
            0 <= i <= n,
            n == s@.len(),
            digits == (forall|k: int| 0 <= k < i ==> is_digit(#[trigger] s@[k])),
        decreases n - i,
    {
        let c = s.get_char(i);
        if !('0' <= c && c <= '9') {
            digits = false;
        }
        i = i + 1;
    }
    if digits {
        if n > 4 {
            return None;
        }
        let mut key = String::from_str(zero_padding(4 - n));
        key.append(s);
        Some(key)
    } else {
        Some(String::from_str(s))
    }
}

/// Index of the last row of `entries` with code `key`.
pub open spec fn last_with_code(entries: Seq<MccEntry>, key: Seq<char>) -> Option<int>
    decreases entries.len(),
{
    if entries.len() == 0 {
        None
    } else if entries.last().mcc@ == key {
        Some(entries.len() - 1)
    } else {
        last_with_code(entries.drop_last(), key)
    }
}

impl MccTable {
    /// A table over the given rows.
    pub fn new(entries: Vec<MccEntry>) -> (t: MccTable)
        ensures
            t.entries@ == entries@,
    {
        MccTable { entries }
    }

    /// The last row whose code is exactly `key`.
    pub fn find(&self, key: &String) -> (r: Option<&MccEntry>)
        ensures
            r is Some == last_with_code(self.entries@, key@) is Some,
            r matches Some(e) ==> *e == self.entries@[last_with_code(self.entries@, key@).unwrap()],
    {
        let mut i: usize = self.entries.len();
        assert(self.entries@.take(i as int) =~= self.entries@);
        while i > 0
            invariant
                i <= self.entries@.len(),
                last_with_code(self.entries@, key@) == last_with_code(self.entries@.take(i as int), key@),
            decreases i,
        {
            let ghost prefix = self.entries@.take(i as int);
            assert(prefix.drop_last() =~= self.entries@.take(i - 1));
            if self.entries[i - 1].mcc == *key {
                return Some(&self.entries[i - 1]);
            }
            i = i - 1;
        }
        None
    }
}

/// Looks up an MCC code in the table. Accepts codes like "742" or "0742".
pub fn lookup_mcc<'a>(table: &'a MccTable, code: &str) -> (r: Option<&'a MccEntry>)
    ensures
        r is Some == (normalized_code(code@) matches Some(key) && last_with_code(table.entries@, key) is Some),
        r matches Some(e) ==> *e == table.entries@[last_with_code(
            table.entries@,
            normalized_code(code@).unwrap(),
        ).unwrap()],
{
    let key = normalize(code)?;
    table.find(&key)
}

/// A normalized key normalizes to itself.
pub proof fn lemma_normalized_code_idempotent(code: Seq<char>)
    requires
        normalized_code(code) is Some,
    ensures
        normalized_code(normalized_code(code).unwrap()) == normalized_code(code),
{
    let s = trim(code);
    let k = normalized_code(code).unwrap();
    lemma_trim_of_trimmed(code);
    if all_digits(s) {
        assert(k[0] != ' ');
        lemma_trim_unchanged(k);
        assert forall|i: int| 0 <= i < k.len() implies is_digit(#[trigger] k[i]) by {
            if i >= 4 - s.len() {
                assert(k[i] == s[i - (4 - s.len())]);
            }
        }
        assert(zeros((4 - k.len()) as nat) + k =~= k);
    }
}

/// Codes that differ only by leading zeros up to four digits have the same key.
pub proof fn lemma_leading_zero_same_key(digits: Seq<char>)
    requires
        1 <= digits.len() <= 3,
        all_digits(digits),
    ensures
        normalized_code(seq!['0'] + digits) == normalized_code(digits),
{
    let padded = seq!['0'] + digits;
    assert(!is_white_space(digits[0]) && !is_white_space(digits.last()));
    lemma_trim_unchanged(digits);
    assert(padded.last() == digits.last());
    lemma_trim_unchanged(padded);
    assert forall|i: int| 0 <= i < padded.len() implies is_digit(#[trigger] padded[i]) by {
        if i > 0 {
            assert(padded[i] == digits[i - 1]);
        }
    }
    assert(zeros((4 - padded.len()) as nat) + padded =~= zeros((4 - digits.len()) as nat) + digits);
}

/// Trimming a string that neither starts nor ends with white space leaves it unchanged.
proof fn lemma_trim_unchanged(s: Seq<char>)
    requires
        s.len() > 0,
        !is_white_space(s[0]),
        !is_white_space(s.last()),
    ensures
        trim(s) == s,
{
}

proof fn lemma_trim_start_shape(s: Seq<char>)
    ensures
        trim_start(s).len() > 0 ==> !is_white_space(trim_start(s)[0]),
        exists|k: int| 0 <= k <= s.len() && trim_start(s) == s.subrange(k, s.len() as int),
    decreases s.len(),
{
    if s.len() > 0 && is_white_space(s[0]) {
        lemma_trim_start_shape(s.drop_first());
        let k = choose|k: int| 0 <= k <= s.drop_first().len() && trim_start(s.drop_first()) == s.drop_first().subrange(k, s.drop_first().len() as int);
        assert(s.drop_first().subrange(k, s.drop_first().len() as int) =~= s.subrange(k + 1, s.len() as int));
    } else {
        assert(s.subrange(0, s.len() as int) =~= s);
    }
}

proof fn lemma_trim_end_shape(s: Seq<char>)
    ensures
        trim_end(s).len() > 0 ==> !is_white_space(trim_end(s).last()),
        exists|k: int| 0 <= k <= s.len() && trim_end(s) == s.subrange(0, k),
    decreases s.len(),
{
    if s.len() > 0 && is_white_space(s.last()) {
        lemma_trim_end_shape(s.drop_last());
        let k = choose|k: int| 0 <= k <= s.drop_last().len() && trim_end(s.drop_last()) == s.drop_last().subrange(0, k);
        assert(s.drop_last().subrange(0, k) =~= s.subrange(0, k));
    } else {
        assert(s.subrange(0, s.len() as int) =~= s);
    }
}

/// A trimmed, non-empty string starts and ends with something other than white space.
proof fn lemma_trim_of_trimmed(code: Seq<char>)
    ensures
        trim(code).len() > 0 ==> !is_white_space(trim(code)[0]) && !is_white_space(trim(code).last()),
{
    let a = trim_start(code);
    lemma_trim_start_shape(code);
    lemma_trim_end_shape(a);
    let t = trim_end(a);
    if t.len() > 0 {
        let k = choose|k: int| 0 <= k <= a.len() && t == a.subrange(0, k);
        assert(t[0] == a[0]);
    }
}

} // verus!
