//! What the service makes of stored transactions: the currency and MCC
//! descriptions shown with them, and their CSV and spreadsheet exports.

use vstd::prelude::*;

use iso_currency::Currency;

use crate::datetime::{rfc3339_text, write_rfc3339};
use crate::error::AppError;
use crate::mcc::{last_with_code, lookup_mcc, normalized_code, MccEntry, MccTable};
use crate::sql::{clone_opt_text, opt_text};
use crate::tags::TransactionTag;
use crate::text::{format_i64, int_decimal, join, join_strings, views};
use crate::transaction::model::BankTransactionDTO;

verus! {

/// The ISO 4217 letter code of a numeric currency code, if it names a currency.
pub uninterp spec fn iso_alpha_code(numeric: u16) -> Option<Seq<char>>;

/// Calls `iso_currency::Currency::from_numeric` and `Currency::code`; the
/// contract claims that the letter code depends on the numeric code alone.
#[verifier::external_body]
fn currency_letter_code(numeric: u16) -> (r: Option<String>)
    ensures
        opt_text(r) == iso_alpha_code(numeric),
{
    match Currency::from_numeric(numeric) {
        Some(c) => Some(c.code().to_string()),
        None => None,
    }
}

/// The description of an MCC row: the first present of the short and the
/// full description in Ukrainian, then the short and the full one in English.
pub open spec fn entry_description(e: MccEntry) -> Option<Seq<char>> {
    if e.short_description.uk is Some {
        opt_text(e.short_description.uk)
    } else if e.full_description.uk is Some {
        opt_text(e.full_description.uk)
    } else if e.short_description.en is Some {
        opt_text(e.short_description.en)
    } else {
        opt_text(e.full_description.en)
    }
}

/// The description shown for a transaction's MCC, looked up by its decimal form.
pub open spec fn mcc_description_of(table: MccTable, mcc: Option<i32>) -> Option<Seq<char>> {
    match mcc {
        None => None,
        Some(m) => match normalized_code(int_decimal(m as int)) {
            None => None,
            Some(key) => match last_with_code(table.entries@, key) {
                None => None,
                Some(i) => entry_description(table.entries@[i]),
            },
        },
    }
}

fn describe_entry(e: &MccEntry) -> (r: Option<String>)
    ensures
        opt_text(r) == entry_description(*e),
{
    if e.short_description.uk.is_some() {
        clone_opt_text(&e.short_description.uk)
    } else if e.full_description.uk.is_some() {
        clone_opt_text(&e.full_description.uk)
    } else if e.short_description.en.is_some() {
        clone_opt_text(&e.short_description.en)
    } else {
        clone_opt_text(&e.full_description.en)
    }
}

/// The description shown for an MCC.
pub fn mcc_description(table: &MccTable, mcc: Option<i32>) -> (r: Option<String>)
    ensures
        opt_text(r) == mcc_description_of(*table, mcc),
{
    match mcc {
        None => None,
        Some(m) => {
            let code = format_i64(m as i64);
            match lookup_mcc(table, code.as_str()) {
                None => None,
                Some(entry) => describe_entry(entry),
            }
        },
    }
}

/// `b` is `a` with the given currency and the MCC description filled in.
pub open spec fn described_with(
    table: MccTable,
    a: BankTransactionDTO,
    currency: Option<Seq<char>>,
    b: BankTransactionDTO,
) -> bool {
    &&& b.idt == a.idt
    &&& b.external_id == a.external_id
    &&& b.ida == a.ida
    &&& b.amount == a.amount
    &&& b.currency_code == a.currency_code
    &&& b.description == a.description
    &&& b.mcc == a.mcc
    &&& b.hold == a.hold
    &&& b.transaction_time == a.transaction_time
    &&& b.receipt_id == a.receipt_id
    &&& b.balance == a.balance
    &&& b.masked_pan == a.masked_pan
    &&& b.tags == a.tags
    &&& opt_text(b.currency) == currency
    &&& opt_text(b.mcc_description) == mcc_description_of(table, a.mcc)
}

/// `b` is `a` with the ISO letter code of its numeric currency code (taken
/// as 16 bits) and the MCC description filled in.
pub open spec fn described(table: MccTable, a: BankTransactionDTO, b: BankTransactionDTO) -> bool {
    described_with(table, a, iso_alpha_code(a.currency_code as u16), b)
}

/// A transaction with the given currency letter code and its MCC
/// description filled in.
pub fn describe_transaction(table: &MccTable, t: BankTransactionDTO, currency: Option<String>) -> (r: BankTransactionDTO)
    ensures
        described_with(*table, t, opt_text(currency), r),
{
    let mut r = t;
    r.currency = currency;
    r.mcc_description = mcc_description(table, r.mcc);
    r
}

/// Fills in each transaction's currency letter code and MCC description.
pub fn describe_transactions(table: &MccTable, transactions: Vec<BankTransactionDTO>) -> (r: Vec<BankTransactionDTO>)
    ensures
        r@.len() == transactions@.len(),
        forall|i: int| 0 <= i < r@.len() ==> described(*table, transactions@[i], #[trigger] r@[i]),
{
    let mut out: Vec<BankTransactionDTO> = Vec::new();
    let mut rest = transactions;
    let ghost all = rest@;
    let n = rest.len();
    let mut k: usize = 0;
    while k < n
        invariant
            0 <= k <= n,
            n == all.len(),
            rest@ == all.subrange(k as int, n as int),
            out@.len() == k,
            forall|i: int| 0 <= i < k ==> described(*table, all[i], #[trigger] out@[i]),
        decreases n - k,
    {
        let t = rest.remove(0);
        assert(t == all[k as int]);
        assert(rest@ =~= all.subrange(k + 1, n as int));
        let currency = currency_letter_code(t.currency_code as u16);
        out.push(describe_transaction(table, t, currency));
        k = k + 1;
    }
    out
}

/// The column names of the transaction exports.
pub open spec fn export_header() -> Seq<Seq<char>> {
    seq![
        "idt"@,
        "external_id"@,
        "ida"@,
        "amount"@,
        "currency_code"@,
        "description"@,
        "mcc"@,
        "hold"@,
        "transaction_time"@,
        "receipt_id"@,
        "balance"@,
        "masked_pan"@,
        "mcc_description"@,
        "currency"@,
        "tags"@,
    ]
}

/// A text option, empty when absent.
pub open spec fn or_empty(t: Option<String>) -> Seq<char> {
    match t {
        Some(s) => s@,
        None => Seq::empty(),
    }
}

/// A number option in decimal, empty when absent.
pub open spec fn decimal_or_empty(n: Option<int>) -> Seq<char> {
    match n {
        Some(v) => int_decimal(v),
        None => Seq::empty(),
    }
}

/// `true`, `false`, or empty when absent.
pub open spec fn bool_or_empty(b: Option<bool>) -> Seq<char> {
    match b {
        Some(v) => if v { "true"@ } else { "false"@ },
        None => Seq::empty(),
    }
}

/// The names of a transaction's tags joined by commas.
pub open spec fn tag_names(tags: Seq<TransactionTag>) -> Seq<char> {
    join(tags.map_values(|t: TransactionTag| t.tag@), ","@)
}

/// The export fields of a transaction, in column order.
pub open spec fn export_record(t: BankTransactionDTO) -> Seq<Seq<char>> {
    seq![
        t.idt@,
        t.external_id@,
        int_decimal(t.ida as int),
        int_decimal(t.amount as int),
        int_decimal(t.currency_code as int),
        or_empty(t.description),
        decimal_or_empty(
            match t.mcc {
                Some(v) => Some(v as int),
                None => None,
            },
        ),
        bool_or_empty(t.hold),
        rfc3339_text(t.transaction_time.secs, t.transaction_time.nanos),
        or_empty(t.receipt_id),
        decimal_or_empty(
            match t.balance {
                Some(v) => Some(v as int),
                None => None,
            },
        ),
        or_empty(t.masked_pan),
        or_empty(t.mcc_description),
        or_empty(t.currency),
        tag_names(t.tags@),
    ]
}

/// The names of a transaction's tags joined by commas.
pub fn join_tag_names(tags: &Vec<TransactionTag>) -> (r: String)
    ensures
        r@ == tag_names(tags@),
{
    let mut names: Vec<String> = Vec::new();
    let mut i: usize = 0;
    while i < tags.len()
        invariant
            0 <= i <= tags@.len(),
            views(names@) == tags@.take(i as int).map_values(|t: TransactionTag| t.tag@),
        decreases tags@.len() - i,
    {
        let ghost prev = names@;
        names.push(tags[i].tag.clone());
        assert(views(names@) =~= views(prev).push(tags@[i as int].tag@));
        assert(tags@.take(i + 1).map_values(|t: TransactionTag| t.tag@) =~= tags@.take(i as int).map_values(
            |t: TransactionTag| t.tag@,
        ).push(tags@[i as int].tag@));
        i = i + 1;
    }
    assert(tags@.take(i as int) =~= tags@);
    join_strings(&names, ",")
}

fn text_or_empty(t: &Option<String>) -> (r: String)
    ensures
        r@ == or_empty(*t),
{
    match t {
        Some(s) => s.clone(),
        None => String::new(),
    }
}

fn bool_text(b: Option<bool>) -> (r: String)
    ensures
        r@ == bool_or_empty(b),
{
    match b {
        Some(v) => if v {
            String::from_str("true")
        } else {
            String::from_str("false")
        },
        None => String::new(),
    }
}

/// The texts of a record.
pub open spec fn record_view(r: Vec<String>) -> Seq<Seq<char>> {
    views(r@)
}

/// The export fields of a transaction.
pub fn export_fields(t: &BankTransactionDTO) -> (r: Vec<String>)
    requires
        t.transaction_time.valid(),
    ensures
        record_view(r) == export_record(*t),
{
    let mut r: Vec<String> = Vec::new();
    r.push(t.idt.clone());
    r.push(t.external_id.clone());
    r.push(format_i64(t.ida as i64));
    r.push(format_i64(t.amount));
    r.push(format_i64(t.currency_code as i64));
    r.push(text_or_empty(&t.description));
    r.push(
        match t.mcc {
            Some(v) => format_i64(v as i64),
            None => String::new(),
        },
    );
    r.push(bool_text(t.hold));
    r.push(write_rfc3339(t.transaction_time));
    r.push(text_or_empty(&t.receipt_id));
    r.push(
        match t.balance {
            Some(v) => format_i64(v),
            None => String::new(),
        },
    );
    r.push(text_or_empty(&t.masked_pan));
    r.push(text_or_empty(&t.mcc_description));
    r.push(text_or_empty(&t.currency));
    r.push(join_tag_names(&t.tags));
    assert(record_view(r) =~= export_record(*t));
    r
}

/// The column names of the exports.
pub fn export_header_fields() -> (r: Vec<String>)
    ensures
        record_view(r) == export_header(),
{
    let mut r: Vec<String> = Vec::new();
    r.push(String::from_str("idt"));
    r.push(String::from_str("external_id"));
    r.push(String::from_str("ida"));
    r.push(String::from_str("amount"));
    r.push(String::from_str("currency_code"));
    r.push(String::from_str("description"));
    r.push(String::from_str("mcc"));
    r.push(String::from_str("hold"));
    r.push(String::from_str("transaction_time"));
    r.push(String::from_str("receipt_id"));
    r.push(String::from_str("balance"));
    r.push(String::from_str("masked_pan"));
    r.push(String::from_str("mcc_description"));
    r.push(String::from_str("currency"));
    r.push(String::from_str("tags"));
    assert(record_view(r) =~= export_header());
    r
}

/// The bytes a default `csv::Writer` writes for one record: its fields,
/// quoted where needed and separated by commas, then a line end.
pub uninterp spec fn csv_line(fields: Seq<Seq<char>>) -> Seq<u8>;

/// Writes one record with a default `csv::Writer` into memory
/// (`Writer::from_writer`, `Writer::write_record`, `Writer::into_inner`) and
/// takes the bytes back. The contract claims that the bytes depend on the
/// record alone, and that the write succeeds: the writer refuses a record
/// only when its field count differs from that of an earlier record or the
/// underlying writer fails, and a first record written into a `Vec` meets
/// neither.
#[verifier::external_body]
fn encode_csv_record(record: &Vec<String>) -> (r: Result<Vec<u8>, String>)
    ensures
        r is Ok,
        r matches Ok(b) ==> b@ == csv_line(record_view(*record)),
{
    let mut wtr = csv::Writer::from_writer(Vec::new());
    wtr.write_record(record).map_err(|e| e.to_string())?;
    wtr.into_inner().map_err(|e| e.to_string())
}

/// A CSV document: the line of each record, in order.
pub open spec fn csv_document(records: Seq<Seq<Seq<char>>>) -> Seq<u8>
    decreases records.len(),
{
    if records.len() == 0 {
        Seq::empty()
    } else {
        csv_document(records.drop_last()) + csv_line(records.last())
    }
}

/// The records of the CSV export: the header, then one per transaction.
pub open spec fn csv_records(data: Seq<BankTransactionDTO>) -> Seq<Seq<Seq<char>>> {
    seq![export_header()] + data.map_values(|t: BankTransactionDTO| export_record(t))
}

/// The CSV export of transactions: a header line and one line per
/// transaction, every line with the same fifteen fields.
pub fn download_csv(data: &Vec<BankTransactionDTO>) -> (r: Result<Vec<u8>, AppError>)
    requires
        forall|i: int| 0 <= i < data@.len() ==> (#[trigger] data@[i]).transaction_time.valid(),
    ensures
        r matches Ok(b) && b@ == csv_document(csv_records(data@)),
{
    let header = export_header_fields();
    let mut bytes = match encode_csv_record(&header) {
        Ok(b) => b,
        Err(e) => {
            return Err(AppError::Internal(e));
        },
    };
    proof {
        let recs0 = csv_records(data@.take(0));
        assert(recs0 =~= seq![export_header()]);
        assert(recs0.drop_last() =~= Seq::<Seq<Seq<char>>>::empty());
        assert(csv_document(recs0.drop_last()) =~= Seq::<u8>::empty());
        assert(recs0.last() == export_header());
        assert(bytes@ =~= csv_document(recs0));
    }
    let mut i: usize = 0;
    while i < data.len()
        invariant
            0 <= i <= data@.len(),
            forall|k: int| 0 <= k < data@.len() ==> (#[trigger] data@[k]).transaction_time.valid(),
            bytes@ == csv_document(csv_records(data@.take(i as int))),
        decreases data@.len() - i,
    {
        let rec = export_fields(&data[i]);
        let mut line = match encode_csv_record(&rec) {
            Ok(b) => b,
            Err(e) => {
                return Err(AppError::Internal(e));
            },
        };
        let ghost before = bytes@;
        bytes.append(&mut line);
        proof {
            let prev = csv_records(data@.take(i as int));
            let next = csv_records(data@.take(i + 1));
            assert(next =~= prev.push(export_record(data@[i as int])));
            assert(next.drop_last() =~= prev);
            assert(bytes@ =~= before + csv_line(export_record(data@[i as int])));
        }
        i = i + 1;
    }
    assert(data@.take(i as int) =~= data@);
    Ok(bytes)
}

/// A spreadsheet cell value.
#[derive(Debug)]
pub enum CellValue {
    Text(String),
    Number(i64),
    Bool(bool),
}

/// A spreadsheet cell: row, column and value.
#[derive(Debug)]
pub struct XlsxCell {
    pub row: u32,
    pub col: u16,
    pub value: CellValue,
}

/// A cell value with texts taken by their characters.
pub enum CellView {
    Text(Seq<char>),
    Number(int),
    Bool(bool),
}

/// The view of a cell.
pub open spec fn cell_view(c: XlsxCell) -> (u32, u16, CellView) {
    (
        c.row,
        c.col,
        match c.value {
            CellValue::Text(s) => CellView::Text(s@),
            CellValue::Number(n) => CellView::Number(n as int),
            CellValue::Bool(b) => CellView::Bool(b),
        },
    )
}

/// The views of a list of cells.
pub open spec fn cells_view(cells: Seq<XlsxCell>) -> Seq<(u32, u16, CellView)> {
    cells.map_values(|c: XlsxCell| cell_view(c))
}

/// The header row: the column names in row 0.
pub open spec fn header_cells() -> Seq<(u32, u16, CellView)> {
    Seq::new(15, |i: int| (0u32, i as u16, CellView::Text(export_header()[i])))
}

/// The cells of a transaction in a row: texts and numbers in column order;
/// the MCC, hold and balance cells are left out when absent.
pub open spec fn row_cells(row: u32, t: BankTransactionDTO) -> Seq<(u32, u16, CellView)> {
    seq![
        (row, 0u16, CellView::Text(t.idt@)),
        (row, 1u16, CellView::Text(t.external_id@)),
        (row, 2u16, CellView::Number(t.ida as int)),
        (row, 3u16, CellView::Number(t.amount as int)),
        (row, 4u16, CellView::Number(t.currency_code as int)),
        (row, 5u16, CellView::Text(or_empty(t.description))),
    ] + (match t.mcc {
        Some(m) => seq![(row, 6u16, CellView::Number(m as int))],
        None => Seq::empty(),
    }) + (match t.hold {
        Some(h) => seq![(row, 7u16, CellView::Bool(h))],
        None => Seq::empty(),
    }) + seq![
        (row, 8u16, CellView::Text(rfc3339_text(t.transaction_time.secs, t.transaction_time.nanos))),
        (row, 9u16, CellView::Text(or_empty(t.receipt_id))),
    ] + (match t.balance {
        Some(b) => seq![(row, 10u16, CellView::Number(b as int))],
        None => Seq::empty(),
    }) + seq![
        (row, 11u16, CellView::Text(or_empty(t.masked_pan))),
        (row, 12u16, CellView::Text(or_empty(t.mcc_description))),
        (row, 13u16, CellView::Text(or_empty(t.currency))),
        (row, 14u16, CellView::Text(tag_names(t.tags@))),
    ]
}

/// The data rows: transaction `i` in row `i + 1`.
pub open spec fn data_cells(data: Seq<BankTransactionDTO>) -> Seq<(u32, u16, CellView)>
    decreases data.len(),
{
    if data.len() == 0 {
        Seq::empty()
    } else {
        data_cells(data.drop_last()) + row_cells(data.len() as u32, data.last())
    }
}

fn push_cell(cells: &mut Vec<XlsxCell>, row: u32, col: u16, value: CellValue)
    ensures
        cells_view(final(cells)@) == cells_view(old(cells)@).push(cell_view(XlsxCell { row, col, value })),
{
    let ghost before = cells@;
    cells.push(XlsxCell { row, col, value });
    assert(cells_view(cells@) =~= cells_view(before).push(cell_view(XlsxCell { row, col, value })));
}

/// The first cells of a transaction's row: ids, numbers and description.
pub open spec fn front_cells(row: u32, t: BankTransactionDTO) -> Seq<(u32, u16, CellView)> {
    seq![
        (row, 0u16, CellView::Text(t.idt@)),
        (row, 1u16, CellView::Text(t.external_id@)),
        (row, 2u16, CellView::Number(t.ida as int)),
        (row, 3u16, CellView::Number(t.amount as int)),
        (row, 4u16, CellView::Number(t.currency_code as int)),
        (row, 5u16, CellView::Text(or_empty(t.description))),
    ]
}

/// A number cell, when there is a number.
pub open spec fn opt_number_cell(row: u32, col: u16, n: Option<int>) -> Seq<(u32, u16, CellView)> {
    match n {
        Some(v) => seq![(row, col, CellView::Number(v))],
        None => Seq::empty(),
    }
}

/// The last cells of a transaction's row: card, MCC description, currency and tags.
pub open spec fn back_cells(row: u32, t: BankTransactionDTO) -> Seq<(u32, u16, CellView)> {
    seq![
        (row, 11u16, CellView::Text(or_empty(t.masked_pan))),
        (row, 12u16, CellView::Text(or_empty(t.mcc_description))),
        (row, 13u16, CellView::Text(or_empty(t.currency))),
        (row, 14u16, CellView::Text(tag_names(t.tags@))),
    ]
}

fn push_front_cells(cells: &mut Vec<XlsxCell>, row: u32, t: &BankTransactionDTO)
    ensures
        cells_view(final(cells)@) == cells_view(old(cells)@) + front_cells(row, *t),
{
    let ghost start = cells_view(cells@);
    push_cell(cells, row, 0, CellValue::Text(t.idt.clone()));
    push_cell(cells, row, 1, CellValue::Text(t.external_id.clone()));
    push_cell(cells, row, 2, CellValue::Number(t.ida as i64));
    push_cell(cells, row, 3, CellValue::Number(t.amount));
    push_cell(cells, row, 4, CellValue::Number(t.currency_code as i64));
    push_cell(cells, row, 5, CellValue::Text(text_or_empty(&t.description)));
    assert(cells_view(cells@) =~= start + front_cells(row, *t));
}

fn push_opt_number(cells: &mut Vec<XlsxCell>, row: u32, col: u16, n: Option<i64>)
    ensures
        cells_view(final(cells)@) == cells_view(old(cells)@) + opt_number_cell(
            row,
            col,
            match n {
                Some(v) => Some(v as int),
                None => None,
            },
        ),
{
    let ghost start = cells_view(cells@);
    match n {
        Some(v) => push_cell(cells, row, col, CellValue::Number(v)),
        None => {},
    }
    assert(cells_view(cells@) =~= start + opt_number_cell(
        row,
        col,
        match n {
            Some(v) => Some(v as int),
            None => None,
        },
    ));
}

fn push_back_cells(cells: &mut Vec<XlsxCell>, row: u32, t: &BankTransactionDTO)
    ensures
        cells_view(final(cells)@) == cells_view(old(cells)@) + back_cells(row, *t),
{
    let ghost start = cells_view(cells@);
    push_cell(cells, row, 11, CellValue::Text(text_or_empty(&t.masked_pan)));
    push_cell(cells, row, 12, CellValue::Text(text_or_empty(&t.mcc_description)));
    push_cell(cells, row, 13, CellValue::Text(text_or_empty(&t.currency)));
    push_cell(cells, row, 14, CellValue::Text(join_tag_names(&t.tags)));
    assert(cells_view(cells@) =~= start + back_cells(row, *t));
}

fn push_row_cells(cells: &mut Vec<XlsxCell>, row: u32, t: &BankTransactionDTO)
    requires
        t.transaction_time.valid(),
    ensures
        cells_view(final(cells)@) == cells_view(old(cells)@) + row_cells(row, *t),
{
    let ghost start = cells_view(cells@);
    push_front_cells(cells, row, t);
    push_opt_number(
        cells,
        row,
        6,
        match t.mcc {
            Some(m) => Some(m as i64),
            None => None,
        },
    );
    let ghost b = cells_view(cells@);
    match t.hold {
        Some(h) => push_cell(cells, row, 7, CellValue::Bool(h)),
        None => {},
    }
    let ghost c = cells_view(cells@);
    push_cell(cells, row, 8, CellValue::Text(write_rfc3339(t.transaction_time)));
    push_cell(cells, row, 9, CellValue::Text(text_or_empty(&t.receipt_id)));
    let ghost d = cells_view(cells@);
    push_opt_number(cells, row, 10, t.balance);
    push_back_cells(cells, row, t);
    proof {
        let pm = opt_number_cell(
            row,
            6,
            match t.mcc {
                Some(m) => Some(m as int),
                None => None,
            },
        );
        let ph: Seq<(u32, u16, CellView)> = match t.hold {
            Some(h) => seq![(row, 7u16, CellView::Bool(h))],
            None => Seq::empty(),
        };
        assert(c =~= b + ph);
        let p2: Seq<(u32, u16, CellView)> = seq![
            (row, 8u16, CellView::Text(rfc3339_text(t.transaction_time.secs, t.transaction_time.nanos))),
            (row, 9u16, CellView::Text(or_empty(t.receipt_id))),
        ];
        assert(d =~= c + p2);
        let pb = opt_number_cell(
            row,
            10,
            match t.balance {
                Some(v) => Some(v as int),
                None => None,
            },
        );
        assert(row_cells(row, *t) =~= front_cells(row, *t) + pm + ph + p2 + pb + back_cells(row, *t));
        assert(cells_view(cells@) =~= start + front_cells(row, *t) + pm + ph + p2 + pb + back_cells(row, *t));
    }
}

/// The spreadsheet export of transactions, as the cells to write: the
/// header row, then one row per transaction.
pub fn xlsx_cells(data: &Vec<BankTransactionDTO>) -> (cells: Vec<XlsxCell>)
    requires
        data@.len() < u32::MAX,
        forall|i: int| 0 <= i < data@.len() ==> (#[trigger] data@[i]).transaction_time.valid(),
    ensures
        cells_view(cells@) == header_cells() + data_cells(data@),
{
    let mut cells: Vec<XlsxCell> = Vec::new();
    let header = export_header_fields();
    assert(views(header@).len() == 15);
    let mut c: usize = 0;
    while c < header.len()
        invariant
            0 <= c <= 15,
            header@.len() == 15,
            record_view(header) == export_header(),
            cells_view(cells@) == header_cells().take(c as int),
        decreases 15 - c,
    {
        push_cell(&mut cells, 0, c as u16, CellValue::Text(header[c].clone()));
        assert(views(header@)[c as int] == header@[c as int]@);
        assert(header_cells()[c as int] == (0u32, c as u16, CellView::Text(export_header()[c as int])));
        assert(header_cells().take(c + 1) =~= header_cells().take(c as int).push(header_cells()[c as int]));
        c = c + 1;
    }
    assert(header_cells().take(15) =~= header_cells());
    let mut i: usize = 0;
    while i < data.len()
        invariant
            0 <= i <= data@.len(),
            data@.len() < u32::MAX,
            forall|k: int| 0 <= k < data@.len() ==> (#[trigger] data@[k]).transaction_time.valid(),
            cells_view(cells@) == header_cells() + data_cells(data@.take(i as int)),
        decreases data@.len() - i,
    {
        let row = (i + 1) as u32;
        let ghost start = cells_view(cells@);
        push_row_cells(&mut cells, row, &data[i]);
        proof {
            assert(data@.take(i + 1).drop_last() =~= data@.take(i as int));
            assert(data@.take(i + 1).last() == data@[i as int]);
            assert(cells_view(cells@) == start + row_cells(row, data@[i as int]));
            assert(header_cells() + data_cells(data@.take(i + 1)) =~= header_cells() + data_cells(data@.take(i as int)) + row_cells(row, data@[i as int]));
        }
        i = i + 1;
    }
    assert(data@.take(i as int) =~= data@);
    cells
}

/// The MCC rows of the given codes that the table knows, in order; codes
/// it does not know are left out.
pub open spec fn known_entries(table: MccTable, codes: Seq<u32>) -> Seq<MccEntry>
    decreases codes.len(),
{
    if codes.len() == 0 {
        Seq::empty()
    } else {
        let rest = known_entries(table, codes.drop_last());
        match normalized_code(int_decimal(codes.last() as int)) {
            None => rest,
            Some(key) => match last_with_code(table.entries@, key) {
                None => rest,
                Some(i) => rest.push(table.entries@[i]),
            },
        }
    }
}

/// The MCC rows for the codes found among stored transactions.
pub fn get_mcc(table: &MccTable, codes: &Vec<u32>) -> (r: Vec<MccEntry>)
    ensures
        r@ == known_entries(*table, codes@),
{
    let mut r: Vec<MccEntry> = Vec::new();
    let mut i: usize = 0;
    while i < codes.len()
        invariant
            0 <= i <= codes@.len(),
            r@ == known_entries(*table, codes@.take(i as int)),
        decreases codes@.len() - i,
    {
        let code = format_i64(codes[i] as i64);
        match lookup_mcc(table, code.as_str()) {
            None => {},
            Some(m) => r.push(m.clone()),
        }
        assert(codes@.take(i + 1).drop_last() =~= codes@.take(i as int));
        i = i + 1;
    }
    assert(codes@.take(i as int) =~= codes@);
    r
}

/// The text a spreadsheet cell holds as the CSV export writes it.
pub open spec fn cell_text(v: CellView) -> Seq<char> {
    match v {
        CellView::Text(t) => t,
        CellView::Number(n) => decimal_or_empty(Some(n)),
        CellView::Bool(b) => bool_or_empty(Some(b)),
    }
}

/// Every cell lies in `row` and holds the text of the record's field in
/// its column.
pub open spec fn cells_agree(cells: Seq<(u32, u16, CellView)>, row: u32, rec: Seq<Seq<char>>) -> bool {
    forall|j: int|
        0 <= j < cells.len() ==> {
            &&& (#[trigger] cells[j]).0 == row
            &&& (cells[j].1 as int) < rec.len()
            &&& rec[cells[j].1 as int] == cell_text(cells[j].2)
        }
}

proof fn lemma_cells_agree_concat(
    a: Seq<(u32, u16, CellView)>,
    b: Seq<(u32, u16, CellView)>,
    row: u32,
    rec: Seq<Seq<char>>,
)
    requires
        cells_agree(a, row, rec),
        cells_agree(b, row, rec),
    ensures
        cells_agree(a + b, row, rec),
{
    assert forall|j: int| 0 <= j < (a + b).len() implies {
        &&& (#[trigger] (a + b)[j]).0 == row
        &&& ((a + b)[j].1 as int) < rec.len()
        &&& rec[(a + b)[j].1 as int] == cell_text((a + b)[j].2)
    } by {
        if j < a.len() {
            assert((a + b)[j] == a[j]);
        } else {
            assert((a + b)[j] == b[j - a.len()]);
        }
    }
}

proof fn lemma_row_cells_agree(row: u32, t: BankTransactionDTO)
    ensures
        cells_agree(row_cells(row, t), row, export_record(t)),
        row_cells(row, t)[0] == (row, 0u16, CellView::Text(t.idt@)),
{
    let rec = export_record(t);
    let p1 = seq![
        (row, 0u16, CellView::Text(t.idt@)),
        (row, 1u16, CellView::Text(t.external_id@)),
        (row, 2u16, CellView::Number(t.ida as int)),
        (row, 3u16, CellView::Number(t.amount as int)),
        (row, 4u16, CellView::Number(t.currency_code as int)),
        (row, 5u16, CellView::Text(or_empty(t.description))),
    ];
    let pm: Seq<(u32, u16, CellView)> = match t.mcc {
        Some(m) => seq![(row, 6u16, CellView::Number(m as int))],
        None => Seq::empty(),
    };
    let ph: Seq<(u32, u16, CellView)> = match t.hold {
        Some(h) => seq![(row, 7u16, CellView::Bool(h))],
        None => Seq::empty(),
    };
    let p2 = seq![
        (row, 8u16, CellView::Text(rfc3339_text(t.transaction_time.secs, t.transaction_time.nanos))),
        (row, 9u16, CellView::Text(or_empty(t.receipt_id))),
    ];
    let pb: Seq<(u32, u16, CellView)> = match t.balance {
        Some(b) => seq![(row, 10u16, CellView::Number(b as int))],
        None => Seq::empty(),
    };
    let p3 = seq![
        (row, 11u16, CellView::Text(or_empty(t.masked_pan))),
        (row, 12u16, CellView::Text(or_empty(t.mcc_description))),
        (row, 13u16, CellView::Text(or_empty(t.currency))),
        (row, 14u16, CellView::Text(tag_names(t.tags@))),
    ];
    assert(rec.len() == 15);
    assert(cells_agree(p1, row, rec)) by {
        assert forall|j: int| 0 <= j < p1.len() implies {
            &&& (#[trigger] p1[j]).0 == row
            &&& (p1[j].1 as int) < rec.len()
            &&& rec[p1[j].1 as int] == cell_text(p1[j].2)
        } by {
            assert(p1[j].1 as int == j);
        }
    }
    assert(cells_agree(pm, row, rec));
    assert(cells_agree(ph, row, rec));
    assert(cells_agree(p2, row, rec)) by {
        assert forall|j: int| 0 <= j < p2.len() implies {
            &&& (#[trigger] p2[j]).0 == row
            &&& (p2[j].1 as int) < rec.len()
            &&& rec[p2[j].1 as int] == cell_text(p2[j].2)
        } by {
            assert(p2[j].1 as int == j + 8);
        }
    }
    assert(cells_agree(pb, row, rec));
    assert(cells_agree(p3, row, rec)) by {
        assert forall|j: int| 0 <= j < p3.len() implies {
            &&& (#[trigger] p3[j]).0 == row
            &&& (p3[j].1 as int) < rec.len()
            &&& rec[p3[j].1 as int] == cell_text(p3[j].2)
        } by {
            assert(p3[j].1 as int == j + 11);
        }
    }
    lemma_cells_agree_concat(p1, pm, row, rec);
    lemma_cells_agree_concat(p1 + pm, ph, row, rec);
    lemma_cells_agree_concat(p1 + pm + ph, p2, row, rec);
    lemma_cells_agree_concat(p1 + pm + ph + p2, pb, row, rec);
    lemma_cells_agree_concat(p1 + pm + ph + p2 + pb, p3, row, rec);
    assert(row_cells(row, t) =~= p1 + pm + ph + p2 + pb + p3);
}

proof fn lemma_data_cells_agree(data: Seq<BankTransactionDTO>)
    requires
        data.len() < u32::MAX,
    ensures
        forall|k: int|
            0 <= k < data_cells(data).len() ==> {
                let c = #[trigger] data_cells(data)[k];
                &&& 1 <= c.0 <= data.len()
                &&& (c.1 as int) < 15
                &&& export_record(data[c.0 - 1])[c.1 as int] == cell_text(c.2)
            },
        forall|i: int|
            #![trigger data[i]]
            0 <= i < data.len() ==> exists|k: int|
                0 <= k < data_cells(data).len() && #[trigger] data_cells(data)[k] == ((i + 1) as u32, 0u16, CellView::Text(
                    data[i].idt@,
                )),
    decreases data.len(),
{
    if data.len() > 0 {
        let n = data.len();
        let init = data.drop_last();
        lemma_data_cells_agree(init);
        lemma_row_cells_agree(n as u32, data.last());
        let a = data_cells(init);
        let r = row_cells(n as u32, data.last());
        assert(data_cells(data) == a + r);
        assert forall|k: int| 0 <= k < data_cells(data).len() implies {
            let c = #[trigger] data_cells(data)[k];
            &&& 1 <= c.0 <= data.len()
            &&& (c.1 as int) < 15
            &&& export_record(data[c.0 - 1])[c.1 as int] == cell_text(c.2)
        } by {
            if k < a.len() {
                assert(data_cells(data)[k] == a[k]);
                assert(init[a[k].0 - 1] == data[a[k].0 - 1]);
            } else {
                assert(data_cells(data)[k] == r[k - a.len()]);
                assert(r[k - a.len()].0 == n as u32);
                assert(data[n - 1] == data.last());
            }
        }
        assert forall|i: int| #![trigger data[i]] 0 <= i < data.len() implies exists|k: int|
            0 <= k < data_cells(data).len() && #[trigger] data_cells(data)[k] == ((i + 1) as u32, 0u16, CellView::Text(
                data[i].idt@,
            )) by {
            if i < n - 1 {
                assert(init[i] == data[i]);
                let k = choose|k: int|
                    0 <= k < a.len() && #[trigger] a[k] == ((i + 1) as u32, 0u16, CellView::Text(init[i].idt@));
                assert(data_cells(data)[k] == a[k]);
            } else {
                assert(data_cells(data)[a.len() as int] == r[0]);
            }
        }
    }
}

/// The spreadsheet and CSV exports of the same transactions agree: both
/// start with the same column names, the CSV export has one record per
/// transaction after its header, every spreadsheet cell of a data row holds
/// the text of the CSV field in the same row and column, and every
/// transaction's row starts with its id in both.
pub proof fn lemma_exports_agree(data: Seq<BankTransactionDTO>)
    requires
        data.len() < u32::MAX,
    ensures
        csv_records(data).len() == data.len() + 1,
        forall|c: int| 0 <= c < 15 ==> #[trigger] header_cells()[c] == (0u32, c as u16, CellView::Text(csv_records(data)[0][c])),
        forall|k: int|
            0 <= k < data_cells(data).len() ==> {
                let c = #[trigger] data_cells(data)[k];
                &&& 1 <= c.0 <= data.len()
                &&& (c.1 as int) < 15
                &&& csv_records(data)[c.0 as int][c.1 as int] == cell_text(c.2)
            },
        forall|i: int|
            #![trigger data[i]]
            0 <= i < data.len() ==> {
                &&& csv_records(data)[i + 1][0] == data[i].idt@
                &&& exists|k: int|
                    0 <= k < data_cells(data).len() && #[trigger] data_cells(data)[k] == ((i + 1) as u32, 0u16, CellView::Text(
                        data[i].idt@,
                    ))
            },
{
    lemma_data_cells_agree(data);
    let recs = csv_records(data);
    assert forall|i: int| 0 <= i < data.len() implies #[trigger] recs[i + 1] == export_record(data[i]) by {}
    assert forall|k: int| 0 <= k < data_cells(data).len() implies {
        let c = #[trigger] data_cells(data)[k];
        &&& 1 <= c.0 <= data.len()
        &&& (c.1 as int) < 15
        &&& csv_records(data)[c.0 as int][c.1 as int] == cell_text(c.2)
    } by {
        let c = data_cells(data)[k];
        assert(recs[(c.0 - 1) + 1] == export_record(data[c.0 - 1]));
    }
}

} // verus!
