//! Timing records and their loading from a delimited table.

use vstd::prelude::*;
use crate::text::{lemma_ns_of_text_nonneg, ns_of_text, parse_ns, same_text};

verus! {

/// One observed timing sample.
pub struct Record {
    /// The sleep or wait strategy that was measured.
    pub sleep_type: String,
    /// The requested duration in nanoseconds.
    pub target_ns: i64,
    /// The observed duration in nanoseconds.
    pub actual_ns: i64,
}

/// What a record holds, as plain values.
pub struct RecordView {
    pub sleep_type: Seq<char>,
    pub target_ns: i64,
    pub actual_ns: i64,
}

impl View for Record {
    type V = RecordView;

    open spec fn view(&self) -> RecordView {
        RecordView { sleep_type: self.sleep_type@, target_ns: self.target_ns, actual_ns: self.actual_ns }
    }
}

impl RecordView {
    /// Both durations are non-negative.
    pub open spec fn wf(self) -> bool {
        0 <= self.target_ns && 0 <= self.actual_ns
    }
}

impl Record {
    /// Builds a record from its three fields.
    pub fn new(sleep_type: String, target_ns: i64, actual_ns: i64) -> (r: Record)
        ensures
            r@ == (RecordView { sleep_type: sleep_type@, target_ns, actual_ns }),
    {
        Record { sleep_type, target_ns, actual_ns }
    }

    /// Whether both durations are non-negative.
    pub fn is_valid(&self) -> (r: bool)
        ensures
            r == self@.wf(),
    {
        0 <= self.target_ns && 0 <= self.actual_ns
    }

    /// A copy with the same contents.
    pub fn duplicate(&self) -> (r: Record)
        ensures
            r@ == self@,
    {
        Record { sleep_type: self.sleep_type.clone(), target_ns: self.target_ns, actual_ns: self.actual_ns }
    }
}

/// The views of a sequence of records.
pub open spec fn views(s: Seq<Record>) -> Seq<RecordView> {
    s.map_values(|r: Record| r@)
}

/// Every record of the sequence has non-negative durations.
pub open spec fn all_wf(s: Seq<RecordView>) -> bool {
    forall|i: int| 0 <= i < s.len() ==> (#[trigger] s[i]).wf()
}

/// Why a table could not be read as records.
#[derive(Debug, Clone, Copy, PartialEq, Eq, Structural)]
pub enum SchemaError {
    /// The text is not a well-formed delimited table (rows of unequal
    /// length, invalid UTF-8).
    Malformed,
    /// The first row does not name exactly the three record fields.
    BadHeader,
    /// The row at this index (the header is row 0) has a field that is not
    /// a non-negative decimal integer, or not three fields.
    BadRow { row: usize },
}

/// Name of the column that holds the mechanism.
pub open spec fn mechanism_column() -> Seq<char> {
    "sleep_type"@
}

/// Name of the column that holds the requested duration.
pub open spec fn target_column() -> Seq<char> {
    "target_ns"@
}

/// Name of the column that holds the observed duration.
pub open spec fn actual_column() -> Seq<char> {
    "actual_ns"@
}

/// The header names exactly the three record fields, in any order.
pub open spec fn header_ok(h: Seq<Seq<char>>) -> bool {
    &&& h.len() == 3
    &&& h.contains(mechanism_column())
    &&& h.contains(target_column())
    &&& h.contains(actual_column())
}

/// Index of the column of a three-column header that holds `name`.
pub open spec fn column_of(h: Seq<Seq<char>>, name: Seq<char>) -> int {
    if h[0] == name {
        0
    } else if h[1] == name {
        1
    } else {
        2
    }
}

/// The record that a data row holds under header `h`, if it is one.
pub open spec fn record_of_row(h: Seq<Seq<char>>, row: Seq<Seq<char>>) -> Option<RecordView> {
    if row.len() != 3 {
        None
    } else {
        let t = ns_of_text(row[column_of(h, target_column())]);
        let a = ns_of_text(row[column_of(h, actual_column())]);
        if t is Some && a is Some {
            Some(
                RecordView {
                    sleep_type: row[column_of(h, mechanism_column())],
                    target_ns: t->0,
                    actual_ns: a->0,
                },
            )
        } else {
            None
        }
    }
}

/// A table of text fields as plain values.
pub open spec fn table_view(rows: Seq<Vec<String>>) -> Seq<Seq<Seq<char>>> {
    rows.map_values(|r: Vec<String>| r@.map_values(|f: String| f@))
}

/// `r` is the outcome of binding table `t` (header first) to records.
pub open spec fn bound(t: Seq<Seq<Seq<char>>>, r: Result<Vec<Record>, SchemaError>) -> bool {
    if t.len() == 0 {
        r is Ok && r->Ok_0@.len() == 0
    } else if !header_ok(t[0]) {
        r == Err::<Vec<Record>, SchemaError>(SchemaError::BadHeader)
    } else if forall|i: int| 1 <= i < t.len() ==> (#[trigger] record_of_row(t[0], t[i])) is Some {
        &&& r is Ok
        &&& r->Ok_0@.len() == t.len() - 1
        &&& forall|i: int|
            0 <= i < r->Ok_0@.len() ==> Some((#[trigger] r->Ok_0@[i])@) == record_of_row(t[0], t[i + 1])
    } else {
        exists|k: int|
            #![trigger t[k]]
            {
                &&& 1 <= k < t.len()
                &&& record_of_row(t[0], t[k]) is None
                &&& forall|j: int| 1 <= j < k ==> (#[trigger] record_of_row(t[0], t[j])) is Some
                &&& r == Err::<Vec<Record>, SchemaError>(SchemaError::BadRow { row: k as usize })
            }
    }
}

/// Index of the field of `row` that equals `name`, if any.
fn find_column(row: &Vec<String>, name: &str) -> (r: Option<usize>)
    ensures
        r is Some <==> row@.map_values(|f: String| f@).contains(name@),
        r matches Some(j) ==> j < row@.len() && row@[j as int]@ == name@
            && forall|q: int| 0 <= q < j ==> row@[q]@ != name@,
{
    let ghost names = row@.map_values(|f: String| f@);
    let mut j: usize = 0;
    while j < row.len()
        invariant
            j <= row@.len(),
            names == row@.map_values(|f: String| f@),
            forall|q: int| 0 <= q < j ==> row@[q]@ != name@,
        decreases row@.len() - j,
    {
        if same_text(row[j].as_str(), name) {
            assert(names[j as int] == name@);
            return Some(j);
        }
        j = j + 1;
    }
    proof {
        if names.contains(name@) {
            let q = choose|q: int| 0 <= q < names.len() && names[q] == name@;
            assert(row@[q]@ == name@);
        }
    }
    None
}

/// Binds the rows of a table, header first, to records. An empty table
/// holds no records; otherwise the header must name the three fields and
/// each later row must hold a record.
pub fn records_from_rows(rows: &Vec<Vec<String>>) -> (r: Result<Vec<Record>, SchemaError>)
    ensures
        bound(table_view(rows@), r),
        r matches Ok(v) ==> all_wf(views(v@)),
{
    let ghost t = table_view(rows@);
    let mut out: Vec<Record> = Vec::new();
    if rows.len() == 0 {
        return Ok(out);
    }
    let header = &rows[0];
    assert(t[0] == header@.map_values(|f: String| f@));
    let cm = find_column(header, "sleep_type");
    let ct = find_column(header, "target_ns");
    let ca = find_column(header, "actual_ns");
    if header.len() != 3 || cm.is_none() || ct.is_none() || ca.is_none() {
        return Err(SchemaError::BadHeader);
    }
    let cm = cm.unwrap();
    let ct = ct.unwrap();
    let ca = ca.unwrap();
    assert(cm as int == column_of(t[0], mechanism_column()));
    assert(ct as int == column_of(t[0], target_column()));
    assert(ca as int == column_of(t[0], actual_column()));
    let mut i: usize = 1;
    while i < rows.len()
        invariant
            1 <= i <= rows@.len(),
            t == table_view(rows@),
            header_ok(t[0]),
            cm as int == column_of(t[0], mechanism_column()),
            ct as int == column_of(t[0], target_column()),
            ca as int == column_of(t[0], actual_column()),
            cm < 3,
            ct < 3,
            ca < 3,
            out@.len() == i - 1,
            forall|j: int| 1 <= j < i ==> (#[trigger] record_of_row(t[0], t[j])) is Some,
            forall|q: int|
                0 <= q < out@.len() ==> Some((#[trigger] out@[q])@) == record_of_row(t[0], t[q + 1]),
        decreases rows@.len() - i,
    {
        let row = &rows[i];
        assert(t[i as int] == row@.map_values(|f: String| f@));
        if row.len() != 3 {
            proof {
                assert(record_of_row(t[0], t[i as int]) is None);
            }
            return Err(SchemaError::BadRow { row: i });
        }
        let target = parse_ns(row[ct].as_str());
        let actual = parse_ns(row[ca].as_str());
        match (target, actual) {
            (Some(target_ns), Some(actual_ns)) => {
                let rec = Record { sleep_type: row[cm].clone(), target_ns, actual_ns };
                assert(Some(rec@) == record_of_row(t[0], t[i as int]));
                out.push(rec);
            },
            _ => {
                assert(record_of_row(t[0], t[i as int]) is None);
                return Err(SchemaError::BadRow { row: i });
            },
        }
        i = i + 1;
    }
    assert forall|q: int| 0 <= q < views(out@).len() implies (#[trigger] views(out@)[q]).wf() by {
        lemma_record_of_row_wf(t[0], t[q + 1]);
    }
    Ok(out)
}

/// A record read from a row has non-negative durations.
pub proof fn lemma_record_of_row_wf(h: Seq<Seq<char>>, row: Seq<Seq<char>>)
    ensures
        record_of_row(h, row) matches Some(r) ==> r.wf(),
{
    if row.len() == 3 {
        lemma_ns_of_text_nonneg(row[column_of(h, target_column())]);
        lemma_ns_of_text_nonneg(row[column_of(h, actual_column())]);
    }
}

#[verifier::external_type_specification]
#[verifier::external_body]
pub struct ExCsvError(csv::Error);

/// The rows of text fields that the csv crate reads from `text`, every row
/// taken as data, or `None` where it reports an error.
pub uninterp spec fn csv_table(text: Seq<char>) -> Option<Seq<Seq<Seq<char>>>>;

/// Relies on csv::ReaderBuilder (comma-delimited, no header handling) and
/// csv::StringRecordsIter: the rows it reads, each as its text fields, or
/// the first error it reports.
#[verifier::external_body]
fn read_table(text: &str) -> (r: Result<Vec<Vec<String>>, csv::Error>)
    ensures
        match csv_table(text@) {
            Some(t) => r is Ok && table_view(r->Ok_0@) == t,
            None => r is Err,
        },
{
    csv::ReaderBuilder::new()
        .has_headers(false)
        .from_reader(text.as_bytes())
        .records()
        .map(|row| row.map(|fields| fields.iter().map(String::from).collect()))
        .collect()
}

/// The outcome of loading the table written in `text`.
pub open spec fn loaded(text: Seq<char>, r: Result<Vec<Record>, SchemaError>) -> bool {
    match csv_table(text) {
        None => r == Err::<Vec<Record>, SchemaError>(SchemaError::Malformed),
        Some(t) => bound(t, r),
    }
}

/// Reads the records of a delimited table whose first row names the fields
/// `sleep_type`, `target_ns` and `actual_ns`. A malformed row fails the
/// whole load.
pub fn load_records(text: &str) -> (r: Result<Vec<Record>, SchemaError>)
    ensures
        loaded(text@, r),
        r matches Ok(v) ==> all_wf(views(v@)),
{
    match read_table(text) {
        Ok(rows) => records_from_rows(&rows),
        Err(_) => Err(SchemaError::Malformed),
    }
}

} // verus!
