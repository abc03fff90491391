//! Bundled tables: comma-separated text whose first record names the columns
//! and whose other records give one area each.

use vstd::prelude::*;
use vstd::utf8::*;
use crate::area::{is_area_code, standing, AreaCode, Standing};
use crate::count::{count_value, parse_count};
use crate::failure::Failure;

verus! {

/// `csv::Error`, the error of the reader. It is carried to where it becomes
/// a failure of the table; nothing is known of what it holds.
#[verifier::external_type_specification]
#[verifier::external_body]
pub struct ExCsvError(csv::Error);

/// The records that the `csv` crate reads from a text when records of any
/// length are allowed and every other setting is the default: the record of
/// column names first, each record as the bytes of its fields; nothing where
/// the reader reports an error.
pub uninterp spec fn csv_rows(bytes: Seq<u8>) -> Option<Seq<Seq<Seq<u8>>>>;

/// `csv::ReaderBuilder::new` with `flexible(true)` and `from_reader`, then
/// `headers` and `records` to the end of the text: the records that were
/// read, or the first error of the reader.
#[verifier::external_body]
pub(crate) fn split_rows(bytes: &[u8]) -> (rows: Result<Vec<Vec<Vec<u8>>>, csv::Error>)
    ensures
        match rows {
            Ok(table) => csv_rows(bytes@) == Some(table.deep_view()),
            Err(_) => csv_rows(bytes@) is None,
        },
{
    let mut reader = csv::ReaderBuilder::new().flexible(true).from_reader(bytes);
    let mut rows: Vec<Vec<Vec<u8>>> = Vec::new();
    rows.push(reader.headers()?.iter().map(|field| field.as_bytes().to_vec()).collect());
    for record in reader.records() {
        rows.push(record?.iter().map(|field| field.as_bytes().to_vec()).collect());
    }
    Ok(rows)
}

/// The name of the column that holds the area codes.
pub open spec fn area_column() -> Seq<u8> {
    encode_utf8("MSOA11CD"@)
}

/// The name of the column that holds the case counts; some tables lack it.
pub open spec fn cases_column() -> Seq<u8> {
    encode_utf8("cases"@)
}

/// The names of the two columns, byte by byte.
pub proof fn lemma_column_names()
    ensures
        area_column() == seq![0x4du8, 0x53u8, 0x4fu8, 0x41u8, 0x31u8, 0x31u8, 0x43u8, 0x44u8],
        cases_column() == seq![0x63u8, 0x61u8, 0x73u8, 0x65u8, 0x73u8],
{
    reveal_strlit("MSOA11CD");
    reveal_strlit("cases");
    is_ascii_chars_encode_utf8("MSOA11CD"@);
    is_ascii_chars_encode_utf8("cases"@);
    assert(area_column() =~= seq![
        0x4du8,
        0x53u8,
        0x4fu8,
        0x41u8,
        0x31u8,
        0x31u8,
        0x43u8,
        0x44u8,
    ]);
    assert(cases_column() =~= seq![0x63u8, 0x61u8, 0x73u8, 0x65u8, 0x73u8]);
}

/// Where a column stands among the names of a table.
#[derive(Clone, Copy, Debug, PartialEq, Eq, Structural)]
pub enum Column {
    /// No column has the name.
    Absent,
    /// Exactly one column has the name, at this place.
    At(usize),
    /// More than one column has the name.
    Repeated,
}

/// True when the column at a place has the name.
pub open spec fn names_at(header: Seq<Seq<u8>>, name: Seq<u8>, at: int) -> bool {
    0 <= at < header.len() && header[at] == name
}

/// Where the column of a name stands among the names of a table.
pub open spec fn column_named(header: Seq<Seq<u8>>, name: Seq<u8>) -> Column {
    if !(exists|at: int| names_at(header, name, at)) {
        Column::Absent
    } else {
        let first = choose|at: int| names_at(header, name, at);
        if forall|other: int| names_at(header, name, other) ==> other == first {
            Column::At(first as usize)
        } else {
            Column::Repeated
        }
    }
}

/// Finds the column of a name among the names of a table.
pub fn find_column(header: &Vec<Vec<u8>>, name: &[u8]) -> (found: Column)
    ensures
        found == column_named(header.deep_view(), name@),
{
    let ghost names = header.deep_view();
    let mut found = Column::Absent;
    let ghost mut twice: (int, int) = (0, 0);
    let mut at: usize = 0;
    while at < header.len()
        invariant
            at <= header@.len(),
            names == header.deep_view(),
            found is Absent ==> forall|j: int| 0 <= j < at ==> !names_at(names, name@, j),
            found matches Column::At(k) ==> k < at && names_at(names, name@, k as int) && forall|
                j: int,
            | 0 <= j < at && names_at(names, name@, j) ==> j == k,
            found is Repeated ==> twice.0 != twice.1 && names_at(names, name@, twice.0)
                && names_at(names, name@, twice.1),
        decreases header@.len() - at,
    {
        assert(names[at as int] == header@[at as int]@);
        if standing(header[at].as_slice(), name) == Standing::Same {
            match found {
                Column::Absent => {
                    found = Column::At(at);
                },
                Column::At(k) => {
                    proof {
                        twice = (k as int, at as int);
                    }
                    found = Column::Repeated;
                },
                Column::Repeated => {},
            }
        }
        at = at + 1;
    }
    found
}

/// One record of a table, read: the area and, where the table has the
/// column, its case count.
#[derive(Debug)]
pub struct TableRow {
    pub area: AreaCode,
    pub cases: Option<usize>,
}

/// A row as plain values: the bytes of the area code, and the case count.
pub type RowView = (Seq<u8>, Option<usize>);

impl View for TableRow {
    type V = RowView;

    open spec fn view(&self) -> RowView {
        (self.area@, self.cases)
    }
}

/// The rows of a list, each as plain values.
pub open spec fn row_views(rows: Seq<TableRow>) -> Seq<RowView> {
    Seq::new(rows.len(), |i: int| rows[i]@)
}

/// True when a record gives no count in the cases column at the given place:
/// where the record ends before that column, or where its field there is
/// empty. Such a record is a row without a count; it is not malformed.
pub open spec fn count_is_missing(place: usize, record: Seq<Seq<u8>>) -> bool {
    place >= record.len() || record[place as int].len() == 0
}

/// The row that a record gives, with the area column and the cases column
/// where they were found. A row has no count where the table has no cases
/// column, and where the record gives none in it: where it ends before the
/// column or has an empty field there. A field that is not empty and is no
/// count gives no row. Nor do these: an area column that is missing or
/// repeated, a cases column that is repeated, a record that ends before the
/// area column, an area that is no area code.
pub open spec fn row_of(areas: Column, counts: Column, record: Seq<Seq<u8>>) -> Option<RowView> {
    match areas {
        Column::At(a) => if a < record.len() && is_area_code(record[a as int]) {
            match counts {
                Column::Absent => Some((record[a as int], None)),
                Column::At(c) => if count_is_missing(c, record) {
                    Some((record[a as int], None))
                } else if count_value(record[c as int]) is Some {
                    Some((record[a as int], count_value(record[c as int])))
                } else {
                    None
                },
                Column::Repeated => None,
            }
        } else {
            None
        },
        _ => None,
    }
}

/// Reads one record of a table.
pub fn read_row(areas: Column, counts: Column, record: &Vec<Vec<u8>>) -> (row: Option<TableRow>)
    ensures
        match row {
            Some(read) => row_of(areas, counts, record.deep_view()) == Some(read@),
            None => row_of(areas, counts, record.deep_view()) is None,
        },
{
    let ghost fields = record.deep_view();
    let area = match areas {
        Column::At(a) => {
            if a >= record.len() {
                return None;
            }
            assert(fields[a as int] == record@[a as int]@);
            match AreaCode::parse(record[a].as_slice()) {
                Some(area) => area,
                None => {
                    return None;
                },
            }
        },
        _ => {
            return None;
        },
    };
    match counts {
        Column::Absent => Some(TableRow { area, cases: None }),
        Column::At(c) => {
            if c >= record.len() {
                return Some(TableRow { area, cases: None });
            }
            assert(fields[c as int] == record@[c as int]@);
            if record[c].len() == 0 {
                return Some(TableRow { area, cases: None });
            }
            match parse_count(record[c].as_slice()) {
                Some(cases) => Some(TableRow { area, cases: Some(cases) }),
                None => None,
            }
        },
        Column::Repeated => None,
    }
}

/// The row that a record of a table gives, read with the columns that the
/// record of names has. A record with more fields than the table has names
/// gives no row; a record with fewer is read as far as it goes.
pub open spec fn record_row(names: Seq<Seq<u8>>, record: Seq<Seq<u8>>) -> Option<RowView> {
    if record.len() > names.len() {
        None
    } else {
        row_of(column_named(names, area_column()), column_named(names, cases_column()), record)
    }
}

/// The rows that a table gives: the records after the first, each read with
/// the columns that the first record names. A table without any record gives
/// no rows; a table with a record that gives no row gives nothing.
pub open spec fn table_rows(table: Seq<Seq<Seq<u8>>>) -> Option<Seq<RowView>> {
    if table.len() == 0 {
        Some(Seq::empty())
    } else if forall|i: int| 1 <= i < table.len() ==> (#[trigger] record_row(table[0], table[i]))
        is Some {
        Some(Seq::new((table.len() - 1) as nat, |i: int| record_row(table[0], table[i + 1]).unwrap()))
    } else {
        None
    }
}

/// Reads the rows of a table from its records. The first record that gives
/// no row makes the table malformed.
pub fn read_rows(table: &Vec<Vec<Vec<u8>>>) -> (rows: Result<Vec<TableRow>, Failure>)
    ensures
        match rows {
            Ok(read) => table_rows(table.deep_view()) == Some(row_views(read@)),
            Err(failure) => failure == Failure::MalformedInputRow && table_rows(table.deep_view())
                is None,
        },
{
    let ghost records = table.deep_view();
    let mut rows: Vec<TableRow> = Vec::new();
    if table.len() == 0 {
        assert(row_views(rows@) =~= Seq::<RowView>::empty());
        return Ok(rows);
    }
    assert(records[0] == table@[0].deep_view());
    let width = table[0].len();
    let areas = find_column(&table[0], "MSOA11CD".as_bytes());
    let counts = find_column(&table[0], "cases".as_bytes());
    let mut at: usize = 1;
    while at < table.len()
        invariant
            1 <= at <= table@.len(),
            records == table.deep_view(),
            width == records[0].len(),
            areas == column_named(records[0], area_column()),
            counts == column_named(records[0], cases_column()),
            rows@.len() == at - 1,
            forall|i: int|
                1 <= i < at ==> record_row(records[0], #[trigger] records[i]) == Some(
                    rows@[i - 1]@,
                ),
        decreases table@.len() - at,
    {
        assert(records[at as int] == table@[at as int].deep_view());
        if table[at].len() > width {
            return Err(Failure::MalformedInputRow);
        }
        match read_row(areas, counts, &table[at]) {
            Some(row) => {
                rows.push(row);
            },
            None => {
                return Err(Failure::MalformedInputRow);
            },
        }
        at = at + 1;
    }
    assert(row_views(rows@) =~= table_rows(records).unwrap());
    Ok(rows)
}

} // verus!
