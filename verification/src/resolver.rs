//! The input resolver: from what a region's source supplied to the initial
//! conditions of a run.

use vstd::prelude::*;
use crate::area::AreaCode;
use crate::conditions::{
    lemma_distinct_areas_counted, lemma_distinct_pair_is_mapped, lemma_listed_area_is_mapped,
    lemma_mapped_is_listed, pairs_map, InitialConditions, Pair,
};
use crate::failure::Failure;
use crate::region::{default_cases, spec_default_cases, Region};
use crate::table::{
    csv_rows, read_rows, record_row, row_views, split_rows, table_rows, RowView, TableRow,
};

verus! {

/// The count of a row: its own, or the default where it has none.
pub open spec fn row_cases(cases: Option<usize>) -> usize {
    match cases {
        Some(count) => count,
        None => spec_default_cases(),
    }
}

/// The rows of a table as areas with counts, each row that has no count with
/// the default.
pub open spec fn filled(rows: Seq<RowView>) -> Seq<Pair> {
    Seq::new(rows.len(), |i: int| (rows[i].0, row_cases(rows[i].1)))
}

/// True when no two rows name the same area.
pub open spec fn distinct_areas(rows: Seq<RowView>) -> bool {
    forall|i: int, j: int|
        0 <= i < j < rows.len() ==> (#[trigger] rows[i]).0 != (#[trigger] rows[j]).0
}

/// The initial conditions that the rows of a table give: each area with the
/// count of its row, or with the default where the row has none. A table
/// names an area once: where two rows name the same area the table is
/// malformed, whether or not their counts agree.
pub open spec fn rows_conditions(rows: Seq<RowView>) -> Resolved {
    if distinct_areas(rows) {
        Ok(pairs_map(filled(rows)))
    } else {
        Err(Failure::MalformedInputRow)
    }
}

/// The areas of an enumeration, each with the default count.
pub open spec fn enumerated(areas: Seq<Seq<u8>>) -> Seq<Pair> {
    Seq::new(areas.len(), |i: int| (areas[i], spec_default_cases()))
}

/// The initial conditions that an enumeration gives: every area that it
/// names, with the default count. An area that it names more than once is
/// there once.
pub open spec fn enumeration_conditions(areas: Seq<Seq<u8>>) -> Map<Seq<u8>, usize> {
    pairs_map(enumerated(areas))
}

/// The area codes of a list, each as its bytes.
pub open spec fn code_views(codes: Seq<AreaCode>) -> Seq<Seq<u8>> {
    Seq::new(codes.len(), |i: int| codes[i]@)
}

/// What resolving gives, as plain values: the mapping, or the failure.
pub type Resolved = Result<Map<Seq<u8>, usize>, Failure>;

/// The result of resolving as plain values.
pub open spec fn resolved_view(made: Result<InitialConditions, Failure>) -> Resolved {
    match made {
        Ok(conditions) => Ok(conditions@),
        Err(failure) => Err(failure),
    }
}

/// The initial conditions that the records of a table give, or the failure
/// of a malformed table: one with a record that gives no row, or with two
/// records that name the same area.
pub open spec fn records_conditions(table: Seq<Seq<Seq<u8>>>) -> Resolved {
    match table_rows(table) {
        Some(rows) => rows_conditions(rows),
        None => Err(Failure::MalformedInputRow),
    }
}

/// The initial conditions that the text of a table gives: those of its
/// records, or the failure of a text that cannot be split into records.
pub open spec fn table_conditions(bytes: Seq<u8>) -> Resolved {
    match csv_rows(bytes) {
        Some(table) => records_conditions(table),
        None => Err(Failure::MalformedInputRow),
    }
}

/// What was read from the source of a region.
#[derive(Debug)]
pub enum Supplied {
    /// The text of the bundled table.
    Table(Vec<u8>),
    /// The area codes that the national directory returned.
    Enumeration(Vec<AreaCode>),
    /// The table could not be opened, or the directory could not be reached.
    Unavailable,
}

/// The initial conditions of a region, from what its source supplied. A
/// region with a bundled table is resolved from the text of a table, the
/// whole country from an enumeration; anything else leaves the region without
/// its source.
pub open spec fn region_conditions(region: Region, supplied: Supplied) -> Resolved {
    match supplied {
        Supplied::Table(bytes) => if region.has_table() {
            table_conditions(bytes@)
        } else {
            Err(Failure::SourceUnavailable)
        },
        Supplied::Enumeration(codes) => if region.has_table() {
            Err(Failure::SourceUnavailable)
        } else {
            Ok(enumeration_conditions(code_views(codes@)))
        },
        Supplied::Unavailable => Err(Failure::SourceUnavailable),
    }
}

impl InitialConditions {
    /// The initial conditions that the rows of a table give. The first row
    /// that names an area again makes the table malformed.
    pub fn from_rows(rows: &Vec<TableRow>) -> (made: Result<InitialConditions, Failure>)
        ensures
            resolved_view(made) == rows_conditions(row_views(rows@)),
    {
        let ghost views = row_views(rows@);
        let ghost pairs = filled(views);
        let mut made = InitialConditions::new();
        let mut at: usize = 0;
        assert(pairs.take(0) =~= Seq::<Pair>::empty());
        while at < rows.len()
            invariant
                at <= rows@.len(),
                views == row_views(rows@),
                pairs == filled(views),
                made@ == pairs_map(pairs.take(at as int)),
                forall|i: int, j: int|
                    0 <= i < j < at ==> (#[trigger] views[i]).0 != (#[trigger] views[j]).0,
            decreases rows@.len() - at,
        {
            let cases = match rows[at].cases {
                Some(count) => count,
                None => default_cases(),
            };
            let ghost area = rows@[at as int].area@;
            let earlier = made.insert(rows[at].area.clone(), cases);
            if earlier.is_some() {
                proof {
                    let found = lemma_mapped_is_listed(pairs.take(at as int), area);
                    assert(views[found].0 == views[at as int].0);
                }
                return Err(Failure::MalformedInputRow);
            }
            proof {
                let longer = pairs.take(at + 1);
                assert(longer.drop_last() =~= pairs.take(at as int));
                assert(longer.last() == (area, cases));
                assert forall|i: int| 0 <= i < at implies (#[trigger] views[i]).0 != area by {
                    if views[i].0 == area {
                        lemma_listed_area_is_mapped(pairs.take(at as int), i);
                    }
                }
            }
            at = at + 1;
        }
        assert(pairs.take(at as int) =~= pairs);
        Ok(made)
    }

    /// The initial conditions that an enumeration of areas gives: every area
    /// with the default count. The directory is taken to name each area
    /// once; an area that it names again is there once all the same.
    pub fn from_enumeration(codes: &Vec<AreaCode>) -> (made: InitialConditions)
        ensures
            made@ == enumeration_conditions(code_views(codes@)),
    {
        let ghost pairs = enumerated(code_views(codes@));
        let mut made = InitialConditions::new();
        let mut at: usize = 0;
        assert(pairs.take(0) =~= Seq::<Pair>::empty());
        while at < codes.len()
            invariant
                at <= codes@.len(),
                pairs == enumerated(code_views(codes@)),
                made@ == pairs_map(pairs.take(at as int)),
                forall|area: Seq<u8>| #[trigger]
                    made@.contains_key(area) ==> made@[area] == spec_default_cases(),
            decreases codes@.len() - at,
        {
            let ghost before = made@;
            let earlier = made.insert(codes[at].clone(), default_cases());
            proof {
                let longer = pairs.take(at + 1);
                assert(longer.drop_last() =~= pairs.take(at as int));
                assert(longer.last() == (codes@[at as int]@, spec_default_cases()));
                if earlier is Some {
                    assert(before.insert(codes@[at as int]@, spec_default_cases()) =~= before);
                }
            }
            at = at + 1;
        }
        assert(pairs.take(at as int) =~= pairs);
        made
    }

    /// The initial conditions that the records of a table give, the record of
    /// column names first.
    pub fn from_records(table: &Vec<Vec<Vec<u8>>>) -> (made: Result<InitialConditions, Failure>)
        ensures
            resolved_view(made) == records_conditions(table.deep_view()),
    {
        match read_rows(table) {
            Ok(rows) => InitialConditions::from_rows(&rows),
            Err(failure) => Err(failure),
        }
    }

    /// The initial conditions that the text of a table gives.
    pub fn from_table(bytes: &[u8]) -> (made: Result<InitialConditions, Failure>)
        ensures
            resolved_view(made) == table_conditions(bytes@),
    {
        match split_rows(bytes) {
            Ok(table) => InitialConditions::from_records(&table),
            Err(_) => Err(Failure::MalformedInputRow),
        }
    }
}

impl Region {
    /// The initial conditions of the region, from what its source supplied.
    pub fn to_input(self, supplied: &Supplied) -> (made: Result<InitialConditions, Failure>)
        ensures
            resolved_view(made) == region_conditions(self, *supplied),
    {
        match supplied {
            Supplied::Table(bytes) => {
                if self.table_name().is_some() {
                    InitialConditions::from_table(bytes.as_slice())
                } else {
                    Err(Failure::SourceUnavailable)
                }
            },
            Supplied::Enumeration(codes) => {
                if self.table_name().is_some() {
                    Err(Failure::SourceUnavailable)
                } else {
                    Ok(InitialConditions::from_enumeration(codes))
                }
            },
            Supplied::Unavailable => Err(Failure::SourceUnavailable),
        }
    }
}

/// Where the rows of a table give initial conditions, every area of the
/// table is in them once: with the count of its row, or with the default
/// where the row has none, also when other rows give a count. The initial
/// conditions name no other area.
pub proof fn lemma_each_area_once(rows: Seq<RowView>)
    requires
        rows_conditions(rows) is Ok,
    ensures
        distinct_areas(rows),
        forall|i: int|
            0 <= i < rows.len() ==> rows_conditions(rows).unwrap().contains_key(
                (#[trigger] rows[i]).0,
            ) && rows_conditions(rows).unwrap()[rows[i].0] == row_cases(rows[i].1),
        forall|area: Seq<u8>| #[trigger]
            rows_conditions(rows).unwrap().contains_key(area) ==> exists|i: int|
                0 <= i < rows.len() && (#[trigger] rows[i]).0 == area,
        rows_conditions(rows).unwrap().dom().finite(),
        rows_conditions(rows).unwrap().dom().len() == rows.len(),
{
    let pairs = filled(rows);
    let made = rows_conditions(rows).unwrap();
    assert forall|i: int, j: int| 0 <= i < j < pairs.len() implies (#[trigger] pairs[i]).0 != (
    #[trigger] pairs[j]).0 by {
        assert(rows[i].0 != rows[j].0);
    }
    assert forall|i: int| 0 <= i < rows.len() implies made.contains_key((#[trigger] rows[i]).0)
        && made[rows[i].0] == row_cases(rows[i].1) by {
        lemma_distinct_pair_is_mapped(pairs, i);
    }
    assert forall|area: Seq<u8>| #[trigger] made.contains_key(area) implies exists|i: int|
        0 <= i < rows.len() && (#[trigger] rows[i]).0 == area by {
        let found = lemma_mapped_is_listed(pairs, area);
        assert(rows[found].0 == area);
    }
    lemma_distinct_areas_counted(pairs);
}

/// Two rows that name the same area make the table malformed, whatever
/// their counts are and whatever the other rows hold.
pub proof fn lemma_repeated_area_is_refused(rows: Seq<RowView>, first: int, second: int)
    requires
        0 <= first < second < rows.len(),
        rows[first].0 == rows[second].0,
    ensures
        rows_conditions(rows) == Err::<Map<Seq<u8>, usize>, Failure>(Failure::MalformedInputRow),
{
}

/// Where the records of a table give initial conditions, every record has
/// its area in them once: with the count that the record gives, and with the
/// default where it gives none, also when other records of the table give a
/// count.
pub proof fn lemma_each_record_once(table: Seq<Seq<Seq<u8>>>)
    requires
        records_conditions(table) is Ok,
    ensures
        forall|i: int|
            1 <= i < table.len() ==> {
                let row = (#[trigger] record_row(table[0], table[i])).unwrap();
                let made = records_conditions(table).unwrap();
                made.contains_key(row.0) && made[row.0] == row_cases(row.1)
            },
        forall|i: int, j: int|
            1 <= i < j < table.len() ==> (#[trigger] record_row(table[0], table[i])).unwrap().0 != (
            #[trigger] record_row(table[0], table[j])).unwrap().0,
        table.len() > 0 ==> records_conditions(table).unwrap().dom().len() == table.len() - 1,
{
    let rows = table_rows(table).unwrap();
    if table.len() > 0 {
        lemma_each_area_once(rows);
        assert forall|i: int| 1 <= i < table.len() implies {
            let row = (#[trigger] record_row(table[0], table[i])).unwrap();
            let made = records_conditions(table).unwrap();
            made.contains_key(row.0) && made[row.0] == row_cases(row.1)
        } by {
            assert(rows[i - 1] == record_row(table[0], table[i]).unwrap());
        }
        assert forall|i: int, j: int| 1 <= i < j < table.len() implies (#[trigger] record_row(
            table[0],
            table[i],
        )).unwrap().0 != (#[trigger] record_row(table[0], table[j])).unwrap().0 by {
            assert(rows[i - 1] == record_row(table[0], table[i]).unwrap());
            assert(rows[j - 1] == record_row(table[0], table[j]).unwrap());
        }
    }
}

/// Two records that give rows for the same area make the table malformed.
pub proof fn lemma_repeated_record_is_refused(table: Seq<Seq<Seq<u8>>>, first: int, second: int)
    requires
        table_rows(table) is Some,
        1 <= first < second < table.len(),
        record_row(table[0], table[first]).unwrap().0 == record_row(
            table[0],
            table[second],
        ).unwrap().0,
    ensures
        records_conditions(table) == Err::<Map<Seq<u8>, usize>, Failure>(
            Failure::MalformedInputRow,
        ),
{
    let rows = table_rows(table).unwrap();
    assert(rows[first - 1] == record_row(table[0], table[first]).unwrap());
    assert(rows[second - 1] == record_row(table[0], table[second]).unwrap());
    lemma_repeated_area_is_refused(rows, first - 1, second - 1);
}

/// Every area of an enumeration is in the initial conditions with the
/// default count, and the initial conditions name no other area.
pub proof fn lemma_enumerated_have_default(areas: Seq<Seq<u8>>)
    ensures
        forall|i: int|
            0 <= i < areas.len() ==> enumeration_conditions(areas).contains_key(#[trigger] areas[i])
                && enumeration_conditions(areas)[areas[i]] == spec_default_cases(),
        forall|area: Seq<u8>| #[trigger]
            enumeration_conditions(areas).contains_key(area) ==> exists|i: int|
                0 <= i < areas.len() && #[trigger] areas[i] == area,
{
    let pairs = enumerated(areas);
    assert forall|i: int| 0 <= i < areas.len() implies enumeration_conditions(areas).contains_key(
        #[trigger] areas[i],
    ) && enumeration_conditions(areas)[areas[i]] == spec_default_cases() by {
        lemma_listed_area_is_mapped(pairs, i);
        let last = lemma_mapped_is_listed(pairs, areas[i]);
    }
    assert forall|area: Seq<u8>| #[trigger]
        enumeration_conditions(areas).contains_key(area) implies exists|i: int|
        0 <= i < areas.len() && #[trigger] areas[i] == area by {
        let found = lemma_mapped_is_listed(pairs, area);
        assert(areas[found] == area);
    }
}

} // verus!
