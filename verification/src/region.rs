//! The closed catalog of geographic scopes and the input source of each.

use vstd::prelude::*;
use vstd::string::StringExecFns;

verus! {

/// A geographic scope that the pipeline can be run for.
#[derive(Clone, Copy, Debug, PartialEq, Eq, Structural)]
pub enum Region {
    WestYorkshireSmall,
    WestYorkshireLarge,
    Devon,
    TwoCounties,
    National,
}

/// Where the initial conditions of a region come from.
#[derive(Debug)]
pub enum Source {
    /// A bundled table of per-area case counts, at this path.
    Table { path: String },
    /// The national directory of areas, which is asked for every area code.
    Enumeration,
}

/// The case count given to an area for which the source names none.
pub open spec fn spec_default_cases() -> usize {
    5
}

/// The case count given to an area for which the source names none.
#[verifier::when_used_as_spec(spec_default_cases)]
pub fn default_cases() -> (cases: usize)
    ensures
        cases == spec_default_cases(),
{
    5
}

impl Region {
    /// The name under which the region's artifacts are kept.
    pub open spec fn spec_name(self) -> Seq<char> {
        match self {
            Region::WestYorkshireSmall => "WestYorkshireSmall"@,
            Region::WestYorkshireLarge => "WestYorkshireLarge"@,
            Region::Devon => "Devon"@,
            Region::TwoCounties => "TwoCounties"@,
            Region::National => "National"@,
        }
    }

    /// The file name of the region's bundled table; the whole country has none.
    pub open spec fn spec_table_name(self) -> Option<Seq<char>> {
        match self {
            Region::WestYorkshireSmall => Some("Input_Test_3.csv"@),
            Region::WestYorkshireLarge => Some("Input_WestYorkshire.csv"@),
            Region::Devon => Some("Input_Devon.csv"@),
            Region::TwoCounties => Some("Input_Test_accross.csv"@),
            Region::National => None,
        }
    }

    /// The path of the region's bundled table, below the directory of model
    /// parameters.
    pub open spec fn spec_table_path(self) -> Option<Seq<char>> {
        match self.spec_table_name() {
            Some(name) => Some("model_parameters/"@ + name),
            None => None,
        }
    }

    /// True for the regions that read a bundled table.
    pub open spec fn has_table(self) -> bool {
        self != Region::National
    }

    /// The name under which the region's artifacts are kept.
    pub fn name(self) -> (name: &'static str)
        ensures
            name@ == self.spec_name(),
    {
        match self {
            Region::WestYorkshireSmall => "WestYorkshireSmall",
            Region::WestYorkshireLarge => "WestYorkshireLarge",
            Region::Devon => "Devon",
            Region::TwoCounties => "TwoCounties",
            Region::National => "National",
        }
    }

    /// The file name of the region's bundled table, if it has one.
    pub fn table_name(self) -> (name: Option<&'static str>)
        ensures
            name is Some <==> self.has_table(),
            match name {
                Some(text) => self.spec_table_name() == Some(text@),
                None => self.spec_table_name() is None,
            },
    {
        match self {
            Region::WestYorkshireSmall => Some("Input_Test_3.csv"),
            Region::WestYorkshireLarge => Some("Input_WestYorkshire.csv"),
            Region::Devon => Some("Input_Devon.csv"),
            Region::TwoCounties => Some("Input_Test_accross.csv"),
            Region::National => None,
        }
    }

    /// The source that the region's initial conditions are read from: a
    /// bundled table for every region but the whole country, which is
    /// enumerated.
    pub fn source(self) -> (source: Source)
        ensures
            match source {
                Source::Table { path } => self.spec_table_path() == Some(path@),
                Source::Enumeration => self == Region::National,
            },
    {
        match self.table_name() {
            Some(name) => Source::Table { path: String::from_str("model_parameters/").concat(name) },
            None => Source::Enumeration,
        }
    }
}

/// No two regions keep their artifacts under the same name.
pub proof fn lemma_name_tells_region(a: Region, b: Region)
    requires
        a.spec_name() == b.spec_name(),
    ensures
        a == b,
{
    reveal_strlit("WestYorkshireSmall");
    reveal_strlit("WestYorkshireLarge");
    reveal_strlit("Devon");
    reveal_strlit("TwoCounties");
    reveal_strlit("National");
    assert("WestYorkshireSmall"@.len() == 18);
    assert("WestYorkshireLarge"@.len() == 18);
    assert("Devon"@.len() == 5);
    assert("TwoCounties"@.len() == 11);
    assert("National"@.len() == 8);
    assert("WestYorkshireSmall"@[13] == 'S');
    assert("WestYorkshireLarge"@[13] == 'L');
}

} // verus!
