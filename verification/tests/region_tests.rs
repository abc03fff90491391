use ramp_pipeline::region::{default_cases, Region, Source};

#[test]
fn default_cases_is_five() {
    assert_eq!(default_cases(), 5);
}

#[test]
fn region_names_are_the_variant_names() {
    assert_eq!(Region::WestYorkshireSmall.name(), "WestYorkshireSmall");
    assert_eq!(Region::WestYorkshireLarge.name(), "WestYorkshireLarge");
    assert_eq!(Region::Devon.name(), "Devon");
    assert_eq!(Region::TwoCounties.name(), "TwoCounties");
    assert_eq!(Region::National.name(), "National");
}

#[test]
fn region_names_match_debug_text() {
    let all = [
        Region::WestYorkshireSmall,
        Region::WestYorkshireLarge,
        Region::Devon,
        Region::TwoCounties,
        Region::National,
    ];
    for region in all {
        assert_eq!(region.name(), format!("{:?}", region));
    }
}

#[test]
fn bundled_regions_have_their_table() {
    assert_eq!(Region::WestYorkshireSmall.table_name(), Some("Input_Test_3.csv"));
    assert_eq!(Region::WestYorkshireLarge.table_name(), Some("Input_WestYorkshire.csv"));
    assert_eq!(Region::Devon.table_name(), Some("Input_Devon.csv"));
    assert_eq!(Region::TwoCounties.table_name(), Some("Input_Test_accross.csv"));
}

#[test]
fn whole_country_has_no_table() {
    assert_eq!(Region::National.table_name(), None);
}

#[test]
fn source_of_bundled_region_is_its_table_path() {
    match Region::Devon.source() {
        Source::Table { path } => assert_eq!(path, "model_parameters/Input_Devon.csv"),
        Source::Enumeration => panic!("a bundled region reads a table"),
    }
    match Region::WestYorkshireSmall.source() {
        Source::Table { path } => assert_eq!(path, "model_parameters/Input_Test_3.csv"),
        Source::Enumeration => panic!("a bundled region reads a table"),
    }
    match Region::WestYorkshireLarge.source() {
        Source::Table { path } => assert_eq!(path, "model_parameters/Input_WestYorkshire.csv"),
        Source::Enumeration => panic!("a bundled region reads a table"),
    }
    match Region::TwoCounties.source() {
        Source::Table { path } => assert_eq!(path, "model_parameters/Input_Test_accross.csv"),
        Source::Enumeration => panic!("a bundled region reads a table"),
    }
}

#[test]
fn source_of_whole_country_is_the_enumeration() {
    assert!(matches!(Region::National.source(), Source::Enumeration));
}

#[test]
fn names_of_different_regions_differ() {
    let all = [
        Region::WestYorkshireSmall,
        Region::WestYorkshireLarge,
        Region::Devon,
        Region::TwoCounties,
        Region::National,
    ];
    for (i, a) in all.iter().enumerate() {
        for (j, b) in all.iter().enumerate() {
            assert_eq!(a.name() == b.name(), i == j);
        }
    }
}
