use ramp_pipeline::area::AreaCode;
use ramp_pipeline::conditions::InitialConditions;

fn code(text: &str) -> AreaCode {
    AreaCode::from_text(text)
}

#[test]
fn new_conditions_are_empty() {
    let conditions = InitialConditions::new();
    assert_eq!(conditions.len(), 0);
    assert!(conditions.entry(0).is_none());
    assert_eq!(conditions.get(&code("E02000001")), None);
}

#[test]
fn insert_then_get() {
    let mut conditions = InitialConditions::new();
    assert_eq!(conditions.insert(code("E02000001"), 7), None);
    assert_eq!(conditions.get(&code("E02000001")), Some(7));
    assert_eq!(conditions.get(&code("E02000002")), None);
    assert_eq!(conditions.len(), 1);
}

#[test]
fn insert_again_changes_nothing_and_returns_the_count() {
    let mut conditions = InitialConditions::new();
    assert_eq!(conditions.insert(code("E02000001"), 7), None);
    assert_eq!(conditions.insert(code("E02000001"), 9), Some(7));
    assert_eq!(conditions.get(&code("E02000001")), Some(7));
    assert_eq!(conditions.len(), 1);
    assert_eq!(conditions.insert(code("E02000001"), 7), Some(7));
    assert_eq!(conditions.get(&code("E02000001")), Some(7));
    assert_eq!(conditions.len(), 1);
}

#[test]
fn entries_are_listed_in_the_order_of_the_codes() {
    let mut conditions = InitialConditions::new();
    for (text, cases) in [("E02000003", 3), ("E02000001", 1), ("E02000004", 4), ("E02000002", 2), ("E0200000", 0)] {
        conditions.insert(code(text), cases);
    }
    assert_eq!(conditions.len(), 5);
    let expected = [("E0200000", 0), ("E02000001", 1), ("E02000002", 2), ("E02000003", 3), ("E02000004", 4)];
    for (index, (text, cases)) in expected.iter().enumerate() {
        let (found, count) = conditions.entry(index).expect("within the listing");
        assert_eq!(found.text(), *text);
        assert_eq!(count, *cases);
    }
    assert!(conditions.entry(5).is_none());
    assert!(conditions.entry(usize::MAX).is_none());
}

#[test]
fn listing_does_not_depend_on_the_order_of_insertion() {
    let texts = ["b", "a", "d", "c", "", "ab", "aa"];
    let mut forward = InitialConditions::new();
    for text in texts {
        forward.insert(code(text), text.len());
    }
    let mut backward = InitialConditions::new();
    for text in texts.iter().rev() {
        backward.insert(code(text), text.len());
    }
    assert_eq!(forward.len(), backward.len());
    for index in 0..forward.len() {
        let (a, x) = forward.entry(index).unwrap();
        let (b, y) = backward.entry(index).unwrap();
        assert!(a.same(b));
        assert_eq!(x, y);
    }
    let mut sorted = texts.to_vec();
    sorted.sort();
    for (index, text) in sorted.iter().enumerate() {
        assert_eq!(forward.entry(index).unwrap().0.text(), *text);
    }
}

#[test]
fn many_inserts_agree_with_a_btree_map_that_keeps_the_first_count() {
    let mut conditions = InitialConditions::new();
    let mut expected_map = std::collections::BTreeMap::new();
    let mut state: u64 = 12345;
    for _ in 0..500 {
        state = state.wrapping_mul(6364136223846793005).wrapping_add(1442695040888963407);
        let text = format!("E02{:06}", (state >> 33) % 200);
        let cases = (state >> 20) as usize % 50;
        // an area is named once: a second count for it changes nothing
        let named = expected_map.get(&text).copied();
        if named.is_none() {
            expected_map.insert(text.clone(), cases);
        }
        assert_eq!(conditions.insert(code(&text), cases), named);
    }
    assert_eq!(conditions.len(), expected_map.len());
    for (index, (text, cases)) in expected_map.iter().enumerate() {
        let (found, count) = conditions.entry(index).unwrap();
        assert_eq!(&found.text(), text);
        assert_eq!(count, *cases);
        assert_eq!(conditions.get(&code(text)), Some(*cases));
    }
    assert_eq!(conditions.get(&code("E02999999")), None);
}
