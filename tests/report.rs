use filter_manager::report::repeated_destinations;

fn strings(v: &[&str]) -> Vec<String> {
    v.iter().map(|s| s.to_string()).collect()
}

#[test]
fn counts_repeated_destinations_fewest_first() {
    let dests = strings(&["b", "a", "*", "b", "c", "a", "b", "*", "*", "d"]);
    let r = repeated_destinations(&dests);
    assert_eq!(r, vec![("a".to_string(), 2), ("b".to_string(), 3)]);
}

#[test]
fn star_and_singletons_are_left_out() {
    let dests = strings(&["*", "*", "x", "y"]);
    assert!(repeated_destinations(&dests).is_empty());
}

#[test]
fn no_destinations() {
    assert!(repeated_destinations(&Vec::new()).is_empty());
}

#[test]
fn equal_counts_keep_first_occurrence_order() {
    let dests = strings(&["q", "p", "p", "q", "r", "r", "r"]);
    let r = repeated_destinations(&dests);
    assert_eq!(r, vec![("q".to_string(), 2), ("p".to_string(), 2), ("r".to_string(), 3)]);
}
