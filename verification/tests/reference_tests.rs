use libkicaddy::references::{choose_reference, next_reference};

fn refs(v: &[&str]) -> Vec<String> {
    v.iter().map(|s| s.to_string()).collect()
}

#[test]
fn next_reference_follows_the_largest_number() {
    assert_eq!(next_reference(&refs(&[]), "R"), "R1");
    assert_eq!(next_reference(&refs(&["R1", "R2", "C1", "R10"]), "R"), "R11");
    assert_eq!(next_reference(&refs(&["C1", "C7"]), "R"), "R1");
}

#[test]
fn next_reference_ignores_references_without_a_number() {
    assert_eq!(next_reference(&refs(&["RX1", "R", "R-4", "R3a"]), "R"), "R1");
    assert_eq!(next_reference(&refs(&["R+5"]), "R"), "R6");
    assert_eq!(next_reference(&refs(&["R007"]), "R"), "R8");
}

#[test]
fn power_references_get_two_digits() {
    assert_eq!(next_reference(&refs(&[]), "#PWR"), "#PWR01");
    assert_eq!(next_reference(&refs(&["#PWR01", "#PWR02"]), "#PWR"), "#PWR03");
    assert_eq!(next_reference(&refs(&["#PWR09"]), "#PWR"), "#PWR10");
    assert_eq!(next_reference(&refs(&["#PWR123"]), "#PWR"), "#PWR124");
}

#[test]
fn chosen_reference_keeps_a_complete_request() {
    let used = refs(&["R1", "U1"]);
    assert_eq!(choose_reference(&used, Some("R5"), Some("R")), "R5");
    assert_eq!(choose_reference(&used, Some("R?"), Some("C")), "R2");
    assert_eq!(choose_reference(&used, Some("R??"), None), "R2");
    assert_eq!(choose_reference(&used, None, Some("C")), "C1");
    assert_eq!(choose_reference(&used, None, None), "U2");
}
