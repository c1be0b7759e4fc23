use libkicaddy::outline_nets::GridPoint;
use libkicaddy::symbol_instance::{plan_symbol_instance, PlacedProperty};

fn mm(x: f64, y: f64) -> GridPoint {
    GridPoint { x: (x * 10000.0).round() as i32, y: (y * 10000.0).round() as i32 }
}

fn prop(name: &str, value: &str, at: Option<GridPoint>) -> PlacedProperty {
    PlacedProperty { name: name.to_string(), value: value.to_string(), position: at }
}

fn view(p: &PlacedProperty) -> (String, String, Option<GridPoint>) {
    (p.name.clone(), p.value.clone(), p.position)
}

fn strings(v: &[&str]) -> Vec<String> {
    v.iter().map(|s| s.to_string()).collect()
}

#[test]
fn new_resistor_takes_the_next_reference_and_its_fields() {
    let lib = vec![
        prop("Reference", "R", Some(mm(2.032, 0.0))),
        prop("Value", "R", Some(mm(0.0, 0.0))),
        prop("Footprint", "", None),
        prop("ki_keywords", "R res resistor", None),
    ];
    let placed = plan_symbol_instance(
        &strings(&["R1", "R2", "C1"]),
        None,
        None,
        &"R".to_string(),
        &lib,
        strings(&["2", "1", "1"]),
        mm(100.0, 50.0),
    );
    assert_eq!(placed.reference, "R3");
    assert_eq!(placed.value, "R");
    let got: Vec<_> = placed.properties.iter().map(view).collect();
    assert_eq!(
        got,
        vec![
            ("Reference".to_string(), "R3".to_string(), Some(mm(102.032, 50.0))),
            ("Value".to_string(), "R".to_string(), Some(mm(100.0, 50.0))),
            ("Footprint".to_string(), "".to_string(), None),
        ]
    );
    assert_eq!(placed.pin_numbers, strings(&["1", "2"]));
}

#[test]
fn missing_reference_and_value_fields_are_added() {
    let lib = vec![prop("Datasheet", "~", None)];
    let placed = plan_symbol_instance(
        &strings(&["U1"]),
        Some("IC?"),
        Some("LM358"),
        &"LM358_DIP".to_string(),
        &lib,
        strings(&[]),
        mm(10.0, 20.0),
    );
    assert_eq!(placed.reference, "IC1");
    assert_eq!(placed.value, "LM358");
    let got: Vec<_> = placed.properties.iter().map(view).collect();
    assert_eq!(
        got,
        vec![
            ("Reference".to_string(), "IC1".to_string(), Some(mm(10.0, 17.46))),
            ("Value".to_string(), "LM358".to_string(), Some(mm(10.0, 22.54))),
            ("Datasheet".to_string(), "~".to_string(), None),
        ]
    );
}

#[test]
fn symbols_without_a_prefix_are_numbered_as_u() {
    let placed = plan_symbol_instance(&strings(&["U4"]), None, None, &"X".to_string(), &vec![], vec![], mm(0.0, 0.0));
    assert_eq!(placed.reference, "U5");
    assert_eq!(placed.properties.len(), 2);
}
