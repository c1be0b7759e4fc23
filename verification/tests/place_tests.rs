use libkicaddy::component_edit::SchematicItems;
use libkicaddy::outline_nets::GridPoint;
use libkicaddy::pin_geometry::LibPinGeometry;
use libkicaddy::place::{LibPin, LibSymbol, PlaceComponentCommand};
use libkicaddy::symbol_instance::PlacedProperty;

/// Millimetres in grid units.
fn mm(v: f64) -> i32 {
    (v * 10000.0).round() as i32
}

fn empty_schematic() -> SchematicItems {
    SchematicItems {
        lib_symbols: vec![],
        components: vec![],
        wires: vec![],
        labels: vec![],
        global_labels: vec![],
        junctions: vec![],
    }
}

fn create_test_symbol() -> LibSymbol {
    LibSymbol {
        name: "R".to_string(),
        properties: vec![PlacedProperty { name: "Reference".to_string(), value: "R".to_string(), position: None }],
        pins: vec![],
    }
}

/// A resistor whose pins start 2.54 mm above and below its centre and reach 2.54 mm
/// further out.
fn resistor_with_pins() -> LibSymbol {
    LibSymbol {
        name: "R".to_string(),
        properties: vec![
            PlacedProperty { name: "Reference".to_string(), value: "R".to_string(), position: None },
            PlacedProperty { name: "ki_keywords".to_string(), value: "res".to_string(), position: None },
        ],
        pins: vec![
            LibPin {
                number: "2".to_string(),
                name: "~".to_string(),
                geometry: LibPinGeometry { x: 0, y: mm(-3.81), angle: 90, length: mm(1.27) },
            },
            LibPin {
                number: "1".to_string(),
                name: "~".to_string(),
                geometry: LibPinGeometry { x: 0, y: mm(3.81), angle: 270, length: mm(1.27) },
            },
        ],
    }
}

fn place(symbol: LibSymbol, x: f64, y: f64, reference: Option<&str>, value: Option<&str>) -> PlaceComponentCommand {
    PlaceComponentCommand {
        symbol,
        lib_id: "Device:R".to_string(),
        position: GridPoint { x: mm(x), y: mm(y) },
        angle: 0,
        reference: reference.map(|s| s.to_string()),
        value: value.map(|s| s.to_string()),
    }
}

#[test]
fn test_place_component_basic() {
    let mut schematic = empty_schematic();
    let result = place(create_test_symbol(), 100.0, 50.0, Some("R1"), Some("10k")).execute(&mut schematic).unwrap();
    assert_eq!(result.reference, "R1");
    assert_eq!(schematic.components.len(), 1);
    assert_eq!(schematic.lib_symbols.len(), 1);
}

#[test]
fn test_place_component_snaps_to_grid() {
    let mut schematic = empty_schematic();
    let result = place(create_test_symbol(), 100.5, 50.3, Some("R1"), None).execute(&mut schematic).unwrap();
    assert!(result.was_snapped);
    assert!((result.x - mm(100.33)).abs() < 100);
    assert!((result.y - mm(50.8)).abs() < 100);
}

#[test]
fn test_place_component_default_reference() {
    let mut schematic = empty_schematic();
    let result = place(create_test_symbol(), 100.0, 50.0, None, None).execute(&mut schematic).unwrap();
    assert_eq!(result.reference, "R?");
}

#[test]
fn test_place_multiple_components_reuses_lib_symbol() {
    let mut schematic = empty_schematic();
    place(create_test_symbol(), 100.0, 50.0, Some("R1"), None).execute(&mut schematic).unwrap();
    place(create_test_symbol(), 120.0, 50.0, Some("R2"), None).execute(&mut schematic).unwrap();
    assert_eq!(schematic.components.len(), 2);
    assert_eq!(schematic.lib_symbols.len(), 1);
}

#[test]
fn test_place_numbers_references_and_places_pins() {
    let mut schematic = empty_schematic();
    place(resistor_with_pins(), 100.33, 50.8, Some("R1"), None).execute(&mut schematic).unwrap();
    let result = place(resistor_with_pins(), 110.49, 50.8, None, None).execute(&mut schematic).unwrap();
    assert_eq!(result.reference, "R?");
    assert!(!result.was_snapped);
    let c = &schematic.components[1];
    // The next free number under the symbol's prefix.
    let reference = c.properties.iter().find(|p| p.0 == "Reference").unwrap();
    assert_eq!(reference.1, "R2");
    let value = c.properties.iter().find(|p| p.0 == "Value").unwrap();
    assert_eq!(value.1, "R");
    // ki_ properties stay with the library symbol.
    assert!(c.properties.iter().all(|p| !p.0.starts_with("ki_")));
    assert_eq!(c.instance_pins, vec!["1".to_string(), "2".to_string()]);
    // Pin 2 lies at y = -3.81 pointing at 90 degrees: its far end is 1.27 mm further
    // along y, 2.54 mm from the centre.
    assert_eq!(c.pins[0].number, "2");
    assert_eq!(c.pins[0].position, GridPoint { x: mm(110.49), y: mm(48.26) });
    assert_eq!(c.pins[0].angle, 90);
    assert_eq!(c.pins[1].position, GridPoint { x: mm(110.49), y: mm(53.34) });
    assert_eq!(c.pins[1].angle, 270);
}

#[test]
fn test_place_requested_question_mark_reference() {
    let mut schematic = empty_schematic();
    place(create_test_symbol(), 100.0, 50.0, Some("R7"), None).execute(&mut schematic).unwrap();
    place(create_test_symbol(), 100.0, 60.0, Some("R?"), Some("1k")).execute(&mut schematic).unwrap();
    let c = &schematic.components[1];
    let reference = c.properties.iter().find(|p| p.0 == "Reference").unwrap();
    assert_eq!(reference.1, "R8");
    let value = c.properties.iter().find(|p| p.0 == "Value").unwrap();
    assert_eq!(value.1, "1k");
}
