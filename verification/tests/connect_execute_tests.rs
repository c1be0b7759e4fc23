use libkicaddy::commands::{CommandError, ConnectCommand};
use libkicaddy::component_edit::{PlacedComponent, PlacedPin, SchematicItems};
use libkicaddy::outline_nets::GridPoint;
use libkicaddy::schematic::LabelShape;

fn mm(x: f64, y: f64) -> GridPoint {
    GridPoint { x: (x * 10000.0).round() as i32, y: (y * 10000.0).round() as i32 }
}

/// A two-pin part at (x, 50): pin 1 attaches 2.54 mm below, pin 2 2.54 mm above.
fn part(reference: &str, x: f64) -> PlacedComponent {
    PlacedComponent {
        properties: vec![("Reference".to_string(), reference.to_string())],
        lib_id: "Device:R".to_string(),
        pins: vec![
            PlacedPin { number: "1".to_string(), name: "~".to_string(), position: mm(x, 52.54), angle: 270 },
            PlacedPin { number: "2".to_string(), name: "~".to_string(), position: mm(x, 47.46), angle: 90 },
        ],
        instance_pins: vec!["1".to_string(), "2".to_string()],
    }
}

fn create_test_schematic() -> SchematicItems {
    SchematicItems {
        lib_symbols: vec!["Device:R".to_string()],
        components: vec![part("R1", 100.0), part("C1", 120.0)],
        wires: vec![],
        labels: vec![],
        global_labels: vec![],
        junctions: vec![],
    }
}

fn cmd(eps: &[&str]) -> ConnectCommand {
    ConnectCommand { endpoints: eps.iter().map(|s| s.to_string()).collect() }
}

#[test]
fn test_connect_two_pins() {
    let mut schematic = create_test_schematic();
    let initial_wire_count = schematic.wires.len();
    let result = cmd(&["R1:1", "C1:1"]).execute(&mut schematic).unwrap();
    assert_eq!(result.wires_created, 1);
    assert_eq!(result.junctions_created, 0);
    assert!(result.labels_created.is_empty());
    assert_eq!(schematic.wires.len(), initial_wire_count + 1);
}

#[test]
fn test_connect_pin_to_net() {
    let mut schematic = create_test_schematic();
    let initial_label_count = schematic.global_labels.len();
    let result = cmd(&["R1:2", "&GND"]).execute(&mut schematic).unwrap();
    assert_eq!(result.wires_created, 0);
    assert_eq!(result.labels_created.len(), 1);
    assert_eq!(result.labels_created[0], "GND");
    assert_eq!(schematic.global_labels.len(), initial_label_count + 1);
}

#[test]
fn test_connect_insufficient_endpoints() {
    let mut schematic = create_test_schematic();
    let result = cmd(&["R1:1"]).execute(&mut schematic);
    assert!(result.is_err());
}

#[test]
fn test_connect_invalid_pin() {
    let mut schematic = create_test_schematic();
    let result = cmd(&["R1:99", "C1:1"]).execute(&mut schematic);
    assert!(result.is_err());
}

#[test]
fn test_connect_invalid_component() {
    let mut schematic = create_test_schematic();
    let result = cmd(&["R99:1", "C1:1"]).execute(&mut schematic);
    assert!(matches!(result, Err(CommandError::SymbolNotFound(_))));
}

#[test]
fn connect_two_pins_routes_horizontal_first() {
    let mut schematic = create_test_schematic();
    cmd(&["R1:1", "C1:2"]).execute(&mut schematic).unwrap();
    // From (100, 52.54) to (120, 47.46), both snapped to the 1.27 mm grid.
    assert_eq!(
        schematic.wires[0],
        vec![mm(100.33, 52.07), mm(119.38, 52.07), mm(119.38, 46.99)]
    );
}

#[test]
fn connect_power_net_labels_are_global_and_passive() {
    let mut schematic = create_test_schematic();
    cmd(&["R1:2", "C1:2", "&+3V3"]).execute(&mut schematic).unwrap();
    assert_eq!(schematic.global_labels.len(), 2);
    assert!(schematic.labels.is_empty());
    let l = &schematic.global_labels[1];
    assert_eq!(l.text, "+3V3");
    assert_eq!(l.shape, Some(LabelShape::Passive));
    assert_eq!(l.angle, 90);
    assert!(schematic.wires.is_empty());
}

#[test]
fn connect_signal_net_labels_are_local() {
    let mut schematic = create_test_schematic();
    let out = cmd(&["&SDA", "R1:1"]).execute(&mut schematic).unwrap();
    assert_eq!(out.net_name.as_deref(), Some("SDA"));
    assert_eq!(schematic.labels.len(), 1);
    assert_eq!(schematic.labels[0].angle, 270);
    assert_eq!(schematic.labels[0].shape, None);
    assert!(schematic.global_labels.is_empty());
}

#[test]
fn connect_three_pins_makes_a_star() {
    let mut schematic = create_test_schematic();
    schematic.components.push(part("R2", 140.0));
    let out = cmd(&["R1:1", "C1:1", "R2:1"]).execute(&mut schematic).unwrap();
    assert_eq!(out.wires_created, 2);
    assert_eq!(out.junctions_created, 1);
    let hub = mm(100.33, 52.07);
    assert_eq!(schematic.junctions, vec![hub]);
    assert_eq!(schematic.wires.len(), 2);
    assert!(schematic.wires.iter().all(|w| w[0] == hub));
}

#[test]
fn connect_failure_changes_nothing() {
    let mut schematic = create_test_schematic();
    let result = cmd(&["R1:1", "C1:1", "&GND", "&VCC"]).execute(&mut schematic);
    match result {
        Err(CommandError::Other(m)) => assert_eq!(m, "Only one net label allowed per connection"),
        _ => panic!("expected the two-nets error"),
    }
    let result = cmd(&["R1:1", "C1:7", "&GND"]).execute(&mut schematic);
    assert!(matches!(result, Err(CommandError::PinNotFound { .. })));
    assert!(schematic.global_labels.is_empty());
    assert!(schematic.wires.is_empty());
}
