use libkicaddy::commands::{CommandError, ConnectCommand, DisconnectCommand};
use libkicaddy::component_edit::{PlacedComponent, PlacedPin, SchematicItems};
use libkicaddy::label_edit::PlacedLabel;
use libkicaddy::outline_nets::GridPoint;
use libkicaddy::schematic::LabelShape;

fn mm(x: f64, y: f64) -> GridPoint {
    GridPoint { x: (x * 10000.0).round() as i32, y: (y * 10000.0).round() as i32 }
}

/// A resistor placed at (x, 50): both of its pins attach at (x, 50).
fn resistor(reference: &str, x: f64, listed: &[&str]) -> PlacedComponent {
    PlacedComponent {
        properties: vec![("Reference".to_string(), reference.to_string())],
        lib_id: "Device:R".to_string(),
        pins: vec![
            PlacedPin { number: "1".to_string(), name: "~".to_string(), position: mm(x, 50.0), angle: 270 },
            PlacedPin { number: "2".to_string(), name: "~".to_string(), position: mm(x, 50.0), angle: 90 },
        ],
        instance_pins: listed.iter().map(|s| s.to_string()).collect(),
    }
}

fn create_test_schematic_with_wire() -> SchematicItems {
    SchematicItems {
        lib_symbols: vec!["Device:R".to_string()],
        components: vec![resistor("R1", 100.0, &[]), resistor("R2", 120.0, &[])],
        wires: vec![vec![mm(100.0, 45.0), mm(120.0, 45.0)]],
        labels: vec![],
        global_labels: vec![],
        junctions: vec![],
    }
}

fn command(a: &str, b: &str) -> DisconnectCommand {
    DisconnectCommand { endpoint1: a.to_string(), endpoint2: b.to_string() }
}

#[test]
fn test_disconnect_two_pins() {
    let mut schematic = create_test_schematic_with_wire();
    assert_eq!(schematic.wires.len(), 1);

    let r1 = schematic.find_symbol_by_reference("R1").unwrap();
    let r2 = schematic.find_symbol_by_reference("R2").unwrap();
    let r1_pin1_pos = r1.pin_position("1").unwrap();
    let r2_pin1_pos = r2.pin_position("1").unwrap();
    schematic.wires[0] = vec![r1_pin1_pos, r2_pin1_pos];

    let result = command("R1:1", "R2:1").execute(&mut schematic).unwrap();
    assert_eq!(result.wires_removed, 1);
    assert_eq!(schematic.wires.len(), 0);
}

#[test]
fn test_disconnect_no_connection() {
    let mut schematic = create_test_schematic_with_wire();
    let result = command("R1:2", "R2:2").execute(&mut schematic);
    assert!(result.is_err());
}

#[test]
fn test_disconnect_invalid_component() {
    let mut schematic = create_test_schematic_with_wire();
    let result = command("R99:1", "R2:1").execute(&mut schematic);
    assert!(matches!(result, Err(CommandError::SymbolNotFound(_))));
}

#[test]
fn test_disconnect_no_connection_message_and_nothing_changes() {
    let mut schematic = create_test_schematic_with_wire();
    let result = command("R1:2", "R2:2").execute(&mut schematic);
    match result {
        Err(CommandError::Other(m)) => {
            assert_eq!(m, "No connection found between the specified endpoints")
        }
        _ => panic!("expected the no-connection error"),
    }
    assert_eq!(schematic.wires, vec![vec![mm(100.0, 45.0), mm(120.0, 45.0)]]);
}

#[test]
fn test_disconnect_unknown_pin_and_bad_text() {
    let mut schematic = create_test_schematic_with_wire();
    match command("R1:9", "R2:1").execute(&mut schematic) {
        Err(CommandError::PinNotFound { reference, pin }) => {
            assert_eq!(reference, "R1");
            assert_eq!(pin, "9");
        }
        _ => panic!("expected PinNotFound"),
    }
    match command(" R1 ", "R2:1").execute(&mut schematic) {
        Err(CommandError::Other(m)) => assert_eq!(
            m,
            "Invalid endpoint 'R1'. Use 'REF:PIN' for pins or '&NET' for net labels"
        ),
        _ => panic!("expected an invalid endpoint"),
    }
    match command("R1:1", "&VCC").execute(&mut schematic) {
        Err(CommandError::Other(m)) => assert_eq!(m, "Net label 'VCC' not found"),
        _ => panic!("expected a missing net label"),
    }
    assert_eq!(schematic.wires.len(), 1);
}

#[test]
fn test_disconnect_pin_by_name() {
    let mut schematic = create_test_schematic_with_wire();
    schematic.components[0].pins[0].name = "A".to_string();
    schematic.wires[0] = vec![mm(100.0, 50.0), mm(120.0, 50.0)];
    let result = command("R1:A", "R2:1").execute(&mut schematic).unwrap();
    assert_eq!(result.wires_removed, 1);
}

#[test]
fn test_disconnect_removes_orphaned_junction() {
    let mut schematic = create_test_schematic_with_wire();
    schematic.components[0] = resistor("R1", 100.0, &["1", "2"]);
    // A straight wire between the two pins, a branch from its middle, a junction
    // there, and a junction on R1's pin.
    schematic.wires = vec![
        vec![mm(100.0, 50.0), mm(120.0, 50.0)],
        vec![mm(110.0, 50.0), mm(110.0, 60.0)],
    ];
    schematic.junctions = vec![mm(110.0, 50.0), mm(100.0, 50.0)];
    let result = command("R1:1", "R2:1").execute(&mut schematic).unwrap();
    assert_eq!(result.wires_removed, 1);
    assert_eq!(result.junctions_removed, 1);
    assert_eq!(result.labels_removed, 0);
    assert_eq!(schematic.wires, vec![vec![mm(110.0, 50.0), mm(110.0, 60.0)]]);
    assert_eq!(schematic.junctions, vec![mm(100.0, 50.0)]);
}

#[test]
fn test_disconnect_keeps_junction_where_three_wires_meet() {
    let mut schematic = create_test_schematic_with_wire();
    schematic.wires = vec![
        vec![mm(100.0, 50.0), mm(120.0, 50.0)],
        vec![mm(110.0, 50.0), mm(110.0, 60.0)],
        vec![mm(110.0, 50.0), mm(110.0, 40.0)],
        vec![mm(110.0, 50.0), mm(130.0, 70.0)],
    ];
    schematic.junctions = vec![mm(110.0, 50.0)];
    let result = command("R2:1", "R1:2").execute(&mut schematic).unwrap();
    assert_eq!(result.wires_removed, 1);
    assert_eq!(result.junctions_removed, 0);
    assert_eq!(schematic.wires.len(), 3);
}

#[test]
fn test_disconnect_net_label() {
    let mut schematic = create_test_schematic_with_wire();
    schematic.labels = vec![
        PlacedLabel { text: "GND".to_string(), position: mm(100.0, 50.0), angle: 0, shape: None },
        PlacedLabel { text: "GND".to_string(), position: mm(120.0, 50.0), angle: 0, shape: None },
    ];
    let result = command("&GND", "R2:1").execute(&mut schematic).unwrap();
    assert_eq!(result.wires_removed, 0);
    assert_eq!(result.labels_removed, 1);
    assert_eq!(schematic.labels.len(), 1);
    assert_eq!(schematic.labels[0].position, mm(100.0, 50.0));
}

#[test]
fn test_disconnect_global_label() {
    let mut schematic = create_test_schematic_with_wire();
    schematic.global_labels = vec![PlacedLabel { text: "VBUS".to_string(), position: mm(100.0, 50.0), angle: 0, shape: Some(LabelShape::Input) }];
    let result = command("R1:1", "&VBUS").execute(&mut schematic).unwrap();
    assert_eq!(result.labels_removed, 1);
    assert!(schematic.global_labels.is_empty());
}

#[test]
fn test_disconnect_undoes_connect() {
    let mut schematic = create_test_schematic_with_wire();
    schematic.components[1].pins[0].position = mm(120.3, 57.1);
    ConnectCommand { endpoints: vec!["R1:1".to_string(), "R2:1".to_string()] }.execute(&mut schematic).unwrap();
    assert_eq!(schematic.wires.len(), 2);
    let result = command("R1:1", "R2:1").execute(&mut schematic).unwrap();
    assert_eq!(result.wires_removed, 1);
    assert_eq!(schematic.wires, vec![vec![mm(100.0, 45.0), mm(120.0, 45.0)]]);
}
