use libkicaddy::component_edit::{PlacedComponent, PlacedPin, SchematicItems};
use libkicaddy::label_edit::PlacedLabel;
use libkicaddy::outline_nets::GridPoint;
use libkicaddy::schematic::{LabelShape, RoutingMode, SchematicError};

/// Millimetres in grid units.
fn mm(v: f64) -> i32 {
    (v * 10000.0).round() as i32
}

fn pt(x: f64, y: f64) -> GridPoint {
    GridPoint { x: mm(x), y: mm(y) }
}

fn new_schematic() -> SchematicItems {
    SchematicItems {
        lib_symbols: vec![],
        components: vec![],
        wires: vec![],
        labels: vec![],
        global_labels: vec![],
        junctions: vec![],
    }
}

fn instance(reference: &str, lib_id: &str, pins: Vec<PlacedPin>) -> PlacedComponent {
    PlacedComponent {
        properties: vec![("Reference".to_string(), reference.to_string())],
        lib_id: lib_id.to_string(),
        pins,
        instance_pins: vec![],
    }
}

#[test]
fn test_add_wire() {
    let mut sch = new_schematic();
    assert_eq!(sch.wires.len(), 0);
    sch.add_wire(pt(100.0, 50.0), pt(150.0, 50.0));
    assert_eq!(sch.wires.len(), 1);
    assert_eq!(sch.wires[0].len(), 2);
    assert!((sch.wires[0][0].x - mm(100.33)).abs() < 100);
    assert!((sch.wires[0][1].x - mm(149.86)).abs() < 100);
}

#[test]
fn test_add_wire_routed_orthogonal() {
    let mut sch = new_schematic();
    sch.add_wire_routed(pt(100.0, 50.0), pt(150.0, 80.0), RoutingMode::Orthogonal);
    assert_eq!(sch.wires.len(), 1);
    assert_eq!(sch.wires[0].len(), 3);
}

#[test]
fn test_add_wire_routed_orthogonal_vh() {
    let mut sch = new_schematic();
    sch.add_wire_routed(pt(100.0, 50.0), pt(150.0, 80.0), RoutingMode::OrthogonalVH);
    assert_eq!(sch.wires.len(), 1);
    assert_eq!(sch.wires[0].len(), 3);
    let mid = sch.wires[0][1];
    assert!((mid.x - sch.wires[0][0].x).abs() < 100);
    assert!((mid.y - sch.wires[0][2].y).abs() < 100);
}

#[test]
fn test_add_label() {
    let mut sch = new_schematic();
    assert_eq!(sch.labels.len(), 0);
    sch.add_label("TEST_NET", pt(100.0, 50.0), 0);
    assert_eq!(sch.labels.len(), 1);
    assert_eq!(sch.labels[0].text, "TEST_NET");
}

#[test]
fn test_add_global_label() {
    let mut sch = new_schematic();
    assert_eq!(sch.global_labels.len(), 0);
    sch.add_global_label("VCC", pt(100.0, 50.0), 0, LabelShape::Input);
    assert_eq!(sch.global_labels.len(), 1);
    assert_eq!(sch.global_labels[0].text, "VCC");
    assert_eq!(sch.global_labels[0].shape, Some(LabelShape::Input));
}

#[test]
fn test_delete_symbol_basic() {
    let mut sch = new_schematic();
    sch.lib_symbols.push("Test:R".to_string());
    sch.components.push(instance(
        "R1",
        "Test:R",
        vec![
            PlacedPin { number: "1".to_string(), name: "~".to_string(), position: pt(100.0, 50.0), angle: 270 },
            PlacedPin { number: "2".to_string(), name: "~".to_string(), position: pt(100.0, 50.0), angle: 90 },
        ],
    ));
    assert_eq!(sch.components.len(), 1);
    assert_eq!(sch.lib_symbols.len(), 1);
    let deleted = sch.delete_symbol("R1");
    assert!(deleted);
    assert_eq!(sch.components.len(), 0);
    assert_eq!(sch.lib_symbols.len(), 0);
}

#[test]
fn test_delete_symbol_keeps_shared_lib_symbol() {
    let mut sch = new_schematic();
    sch.lib_symbols.push("Test:R".to_string());
    for reference in ["R1", "R2"] {
        sch.components.push(instance(reference, "Test:R", vec![]));
    }
    assert_eq!(sch.components.len(), 2);
    assert_eq!(sch.lib_symbols.len(), 1);
    let deleted = sch.delete_symbol("R1");
    assert!(deleted);
    assert_eq!(sch.components.len(), 1);
    assert_eq!(sch.lib_symbols.len(), 1);
}

#[test]
fn test_delete_symbol_cleans_up_wires_and_labels() {
    let mut sch = new_schematic();
    sch.lib_symbols.push("Test:R".to_string());
    // One pin, whose far end lies 2.54 mm below the symbol at (100, 50).
    sch.components.push(instance(
        "R1",
        "Test:R",
        vec![PlacedPin { number: "1".to_string(), name: "~".to_string(), position: pt(100.0, 52.54), angle: 270 }],
    ));
    let pin_positions = sch.get_all_pin_positions(&sch.components[0]);
    assert_eq!(pin_positions.len(), 1);
    let (pin_pos, _) = pin_positions[0];
    sch.wires.push(vec![GridPoint { x: mm(80.0), y: pin_pos.y }, pin_pos]);
    sch.labels.push(PlacedLabel { text: "PIN_LABEL".to_string(), position: pin_pos, angle: 0, shape: None });
    assert_eq!(sch.wires.len(), 1);
    assert_eq!(sch.labels.len(), 1);
    let deleted = sch.delete_symbol("R1");
    assert!(deleted);
    assert_eq!(sch.wires.len(), 0);
    assert_eq!(sch.labels.len(), 0);
}

#[test]
fn test_delete_symbol_not_found() {
    let mut sch = new_schematic();
    let deleted = sch.delete_symbol("R99");
    assert!(!deleted);
}

#[test]
fn test_find_symbol_by_reference() {
    let mut sch = new_schematic();
    sch.components.push(instance("R1", "Test:R", vec![]));
    let found = sch.find_symbol_by_reference("R1");
    assert!(found.is_some());
    assert_eq!(found.unwrap().lib_id, "Test:R");
    let not_found = sch.find_symbol_by_reference("R99");
    assert!(not_found.is_none());
}

#[test]
fn test_add_junction() {
    let mut sch = new_schematic();
    assert_eq!(sch.junctions.len(), 0);
    sch.add_junction(pt(100.0, 50.0));
    assert_eq!(sch.junctions.len(), 1);
    assert!((sch.junctions[0].x - mm(100.33)).abs() < 100);
}

#[test]
fn test_get_pin_position_by_number_or_name() {
    let mut sch = new_schematic();
    sch.components.push(instance(
        "U1",
        "MCU:X",
        vec![
            PlacedPin { number: "1".to_string(), name: "VCC".to_string(), position: pt(10.0, 20.0), angle: 0 },
            PlacedPin { number: "2".to_string(), name: "GND".to_string(), position: pt(10.0, 22.54), angle: 180 },
        ],
    ));
    let u1 = &sch.components[0];
    assert_eq!(sch.get_pin_position(u1, "2"), Some((pt(10.0, 22.54), 180)));
    assert_eq!(sch.get_pin_position(u1, "VCC"), Some((pt(10.0, 20.0), 0)));
    assert_eq!(sch.get_pin_position(u1, "3"), None);
}

#[test]
fn test_schematic_error_messages() {
    assert_eq!(SchematicError::Parse("bad".to_string()).to_string(), "Parse error: bad");
    assert_eq!(
        SchematicError::InvalidFormat { expected: "kicad_sch".to_string(), got: "kicad_pcb".to_string() }
            .to_string(),
        "Invalid format: expected kicad_sch, got kicad_pcb"
    );
    assert_eq!(SchematicError::MissingField("uuid".to_string()).to_string(), "Missing field: uuid");
    assert_eq!(SchematicError::Io("denied".to_string()).to_string(), "IO error: denied");
}
