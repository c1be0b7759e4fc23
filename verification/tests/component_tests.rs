use libkicaddy::commands::{CommandError, DeleteComponentCommand};
use libkicaddy::component_edit::{PlacedComponent, PlacedPin, SchematicItems};
use libkicaddy::label_edit::PlacedLabel;
use libkicaddy::outline_nets::GridPoint;
use libkicaddy::schematic::LabelShape;

fn mm(x: f64, y: f64) -> GridPoint {
    GridPoint { x: (x * 10000.0).round() as i32, y: (y * 10000.0).round() as i32 }
}

/// A resistor placed at (100, 50): both of its pins attach at (100, 50).
fn resistor(reference: &str, x: f64) -> PlacedComponent {
    PlacedComponent {
        properties: vec![("Reference".to_string(), reference.to_string())],
        lib_id: "Device:R".to_string(),
        pins: vec![
            PlacedPin { number: "1".to_string(), name: "~".to_string(), position: mm(x, 50.0), angle: 270 },
            PlacedPin { number: "2".to_string(), name: "~".to_string(), position: mm(x, 50.0), angle: 90 },
        ],
        instance_pins: vec!["1".to_string(), "2".to_string()],
    }
}

fn create_test_schematic_with_resistor() -> SchematicItems {
    SchematicItems {
        lib_symbols: vec!["Device:R".to_string()],
        components: vec![resistor("R1", 100.0)],
        wires: vec![],
        labels: vec![],
        global_labels: vec![],
        junctions: vec![],
    }
}

fn empty_schematic() -> SchematicItems {
    SchematicItems { lib_symbols: vec![], components: vec![], wires: vec![], labels: vec![], global_labels: vec![], junctions: vec![] }
}

#[test]
fn test_delete_component_basic() {
    let mut schematic = create_test_schematic_with_resistor();
    assert_eq!(schematic.components.len(), 1);
    assert_eq!(schematic.lib_symbols.len(), 1);
    let cmd = DeleteComponentCommand { reference: "R1".to_string() };
    cmd.execute(&mut schematic).unwrap();
    assert_eq!(schematic.components.len(), 0);
    assert_eq!(schematic.lib_symbols.len(), 0);
}

#[test]
fn test_delete_component_not_found() {
    let mut schematic = empty_schematic();
    let cmd = DeleteComponentCommand { reference: "R99".to_string() };
    let result = cmd.execute(&mut schematic);
    assert!(matches!(result, Err(CommandError::SymbolNotFound(_))));
}

#[test]
fn test_delete_component_cleans_up_wires() {
    let mut schematic = create_test_schematic_with_resistor();
    let pins = schematic.components[0].pins.iter().map(|p| p.position).collect::<Vec<GridPoint>>();
    for p in &pins {
        schematic.wires.push(vec![mm(80.0, 50.0), *p]);
    }
    assert_eq!(schematic.wires.len(), 2);
    let cmd = DeleteComponentCommand { reference: "R1".to_string() };
    cmd.execute(&mut schematic).unwrap();
    assert_eq!(schematic.wires.len(), 0);
}

#[test]
fn test_delete_component_cleans_up_labels() {
    let mut schematic = create_test_schematic_with_resistor();
    let pins = schematic.components[0].pins.iter().map(|p| p.position).collect::<Vec<GridPoint>>();
    for p in &pins {
        schematic.labels.push(PlacedLabel { text: "TEST".to_string(), position: *p, angle: 0, shape: None });
    }
    assert_eq!(schematic.labels.len(), 2);
    let cmd = DeleteComponentCommand { reference: "R1".to_string() };
    cmd.execute(&mut schematic).unwrap();
    assert_eq!(schematic.labels.len(), 0);
}

#[test]
fn test_delete_component_keeps_shared_lib_symbol() {
    let mut schematic = create_test_schematic_with_resistor();
    schematic.components.push(resistor("R2", 120.0));
    assert_eq!(schematic.components.len(), 2);
    assert_eq!(schematic.lib_symbols.len(), 1);
    let cmd = DeleteComponentCommand { reference: "R1".to_string() };
    cmd.execute(&mut schematic).unwrap();
    assert_eq!(schematic.components.len(), 1);
    assert_eq!(schematic.lib_symbols.len(), 1);
}

#[test]
fn deleting_keeps_what_is_away_from_the_pins() {
    let mut schematic = create_test_schematic_with_resistor();
    schematic.components.push(resistor("R2", 120.0));
    schematic.lib_symbols.push("Device:C".to_string());
    schematic.labels = vec![
        PlacedLabel { text: "NEAR".to_string(), position: mm(100.05, 49.95), angle: 0, shape: None },
        PlacedLabel { text: "FAR".to_string(), position: mm(100.1, 50.0), angle: 0, shape: None },
    ];
    schematic.global_labels = vec![PlacedLabel { text: "R2PIN".to_string(), position: mm(120.0, 50.0), angle: 0, shape: Some(LabelShape::Input) }];
    schematic.wires = vec![
        vec![mm(100.0, 50.0), mm(100.0, 60.0), mm(110.0, 60.0)],
        vec![mm(90.0, 50.0), mm(100.0, 50.0), mm(110.0, 50.0)],
        vec![],
    ];
    assert!(schematic.delete_symbol("R1"));
    let labels: Vec<String> = schematic.labels.iter().map(|l| l.text.clone()).collect();
    assert_eq!(labels, vec!["FAR".to_string()]);
    assert_eq!(schematic.global_labels.len(), 1);
    assert_eq!(schematic.wires.len(), 2);
    assert_eq!(schematic.wires[0].len(), 3);
    assert_eq!(schematic.lib_symbols, vec!["Device:R".to_string(), "Device:C".to_string()]);
    assert!(!schematic.delete_symbol("R1"));
}
