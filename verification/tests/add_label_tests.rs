use libkicaddy::commands::CommandError;
use libkicaddy::component_edit::{PlacedComponent, PlacedPin, SchematicItems};
use libkicaddy::label_edit::{angle_from_pin_direction, AddLabelCommand, LabelLocation};
use libkicaddy::outline_nets::GridPoint;
use libkicaddy::schematic::LabelShape;

/// Millimetres in grid units.
fn mm(v: f64) -> i32 {
    (v * 10000.0).round() as i32
}

fn empty_schematic() -> SchematicItems {
    SchematicItems {
        lib_symbols: vec![],
        components: vec![],
        wires: vec![],
        labels: vec![],
        global_labels: vec![],
        junctions: vec![],
    }
}

/// A resistor at (100, 50) with its pin 1 attaching there, pointing down.
fn create_test_schematic_with_resistor() -> SchematicItems {
    let mut s = empty_schematic();
    s.lib_symbols.push("Device:R".to_string());
    s.components.push(PlacedComponent {
        properties: vec![("Reference".to_string(), "R1".to_string())],
        lib_id: "Device:R".to_string(),
        pins: vec![PlacedPin {
            number: "1".to_string(),
            name: "~".to_string(),
            position: GridPoint { x: mm(100.0), y: mm(50.0) },
            angle: 270,
        }],
        instance_pins: vec![],
    });
    s
}

#[test]
fn test_add_local_label_at_position() {
    let mut schematic = empty_schematic();
    let cmd = AddLabelCommand {
        text: "NET1".to_string(),
        location: LabelLocation::position(mm(100.0), mm(50.0), 0),
        global: false,
        shape: LabelShape::Input,
    };
    let result = cmd.execute(&mut schematic).unwrap();
    assert_eq!(schematic.labels.len(), 1);
    assert_eq!(result.text, "NET1");
    assert!(!result.global);
}

#[test]
fn test_add_global_label_at_position() {
    let mut schematic = empty_schematic();
    let cmd = AddLabelCommand {
        text: "VCC".to_string(),
        location: LabelLocation::position(mm(100.0), mm(50.0), 0),
        global: true,
        shape: LabelShape::Input,
    };
    let result = cmd.execute(&mut schematic).unwrap();
    assert_eq!(schematic.global_labels.len(), 1);
    assert_eq!(result.text, "VCC");
    assert!(result.global);
    assert_eq!(schematic.global_labels[0].shape, Some(LabelShape::Input));
}

#[test]
fn test_add_label_at_pin() {
    let mut schematic = create_test_schematic_with_resistor();
    let cmd = AddLabelCommand {
        text: "SIGNAL".to_string(),
        location: LabelLocation::pin("R1", "1"),
        global: false,
        shape: LabelShape::Input,
    };
    let result = cmd.execute(&mut schematic).unwrap();
    assert_eq!(schematic.labels.len(), 1);
    assert_eq!(result.text, "SIGNAL");
    assert!((result.position.x - mm(100.0)).abs() < 100);
    assert_eq!(result.angle, 270);
    assert_eq!(schematic.labels[0].angle, 270);
}

#[test]
fn test_add_label_symbol_not_found() {
    let mut schematic = empty_schematic();
    let cmd = AddLabelCommand {
        text: "NET".to_string(),
        location: LabelLocation::pin("R99", "1"),
        global: false,
        shape: LabelShape::Input,
    };
    let result = cmd.execute(&mut schematic);
    assert!(matches!(result, Err(CommandError::SymbolNotFound(_))));
}

#[test]
fn test_add_label_with_different_shapes() {
    let mut schematic = empty_schematic();
    for shape in [
        LabelShape::Input,
        LabelShape::Output,
        LabelShape::Bidirectional,
        LabelShape::TriState,
        LabelShape::Passive,
    ] {
        let cmd = AddLabelCommand {
            text: format!("NET_{:?}", shape),
            location: LabelLocation::position(mm(100.0), mm(50.0), 0),
            global: true,
            shape,
        };
        cmd.execute(&mut schematic).unwrap();
    }
    assert_eq!(schematic.global_labels.len(), 5);
}

#[test]
fn test_angle_from_pin_direction() {
    assert_eq!(angle_from_pin_direction(0), 0);
    assert_eq!(angle_from_pin_direction(90), 90);
    assert_eq!(angle_from_pin_direction(180), 180);
    assert_eq!(angle_from_pin_direction(270), 270);
}

#[test]
fn test_angle_from_pin_direction_other_turns() {
    assert_eq!(angle_from_pin_direction(450), 90);
    assert_eq!(angle_from_pin_direction(360), 0);
    assert_eq!(angle_from_pin_direction(-90), -90);
    assert_eq!(angle_from_pin_direction(45), 45);
}

#[test]
fn test_add_label_snaps_to_grid_and_pin_not_found() {
    let mut schematic = create_test_schematic_with_resistor();
    let cmd = AddLabelCommand {
        text: "A".to_string(),
        location: LabelLocation::position(mm(100.3), mm(50.0), 180),
        global: false,
        shape: LabelShape::Input,
    };
    let result = cmd.execute(&mut schematic).unwrap();
    assert_eq!(result.position, GridPoint { x: mm(100.3), y: mm(50.0) });
    assert_eq!(schematic.labels[0].position, GridPoint { x: 1003300, y: 495300 });
    assert_eq!(schematic.labels[0].shape, None);
    let cmd = AddLabelCommand {
        text: "B".to_string(),
        location: LabelLocation::pin("R1", "7"),
        global: true,
        shape: LabelShape::Output,
    };
    assert!(matches!(cmd.execute(&mut schematic), Err(CommandError::PinNotFound { .. })));
    assert!(schematic.global_labels.is_empty());
}
