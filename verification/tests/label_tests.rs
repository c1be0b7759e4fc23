use libkicaddy::commands::CommandError;
use libkicaddy::label_edit::{delete_label, find_label_to_delete, DeleteLabelCommand, LabelDeletion, PlacedLabel};
use libkicaddy::component_edit::SchematicItems;
use libkicaddy::outline_nets::GridPoint;
use libkicaddy::schematic::LabelShape;

/// A position given in millimetres, on the 1/10000 mm grid.
fn mm(x: f64, y: f64) -> GridPoint {
    GridPoint { x: (x * 10000.0).round() as i32, y: (y * 10000.0).round() as i32 }
}

fn empty_items() -> SchematicItems {
    SchematicItems { lib_symbols: vec![], components: vec![], wires: vec![], labels: vec![], global_labels: vec![], junctions: vec![] }
}

fn label(text: &str, x: f64, y: f64) -> PlacedLabel {
    PlacedLabel { text: text.to_string(), position: mm(x, y), angle: 0, shape: None }
}

#[test]
fn test_delete_local_label_by_name() {
    let mut labels = vec![label("NET1", 100.0, 50.0)];
    let mut globals = vec![];
    let cmd = DeleteLabelCommand { name: "NET1".to_string(), position: None };
    cmd.execute(&mut labels, &mut globals).unwrap();
    assert_eq!(labels.len(), 0);
}

#[test]
fn delete_label_test_delete_global_label() {
    let mut labels = vec![];
    let mut globals = vec![label("VCC", 100.0, 50.0)];
    let cmd = DeleteLabelCommand { name: "VCC".to_string(), position: None };
    cmd.execute(&mut labels, &mut globals).unwrap();
    assert_eq!(globals.len(), 0);
}

#[test]
fn delete_label_test_delete_label_by_position() {
    let mut labels = vec![label("NET", 100.0, 50.0), label("NET", 150.0, 50.0)];
    let mut globals = vec![];
    let cmd = DeleteLabelCommand { name: "NET".to_string(), position: Some(mm(150.0, 50.0)) };
    cmd.execute(&mut labels, &mut globals).unwrap();
    assert_eq!(labels.len(), 1);
    assert_eq!(labels[0].position, mm(100.0, 50.0));
}

#[test]
fn test_delete_label_not_found() {
    let mut labels = vec![];
    let mut globals = vec![];
    let cmd = DeleteLabelCommand { name: "NONEXISTENT".to_string(), position: None };
    let result = cmd.execute(&mut labels, &mut globals);
    assert!(matches!(result, Err(CommandError::LabelNotFound { .. })));
}

#[test]
fn test_delete_label_wrong_position() {
    let mut labels = vec![label("NET1", 100.0, 50.0)];
    let mut globals = vec![];
    let cmd = DeleteLabelCommand { name: "NET1".to_string(), position: Some(mm(200.0, 200.0)) };
    let result = cmd.execute(&mut labels, &mut globals);
    assert!(matches!(result, Err(CommandError::LabelNotFound { .. })));
    assert_eq!(labels.len(), 1);
    match result {
        Err(e) => assert_eq!(e.to_string(), "Label 'NET1' not found at (200, 200)"),
        Ok(()) => panic!("expected an error"),
    }
}

#[test]
fn test_delete_first_matching_label_when_no_position() {
    let mut labels = vec![label("NET", 100.0, 50.0), label("NET", 150.0, 50.0)];
    let mut globals = vec![];
    let cmd = DeleteLabelCommand { name: "NET".to_string(), position: None };
    cmd.execute(&mut labels, &mut globals).unwrap();
    assert_eq!(labels.len(), 1);
    assert_eq!(labels[0].position, mm(150.0, 50.0));
}

#[test]
fn test_delete_label() {
    let mut sch = empty_items();
    sch.add_label("NET1", mm(100.0, 50.0), 0);
    sch.add_label("NET2", mm(150.0, 50.0), 0);
    assert_eq!(sch.labels.len(), 2);
    assert!(delete_label(&mut sch.labels, &mut sch.global_labels, "NET1", None));
    assert_eq!(sch.labels.len(), 1);
    assert_eq!(sch.labels[0].text, "NET2");
}

#[test]
fn mod_test_delete_label_by_position() {
    let mut sch = empty_items();
    sch.add_label("NET", mm(100.0, 50.0), 0);
    sch.add_label("NET", mm(150.0, 50.0), 0);
    assert_eq!(sch.labels.len(), 2);
    assert!(delete_label(&mut sch.labels, &mut sch.global_labels, "NET", Some(mm(149.86, 49.53))));
    assert_eq!(sch.labels.len(), 1);
}

#[test]
fn mod_test_delete_global_label() {
    let mut sch = empty_items();
    sch.add_global_label("VCC", mm(100.0, 50.0), 0, LabelShape::Input);
    assert_eq!(sch.global_labels.len(), 1);
    assert!(delete_label(&mut sch.labels, &mut sch.global_labels, "VCC", None));
    assert_eq!(sch.global_labels.len(), 0);
}

#[test]
fn label_position_tolerance_is_a_tenth_of_a_millimetre() {
    let labels = vec![label("NET", 100.0, 50.0)];
    let globals = vec![label("NET", 120.0, 50.0)];
    assert_eq!(find_label_to_delete(&labels, &globals, "NET", Some(mm(100.09, 49.91))), Some(LabelDeletion::Local(0)));
    assert_eq!(find_label_to_delete(&labels, &globals, "NET", Some(mm(100.1, 50.0))), None);
    assert_eq!(find_label_to_delete(&labels, &globals, "NET", Some(mm(120.0, 50.05))), Some(LabelDeletion::Global(0)));
    assert_eq!(find_label_to_delete(&labels, &globals, "net", None), None);
}

#[test]
fn command_error_messages_give_positions_in_millimetres() {
    assert_eq!(CommandError::WireNotFound(mm(149.86, -1.27)).to_string(), "No wire found at (149.86, -1.27)");
    assert_eq!(
        CommandError::LabelNotFound { name: "GND".to_string(), position: None }.to_string(),
        "Label 'GND' not found"
    );
}
