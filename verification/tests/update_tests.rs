use libkicaddy::component_update::{ComponentState, ComponentUpdate};
use libkicaddy::schematic::Mirror;
use libkicaddy::tools::{ToolError, UpdateComponentTool};

fn units(v: f64) -> i32 {
    (v * 10000.0).round() as i32
}

fn part(reference: &str, value: &str, x: f64, y: f64) -> ComponentState {
    ComponentState {
        properties: vec![
            ("Reference".to_string(), reference.to_string()),
            ("Value".to_string(), value.to_string()),
        ],
        x: units(x),
        y: units(y),
        angle: 0,
        mirror: None,
        instance_refs: vec![reference.to_string()],
    }
}

fn request(reference: &str) -> ComponentUpdate {
    ComponentUpdate {
        reference: reference.to_string(),
        x: None,
        y: None,
        angle: None,
        new_reference: None,
        value: None,
        mirror: None,
    }
}

fn invalid_input(r: Result<libkicaddy::component_update::UpdateComponentOutput, ToolError>) -> String {
    match r {
        Err(ToolError::InvalidInput(m)) => m,
        _ => panic!("expected invalid input"),
    }
}

#[test]
fn update_moves_turns_mirrors_renames_and_revalues() {
    let mut parts = vec![part("R1", "10k", 100.0, 50.0), part("C1", "100n", 120.0, 50.0)];
    let mut u = request("R1");
    u.x = Some(units(101.0));
    u.angle = Some(-90);
    u.mirror = Some("X".to_string());
    u.new_reference = Some("R5".to_string());
    u.value = Some("22k".to_string());
    let out = UpdateComponentTool::update(&mut parts, &u).unwrap();
    assert_eq!(out.reference, "R5");
    assert_eq!(out.x, units(101.6));
    assert_eq!(out.y, units(50.0));
    assert_eq!(out.angle, 270);
    assert_eq!(out.value, "22k");
    assert!(out.was_snapped);
    assert_eq!(
        out.changes,
        vec![
            "x: 100 -> 101.6".to_string(),
            "angle: 0 -> 270".to_string(),
            "mirror: None -> Some(\"x\")".to_string(),
            "reference: R1 -> R5".to_string(),
            "value: 10k -> 22k".to_string(),
        ]
    );
    assert_eq!(parts[0].mirror, Some(Mirror::X));
    assert_eq!(parts[0].instance_refs, vec!["R5".to_string()]);
    assert_eq!(parts[0].properties[0].1, "R5");
    assert_eq!(parts[1].properties[0].1, "C1");
}

#[test]
fn update_without_changes_reports_none() {
    let mut parts = vec![part("R1", "10k", 100.33, 49.53)];
    let mut u = request("R1");
    u.x = Some(units(100.33));
    u.y = Some(units(49.53));
    u.angle = Some(360);
    u.mirror = Some("none".to_string());
    u.new_reference = Some("R1".to_string());
    u.value = Some("10k".to_string());
    let out = UpdateComponentTool::update(&mut parts, &u).unwrap();
    assert!(out.changes.is_empty());
    assert!(!out.was_snapped);
    assert_eq!(out.reference, "R1");
}

#[test]
fn update_refuses_bad_requests_and_changes_nothing() {
    let mut parts = vec![part("R1", "10k", 100.0, 50.0), part("C1", "100n", 120.0, 50.0)];
    match UpdateComponentTool::update(&mut parts, &request("R9")) {
        Err(ToolError::ComponentNotFound(r)) => assert_eq!(r, "R9"),
        _ => panic!("expected component not found"),
    }
    let mut u = request("R1");
    u.x = Some(units(130.0));
    u.mirror = Some("z".to_string());
    assert_eq!(invalid_input(UpdateComponentTool::update(&mut parts, &u)), "Invalid mirror value 'z'. Use 'x', 'y', or 'none'");
    let mut u = request("R1");
    u.new_reference = Some("C1".to_string());
    assert_eq!(invalid_input(UpdateComponentTool::update(&mut parts, &u)), "Reference 'C1' already exists in schematic");
    assert_eq!(parts[0].x, units(100.0));
    assert_eq!(parts[0].properties[0].1, "R1");
}
