use libkicaddy::commands::CommandError;
use libkicaddy::outline_nets::GridPoint;
use libkicaddy::wire_edit::{delete_wire_at, DeleteWireCommand};

fn mm(x: f64, y: f64) -> GridPoint {
    GridPoint { x: (x * 10000.0).round() as i32, y: (y * 10000.0).round() as i32 }
}

#[test]
fn test_delete_wire_basic() {
    let mut wires = vec![vec![mm(100.0, 50.0), mm(150.0, 50.0)]];
    assert_eq!(wires.len(), 1);
    DeleteWireCommand { point: mm(125.0, 50.0) }.execute(&mut wires).unwrap();
    assert_eq!(wires.len(), 0);
}

#[test]
fn test_delete_wire_near_point() {
    let mut wires = vec![vec![mm(100.0, 50.0), mm(150.0, 50.0)]];
    DeleteWireCommand { point: mm(125.0, 50.5) }.execute(&mut wires).unwrap();
    assert_eq!(wires.len(), 0);
}

#[test]
fn test_delete_wire_not_found() {
    let mut wires = vec![vec![mm(100.0, 50.0), mm(150.0, 50.0)]];
    let result = DeleteWireCommand { point: mm(200.0, 200.0) }.execute(&mut wires);
    assert!(matches!(result, Err(CommandError::WireNotFound(_))));
    assert_eq!(wires.len(), 1);
}

#[test]
fn test_delete_wire_at_endpoint() {
    let mut wires = vec![vec![mm(100.0, 50.0), mm(150.0, 50.0)]];
    DeleteWireCommand { point: mm(100.0, 50.0) }.execute(&mut wires).unwrap();
    assert_eq!(wires.len(), 0);
}

#[test]
fn test_delete_wire_multi_segment() {
    let mut wires = vec![vec![mm(100.0, 50.0), mm(150.0, 50.0), mm(150.0, 80.0)]];
    DeleteWireCommand { point: mm(150.0, 65.0) }.execute(&mut wires).unwrap();
    assert_eq!(wires.len(), 0);
}

#[test]
fn test_delete_correct_wire_when_multiple() {
    let first = vec![mm(100.0, 50.0), mm(150.0, 50.0)];
    let second = vec![mm(100.0, 100.0), mm(150.0, 100.0)];
    let mut wires = vec![first, second.clone()];
    assert_eq!(wires.len(), 2);
    DeleteWireCommand { point: mm(125.0, 50.0) }.execute(&mut wires).unwrap();
    assert_eq!(wires.len(), 1);
    assert_eq!(wires[0], second);
}

#[test]
fn test_delete_wire_at() {
    let mut wires = vec![vec![mm(100.33, 49.53), mm(149.86, 49.53)]];
    assert!(delete_wire_at(&mut wires, mm(125.0, 50.0)));
    assert_eq!(wires.len(), 0);
}

#[test]
fn test_delete_wire_at_not_found() {
    let mut wires = vec![vec![mm(100.33, 49.53), mm(149.86, 49.53)]];
    assert!(!delete_wire_at(&mut wires, mm(200.0, 200.0)));
    assert_eq!(wires.len(), 1);
}

#[test]
fn wire_tolerance_is_one_grid_step() {
    let mut wires = vec![vec![mm(0.0, 0.0), mm(10.0, 0.0)]];
    assert!(!delete_wire_at(&mut wires, mm(5.0, 1.27)));
    assert!(!delete_wire_at(&mut wires, mm(-1.27, 0.0)));
    assert!(!delete_wire_at(&mut wires, mm(10.9, 0.9)));
    assert!(delete_wire_at(&mut wires, mm(10.8, 0.9)));
    let mut dot = vec![vec![mm(3.0, 3.0), mm(3.0, 3.005)], vec![mm(0.0, 0.0)]];
    assert!(!delete_wire_at(&mut dot, mm(3.0, 4.28)));
    assert!(delete_wire_at(&mut dot, mm(3.0, 4.26)));
    assert_eq!(dot.len(), 1);
    let mut far = vec![vec![GridPoint { x: i32::MIN, y: i32::MIN }, GridPoint { x: i32::MAX, y: i32::MAX }]];
    assert!(!delete_wire_at(&mut far, GridPoint { x: i32::MAX, y: i32::MIN }));
    assert!(delete_wire_at(&mut far, GridPoint { x: 0, y: 0 }));
}

use libkicaddy::schematic::RoutingMode;
use libkicaddy::wire_edit::{route_wire, snap_point_to_grid, snap_to_grid};

/// A length in millimetres as grid units.
fn units(v: f64) -> i32 {
    (v * 10000.0).round() as i32
}

#[test]
fn mod_test_snap_to_grid() {
    assert_eq!(snap_to_grid(units(100.0)), units(100.33));
    assert_eq!(snap_to_grid(units(1.27)), units(1.27));
    assert_eq!(snap_to_grid(units(0.0)), units(0.0));
}

#[test]
fn config_test_snap_to_grid() {
    assert_eq!(snap_to_grid(units(0.0)), units(0.0));
    assert_eq!(snap_to_grid(units(1.27)), units(1.27));
    assert_eq!(snap_to_grid(units(1.0)), units(1.27));
    assert_eq!(snap_to_grid(units(0.5)), units(0.0));
    assert_eq!(snap_to_grid(units(2.54)), units(2.54));
    assert_eq!(snap_to_grid(units(2.0)), units(2.54));
}

#[test]
fn snapping_rounds_halves_away_from_zero() {
    assert_eq!(snap_to_grid(6350), 12700);
    assert_eq!(snap_to_grid(6349), 0);
    assert_eq!(snap_to_grid(-6350), -12700);
    assert_eq!(snap_to_grid(-6349), 0);
    assert_eq!(snap_to_grid(i32::MAX), 2147481100);
    assert_eq!(snap_to_grid(i32::MIN), -2147481100);
    assert_eq!(snap_point_to_grid(mm(150.0, 50.0)), mm(149.86, 49.53));
}

#[test]
fn new_wire_points_are_snapped() {
    let pts = route_wire(mm(100.0, 50.0), mm(150.0, 50.0), RoutingMode::Direct);
    assert_eq!(pts.len(), 2);
    assert_eq!(pts[0].x, units(100.33));
    assert_eq!(pts[1].x, units(149.86));
}

#[test]
fn orthogonal_routing_adds_a_corner() {
    let pts = route_wire(mm(100.0, 50.0), mm(150.0, 80.0), RoutingMode::Orthogonal);
    assert_eq!(pts.len(), 3);
    assert_eq!(pts[1], GridPoint { x: pts[2].x, y: pts[0].y });
    let vh = route_wire(mm(100.0, 50.0), mm(150.0, 80.0), RoutingMode::OrthogonalVH);
    assert_eq!(vh.len(), 3);
    assert_eq!(vh[1], GridPoint { x: vh[0].x, y: vh[2].y });
    let straight = route_wire(mm(100.0, 50.0), mm(150.0, 49.9), RoutingMode::Orthogonal);
    assert_eq!(straight.len(), 2);
}
