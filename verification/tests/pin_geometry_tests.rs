use libkicaddy::outline_nets::GridPoint;
use libkicaddy::pin_geometry::{pin_position, LibPinGeometry, Placement};
use libkicaddy::schematic::Mirror;

fn units(v: f64) -> i32 {
    (v * 10000.0).round() as i32
}

fn pin(x: f64, y: f64, angle: i32, length: f64) -> LibPinGeometry {
    LibPinGeometry { x: units(x), y: units(y), angle, length: units(length) }
}

fn at(x: f64, y: f64, angle: i32, mirror: Option<Mirror>) -> Placement {
    Placement { x: units(x), y: units(y), angle, mirror }
}

fn gp(x: f64, y: f64) -> GridPoint {
    GridPoint { x: units(x), y: units(y) }
}

#[test]
fn resistor_pins_attach_at_their_far_ends() {
    let p1 = pin(0.0, 3.81, 270, 1.27);
    let p2 = pin(0.0, -3.81, 90, 1.27);
    assert_eq!(pin_position(p1, at(100.0, 50.0, 0, None)), Some((gp(100.0, 52.54), 270)));
    assert_eq!(pin_position(p2, at(100.0, 50.0, 0, None)), Some((gp(100.0, 47.46), 90)));
}

#[test]
fn rotation_and_mirroring_move_the_pin() {
    let p1 = pin(0.0, 3.81, 270, 1.27);
    assert_eq!(pin_position(p1, at(100.0, 50.0, 90, None)), Some((gp(97.46, 50.0), 0)));
    assert_eq!(pin_position(p1, at(100.0, 50.0, 180, None)), Some((gp(100.0, 47.46), 90)));
    assert_eq!(pin_position(p1, at(100.0, 50.0, -90, None)), Some((gp(102.54, 50.0), 180)));
    assert_eq!(pin_position(p1, at(100.0, 50.0, 0, Some(Mirror::X))), Some((gp(100.0, 47.46), 270)));
    let side = pin(-5.08, 0.0, 0, 2.54);
    assert_eq!(pin_position(side, at(10.0, 10.0, 0, Some(Mirror::Y))), Some((gp(17.62, 10.0), 0)));
}

#[test]
fn other_angles_are_left_to_the_caller() {
    assert_eq!(pin_position(pin(0.0, 1.0, 45, 1.0), at(0.0, 0.0, 0, None)), None);
    assert_eq!(pin_position(pin(0.0, 1.0, 90, 1.0), at(0.0, 0.0, 30, None)), None);
}
