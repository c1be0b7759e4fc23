use libkicaddy::commands::CommandError;
use libkicaddy::component_edit::{resolve_endpoint, PlacedComponent, PlacedPin, SchematicItems};
use libkicaddy::outline_nets::GridPoint;
use libkicaddy::schematic::RoutingMode;
use libkicaddy::wire_edit::{AddWireCommand, WireEndpoint};

/// Millimetres in grid units.
fn mm(v: f64) -> i32 {
    (v * 10000.0).round() as i32
}

fn empty_schematic() -> SchematicItems {
    SchematicItems {
        lib_symbols: vec![],
        components: vec![],
        wires: vec![],
        labels: vec![],
        global_labels: vec![],
        junctions: vec![],
    }
}

/// A resistor at (100, 50) whose two pins attach there.
fn create_test_schematic_with_resistor() -> SchematicItems {
    let at = GridPoint { x: mm(100.0), y: mm(50.0) };
    let mut s = empty_schematic();
    s.lib_symbols.push("Device:R".to_string());
    s.components.push(PlacedComponent {
        properties: vec![("Reference".to_string(), "R1".to_string())],
        lib_id: "Device:R".to_string(),
        pins: vec![
            PlacedPin { number: "1".to_string(), name: "~".to_string(), position: at, angle: 270 },
            PlacedPin { number: "2".to_string(), name: "~".to_string(), position: at, angle: 90 },
        ],
        instance_pins: vec![],
    });
    s
}

#[test]
fn test_add_wire_point_to_point() {
    let mut schematic = empty_schematic();
    let cmd = AddWireCommand {
        from: WireEndpoint::point(mm(100.0), mm(50.0)),
        to: WireEndpoint::point(mm(150.0), mm(50.0)),
        routing: RoutingMode::Direct,
    };
    let result = cmd.execute(&mut schematic).unwrap();
    assert_eq!(schematic.wires.len(), 1);
    assert_eq!(result.from.x, mm(100.0));
    assert_eq!(result.to.x, mm(150.0));
}

#[test]
fn test_add_wire_pin_to_point() {
    let mut schematic = create_test_schematic_with_resistor();
    let cmd = AddWireCommand {
        from: WireEndpoint::pin("R1", "1"),
        to: WireEndpoint::point(mm(150.0), mm(50.0)),
        routing: RoutingMode::Direct,
    };
    let result = cmd.execute(&mut schematic).unwrap();
    assert_eq!(schematic.wires.len(), 1);
    assert!((result.from.x - mm(100.0)).abs() < 100);
}

#[test]
fn test_add_wire_symbol_not_found() {
    let mut schematic = empty_schematic();
    let cmd = AddWireCommand {
        from: WireEndpoint::pin("R99", "1"),
        to: WireEndpoint::point(mm(150.0), mm(50.0)),
        routing: RoutingMode::Direct,
    };
    let result = cmd.execute(&mut schematic);
    assert!(matches!(result, Err(CommandError::SymbolNotFound(_))));
}

#[test]
fn test_add_wire_pin_not_found() {
    let mut schematic = create_test_schematic_with_resistor();
    let cmd = AddWireCommand {
        from: WireEndpoint::pin("R1", "99"),
        to: WireEndpoint::point(mm(150.0), mm(50.0)),
        routing: RoutingMode::Direct,
    };
    let result = cmd.execute(&mut schematic);
    assert!(matches!(result, Err(CommandError::PinNotFound { .. })));
    assert!(schematic.wires.is_empty());
}

#[test]
fn test_add_wire_snaps_and_routes() {
    let mut schematic = empty_schematic();
    let cmd = AddWireCommand {
        from: WireEndpoint::point(mm(100.3), mm(50.0)),
        to: WireEndpoint::point(mm(120.0), mm(60.0)),
        routing: RoutingMode::Orthogonal,
    };
    let result = cmd.execute(&mut schematic).unwrap();
    // The result reports the ends as asked; the wire itself lies on the grid.
    assert_eq!(result.from, GridPoint { x: mm(100.3), y: mm(50.0) });
    let snapped_x = mm(100.33);
    let w = &schematic.wires[0];
    assert_eq!(w.len(), 3);
    assert_eq!(w[0], GridPoint { x: snapped_x, y: 495300 });
    assert_eq!(w[1], GridPoint { x: 1193800, y: 495300 });
    assert_eq!(w[2], GridPoint { x: 1193800, y: 596900 });
}

#[test]
fn test_resolve_endpoint_by_name() {
    let mut schematic = create_test_schematic_with_resistor();
    schematic.components[0].pins[1].name = "OUT".to_string();
    assert_eq!(resolve_endpoint(&schematic, "R1", "OUT").unwrap(), GridPoint { x: mm(100.0), y: mm(50.0) });
    match resolve_endpoint(&schematic, "R1", "IN") {
        Err(CommandError::PinNotFound { reference, pin }) => {
            assert_eq!(reference, "R1");
            assert_eq!(pin, "IN");
        }
        _ => panic!("expected PinNotFound"),
    }
}
