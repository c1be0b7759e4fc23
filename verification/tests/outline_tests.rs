use libkicaddy::outline::{NetInfo, NetLabelScope};
use libkicaddy::outline_nets::{
    build_outline_nets, collect_connection_points, schematic_nets, schematic_stats, ConnectionKind, GridPoint,
    SchematicPoints, SheetPins, SymbolPins,
};
use libkicaddy::semantic_components::{component_pins, reference_key_exec};
use libkicaddy::semantic_merge::{semantic_connections, ComponentData};
use libkicaddy::semantic_outline::{ComponentType, NetData, NetScope};
use libkicaddy::semantic_text::{build_semantic_outline, SemanticSheet};

fn gp(x: i32, y: i32) -> GridPoint {
    GridPoint { x, y }
}

fn s(t: &str) -> String {
    t.to_string()
}

fn two_resistor_schematic() -> SchematicPoints {
    SchematicPoints {
        symbols: vec![
            SymbolPins {
                reference: s("R1"),
                value: s("10k"),
                pins: vec![
                    (s("1"), s("~"), Some(gp(0, 0))),
                    (s("2"), s("~"), Some(gp(100000, 0))),
                ],
            },
            SymbolPins {
                reference: s("R2"),
                value: s("1k"),
                pins: vec![
                    (s("1"), s("~"), Some(gp(200000, 0))),
                    (s("2"), s("~"), Some(gp(300000, 0))),
                ],
            },
            SymbolPins {
                reference: s("#PWR01"),
                value: s("GND"),
                pins: vec![(s("1"), s("GND"), Some(gp(300000, 2000)))],
            },
        ],
        wires: vec![vec![gp(100000, 0), gp(200000, 0)]],
        junctions: vec![],
        labels: vec![(s("SIG"), gp(100000, 0))],
        global_labels: vec![],
        hierarchical_labels: vec![],
        sheets: vec![],
    }
}

fn net_summary(n: &NetInfo) -> (String, bool, NetLabelScope, Vec<String>) {
    (n.name.clone(), n.is_global, n.scope, n.connections.clone())
}

#[test]
fn connection_points_come_in_schematic_order() {
    let pts = collect_connection_points(&two_resistor_schematic());
    assert_eq!(pts.len(), 8);
    assert!(matches!(&pts[4].kind, ConnectionKind::Label { name, scope: NetLabelScope::Global } if name == "GND"));
    assert!(matches!(pts[5].kind, ConnectionKind::WireEndpoint));
    assert!(matches!(&pts[7].kind, ConnectionKind::Label { name, scope: NetLabelScope::Local } if name == "SIG"));
}

#[test]
fn nets_follow_wires_labels_and_power_symbols() {
    let nets = schematic_nets(&two_resistor_schematic());
    let got: Vec<_> = nets.iter().map(net_summary).collect();
    assert_eq!(
        got,
        vec![
            (s("GND"), true, NetLabelScope::Global, vec![s("R2:2")]),
            (s("NET_1"), false, NetLabelScope::Local, vec![s("R1:1")]),
            (s("SIG"), false, NetLabelScope::Local, vec![s("R1:2"), s("R2:1")]),
        ]
    );
}

#[test]
fn points_farther_than_half_a_millimetre_stay_apart() {
    let mut sch = two_resistor_schematic();
    sch.symbols[2].pins[0].2 = Some(gp(300000, 5000));
    let nets = schematic_nets(&sch);
    let names: Vec<_> = nets.iter().map(|n| n.name.clone()).collect();
    assert_eq!(names, vec![s("NET_1"), s("NET_2"), s("SIG")]);
}

#[test]
fn wider_label_scope_names_the_net() {
    let mut sch = two_resistor_schematic();
    sch.global_labels.push((s("BUS"), gp(200000, 0)));
    sch.hierarchical_labels.push((s("UP"), gp(100000, 0)));
    let nets = schematic_nets(&sch);
    let bus = nets.iter().find(|n| n.name == "BUS").unwrap();
    assert!(bus.is_global);
    assert_eq!(bus.connections, vec![s("R1:2"), s("R2:1")]);
}

#[test]
fn sheet_pins_make_nets_without_component_pins() {
    let sch = SchematicPoints {
        symbols: vec![],
        wires: vec![],
        junctions: vec![gp(0, 0)],
        labels: vec![],
        global_labels: vec![],
        hierarchical_labels: vec![],
        sheets: vec![SheetPins { sheet_name: s("Power"), pins: vec![(s("VIN"), gp(0, 0))] }],
    };
    let nets = schematic_nets(&sch);
    assert_eq!(nets.len(), 1);
    assert_eq!(nets[0].name, "NET_1");
    assert_eq!(nets[0].connections, vec![s("Power:VIN")]);
    let pts = collect_connection_points(&sch);
    assert_eq!(build_outline_nets(&pts, &sch.wires).len(), 1);
}

fn comp(reference: &str, lib_id: &str, value: &str, pins: &[(&str, &str)], t: ComponentType) -> ComponentData {
    ComponentData {
        reference: s(reference),
        lib_id: s(lib_id),
        value: s(value),
        pins: pins.iter().map(|p| s(p.1)).collect(),
        pin_num_to_name: pins.iter().map(|p| (s(p.0), s(p.1))).collect(),
        description: None,
        component_type: t,
    }
}

fn pullup_components() -> Vec<ComponentData> {
    vec![
        comp("R1", "Device:R", "10k", &[("1", "1"), ("2", "2")], ComponentType::Resistor),
        comp("U1", "MCU:ESP32", "ESP32", &[("5", "GPIO0")], ComponentType::Other),
    ]
}

fn pullup_nets() -> Vec<NetInfo> {
    vec![
        NetInfo { name: s("NET_1"), is_global: false, scope: NetLabelScope::Local, connections: vec![s("R1:2"), s("U1:5")] },
        NetInfo { name: s("VCC"), is_global: true, scope: NetLabelScope::Global, connections: vec![s("R1:1")] },
    ]
}

#[test]
fn pullup_is_folded_into_its_signal_net() {
    let outline = build_semantic_outline(&pullup_components(), &pullup_nets(), vec![]);
    assert_eq!(outline.absorbed_components, vec![s("R1")]);
    assert_eq!(outline.connections.len(), 1);
    assert_eq!(outline.connections[0].to_string(), "$PULLUP(R1, 10k, &VCC), U1:GPIO0");
    assert_eq!(
        outline.to_text(),
        "Components:\n  MCU:ESP32\n    Instances: U1\n    Pins: GPIO0\n\nConnections:\n\n$PULLUP(R1, 10k, &VCC), U1:GPIO0"
    );
}

#[test]
fn series_chain_nests_switch_into_resistor() {
    // U1:RESET and U2:X -- R9 -- SW2 -- GND
    let comps = vec![
        comp("R9", "Device:R", "1K", &[("1", "1"), ("2", "2")], ComponentType::Resistor),
        comp("SW2", "Switch:SW_Push", "", &[("1", "1"), ("2", "2")], ComponentType::Switch),
        comp("U1", "MCU:X", "X", &[("7", "RESET")], ComponentType::Other),
    ];
    let nets = vec![
        NetData { name: Some(s("GND")), scope: NetScope::Global, pins: vec![(s("SW2"), s("2"))] },
        NetData { name: Some(s("NET_1")), scope: NetScope::Local, pins: vec![(s("R9"), s("2")), (s("SW2"), s("1"))] },
        NetData {
            name: Some(s("NET_2")),
            scope: NetScope::Local,
            pins: vec![(s("R9"), s("1")), (s("U1"), s("RESET")), (s("U2"), s("X"))],
        },
    ];
    let (connections, absorbed) = semantic_connections(&comps, &nets);
    assert_eq!(absorbed, vec![s("SW2"), s("R9")]);
    let lines: Vec<String> = connections.iter().map(|c| c.to_string()).collect();
    assert_eq!(lines, vec![s("$RESISTOR(R9, 1K, $SWITCH(SW2, &GND)), U1:RESET, U2:X")]);
}

#[test]
fn component_pins_sorted_without_repeats() {
    let lib = vec![(s("1"), s("~")), (s("2"), s("VCC")), (s("3"), s("")), (s("4"), s("VCC"))];
    let (pins, map) = component_pins(Some(&lib), &vec![]);
    assert_eq!(pins, vec![s("1"), s("3"), s("VCC")]);
    assert_eq!(map[1], (s("2"), s("VCC")));
    assert_eq!(map[2], (s("3"), s("3")));
    let (pins, map) = component_pins(None, &vec![s("A"), s("B")]);
    assert_eq!(pins, vec![s("A"), s("B")]);
    assert_eq!(map, vec![(s("A"), s("A")), (s("B"), s("B"))]);
}

#[test]
fn reference_keys_split_letters_and_number() {
    assert_eq!(reference_key_exec("R12"), (s("R"), 12));
    assert_eq!(reference_key_exec("U1A"), (s("U"), 0));
    assert_eq!(reference_key_exec("#PWR01"), (s(""), 0));
    assert_eq!(reference_key_exec("C-5"), (s("C"), -5));
    assert_eq!(reference_key_exec("Q+7"), (s("Q"), 7));
    assert_eq!(reference_key_exec("X99999999999"), (s("X"), 0));
}

#[test]
fn components_sorted_by_reference_number() {
    let comps = vec![
        comp("R10", "Device:L", "", &[], ComponentType::Inductor),
        comp("R9", "Device:L", "R9", &[], ComponentType::Inductor),
        comp("C1", "Device:L", "10uH", &[], ComponentType::Inductor),
    ];
    let sheets = vec![
        SemanticSheet { name: s("Power"), file: s("power.kicad_sch"), pins: vec![s("VIN")] },
        SemanticSheet { name: s("Logic"), file: s("logic.kicad_sch"), pins: vec![] },
    ];
    let outline = build_semantic_outline(&comps, &vec![], sheets);
    let refs: Vec<_> = outline.components.iter().map(|c| c.reference.clone()).collect();
    assert_eq!(refs, vec![s("C1"), s("R9"), s("R10")]);
    assert_eq!(
        outline.to_text(),
        "Components:\n  Device:L\n    Instances: C1=10uH R9 R10\n\nSheets:\n  Logic\n    File: logic.kicad_sch\n  Power\n    File: power.kicad_sch\n    Pins: VIN\n\nConnections:\n"
    );
}

#[test]
fn outline_stats_count_schematic_items_and_nets() {
    let sch = two_resistor_schematic();
    let nets = schematic_nets(&sch);
    let stats = schematic_stats(&sch, &nets);
    assert_eq!(stats.component_count, 3);
    assert_eq!(stats.wire_count, 1);
    assert_eq!(stats.junction_count, 0);
    assert_eq!(stats.label_count, 1);
    assert_eq!(stats.global_label_count, 0);
    assert_eq!(stats.net_count, 3);
}
