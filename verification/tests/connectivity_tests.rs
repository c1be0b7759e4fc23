use libkicaddy::connectivity::ConnectivityGraph;
use libkicaddy::outline_nets::{ConnectionKind, GridPoint, SchematicPoints, SymbolPins};

fn gp(x: i32, y: i32) -> GridPoint {
    GridPoint { x, y }
}

fn s(t: &str) -> String {
    t.to_string()
}

fn empty_schematic() -> SchematicPoints {
    SchematicPoints {
        symbols: vec![],
        wires: vec![],
        junctions: vec![],
        labels: vec![],
        global_labels: vec![],
        hierarchical_labels: vec![],
        sheets: vec![],
    }
}

fn resistor(reference: &str, value: &str, a: GridPoint, b: GridPoint) -> SymbolPins {
    SymbolPins {
        reference: s(reference),
        value: s(value),
        pins: vec![(s("1"), s("~"), Some(a)), (s("2"), s("~"), Some(b))],
    }
}

fn two_resistors() -> SchematicPoints {
    let mut sch = empty_schematic();
    sch.symbols = vec![
        resistor("R1", "10k", gp(0, 0), gp(100000, 0)),
        resistor("R2", "1k", gp(200000, 0), gp(300000, 0)),
        SymbolPins {
            reference: s("#PWR01"),
            value: s("GND"),
            pins: vec![(s("1"), s("GND"), Some(gp(300000, 2000)))],
        },
    ];
    sch.wires = vec![vec![gp(100000, 0), gp(200000, 0)]];
    sch.labels = vec![(s("SIG"), gp(100000, 0))];
    sch
}

fn pair(a: &str, b: &str) -> (String, String) {
    (s(a), s(b))
}

#[test]
fn test_empty_schematic() {
    let schematic = empty_schematic();
    let graph = ConnectivityGraph::from_schematic(&schematic);
    assert!(graph.connection_points().is_empty());
    assert!(graph.pin_to_net().is_empty());
}

#[test]
fn graph_points_keep_schematic_order() {
    let graph = ConnectivityGraph::from_schematic(&two_resistors());
    let pts = graph.connection_points();
    assert_eq!(pts.len(), 8);
    assert!(matches!(&pts[4].kind, ConnectionKind::Pin { reference, .. } if reference == "#PWR01"));
    assert!(matches!(pts[5].kind, ConnectionKind::WireEndpoint));
    assert!(matches!(pts[6].kind, ConnectionKind::WireEndpoint));
    assert!(matches!(&pts[7].kind, ConnectionKind::Label { name, .. } if name == "SIG"));
}

#[test]
fn pins_get_label_or_numbered_net_names() {
    let graph = ConnectivityGraph::from_schematic(&two_resistors());
    let table = graph.pin_to_net().clone();
    assert_eq!(
        table,
        vec![
            (pair("R1", "1"), s("NET_1")),
            (pair("R1", "2"), s("SIG")),
            (pair("R2", "1"), s("SIG")),
            (pair("R2", "2"), s("NET_2")),
            (pair("#PWR01", "1"), s("NET_2")),
        ]
    );
    assert_eq!(graph.get_net_for_pin("R2", "1"), Some(&s("SIG")));
    assert_eq!(graph.get_net_for_pin("R2", "2"), Some(&s("NET_2")));
    assert_eq!(graph.get_net_for_pin("R9", "1"), None);
}

#[test]
fn connected_pins_exclude_the_pin_itself() {
    let graph = ConnectivityGraph::from_schematic(&two_resistors());
    assert_eq!(graph.get_connected_pins("R1", "2"), vec![pair("R2", "1")]);
    assert_eq!(graph.get_connected_pins("R2", "2"), vec![pair("#PWR01", "1")]);
    assert!(graph.get_connected_pins("R1", "1").is_empty());
    assert!(graph.get_connected_pins("R9", "1").is_empty());
}

#[test]
fn positions_connect_within_half_a_millimetre() {
    let graph = ConnectivityGraph::from_schematic(&two_resistors());
    assert!(graph.are_connected(gp(100000, 0), gp(200000, 0)));
    assert!(graph.are_connected(gp(100000, 3000), gp(200000, 0)));
    assert!(!graph.are_connected(gp(0, 0), gp(100000, 0)));
    assert!(!graph.are_connected(gp(0, 0), gp(50000, 50000)));
    assert!(!graph.are_connected(gp(100000, 6000), gp(100000, 0)));
}

#[test]
fn global_label_names_a_net_before_a_local_one() {
    let mut sch = empty_schematic();
    sch.symbols = vec![resistor("R1", "10k", gp(0, 0), gp(100000, 0))];
    sch.labels = vec![(s("LOCAL"), gp(0, 0))];
    sch.global_labels = vec![(s("VCC"), gp(0, 0)), (s("OTHER"), gp(0, 1000))];
    let graph = ConnectivityGraph::from_schematic(&sch);
    assert_eq!(graph.get_net_for_pin("R1", "1"), Some(&s("VCC")));
    assert_eq!(graph.get_net_for_pin("R1", "2"), Some(&s("NET_1")));
}

#[test]
fn wire_segments_join_through_intermediate_points() {
    let mut sch = empty_schematic();
    sch.symbols = vec![
        resistor("R1", "10k", gp(0, 0), gp(100000, 0)),
        resistor("R2", "10k", gp(100000, 200000), gp(200000, 200000)),
    ];
    sch.wires = vec![vec![gp(100000, 0), gp(100000, 100000), gp(100000, 200000)]];
    let graph = ConnectivityGraph::from_schematic(&sch);
    assert_eq!(graph.get_connected_pins("R1", "2"), vec![pair("R2", "1")]);
    assert_eq!(graph.get_net_for_pin("R1", "2"), graph.get_net_for_pin("R2", "1"));
    assert_eq!(graph.get_net_for_pin("R1", "2"), Some(&s("NET_2")));
}

use libkicaddy::tools::GetNetlistTool;

fn netlist_of(graph: &ConnectivityGraph, comps: &Vec<(String, Vec<String>)>, filter: Option<&str>) -> Vec<(String, String)> {
    let out = GetNetlistTool::execute_on(graph, comps, &filter.map(|f| f.to_string()));
    assert_eq!(out.count, out.entries.len());
    out.entries.iter().map(|e| (e.pin.clone(), e.connections.clone())).collect()
}

fn components_of_two_resistors() -> Vec<(String, Vec<String>)> {
    vec![
        (s("R1"), vec![s("1"), s("2")]),
        (s("R2"), vec![s("1"), s("2")]),
        (s("#PWR01"), vec![s("1")]),
    ]
}

#[test]
fn netlist_lists_each_net_once_from_its_first_pin() {
    let graph = ConnectivityGraph::from_schematic(&two_resistors());
    let got = netlist_of(&graph, &components_of_two_resistors(), None);
    assert_eq!(
        got,
        vec![
            pair("R1:1", "unconnected"),
            pair("R1:2", "&SIG"),
            pair("R2:2", "#PWR01:1"),
        ]
    );
}

#[test]
fn netlist_filter_keeps_one_component() {
    let graph = ConnectivityGraph::from_schematic(&two_resistors());
    let got = netlist_of(&graph, &components_of_two_resistors(), Some("R2"));
    assert_eq!(got, vec![pair("R2:1", "&SIG"), pair("R2:2", "#PWR01:1")]);
    assert!(netlist_of(&graph, &components_of_two_resistors(), Some("R7")).is_empty());
}

#[test]
fn netlist_sorts_by_reference_letters_then_number() {
    let mut sch = empty_schematic();
    sch.symbols = vec![
        SymbolPins { reference: s("U10"), value: s("x"), pins: vec![(s("1"), s("A"), Some(gp(0, 0)))] },
        SymbolPins { reference: s("U2"), value: s("x"), pins: vec![(s("1"), s("A"), Some(gp(100000, 0)))] },
        SymbolPins { reference: s("C1"), value: s("x"), pins: vec![(s("1"), s("A"), Some(gp(200000, 0)))] },
        SymbolPins { reference: s("TP"), value: s("x"), pins: vec![(s("1"), s("A"), Some(gp(300000, 0)))] },
    ];
    let graph = ConnectivityGraph::from_schematic(&sch);
    let comps = vec![
        (s("U10"), vec![s("1")]),
        (s("U2"), vec![s("1")]),
        (s("C1"), vec![s("1")]),
        (s("TP"), vec![s("1")]),
    ];
    let got = netlist_of(&graph, &comps, None);
    let pins: Vec<String> = got.iter().map(|e| e.0.clone()).collect();
    assert_eq!(pins, vec![s("C1:1"), s("TP:1"), s("U2:1"), s("U10:1")]);
}

#[test]
fn netlist_shows_wired_pins_of_unlabelled_nets() {
    let mut sch = empty_schematic();
    sch.symbols = vec![
        resistor("R1", "10k", gp(0, 0), gp(100000, 0)),
        resistor("R2", "10k", gp(100000, 200000), gp(200000, 200000)),
        resistor("R3", "10k", gp(100000, 100000), gp(300000, 100000)),
    ];
    sch.wires = vec![vec![gp(100000, 0), gp(100000, 100000), gp(100000, 200000)]];
    let graph = ConnectivityGraph::from_schematic(&sch);
    let comps = vec![(s("R1"), vec![s("2")]), (s("R2"), vec![s("1")]), (s("R3"), vec![s("1")])];
    let got = netlist_of(&graph, &comps, None);
    assert_eq!(got, vec![pair("R1:2", "R2:1, R3:1")]);
}
