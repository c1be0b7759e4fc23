use libkicaddy::mcp::{execute_netlist, NetConnection};

fn conn(net: Option<&str>, pins: &[&str]) -> NetConnection {
    NetConnection { net: net.map(|n| n.to_string()), pins: pins.iter().map(|p| p.to_string()).collect() }
}

fn sample() -> Vec<NetConnection> {
    vec![
        conn(Some("VCC"), &["U1:VDD", "C1:1"]),
        conn(None, &["U1:TX", "J1:2"]),
        conn(Some("GND"), &["U1:GND", "C1:2"]),
        conn(Some("VCC"), &["R1:1"]),
        conn(None, &["U1:NC"]),
    ]
}

#[test]
fn netlist_text_lists_named_nets_in_order_then_wires() {
    assert_eq!(
        execute_netlist(&sample(), None),
        "&GND: U1:GND, C1:2\n&VCC: U1:VDD, C1:1, R1:1\nU1:TX - J1:2"
    );
}

#[test]
fn netlist_text_filter_keeps_one_component() {
    assert_eq!(execute_netlist(&sample(), Some("U1")), "&GND: U1:GND\n&VCC: U1:VDD");
    assert_eq!(execute_netlist(&sample(), Some("C1")), "&GND: C1:2\n&VCC: C1:1");
}

#[test]
fn netlist_text_filter_needs_the_colon_after_the_reference() {
    assert_eq!(execute_netlist(&sample(), Some("U")), "No connections defined");
}

#[test]
fn netlist_text_without_connections() {
    assert_eq!(execute_netlist(&vec![], None), "No connections defined");
    assert_eq!(execute_netlist(&vec![conn(None, &["R1:1"])], None), "No connections defined");
}
