use libkicaddy::commands::{CommandError, ConnectCommand};
use libkicaddy::connect_plan::ConnectStrategy;

fn cmd(eps: &[&str]) -> ConnectCommand {
    ConnectCommand { endpoints: eps.iter().map(|e| e.to_string()).collect() }
}

fn other_message(r: Result<libkicaddy::connect_plan::ConnectPlan, CommandError>) -> String {
    match r {
        Err(CommandError::Other(m)) => m,
        _ => panic!("expected an error"),
    }
}

#[test]
fn two_pins_plan_one_wire() {
    let plan = cmd(&["R1:1", "C1:1"]).plan().unwrap();
    assert!(matches!(plan.strategy, ConnectStrategy::Wire));
    let result = plan.output();
    assert_eq!(result.wires_created, 1);
    assert_eq!(result.junctions_created, 0);
    assert!(result.labels_created.is_empty());
}

#[test]
fn pin_to_power_net_plans_a_global_label() {
    let plan = cmd(&["R1:2", "&GND"]).plan().unwrap();
    assert!(matches!(&plan.strategy, ConnectStrategy::Labels { net, global: true } if net == "GND"));
    let result = plan.output();
    assert_eq!(result.wires_created, 0);
    assert_eq!(result.labels_created.len(), 1);
    assert_eq!(result.labels_created[0], "GND");
    assert_eq!(result.net_name, Some("GND".to_string()));
}

#[test]
fn connect_needs_two_endpoints() {
    let result = cmd(&["R1:1"]).plan();
    assert_eq!(other_message(result), "At least 2 endpoints are required for a connection");
}

#[test]
fn signal_nets_get_local_labels() {
    let plan = cmd(&["U1:3", "R2:1", "&SDA"]).plan().unwrap();
    assert_eq!(plan.pins, vec![("U1".to_string(), "3".to_string()), ("R2".to_string(), "1".to_string())]);
    assert!(matches!(&plan.strategy, ConnectStrategy::Labels { net, global: false } if net == "SDA"));
}

#[test]
fn three_pins_make_a_star_with_a_junction() {
    let plan = cmd(&["R1:1", "R2:1", "R3:1"]).plan().unwrap();
    assert!(matches!(plan.strategy, ConnectStrategy::Star { junction: true }));
    let result = plan.output();
    assert_eq!(result.wires_created, 2);
    assert_eq!(result.junctions_created, 1);
}

#[test]
fn connect_rejects_bad_endpoint_sets() {
    assert_eq!(
        other_message(cmd(&["R1:1", "R1-1"]).plan()),
        "Invalid endpoint 'R1-1'. Use 'REF:PIN' for pins or '&NET' for net labels"
    );
    assert_eq!(other_message(cmd(&["&GND", "R1:1", "&VCC"]).plan()), "Only one net label allowed per connection");
    assert_eq!(other_message(cmd(&["&GND", "&VCC"]).plan()), "Only one net label allowed per connection");
    assert_eq!(other_message(cmd(&["&GND", " "]).plan()), "Invalid endpoint ''. Use 'REF:PIN' for pins or '&NET' for net labels");
}
