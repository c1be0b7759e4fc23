use libkicaddy::commands::{parse_label_shape, parse_pin_ref, parse_routing_mode, CommandError};
use libkicaddy::config::KicadConfig;
use libkicaddy::endpoint::{is_power_net_name, ConnectionEndpoint};
use libkicaddy::lookup::{library_file_path, library_path};
use libkicaddy::schematic::{LabelShape, RoutingMode};
use libkicaddy::semantic_outline::{
    ComponentType, MergedTarget, NetScope, NetType, SemanticConnection,
};

fn pin(reference: &str, p: &str) -> ConnectionEndpoint {
    ConnectionEndpoint::Pin { reference: reference.to_string(), pin: p.to_string() }
}

fn endpoint_eq(a: &ConnectionEndpoint, b: &ConnectionEndpoint) -> bool {
    match (a, b) {
        (
            ConnectionEndpoint::Pin { reference: r1, pin: p1 },
            ConnectionEndpoint::Pin { reference: r2, pin: p2 },
        ) => r1 == r2 && p1 == p2,
        (ConnectionEndpoint::Net(a), ConnectionEndpoint::Net(b)) => a == b,
        _ => false,
    }
}

#[test]
fn test_parse_pin_ref_valid() {
    let (reference, pin) = parse_pin_ref("R1:1").unwrap();
    assert_eq!(reference, "R1");
    assert_eq!(pin, "1");
}

#[test]
fn test_parse_pin_ref_with_complex_names() {
    let (reference, pin) = parse_pin_ref("U1:VCC").unwrap();
    assert_eq!(reference, "U1");
    assert_eq!(pin, "VCC");
}

#[test]
fn test_parse_pin_ref_invalid() {
    let result = parse_pin_ref("R1-1");
    assert!(matches!(result, Err(CommandError::InvalidPinRef(_))));
}

#[test]
fn test_parse_routing_mode() {
    assert_eq!(parse_routing_mode("direct").unwrap(), RoutingMode::Direct);
    assert_eq!(parse_routing_mode("orthogonal").unwrap(), RoutingMode::Orthogonal);
    assert_eq!(parse_routing_mode("orthogonal-vh").unwrap(), RoutingMode::OrthogonalVH);
    assert!(parse_routing_mode("invalid").is_err());
}

#[test]
fn test_parse_label_shape() {
    assert_eq!(parse_label_shape("input").unwrap(), LabelShape::Input);
    assert_eq!(parse_label_shape("output").unwrap(), LabelShape::Output);
    assert_eq!(parse_label_shape("bidirectional").unwrap(), LabelShape::Bidirectional);
    assert!(parse_label_shape("invalid").is_err());
}

#[test]
fn test_standard_paths_not_empty() {
    let paths = KicadConfig::standard_paths();
    assert!(!paths.is_empty());
}

#[test]
fn test_parse_pin_endpoint() {
    let ep = ConnectionEndpoint::parse("R1:1").unwrap();
    assert!(endpoint_eq(&ep, &pin("R1", "1")));
}

#[test]
fn test_parse_pin_with_name() {
    let ep = ConnectionEndpoint::parse("U1:VCC").unwrap();
    assert!(endpoint_eq(&ep, &pin("U1", "VCC")));
}

#[test]
fn test_parse_net_endpoint() {
    let ep = ConnectionEndpoint::parse("&GND").unwrap();
    assert!(endpoint_eq(&ep, &ConnectionEndpoint::Net("GND".to_string())));
}

#[test]
fn test_parse_power_net() {
    let ep = ConnectionEndpoint::parse("&+3V3").unwrap();
    assert!(endpoint_eq(&ep, &ConnectionEndpoint::Net("+3V3".to_string())));
    assert!(ep.is_power_net());
}

#[test]
fn test_parse_invalid_empty() {
    assert!(ConnectionEndpoint::parse("").is_err());
}

#[test]
fn test_parse_invalid_no_colon() {
    assert!(ConnectionEndpoint::parse("R1").is_err());
}

#[test]
fn test_parse_invalid_empty_pin() {
    assert!(ConnectionEndpoint::parse("R1:").is_err());
}

#[test]
fn test_parse_invalid_empty_ref() {
    assert!(ConnectionEndpoint::parse(":1").is_err());
}

#[test]
fn test_parse_invalid_empty_net() {
    assert!(ConnectionEndpoint::parse("&").is_err());
}

#[test]
fn test_is_power_net_name() {
    assert!(is_power_net_name("GND"));
    assert!(is_power_net_name("gnd"));
    assert!(is_power_net_name("VCC"));
    assert!(is_power_net_name("VDD"));
    assert!(is_power_net_name("+3V3"));
    assert!(is_power_net_name("+5V"));
    assert!(is_power_net_name("-12V"));
    assert!(is_power_net_name("VBAT"));

    assert!(!is_power_net_name("SDA"));
    assert!(!is_power_net_name("SCL"));
    assert!(!is_power_net_name("DATA"));
}

#[test]
fn test_display() {
    let p = pin("R1", "1");
    assert_eq!(p.to_string(), "R1:1");

    let net = ConnectionEndpoint::Net("GND".to_string());
    assert_eq!(net.to_string(), "&GND");
}

#[test]
fn test_library_path() {
    let candidates: Vec<(String, bool)> = KicadConfig::standard_paths()
        .into_iter()
        .map(|p| {
            let exists = std::path::Path::new(&p).exists();
            (p, exists)
        })
        .collect();
    if let Ok(config) = KicadConfig::detect_among(&candidates) {
        // Device library should exist in standard KiCAD installations
        let file = library_file_path(&config, "Device");
        let exists = std::path::Path::new(&file).exists();
        let result = library_path(&config, "Device", exists);
        if result.is_ok() {
            let path = result.unwrap();
            assert!(std::path::Path::new(&path).exists());
            assert!(path.contains("Device.kicad_sym"));
        }
    }
}

#[test]
fn test_component_type_classify() {
    // Standard Device library passives
    assert_eq!(ComponentType::classify("R1", "Device:R"), ComponentType::Resistor);
    assert_eq!(ComponentType::classify("R2", "Device:R_Small"), ComponentType::Resistor);
    assert_eq!(
        ComponentType::classify("C1", "Device:C"),
        ComponentType::Capacitor { polarized: false }
    );
    assert_eq!(
        ComponentType::classify("C2", "Device:C_Polarized"),
        ComponentType::Capacitor { polarized: true }
    );
    assert_eq!(ComponentType::classify("L1", "Device:L"), ComponentType::Inductor);

    // Other component types
    assert_eq!(ComponentType::classify("D1", "Diode:1N4148"), ComponentType::Diode);
    assert_eq!(ComponentType::classify("D2", "Device:LED"), ComponentType::Diode);
    assert_eq!(ComponentType::classify("Q1", "Transistor_BJT:2N3904"), ComponentType::Transistor);
    assert_eq!(ComponentType::classify("J1", "Connector:Conn_01x04"), ComponentType::Connector);
    assert_eq!(ComponentType::classify("K1", "Relay:Relay_DPDT"), ComponentType::Relay);

    // Unknown types
    assert_eq!(ComponentType::classify("U1", "MCU:ESP32"), ComponentType::Other);
}

#[test]
fn test_net_type_classify() {
    // Ground variants
    assert_eq!(NetType::classify("GND"), NetType::Ground);
    assert_eq!(NetType::classify("AGND"), NetType::Ground);
    assert_eq!(NetType::classify("DGND"), NetType::Ground);
    // VSS is a power rail (negative supply), not ground
    assert_eq!(NetType::classify("VSS"), NetType::Power);
    // Other power nets
    assert_eq!(NetType::classify("VCC"), NetType::Power);
    assert_eq!(NetType::classify("VDD"), NetType::Power);
    assert_eq!(NetType::classify("+3V3"), NetType::Power);
    // Signal nets
    assert_eq!(NetType::classify("SDA"), NetType::Signal);
}

#[test]
fn test_semantic_connection_display() {
    let pin = SemanticConnection::Pin { reference: "U1".to_string(), pin: "GPIO0".to_string() };
    assert_eq!(pin.to_string(), "U1:GPIO0");

    // Global net
    let net = SemanticConnection::Net { name: "VCC".to_string(), scope: NetScope::Global };
    assert_eq!(net.to_string(), "&VCC");

    // Hierarchical net
    let hier_net =
        SemanticConnection::Net { name: "GPIO0".to_string(), scope: NetScope::Hierarchical };
    assert_eq!(hier_net.to_string(), "^GPIO0");

    // Local net
    let local_net = SemanticConnection::Net { name: "SIGNAL".to_string(), scope: NetScope::Local };
    assert_eq!(local_net.to_string(), "!SIGNAL");

    // Pullup: resistor to power net
    let pullup = SemanticConnection::MergedResistor {
        reference: "R1".to_string(),
        value: "10k".to_string(),
        target: MergedTarget::Net { name: "VCC".to_string(), scope: NetScope::Global },
    };
    assert_eq!(pullup.to_string(), "$PULLUP(R1, 10k, &VCC)");

    // Pulldown: resistor to ground
    let pulldown = SemanticConnection::MergedResistor {
        reference: "R2".to_string(),
        value: "10k".to_string(),
        target: MergedTarget::Net { name: "GND".to_string(), scope: NetScope::Global },
    };
    assert_eq!(pulldown.to_string(), "$PULLDOWN(R2, 10k)");

    // Series resistor to a pin
    let series = SemanticConnection::MergedResistor {
        reference: "R3".to_string(),
        value: "100".to_string(),
        target: MergedTarget::Pin { reference: "U1".to_string(), pin: "TX".to_string() },
    };
    assert_eq!(series.to_string(), "$RESISTOR(R3, 100, U1:TX)");

    // Non-polarized capacitor to ground
    let cap_gnd = SemanticConnection::MergedCapacitor {
        reference: "C1".to_string(),
        value: "100nF".to_string(),
        polarized: false,
        target: MergedTarget::Net { name: "GND".to_string(), scope: NetScope::Global },
    };
    assert_eq!(cap_gnd.to_string(), "$CAPACITOR(C1, 100nF, &GND)");

    // Polarized capacitor to ground
    let cap_polar_gnd = SemanticConnection::MergedCapacitor {
        reference: "C2".to_string(),
        value: "10uF".to_string(),
        polarized: true,
        target: MergedTarget::Net { name: "GND".to_string(), scope: NetScope::Global },
    };
    assert_eq!(cap_polar_gnd.to_string(), "$CAPACITOR_POL(C2, 10uF, &GND)");

    // Non-polarized capacitor to power net
    let cap_power = SemanticConnection::MergedCapacitor {
        reference: "C3".to_string(),
        value: "1uF".to_string(),
        polarized: false,
        target: MergedTarget::Net { name: "VCC".to_string(), scope: NetScope::Global },
    };
    assert_eq!(cap_power.to_string(), "$CAPACITOR(C3, 1uF, &VCC)");

    // Switch to ground
    let switch_gnd = SemanticConnection::MergedSwitch {
        reference: "SW1".to_string(),
        target: MergedTarget::Net { name: "GND".to_string(), scope: NetScope::Global },
    };
    assert_eq!(switch_gnd.to_string(), "$SWITCH(SW1, &GND)");

    // Switch to a pin
    let switch_pin = SemanticConnection::MergedSwitch {
        reference: "SW2".to_string(),
        target: MergedTarget::Pin { reference: "U1".to_string(), pin: "RESET".to_string() },
    };
    assert_eq!(switch_pin.to_string(), "$SWITCH(SW2, U1:RESET)");

    // Nested merge: resistor -> switch -> ground
    let nested = SemanticConnection::MergedResistor {
        reference: "R9".to_string(),
        value: "1K".to_string(),
        target: MergedTarget::Merged(Box::new(SemanticConnection::MergedSwitch {
            reference: "SW2".to_string(),
            target: MergedTarget::Net { name: "GND".to_string(), scope: NetScope::Global },
        })),
    };
    assert_eq!(nested.to_string(), "$RESISTOR(R9, 1K, $SWITCH(SW2, &GND))");

    // Nested merge: capacitor -> resistor -> pin
    let nested_cap = SemanticConnection::MergedCapacitor {
        reference: "C1".to_string(),
        value: "100nF".to_string(),
        polarized: false,
        target: MergedTarget::Merged(Box::new(SemanticConnection::MergedResistor {
            reference: "R1".to_string(),
            value: "10k".to_string(),
            target: MergedTarget::Pin { reference: "U1".to_string(), pin: "VDD".to_string() },
        })),
    };
    assert_eq!(nested_cap.to_string(), "$CAPACITOR(C1, 100nF, $RESISTOR(R1, 10k, U1:VDD))");
}

#[test]
fn detect_prefers_an_existing_environment_path() {
    let standard = vec![("/usr/share/kicad".to_string(), true)];
    let c = libkicaddy::config::KicadConfig::detect(Some(("/opt/kicad".to_string(), true)), &standard).unwrap();
    assert_eq!(c.kicad_path, "/opt/kicad");
    assert_eq!(c.symbol_lib_path, "/opt/kicad/symbols");
    assert_eq!(c.footprint_lib_path, "/opt/kicad/footprints");
}

#[test]
fn detect_falls_back_to_the_first_existing_standard_path() {
    let standard = vec![("/a".to_string(), false), ("/b/".to_string(), true), ("/c".to_string(), true)];
    let c = libkicaddy::config::KicadConfig::detect(Some(("/missing".to_string(), false)), &standard).unwrap();
    assert_eq!(c.kicad_path, "/b/");
    assert_eq!(c.footprint_lib_path, "/b/footprints");
    let none = libkicaddy::config::KicadConfig::detect(None, &vec![("/a".to_string(), false)]);
    assert!(matches!(none, Err(libkicaddy::config::ConfigError::KicadNotFound)));
}

#[test]
fn config_errors_say_what_is_missing() {
    assert_eq!(
        libkicaddy::config::ConfigError::KicadNotFound.to_string(),
        "KiCAD installation not found. Set KICAD_PATH environment variable or install KiCAD to a standard location."
    );
    assert_eq!(libkicaddy::config::ConfigError::SymbolLibraryNotFound("/x".to_string()).to_string(), "Symbol library path not found: /x");
}
