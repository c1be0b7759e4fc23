use libkicaddy::pin::PinElectricalType;
use libkicaddy::symbol_info::{symbol_info, PinSummary, SymbolSummary};

fn pin(number: &str, name: &str, ty: PinElectricalType, hidden: bool) -> PinSummary {
    PinSummary {
        number: number.to_string(),
        name: name.to_string(),
        electrical_type: ty,
        hidden,
    }
}

fn props(list: &[(&str, &str)]) -> Vec<(String, String)> {
    list.iter().map(|(k, v)| (k.to_string(), v.to_string())).collect()
}

fn opamp() -> SymbolSummary {
    SymbolSummary {
        name: "LM358".to_string(),
        properties: props(&[
            ("Reference", "U"),
            ("Value", "LM358"),
            ("Footprint", ""),
            ("Datasheet", "http://www.ti.com/lit/ds/symlink/lm2904-n.pdf"),
            ("Description", "Low-Power, Dual Operational Amplifiers"),
            ("ki_keywords", "dual opamp"),
        ]),
        units: vec![
            (
                "LM358_1_1".to_string(),
                vec![
                    pin("1", "~", PinElectricalType::Output, false),
                    pin("2", "-", PinElectricalType::Input, false),
                    pin("3", "+", PinElectricalType::Input, false),
                ],
            ),
            (
                "LM358_2_1".to_string(),
                vec![
                    pin("7", "~", PinElectricalType::Output, false),
                    pin("6", "-", PinElectricalType::Input, false),
                    pin("5", "+", PinElectricalType::Input, false),
                ],
            ),
            (
                "LM358_3_1".to_string(),
                vec![
                    pin("8", "V+", PinElectricalType::PowerIn, false),
                    pin("4", "V-", PinElectricalType::PowerIn, false),
                ],
            ),
        ],
        in_bom: true,
        on_board: true,
    }
}

#[test]
fn test_symbol_info_fields() {
    let info = symbol_info("Amplifier_Operational", "LM358", &opamp());
    assert_eq!(info.lib_id, "Amplifier_Operational:LM358");
    assert_eq!(info.name, "LM358");
    assert_eq!(info.library, "Amplifier_Operational");
    assert_eq!(info.description.as_deref(), Some("Low-Power, Dual Operational Amplifiers"));
    assert_eq!(
        info.datasheet.as_deref(),
        Some("http://www.ti.com/lit/ds/symlink/lm2904-n.pdf")
    );
    assert_eq!(info.footprint, None);
    assert_eq!(info.keywords.as_deref(), Some("dual opamp"));
    assert_eq!(info.reference_prefix.as_deref(), Some("U"));
    assert_eq!(info.default_value.as_deref(), Some("LM358"));
    assert_eq!(info.unit_count, 3);
    assert!(info.in_bom);
    assert!(info.on_board);
}

#[test]
fn test_symbol_info_pins_sorted_by_number() {
    let info = symbol_info("Amplifier_Operational", "LM358", &opamp());
    let numbers: Vec<&str> = info.pins.iter().map(|p| p.number.as_str()).collect();
    assert_eq!(numbers, vec!["1", "2", "3", "4", "5", "6", "7", "8"]);
    assert_eq!(info.pins[0].electrical_type, "output");
    assert_eq!(info.pins[3].name, "V-");
    assert_eq!(info.pins[3].electrical_type, "power_in");
}

#[test]
fn test_symbol_info_pins_listed_once_numeric_first() {
    let sym = SymbolSummary {
        name: "U".to_string(),
        properties: props(&[("Datasheet", "~"), ("Footprint", "Package_SO:SOIC-8")]),
        units: vec![
            (
                "U_0_1".to_string(),
                vec![
                    pin("VCC", "VCC", PinElectricalType::PowerIn, true),
                    pin("10", "A", PinElectricalType::Passive, false),
                    pin("2", "B", PinElectricalType::Passive, false),
                ],
            ),
            (
                "U_1_1".to_string(),
                vec![
                    pin("2", "B2", PinElectricalType::Input, false),
                    pin("A1", "C", PinElectricalType::Passive, false),
                ],
            ),
        ],
        in_bom: false,
        on_board: true,
    };
    let info = symbol_info("L", "U", &sym);
    let numbers: Vec<&str> = info.pins.iter().map(|p| p.number.as_str()).collect();
    assert_eq!(numbers, vec!["2", "10", "A1", "VCC"]);
    // The first pin with a number is the one listed.
    assert_eq!(info.pins[0].name, "B");
    assert!(info.pins[3].hidden);
    assert_eq!(info.datasheet, None);
    assert_eq!(info.footprint.as_deref(), Some("Package_SO:SOIC-8"));
    // Both unit names end in `_1`, the shared `_0_1` one too.
    assert_eq!(info.unit_count, 2);
    assert_eq!(info.description, None);
    assert!(!info.in_bom);
}

#[test]
fn test_symbol_info_variable_datasheet_is_dropped() {
    let sym = SymbolSummary {
        name: "R".to_string(),
        properties: props(&[("Datasheet", "${KICAD_DOC}/r.pdf"), ("Footprint", "~")]),
        units: vec![],
        in_bom: true,
        on_board: false,
    };
    let info = symbol_info("Device", "R", &sym);
    assert_eq!(info.datasheet, None);
    assert_eq!(info.footprint, None);
    assert_eq!(info.unit_count, 1);
    assert!(info.pins.is_empty());
}
