use libkicaddy::outline_nets::GridPoint;
use libkicaddy::sexpr::{Decimal, SExprParser};
use libkicaddy::sheet_points::grid_value_exec;
use libkicaddy::sheet_reader::SchematicData;

const SHEET: &str = r##"(kicad_sch (version 20231120) (generator "eeschema")
  (lib_symbols
    (symbol "Device:R" (property "Reference" "R" (at 2.032 0 90))
      (symbol "R_0_1" (rectangle (start -1.016 -2.54) (end 1.016 2.54)))
      (symbol "R_1_1"
        (pin passive line (at 0 3.81 270) (length 1.27)
          (name "~" (effects (font (size 1.27 1.27))))
          (number "1" (effects (font (size 1.27 1.27)))))
        (pin passive line (at 0 -3.81 90) (length 1.27) (name "~") (number "2")))))
  (junction (at 100.33 50.8) (diameter 0) (color 0 0 0 0) (uuid "j1"))
  (wire (pts (xy 100.33 46.99) (xy 120.65 46.99)) (stroke (width 0) (type default)) (uuid "w1"))
  (label "SDA" (at 120.65 46.99 0) (uuid "l1"))
  (global_label "VCC" (shape input) (at 90.17 46.99 180) (uuid "g1"))
  (symbol (lib_id "Device:R") (at 100.33 50.8 0) (unit 1)
    (property "Reference" "R1" (at 102.87 49.53 0))
    (property "Value" "10k" (at 102.87 52.07 0))
    (property "Description" "")
    (pin "1" (uuid "p1")) (pin "2" (uuid "p2")))
  (symbol (lib_id "Device:R") (at 120 70 45) (property "Reference" "R2") (pin "1" (uuid "p4")))
  (symbol (lib_id "power:GND") (at 100.33 60 0)
    (property "Reference" "#PWR01") (property "Value" "GND") (pin "1" (uuid "p3")))
  (sheet (at 150 50) (size 20 10)
    (property "Sheetname" "Power") (property "Sheetfile" "power.kicad_sch")
    (pin "VIN" input (at 150 55 180)))
)"##;

fn mm(x: f64, y: f64) -> GridPoint {
    GridPoint { x: (x * 10000.0).round() as i32, y: (y * 10000.0).round() as i32 }
}

fn read() -> SchematicData {
    let (_, expr) = SExprParser::parse(SHEET).unwrap();
    SchematicData::from_sexpr(&expr).unwrap()
}

#[test]
fn reads_library_pins_of_all_units() {
    let data = read();
    assert_eq!(data.lib_symbols.len(), 1);
    assert_eq!(data.lib_symbols[0].name, "Device:R");
    let pins = &data.lib_symbols[0].pins;
    assert_eq!(pins.len(), 2);
    assert_eq!(pins[0].number, "1");
    assert_eq!(pins[0].name, "~");
    assert_eq!(pins[0].angle, Decimal { mantissa: 270, scale: 0 });
    assert_eq!(pins[1].y, Decimal { mantissa: -381, scale: 2 });
}

#[test]
fn reads_placed_symbols_wires_and_labels() {
    let data = read();
    assert_eq!(data.symbols.len(), 3);
    let r1 = &data.symbols[0];
    assert_eq!(r1.lib_id, "Device:R");
    assert_eq!(r1.pins, vec!["1".to_string(), "2".to_string()]);
    assert_eq!(r1.properties[1], ("Value".to_string(), "10k".to_string()));
    assert_eq!(data.wires.len(), 1);
    assert_eq!(data.wires[0].len(), 2);
    assert_eq!(data.junctions.len(), 1);
    assert_eq!(data.labels[0].text, "SDA");
    assert_eq!(data.global_labels[0].text, "VCC");
    assert_eq!(data.sheets[0].name, "Power");
    assert_eq!(data.sheets[0].file, "power.kicad_sch");
    assert_eq!(data.sheets[0].pins[0].text, "VIN");
}

#[test]
fn places_pins_on_the_grid_for_quarter_turns_only() {
    let data = read();
    let points = data.connection_points();
    let r1 = &points.symbols[0];
    assert_eq!(r1.reference, "R1");
    assert_eq!(r1.value, "10k");
    assert_eq!(r1.pins[0], ("1".to_string(), "~".to_string(), Some(mm(100.33, 53.34))));
    assert_eq!(r1.pins[1].2, Some(mm(100.33, 48.26)));
    // R2 is turned by 45 degrees: no exact position.
    assert_eq!(points.symbols[1].pins[0].2, None);
    assert_eq!(points.wires[0], vec![mm(100.33, 46.99), mm(120.65, 46.99)]);
    assert_eq!(points.junctions, vec![mm(100.33, 50.8)]);
    assert_eq!(points.global_labels[0], ("VCC".to_string(), mm(90.17, 46.99)));
    assert_eq!(points.sheets[0].pins[0], ("VIN".to_string(), mm(150.0, 55.0)));
}

#[test]
fn components_leave_out_power_symbols() {
    let data = read();
    let components = data.component_data();
    assert_eq!(components.len(), 2);
    assert_eq!(components[0].reference, "R1");
    assert_eq!(components[0].value, "10k");
    assert_eq!(components[0].description, None);
    let netlist = data.netlist_components();
    assert_eq!(netlist.len(), 3);
    assert_eq!(netlist[2], ("#PWR01".to_string(), vec!["1".to_string()]));
    let sheets = data.semantic_sheets();
    assert_eq!(sheets[0].pins, vec!["VIN".to_string()]);
}

#[test]
fn not_a_schematic() {
    let (_, expr) = SExprParser::parse("(kicad_symbol_lib (version 1))").unwrap();
    match SchematicData::from_sexpr(&expr) {
        Err(m) => assert_eq!(m, "not a KiCAD schematic"),
        Ok(_) => panic!("expected an error"),
    }
}

#[test]
fn grid_values_round_finer_decimals() {
    assert_eq!(grid_value_exec(Decimal { mantissa: 12345, scale: 3 }), 123450);
    assert_eq!(grid_value_exec(Decimal { mantissa: 123455, scale: 5 }), 12346);
    assert_eq!(grid_value_exec(Decimal { mantissa: -123455, scale: 5 }), -12346);
    assert_eq!(grid_value_exec(Decimal { mantissa: 7, scale: 40 }), 0);
    assert_eq!(grid_value_exec(Decimal { mantissa: i64::MAX, scale: 0 }), i32::MAX);
}

#[test]
fn items_without_their_text_are_refused() {
    let cases = [
        ("(kicad_sch (label (at 1 2 0)))", "Missing field: label text"),
        ("(kicad_sch (global_label (shape input) (at 1 2 0)))", "Missing field: global_label text"),
        ("(kicad_sch (hierarchical_label SDA (at 1 2 0)))", "Missing field: hierarchical_label text"),
        ("(kicad_sch (text (at 1 2 0)))", "Missing field: text content"),
        ("(kicad_sch (label \"A\" (at 1 2 0)) (text) (label))", "Missing field: text content"),
    ];
    for (text, message) in cases {
        let (_, expr) = SExprParser::parse(text).unwrap();
        assert_eq!(SchematicData::from_sexpr(&expr).unwrap_err(), message);
    }
}

#[test]
fn test_parse_junction_and_wire() {
    let input = r#"
        (kicad_sch
            (version 20231120)
            (generator "eeschema")
            (uuid "test-uuid")
            (paper "A4")
            (lib_symbols)
            (junction
                (at 100 50)
                (diameter 0)
                (color 0 0 0 0)
                (uuid "junction-uuid")
            )
            (wire
                (pts
                    (xy 100 50) (xy 150 50)
                )
                (stroke
                    (width 0)
                    (type default)
                )
                (uuid "wire-uuid")
            )
        )
    "#;
    let (_, expr) = SExprParser::parse(input).unwrap();
    let sch = SchematicData::from_sexpr(&expr).unwrap();
    assert_eq!(sch.junctions.len(), 1);
    assert_eq!(sch.junctions[0].0, Decimal { mantissa: 100, scale: 0 });
    assert_eq!(sch.junctions[0].1, Decimal { mantissa: 50, scale: 0 });

    assert_eq!(sch.wires.len(), 1);
    assert_eq!(sch.wires[0].len(), 2);
    assert_eq!(sch.wires[0][0].0, Decimal { mantissa: 100, scale: 0 });
    assert_eq!(sch.wires[0][1].0, Decimal { mantissa: 150, scale: 0 });
}

#[test]
fn test_parse_simple_schematic() {
    let input = r#"
        (kicad_sch
            (version 20231120)
            (generator "eeschema")
            (generator_version "8.0")
            (uuid "e3dd3ae4-244d-4cba-9cca-5d2abf83f29a")
            (paper "A4")
            (title_block
                (title "Test Schematic")
                (date "2024-01-01")
                (rev "v1")
            )
            (lib_symbols)
        )
    "#;
    let (_, expr) = SExprParser::parse(input).unwrap();
    let sch = libkicaddy::schematic_header::schematic_header(&expr, "fresh".to_string()).unwrap();
    assert_eq!(sch.version, 20231120);
    assert_eq!(sch.generator, Some("eeschema".to_string()));
    assert!(matches!(sch.paper, libkicaddy::schematic_write::PaperSize::A4));
    assert!(sch.title_block.is_some());
    let tb = sch.title_block.unwrap();
    assert_eq!(tb.title, Some("Test Schematic".to_string()));
}

#[test]
fn header_defaults_and_comments() {
    let (_, expr) = SExprParser::parse(
        "(kicad_sch (paper \"USLetter\") (title_block (comment 2 \"b\") (comment 1.9 \"a\") (comment x \"skip\")) (embedded_fonts yes))",
    )
    .unwrap();
    let h = libkicaddy::schematic_header::schematic_header(&expr, "fresh".to_string()).unwrap();
    assert_eq!(h.version, 20250114);
    assert_eq!(h.generator, Some("kicaddy".to_string()));
    assert_eq!(h.uuid, "fresh");
    assert!(matches!(h.paper, libkicaddy::schematic_write::PaperSize::USLetter));
    assert_eq!(h.title_block.unwrap().comments, vec![(2u8, "b".to_string()), (1u8, "a".to_string())]);
    assert!(h.embedded_fonts);
    assert!(libkicaddy::schematic_header::schematic_header(&libkicaddy::sexpr::SExpr::Symbol("x".to_string()), String::new()).is_err());
}
