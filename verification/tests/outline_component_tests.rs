use libkicaddy::outline_components::outline_components;
use libkicaddy::outline_nets::schematic_nets;
use libkicaddy::sexpr::SExprParser;
use libkicaddy::sheet_reader::SchematicData;

const SHEET: &str = r##"(kicad_sch (version 20231120) (generator "eeschema")
  (lib_symbols
    (symbol "Device:R"
      (symbol "R_1_1"
        (pin passive line (at 0 3.81 270) (length 1.27) (name "A") (number "1"))
        (pin passive line (at 0 -3.81 90) (length 1.27) (name "B") (number "2")))))
  (wire (pts (xy 100.33 53.34) (xy 120.65 53.34)) (uuid "w1"))
  (label "SDA" (at 120.65 53.34 0) (uuid "l1"))
  (symbol (lib_id "Device:R") (at 100.33 50.8 0)
    (property "Reference" "R10") (property "Value" "10k")
    (pin "1" (uuid "p1")) (pin "2" (uuid "p2")))
  (symbol (lib_id "Device:R") (at 200 50.8 0)
    (property "Reference" "R2") (property "Value" "1k")
    (pin "1" (uuid "p3")) (pin "3" (uuid "p4")))
  (symbol (lib_id "Device:R") (at 300 50.8 0)
    (property "Reference" "C1") (property "Value" "100n")
    (pin "1" (uuid "p5")))
  (symbol (lib_id "power:GND") (at 100.33 60 0)
    (property "Reference" "#PWR01") (property "Value" "GND") (pin "1" (uuid "p6")))
)"##;

#[test]
fn components_are_sorted_by_reference_and_skip_power_symbols() {
    let (_, expr) = SExprParser::parse(SHEET).unwrap();
    let data = SchematicData::from_sexpr(&expr).unwrap();
    let points = data.connection_points();
    let nets = schematic_nets(&points);
    let comps = outline_components(&nets, &points);
    let refs: Vec<&str> = comps.iter().map(|c| c.reference.as_str()).collect();
    assert_eq!(refs, vec!["C1", "R2", "R10"]);
    let r10 = &comps[2];
    assert_eq!(r10.value, "10k");
    assert_eq!(r10.pins[0].number, "1");
    assert_eq!(r10.pins[0].name, "A");
    assert_eq!(r10.pins[0].net.as_deref(), Some("SDA"));
    assert!(!r10.pins[0].unconnected);
    assert!(r10.pins[0].connected_to.is_empty());
    // A pin the library symbol does not have is on no net.
    let r2 = &comps[1];
    assert_eq!(r2.pins[1].number, "3");
    assert_eq!(r2.pins[1].name, "3");
    assert_eq!(r2.pins[1].net, None);
    assert!(r2.pins[1].unconnected);
    assert_eq!(r2.pins[1].position, None);
}
