use libkicaddy::component_update::{first_with_ref_exec, ComponentUpdate};
use libkicaddy::schematic::Mirror;
use libkicaddy::schematic_update::{schematic_with_state, states_from_schematic};
use libkicaddy::sexpr::SExprParser;
use libkicaddy::sheet_reader::SchematicData;
use libkicaddy::tools::UpdateComponentTool;

const SHEET: &str = r##"(kicad_sch (version 20231120) (generator "eeschema") (uuid "root")
  (lib_symbols)
  (wire (pts (xy 10 10) (xy 20 10)) (stroke (width 0.2) (type dash)) (uuid "w1"))
  (symbol (lib_id "Device:R") (at 100.33 50.8 0) (unit 1)
    (property "Reference" "R1" (at 102.87 49.53 0) (effects (font (size 1.5 1.5))))
    (property "Value" "10k" (at 102.87 52.07 0))
    (pin "1" (uuid "p1"))
    (instances (project "demo" (path "/root" (reference "R1") (unit 1)))))
)"##;

#[test]
fn saving_an_update_moves_renames_and_revalues_only_that_symbol() {
    let (_, e) = SExprParser::parse(SHEET).unwrap();
    let data = SchematicData::from_sexpr(&e).unwrap();
    let mut states = states_from_schematic(&data);
    assert_eq!((states[0].x, states[0].y, states[0].angle), (1_003_300, 508_000, 0));
    let index = first_with_ref_exec(&states, "R1").unwrap();
    let update = ComponentUpdate {
        reference: "R1".to_string(),
        x: Some(1_100_000),
        y: None,
        angle: Some(90),
        new_reference: Some("R5".to_string()),
        value: Some("4k7".to_string()),
        mirror: Some("x".to_string()),
    };
    let out = UpdateComponentTool::update(&mut states, &update).unwrap();
    assert_eq!(out.reference, "R5");
    let saved = schematic_with_state(&e, index, &states[index], "R1", &out.reference).unwrap();
    let text = saved.to_kicad_string();
    assert!(text.contains("(reference \"R5\")"));
    assert!(text.contains("(mirror x)"));
    assert!(text.contains("(type dash)"));
    assert!(text.contains("(size 1.5 1.5)"));
    let again = states_from_schematic(&SchematicData::from_sexpr(&saved).unwrap());
    assert_eq!((again[0].x, again[0].y, again[0].angle), (states[0].x, 508_000, 90));
    assert_eq!(again[0].mirror, Some(Mirror::X));
    assert_eq!(again[0].properties[0], ("Reference".to_string(), "R5".to_string()));
    assert_eq!(again[0].properties[1], ("Value".to_string(), "4k7".to_string()));
}

#[test]
fn saving_an_update_of_a_missing_symbol_gives_none() {
    let (_, e) = SExprParser::parse(SHEET).unwrap();
    let data = SchematicData::from_sexpr(&e).unwrap();
    let states = states_from_schematic(&data);
    assert!(schematic_with_state(&e, 3, &states[0], "R1", "R1").is_none());
}
