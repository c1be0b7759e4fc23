use libkicaddy::commands::DeleteComponentCommand;
use libkicaddy::outline_nets::GridPoint;
use libkicaddy::schematic::LabelShape;
use libkicaddy::schematic_items::items_from_schematic;
use libkicaddy::schematic_save::schematic_with_items;
use libkicaddy::sexpr::{SExpr, SExprParser};
use libkicaddy::sheet_reader::SchematicData;
use libkicaddy::wire_edit::DeleteWireCommand;

const SHEET: &str = r##"(kicad_sch (version 20231120) (generator "eeschema")
  (lib_symbols
    (symbol "Device:R" (property "Reference" "R" (at 2.032 0 90))
      (symbol "R_1_1"
        (pin passive line (at 0 3.81 270) (length 1.27) (name "~") (number "1"))
        (pin passive line (at 0 -3.81 90) (length 1.27) (name "~") (number "2")))))
  (junction (at 100.33 50.8) (diameter 0) (uuid "j1"))
  (wire (pts (xy 100.33 53.34) (xy 120.65 53.34)) (stroke (width 0) (type default)) (uuid "w1"))
  (label "SDA" (at 120.65 53.34 90) (uuid "l1"))
  (global_label "VCC" (shape output) (at 90.17 46.99 180) (uuid "g1"))
  (symbol (lib_id "Device:R") (at 100.33 50.8 0) (unit 1)
    (property "Reference" "R1" (at 102.87 49.53 0))
    (property "Value" "10k" (at 102.87 52.07 0))
    (pin "1" (uuid "p1")) (pin "2" (uuid "p2")))
  (sheet_instances (path "/" (page "1")))
)"##;

fn mm(x: f64, y: f64) -> GridPoint {
    GridPoint { x: (x * 10000.0).round() as i32, y: (y * 10000.0).round() as i32 }
}

fn tree() -> SExpr {
    SExprParser::parse(SHEET).unwrap().1
}

fn parsed(text: &str) -> SExpr {
    SExprParser::parse(text).unwrap().1
}

fn items_of(e: &SExpr) -> &Vec<SExpr> {
    match e {
        SExpr::List(v) => v,
        _ => panic!("not a list"),
    }
}

fn head(e: &SExpr) -> Option<&str> {
    match e {
        SExpr::List(v) => match v.first() {
            Some(SExpr::Symbol(s)) => Some(s.as_str()),
            _ => None,
        },
        _ => None,
    }
}

#[test]
fn items_place_pins_labels_and_wires_on_the_grid() {
    let data = SchematicData::from_sexpr(&tree()).unwrap();
    let items = items_from_schematic(&data);
    assert_eq!(items.lib_symbols, vec!["Device:R".to_string()]);
    assert_eq!(items.components.len(), 1);
    let r1 = &items.components[0];
    assert_eq!(r1.lib_id, "Device:R");
    assert_eq!(r1.properties[0], ("Reference".to_string(), "R1".to_string()));
    assert_eq!(r1.instance_pins, vec!["1".to_string(), "2".to_string()]);
    assert_eq!(r1.pins.len(), 2);
    assert_eq!(r1.pins[0].number, "1");
    assert_eq!(r1.pins[0].position, mm(100.33, 53.34));
    assert_eq!(r1.pins[0].angle, 270);
    assert_eq!(r1.pins[1].position, mm(100.33, 48.26));
    assert_eq!(items.wires, vec![vec![mm(100.33, 53.34), mm(120.65, 53.34)]]);
    assert_eq!(items.junctions, vec![mm(100.33, 50.8)]);
    assert_eq!(items.labels[0].text, "SDA");
    assert_eq!(items.labels[0].angle, 90);
    assert_eq!(items.labels[0].shape, None);
    assert_eq!(items.global_labels[0].angle, 180);
    assert_eq!(items.global_labels[0].shape, Some(LabelShape::Output));
}

#[test]
fn saving_unedited_items_keeps_the_tree_as_it_was() {
    let e = tree();
    let data = SchematicData::from_sexpr(&e).unwrap();
    let items = items_from_schematic(&data);
    let uuids: Vec<String> = (1..=4).map(|k| format!("n{}", k)).collect();
    let saved = schematic_with_items(&e, &items, &vec![], &uuids).unwrap();
    assert_eq!(saved, e);
}

#[test]
fn saving_an_added_wire_keeps_the_old_ones_and_writes_the_new_one_last() {
    let e = tree();
    let data = SchematicData::from_sexpr(&e).unwrap();
    let mut items = items_from_schematic(&data);
    items.wires.push(vec![mm(10.16, 20.32), mm(15.24, 20.32)]);
    let uuids: Vec<String> = (1..=5).map(|k| format!("n{}", k)).collect();
    let saved = schematic_with_items(&e, &items, &vec![], &uuids).unwrap();
    let out = items_of(&saved);
    assert_eq!(out.len(), items_of(&e).len() + 1);
    assert_eq!(&out[..out.len() - 1], &items_of(&e)[..]);
    assert_eq!(
        out[out.len() - 1].to_kicad_string(),
        parsed(r#"(wire (pts (xy 10.1600 20.3200) (xy 15.2400 20.3200)) (stroke (width 0) (type default)) (uuid "n2"))"#)
            .to_kicad_string()
    );
}

#[test]
fn saving_after_deleting_a_component_drops_its_symbol_and_wires() {
    let e = tree();
    let data = SchematicData::from_sexpr(&e).unwrap();
    let mut items = items_from_schematic(&data);
    DeleteComponentCommand { reference: "R1".to_string() }.execute(&mut items).unwrap();
    assert!(items.wires.is_empty());
    let count = items.wires.len() + items.junctions.len() + items.labels.len() + items.global_labels.len();
    let uuids: Vec<String> = (0..count).map(|k| format!("u{}", k)).collect();
    let saved = schematic_with_items(&e, &items, &vec![], &uuids).unwrap();
    assert!(items_of(&saved).iter().all(|x| head(x) != Some("symbol") && head(x) != Some("wire")));
}

#[test]
fn saving_takes_property_values_from_the_component() {
    let e = tree();
    let data = SchematicData::from_sexpr(&e).unwrap();
    let mut items = items_from_schematic(&data);
    items.components[0].properties[1].1 = "4k7".to_string();
    DeleteWireCommand { point: mm(110.0, 53.34) }.execute(&mut items.wires).unwrap();
    let uuids: Vec<String> = (0..3).map(|k| format!("u{}", k)).collect();
    let saved = schematic_with_items(&e, &items, &vec![], &uuids).unwrap();
    let sym = items_of(&saved).iter().find(|x| head(x) == Some("symbol")).unwrap();
    assert_eq!(items_of(sym)[5], parsed(r#"(property "Value" "4k7" (at 102.87 52.07 0))"#));
    assert!(items_of(&saved).iter().all(|x| head(x) != Some("wire")));
}

#[test]
fn saving_is_refused_for_a_component_without_a_placed_symbol() {
    let e = tree();
    let data = SchematicData::from_sexpr(&e).unwrap();
    let mut items = items_from_schematic(&data);
    let mut extra = items.components[0].clone();
    extra.properties[0].1 = "R9".to_string();
    items.components.push(extra);
    let uuids: Vec<String> = (0..4).map(|k| format!("u{}", k)).collect();
    assert!(schematic_with_items(&e, &items, &vec![], &uuids).is_err());
    assert!(schematic_with_items(&SExpr::Symbol("x".to_string()), &items, &vec![], &uuids).is_err());
}

#[test]
fn saved_wires_read_back_as_edited() {
    let e = tree();
    let data = SchematicData::from_sexpr(&e).unwrap();
    let mut items = items_from_schematic(&data);
    items.wires.push(vec![mm(10.16, 20.32), mm(10.16, 30.48), mm(15.24, 30.48)]);
    let count = items.wires.len() + items.junctions.len() + items.labels.len() + items.global_labels.len();
    let uuids: Vec<String> = (0..count).map(|k| format!("u{}", k)).collect();
    let saved = schematic_with_items(&e, &items, &vec![], &uuids).unwrap();
    let again = items_from_schematic(&SchematicData::from_sexpr(&saved).unwrap());
    assert_eq!(again.wires, items.wires);
    assert_eq!(again.junctions, items.junctions);
    assert_eq!(again.components.len(), 1);
}
