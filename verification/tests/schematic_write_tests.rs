use libkicaddy::common::{Color, Fill, FillType, StrokeType};
use libkicaddy::pin::{PinElectricalType, PinGraphicStyle};
use libkicaddy::project::{is_project_doc_editable, project_with_sheets, Json, ProjectSheet};
use libkicaddy::schematic::{LabelShape, SheetInstance};
use libkicaddy::schematic_write::{
    schematic_to_sexpr, sheet_to_sexpr, Junction, PaperSize, Pin, PinText, Point, Position, Rectangle, Schematic,
    Sheet, SheetPin, SheetProjectInstance, Stroke, Symbol, SymbolUnit, GraphicItem,
};
use libkicaddy::schematic_write::{Label, Wire};
use libkicaddy::sexpr::{Decimal, SExpr, SExprParser, ToSExpr};
use libkicaddy::sheet_reader::SchematicData;

fn dec(mantissa: i64, scale: u32) -> Decimal {
    Decimal { mantissa, scale }
}

fn parsed(text: &str) -> SExpr {
    let (rest, e) = SExprParser::parse(text).unwrap();
    assert_eq!(rest, "");
    e
}

#[test]
fn junction_writes_position_diameter_and_uuid() {
    let j = Junction { position: Point { x: dec(10, 0), y: dec(2054, 2) }, diameter: dec(0, 0), color: None, uuid: "j1".to_string() };
    assert_eq!(j.to_sexpr(), parsed(r#"(junction (at 10 20.54) (diameter 0) (uuid "j1"))"#));
}

#[test]
fn junction_with_color_writes_color_before_uuid() {
    let j = Junction {
        position: Point { x: dec(0, 0), y: dec(0, 0) },
        diameter: dec(9144, 4),
        color: Some(Color { r: 1, g: 2, b: 3, a: 0 }),
        uuid: "j2".to_string(),
    };
    assert_eq!(j.to_sexpr(), parsed(r#"(junction (at 0 0) (diameter 0.9144) (color 1 2 3 0) (uuid "j2"))"#));
}

#[test]
fn sheet_writes_name_above_and_file_below() {
    let s = Sheet {
        position: Point { x: dec(100, 0), y: dec(50, 0) },
        size: Point { x: dec(20, 0), y: dec(10, 0) },
        exclude_from_sim: false,
        in_bom: true,
        on_board: true,
        dnp: false,
        fields_autoplaced: true,
        uuid: "s1".to_string(),
        sheet_name: "Power".to_string(),
        sheet_file: "power.kicad_sch".to_string(),
        pins: vec![SheetPin {
            name: "VCC".to_string(),
            shape: LabelShape::Input,
            position: Position { x: dec(100, 0), y: dec(55, 0), angle: dec(180, 0) },
            uuid: "p1".to_string(),
        }],
        instances: vec![SheetProjectInstance {
            project_name: "proj".to_string(),
            paths: vec![SheetInstance { path: "/root".to_string(), page: "2".to_string() }],
        }],
    };
    let expected = parsed(
        r#"(sheet (at 100 50) (size 20 10) (exclude_from_sim no) (in_bom yes) (on_board yes) (dnp no)
            (fields_autoplaced yes)
            (stroke (width 0.1524) (type solid)) (fill (color 0 0 0 0)) (uuid "s1")
            (property "Sheetname" "Power" (at 100 49.2884 0) (effects (font (size 1.27 1.27)) (justify left bottom)))
            (property "Sheetfile" "power.kicad_sch" (at 100 60.5846 0) (effects (font (size 1.27 1.27)) (justify left top)))
            (pin "VCC" input (at 100 55 180) (uuid "p1") (effects (font (size 1.27 1.27)) (justify right)))
            (instances (project "proj" (path "/root" (page "2")))))"#,
    );
    assert_eq!(sheet_to_sexpr(&s), expected);
}

#[test]
fn pin_writes_hide_before_name() {
    let p = Pin {
        electrical_type: PinElectricalType::Passive,
        graphic_style: PinGraphicStyle::Line,
        position: Position { x: dec(0, 0), y: dec(381, 2), angle: dec(270, 0) },
        length: dec(127, 2),
        name: PinText { text: "~".to_string(), effects: None },
        number: PinText { text: "1".to_string(), effects: None },
        hide: true,
    };
    assert_eq!(
        p.to_sexpr(),
        parsed(r#"(pin passive line (at 0 3.81 270) (length 1.27) (hide yes) (name "~") (number "1"))"#)
    );
}

#[test]
fn symbol_writes_pin_names_only_when_set() {
    let rect = Rectangle {
        start: Point { x: dec(-1016, 3), y: dec(254, 2) },
        end: Point { x: dec(1016, 3), y: dec(-254, 2) },
        stroke: Stroke { width: dec(254, 4), stroke_type: StrokeType::Default, color: None },
        fill: Fill { fill_type: FillType::NoFill, color: None },
    };
    let sym = Symbol {
        name: "Device:R".to_string(),
        extends: None,
        pin_numbers_hide: true,
        pin_names_offset: dec(0, 0),
        pin_names_hide: false,
        exclude_from_sim: false,
        in_bom: true,
        on_board: true,
        properties: vec![],
        units: vec![SymbolUnit { name: "R_0_1".to_string(), graphics: vec![GraphicItem::Rectangle(rect)], pins: vec![] }],
        embedded_fonts: Some(false),
    };
    let expected = parsed(
        r#"(symbol "Device:R" (pin_numbers (hide yes)) (exclude_from_sim no) (in_bom yes) (on_board yes)
            (symbol "R_0_1" (rectangle (start -1.016 2.54) (end 1.016 -2.54) (stroke (width 0.0254) (type default)) (fill (type none))))
            (embedded_fonts no))"#,
    );
    assert_eq!(sym.to_sexpr(), expected);

    let named = Symbol { pin_numbers_hide: false, pin_names_offset: dec(0, 0), pin_names_hide: true, units: vec![], embedded_fonts: None, ..sym };
    assert_eq!(
        named.to_sexpr(),
        parsed(r#"(symbol "Device:R" (pin_names hide) (exclude_from_sim no) (in_bom yes) (on_board yes))"#)
    );
}

#[test]
fn new_schematic_writes_header_root_page_and_fonts() {
    let s = Schematic::new("root-uuid".to_string());
    let expected = parsed(
        r#"(kicad_sch (version 20250114) (generator "kicaddy") (generator_version "0.1.0") (uuid "root-uuid")
            (paper "A4") (lib_symbols) (sheet_instances (path "/" (page "1"))) (embedded_fonts no))"#,
    );
    assert_eq!(schematic_to_sexpr(&s), expected);
    assert_eq!(s.to_kicad_string(), expected.to_kicad_string());
}

#[test]
fn custom_paper_is_written_as_user() {
    let mut s = Schematic::new("u".to_string());
    s.paper = PaperSize::Custom { width: dec(100, 0), height: dec(50, 0) };
    s.sheet_instances.clear();
    assert_eq!(
        schematic_to_sexpr(&s),
        parsed(r#"(kicad_sch (version 20250114) (generator "kicaddy") (generator_version "0.1.0") (uuid "u") (paper "User") (lib_symbols) (embedded_fonts no))"#)
    );
}

fn obj(entries: Vec<(&str, Json)>) -> Json {
    Json::Object(entries.into_iter().map(|(k, v)| (k.to_string(), v)).collect())
}

fn s(t: &str) -> Json {
    Json::Str(t.to_string())
}

fn sheet(uuid: &str, name: &str) -> ProjectSheet {
    ProjectSheet { uuid: uuid.to_string(), name: name.to_string() }
}

#[test]
fn project_sheets_replace_stale_cache_and_keep_other_fields() {
    let doc = obj(vec![
        ("sheets", Json::Array(vec![Json::Array(vec![s("stale-root-uuid"), s("myproject")])])),
        (
            "schematic",
            obj(vec![
                ("top_level_sheets", Json::Array(vec![])),
                ("annotate_start_num", Json::Number("0".to_string())),
            ]),
        ),
        ("board", obj(vec![("design_settings", obj(vec![]))])),
    ]);
    assert!(is_project_doc_editable(&doc));
    let root = sheet("fresh-root-uuid", "myproject");
    let children = vec![sheet("fresh-child-uuid-1", "Power"), sheet("fresh-child-uuid-2", "Logic")];
    let r = project_with_sheets(doc, "myproject.kicad_sch", &root, &children);
    let Json::Object(es) = r else { panic!("not an object") };
    assert_eq!(es.len(), 3);
    assert_eq!(es[0].0, "sheets");
    let Json::Array(list) = &es[0].1 else { panic!("sheets") };
    assert_eq!(list.len(), 3);
    let Json::Array(first) = &list[0] else { panic!("pair") };
    assert!(matches!(&first[0], Json::Str(u) if u == "fresh-root-uuid"));
    assert!(matches!(&first[1], Json::Str(n) if n == "myproject"));
    let Json::Array(last) = &list[2] else { panic!("pair") };
    assert!(matches!(&last[0], Json::Str(u) if u == "fresh-child-uuid-2"));
    assert!(matches!(&last[1], Json::Str(n) if n == "Logic"));
    assert_eq!(es[1].0, "schematic");
    let Json::Object(sch) = &es[1].1 else { panic!("schematic") };
    assert_eq!(sch[1].0, "annotate_start_num");
    assert!(matches!(&sch[1].1, Json::Number(n) if n == "0"));
    let Json::Array(top) = &sch[0].1 else { panic!("top") };
    assert_eq!(top.len(), 1);
    let Json::Object(entry) = &top[0] else { panic!("entry") };
    assert!(matches!(&entry[0], (k, Json::Str(f)) if k == "filename" && f == "myproject.kicad_sch"));
    assert!(matches!(&entry[1], (k, Json::Str(n)) if k == "name" && n == "myproject"));
    assert!(matches!(&entry[2], (k, Json::Str(u)) if k == "uuid" && u == "fresh-root-uuid"));
    assert_eq!(es[2].0, "board");
}

#[test]
fn project_without_schematic_gets_one() {
    let doc = obj(vec![("meta", Json::Null)]);
    let r = project_with_sheets(doc, "a.kicad_sch", &sheet("r", "a"), &vec![]);
    let Json::Object(es) = r else { panic!("not an object") };
    assert_eq!(es.len(), 3);
    assert_eq!(es[1].0, "sheets");
    assert_eq!(es[2].0, "schematic");
}

#[test]
fn project_with_scalar_schematic_is_not_editable() {
    assert!(!is_project_doc_editable(&obj(vec![("schematic", Json::Bool(true))])));
    assert!(!is_project_doc_editable(&Json::Array(vec![])));
    assert!(is_project_doc_editable(&Json::Null));
}

#[test]
fn written_junctions_wires_and_labels_read_back() {
    let mut s = Schematic::new("u".to_string());
    s.junctions.push(Junction { position: Point { x: dec(1016, 1), y: dec(508, 1) }, diameter: dec(0, 0), color: None, uuid: "j".to_string() });
    s.wires.push(Wire {
        points: vec![Point { x: dec(1, 0), y: dec(2, 0) }, Point { x: dec(35, 1), y: dec(2, 0) }],
        stroke: Stroke { width: dec(0, 0), stroke_type: StrokeType::Default, color: None },
        uuid: "w".to_string(),
    });
    s.labels.push(Label {
        text: "SDA".to_string(),
        position: Position { x: dec(5, 0), y: dec(6, 0), angle: dec(90, 0) },
        fields_autoplaced: true,
        effects: None,
        uuid: "l".to_string(),
    });
    assert!(s.can_write());
    let data = SchematicData::from_sexpr(&schematic_to_sexpr(&s)).unwrap();
    assert_eq!(data.junctions, vec![(dec(1016, 1), dec(508, 1))]);
    assert_eq!(data.wires, vec![vec![(dec(1, 0), dec(2, 0)), (dec(35, 1), dec(2, 0))]]);
    assert_eq!(data.labels.len(), 1);
    assert_eq!(data.labels[0].text, "SDA");
    assert_eq!((data.labels[0].x, data.labels[0].y, data.labels[0].angle), (dec(5, 0), dec(6, 0), dec(90, 0)));
    assert_eq!(data.labels[0].shape, None);
}
