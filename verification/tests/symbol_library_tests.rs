use libkicaddy::lookup::{LookupError, SymbolError};
use libkicaddy::outline_nets::GridPoint;
use libkicaddy::place::PlaceComponentCommand;
use libkicaddy::schematic_items::items_from_schematic;
use libkicaddy::schematic_save::schematic_with_items;
use libkicaddy::schematic_write::GraphicItem;
use libkicaddy::sexpr::{Decimal, SExpr, SExprParser};
use libkicaddy::sheet_reader::SchematicData;
use libkicaddy::symbol_info::symbol_info;
use libkicaddy::symbol_library::{
    find_symbol_in, library_readable, parse_symbol_library_str, symbol_library_from_sexpr, SymbolLibrary,
};
use libkicaddy::symbol_place::{lib_symbol_of, new_symbol, summary_of};

const LIB: &str = r#"
    (kicad_symbol_lib
        (version 20241209)
        (generator "test")
        (symbol "R"
            (pin_numbers (hide yes))
            (pin_names (offset 0))
            (exclude_from_sim no)
            (in_bom yes)
            (on_board yes)
            (property "Reference" "R" (at 0 0 0))
            (property "Value" "R" (at 0 0 0))
            (symbol "R_0_1"
                (rectangle
                    (start -1 -2.5)
                    (end 1 2.5)
                    (stroke (width 0.25) (type default))
                    (fill (type none))
                )
            )
            (symbol "R_1_1"
                (pin passive line
                    (at 0 3.81 270)
                    (length 1.27)
                    (name "~" (effects (font (size 1.27 1.27))))
                    (number "1" (effects (font (size 1.27 1.27))))
                )
            )
        )
    )
"#;

fn read(text: &str) -> Result<SymbolLibrary, SymbolError> {
    parse_symbol_library_str(text)
}

fn dec(m: i64, s: u32) -> Decimal {
    Decimal { mantissa: m, scale: s }
}

#[test]
fn test_parse_simple_symbol() {
    let lib = read(LIB).unwrap();
    assert_eq!(lib.version, 20241209);
    assert_eq!(lib.symbols.len(), 1);

    let sym = &lib.symbols[0];
    assert_eq!(sym.name, "R");
    assert!(sym.pin_numbers_hide);
    let reference = sym.properties.iter().find(|p| p.name == "Reference").map(|p| p.value.as_str());
    assert_eq!(reference, Some("R"));
    assert_eq!(sym.units.len(), 2);

    assert_eq!(sym.units[0].graphics.len(), 1);
    assert!(matches!(sym.units[0].graphics[0], GraphicItem::Rectangle(_)));

    assert_eq!(sym.units[1].pins.len(), 1);
    assert_eq!(sym.units[1].pins[0].number.text, "1");
}

#[test]
fn library_reads_shapes_pins_and_settings_exactly() {
    let lib = read(LIB).unwrap();
    assert_eq!(lib.generator.as_deref(), Some("test"));
    let sym = &lib.symbols[0];
    assert_eq!(sym.pin_names_offset, dec(0, 0));
    assert!(!sym.pin_names_hide && !sym.exclude_from_sim && sym.in_bom && sym.on_board);
    let GraphicItem::Rectangle(r) = &sym.units[0].graphics[0] else { panic!("rectangle") };
    assert_eq!((r.start.x, r.start.y, r.end.y), (dec(-1, 0), dec(-25, 1), dec(25, 1)));
    assert_eq!(r.stroke.width, dec(25, 2));
    let pin = &sym.units[1].pins[0];
    assert_eq!((pin.position.y, pin.position.angle, pin.length), (dec(381, 2), dec(270, 0), dec(127, 2)));
    assert_eq!(pin.name.text, "~");
    assert!(pin.name.effects.is_some());
}

#[test]
fn library_errors_name_the_missing_field() {
    let e = read("(kicad_symbol_lib (symbol (property \"Reference\" \"R\")))").unwrap_err();
    assert!(matches!(e, SymbolError::MissingField(ref f) if f == "symbol name"));
    let e = read("(kicad_symbol_lib (symbol \"R\" (property private (at 0 0))))").unwrap_err();
    assert!(matches!(e, SymbolError::MissingField(ref f) if f == "property name"));
    let e = read("(kicad_symbol_lib (symbol \"R\" (symbol (pin passive line))))").unwrap_err();
    assert_eq!(e.to_string(), "Missing field: unit name");
    let e = read("(kicad_sch)").unwrap_err();
    assert!(matches!(e, SymbolError::InvalidFormat { ref expected, .. } if expected == "kicad_symbol_lib"));
    assert!(matches!(read("(kicad_symbol_lib"), Err(SymbolError::Parse(_))));
}

#[test]
fn items_too_short_to_read_are_reported() {
    let (_, e) = SExprParser::parse("(kicad_symbol_lib (symbol \"R\" (symbol \"R_1\" (pin passive))))").unwrap();
    assert!(!library_readable(&e));
    let (_, e) = SExprParser::parse("(kicad_symbol_lib (symbol \"R\" (property \"Reference\")))").unwrap();
    assert!(!library_readable(&e));
    let (_, e) = SExprParser::parse(LIB).unwrap();
    assert!(library_readable(&e));
    assert!(symbol_library_from_sexpr(&e).is_ok());
    assert!(library_readable(&SExpr::Symbol("x".to_string())));
}

#[test]
fn find_symbol_in_library() {
    let s = find_symbol_in(read(LIB).unwrap(), "Device", "R").unwrap();
    assert_eq!(s.name, "R");
    let e = find_symbol_in(read(LIB).unwrap(), "Device", "NonExistentSymbol12345").unwrap_err();
    assert!(matches!(e, LookupError::SymbolNotFound { .. }));
    assert_eq!(e.to_string(), "Symbol not found: NonExistentSymbol12345 in library Device");
}

#[test]
fn summary_of_a_read_symbol() {
    let lib = read(LIB).unwrap();
    let info = symbol_info("Device", "R", &summary_of(&lib.symbols[0]));
    assert_eq!(info.lib_id, "Device:R");
    assert_eq!(info.reference_prefix.as_deref(), Some("R"));
    assert_eq!(info.pins.len(), 1);
    assert_eq!(info.pins[0].electrical_type, "passive");
}

const SHEET: &str = r##"(kicad_sch (version 20231120) (generator "eeschema") (uuid "root")
  (lib_symbols)
  (wire (pts (xy 10 10) (xy 20 10)) (stroke (width 0.2) (type dash)) (uuid "w1"))
)"##;

#[test]
fn placing_a_symbol_is_saved_with_its_definition() {
    let sym = find_symbol_in(read(LIB).unwrap(), "Device", "R").unwrap();
    let lib_sym = lib_symbol_of(&sym);
    assert_eq!(lib_sym.pins.len(), 1);
    assert_eq!(lib_sym.pins[0].geometry.angle, 270);
    let (_, e) = SExprParser::parse(SHEET).unwrap();
    let mut items = items_from_schematic(&SchematicData::from_sexpr(&e).unwrap());
    let cmd = PlaceComponentCommand {
        symbol: lib_sym.clone(),
        lib_id: "Device:R".to_string(),
        position: GridPoint { x: 1_016_000, y: 508_000 },
        angle: 0,
        reference: None,
        value: Some("10k".to_string()),
    };
    let result = cmd.execute(&mut items).unwrap();
    let placed = items.components.last().unwrap().clone();
    assert_eq!(placed.properties[0], ("Reference".to_string(), "R1".to_string()));
    let uuids: Vec<String> = (0..placed.instance_pins.len() + 1).map(|k| format!("p{}", k)).collect();
    let new = new_symbol(
        sym,
        &lib_sym,
        "Device:R",
        GridPoint { x: result.x, y: result.y },
        0,
        &"R1".to_string(),
        &"10k".to_string(),
        &placed.instance_pins,
        &"root".to_string(),
        &uuids,
    );
    assert_eq!(new.definition.name, "Device:R");
    assert_eq!(new.instance.instances[0].paths[0].path, "/root");
    let saved = schematic_with_items(&e, &items, &vec![new], &vec!["u0".to_string()]).unwrap();
    let text = saved.to_kicad_string();
    assert!(text.contains("(symbol \"Device:R\""));
    assert!(text.contains("(lib_id \"Device:R\")"));
    assert!(text.contains("(type dash)"));
    let again = items_from_schematic(&SchematicData::from_sexpr(&saved).unwrap());
    assert_eq!(again.components.len(), 1);
    assert_eq!(again.components[0].properties[0], ("Reference".to_string(), "R1".to_string()));
    assert_eq!(again.components[0].properties[1], ("Value".to_string(), "10k".to_string()));
    assert_eq!(again.lib_symbols, vec!["Device:R".to_string()]);
    assert_eq!(again.wires, items.wires);
}
