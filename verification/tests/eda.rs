use pcb_core::eda::library::KicadSymbolLibrary;
use pcb_core::eda::symbol::KicadSymbol;
use pcb_core::eda::{EdaError, Symbol};

#[test]
fn test_parse_multi_symbol_library() {
    let content = r#"(kicad_symbol_lib
            (symbol "Symbol1"
                (property "Reference" "U" (at 0 0 0))
                (symbol "Symbol1_0_1"
                    (pin input line (at 0 0 0) (length 2.54)
                        (name "A" (effects (font (size 1.27 1.27))))
                        (number "1" (effects (font (size 1.27 1.27))))
                    )
                )
            )
            (symbol "Symbol2"
                (property "Reference" "U" (at 0 0 0))
                (symbol "Symbol2_0_1"
                    (pin input line (at 0 0 0) (length 2.54)
                        (name "B" (effects (font (size 1.27 1.27))))
                        (number "2" (effects (font (size 1.27 1.27))))
                    )
                )
            )
        )"#;

    let lib = KicadSymbolLibrary::from_string(content).unwrap();
    assert_eq!(lib.symbols().len(), 2);
    assert_eq!(lib.symbol_names(), vec!["Symbol1", "Symbol2"]);
}

const ONE: &str = r#"(kicad_symbol_lib
  (symbol "LM358"
    (in_bom yes)
    (property "Footprint" "C146731:SOIC-8_3.9x4.9mm" (at 0 0 0))
    (property "Datasheet" "https://example.com/lm358.pdf")
    (property "Value" "LM358")
    (property "Mouser Part Number" "595-LM358")
    (property "Mouser Price/Stock" "https://mouser.com/lm358")
    (pin input line (name "IN+") (number "3"))
    (symbol "LM358_0_1"
      (pin output line (name "OUT") (number "1"))
      (pin output line (name "") (number "9"))
    )
  )
)"#;

#[test]
fn symbol_fields_from_properties() {
    let s = Symbol::from_string(ONE, "kicad_sym").unwrap();
    assert_eq!(s.name, "LM358");
    assert!(s.in_bom);
    assert_eq!(s.footprint, "SOIC-8_3.9x4.9mm");
    assert_eq!(s.datasheet.as_deref(), Some("https://example.com/lm358.pdf"));
    assert_eq!(s.mpn.as_deref(), Some("LM358"));
    let mouser = s.distributors.get("Mouser").unwrap();
    assert_eq!(mouser.part_number, "595-LM358");
    assert_eq!(mouser.url, "https://mouser.com/lm358");
    assert_eq!(s.properties.get("Value").map(|v| v.as_str()), Some("LM358"));
    assert_eq!(s.pins.len(), 2);
    assert_eq!(s.pins[0].name, "IN+");
    assert_eq!(s.pins[0].number, "3");
    assert_eq!(s.pins[1].name, "OUT");
}

#[test]
fn symbol_file_type_and_errors() {
    assert!(matches!(Symbol::from_string(ONE, "lib"), Err(EdaError::UnsupportedFileType(t)) if t == "lib"));
    assert!(matches!(KicadSymbol::from_str("(a b"), Err(EdaError::Parse(_))));
    assert!(matches!(KicadSymbol::from_str("atom"), Err(EdaError::InvalidFormat)));
    assert!(matches!(KicadSymbol::from_str("(lib (other x))"), Err(EdaError::NoSymbol)));
    assert!(matches!(KicadSymbol::from_str("(lib (symbol))"), Err(EdaError::SymbolNameNotFound)));
}

#[test]
fn library_lookup_and_conversion() {
    let lib = KicadSymbolLibrary::from_string(ONE).unwrap();
    assert!(lib.get_symbol("LM358").is_some());
    assert!(lib.get_symbol("nope").is_none());
    let syms = lib.into_symbols();
    assert_eq!(syms.len(), 1);
    assert_eq!(syms[0].name, "LM358");
    assert!(matches!(KicadSymbolLibrary::from_string("x"), Err(EdaError::InvalidLibraryFormat)));
}
