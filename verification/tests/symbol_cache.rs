use std::cell::Cell;

use pcb_core::eda::library::KicadSymbolLibrary;
use pcb_core::eda::EdaError;
use pcb_core::lang::symbol_cache::SymbolLibraryCache;
use pcb_core::provider::{FileProvider, FileProviderError};

const LIB: &str = r#"(kicad_symbol_lib
  (symbol "R" (pin passive line (name "1") (number "1")) (pin passive line (name "2") (number "2")))
  (symbol "C" (pin passive line (name "+") (number "1")))
  (symbol "R" (pin passive line (name "X") (number "9")))
)"#;

struct CountingFiles {
    reads: Cell<usize>,
}

impl FileProvider for CountingFiles {
    fn read_file(&self, path: &str) -> Result<String, FileProviderError> {
        self.reads.set(self.reads.get() + 1);
        match path {
            "lib/parts.kicad_sym" => Ok(LIB.to_string()),
            "lib/bad.kicad_sym" => Ok("(unclosed".to_string()),
            _ => Err(FileProviderError::NotFound(path.to_string())),
        }
    }
    fn file_exists(&self, path: &str) -> bool {
        path.starts_with("lib/")
    }
    fn is_directory(&self, _path: &str) -> bool {
        false
    }
    fn list_directory(&self, _path: &str) -> Result<Vec<String>, FileProviderError> {
        Ok(Vec::new())
    }
    fn canonicalize(&self, path: &str) -> Result<String, FileProviderError> {
        Ok(format!("/ws/{path}"))
    }
}

#[test]
fn symbols_resolve_by_first_name_and_library_is_read_once() {
    let files = CountingFiles { reads: Cell::new(0) };
    let mut cache = SymbolLibraryCache::new();
    let r = cache.load_symbol_from_library("lib/parts.kicad_sym", "R", &files).unwrap().unwrap();
    assert_eq!(r.name, "R");
    assert_eq!(r.pins.len(), 2);
    assert!(cache.contains_library("/ws/lib/parts.kicad_sym"));
    let c = cache.load_symbol_from_library("lib/parts.kicad_sym", "C", &files).unwrap().unwrap();
    assert_eq!(c.pins[0].name, "+");
    let again = cache.load_symbol_from_library("lib/parts.kicad_sym", "R", &files).unwrap().unwrap();
    assert_eq!(again.pins.len(), 2);
    assert!(cache.load_symbol_from_library("lib/parts.kicad_sym", "L", &files).unwrap().is_none());
    assert_eq!(files.reads.get(), 1);

    let all = cache.load_symbols_from_library("lib/parts.kicad_sym", &files).unwrap();
    let names: Vec<&str> = all.iter().map(|s| s.name.as_str()).collect();
    assert_eq!(names, vec!["R", "C", "R"]);
    assert_eq!(all[2].pins.len(), 2);
    assert_eq!(files.reads.get(), 1);
}

#[test]
fn library_errors_are_reported() {
    let files = CountingFiles { reads: Cell::new(0) };
    let mut cache = SymbolLibraryCache::new();
    assert_eq!(
        cache.load_symbol_from_library("lib/none.kicad_sym", "R", &files).unwrap_err(),
        "Failed to read symbol library 'lib/none.kicad_sym': File not found: lib/none.kicad_sym"
    );
    assert!(cache
        .load_symbols_from_library("lib/bad.kicad_sym", &files)
        .unwrap_err()
        .starts_with("Failed to parse symbol library: "));
    assert!(!cache.contains_library("/ws/lib/bad.kicad_sym"));
}

#[test]
fn cache_lookups_by_key() {
    let mut cache = SymbolLibraryCache::new();
    assert!(cache.load_symbol("/k", "R").is_none());
    assert!(cache.cached_symbols("/k").is_none());
    let lib = KicadSymbolLibrary::from_string(LIB).unwrap();
    let all = cache.insert_library("/k".to_string(), lib);
    assert_eq!(all.len(), 3);
    assert_eq!(cache.load_symbol("/k", "C").unwrap().unwrap().name, "C");
    assert!(cache.load_symbol("/k", "Q").unwrap().is_none());
    assert_eq!(cache.cached_symbols("/k").unwrap().len(), 3);
    let replaced = cache.insert_library("/k".to_string(), KicadSymbolLibrary::from_string("(kicad_symbol_lib)").unwrap());
    assert!(replaced.is_empty());
    assert!(cache.load_symbol("/k", "C").unwrap().is_none());
    assert_eq!(EdaError::InvalidLibraryFormat.message(), "Invalid KiCad symbol library format");
    assert_eq!(EdaError::UnsupportedFileType("txt".to_string()).message(), "Unsupported file type: txt");
}
