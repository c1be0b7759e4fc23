//! Symbol lookup in the installed KiCAD libraries: where a library file lives.

use vstd::prelude::*;

use crate::config::{join_path, join_path_str, KicadConfig};

verus! {

/// Errors from symbol library parsing
#[derive(Debug, Clone)]
pub enum SymbolError {
    /// Reading the file failed; the message of the I/O error
    Io(String),
    Parse(String),
    InvalidFormat { expected: String, got: String },
    MissingField(String),
}

impl SymbolError {
    /// The message shown for this error.
    pub open spec fn message_spec(&self) -> Seq<char> {
        match self {
            SymbolError::Io(m) => "IO error: "@ + m@,
            SymbolError::Parse(m) => "Parse error: "@ + m@,
            SymbolError::InvalidFormat { expected, got } => "Invalid format: expected "@ + expected@ + ", got "@ + got@,
            SymbolError::MissingField(f) => "Missing field: "@ + f@,
        }
    }

    /// The message shown for this error.
    pub fn to_string(&self) -> (r: String)
        ensures
            r@ == self.message_spec(),
    {
        match self {
            SymbolError::Io(m) => {
                let mut r = String::from_str("IO error: ");
                r.append(m.as_str());
                r
            },
            SymbolError::Parse(m) => {
                let mut r = String::from_str("Parse error: ");
                r.append(m.as_str());
                r
            },
            SymbolError::InvalidFormat { expected, got } => {
                let mut r = String::from_str("Invalid format: expected ");
                r.append(expected.as_str());
                r.append(", got ");
                r.append(got.as_str());
                r
            },
            SymbolError::MissingField(f) => {
                let mut r = String::from_str("Missing field: ");
                r.append(f.as_str());
                r
            },
        }
    }
}

/// Errors while looking up a symbol
#[derive(Debug, Clone)]
pub enum LookupError {
    LibraryNotFound(String),
    SymbolNotFound { library: String, symbol: String },
    SymbolError(SymbolError),
}

impl LookupError {
    /// The message shown for this error.
    pub open spec fn message_spec(&self) -> Seq<char> {
        match self {
            LookupError::LibraryNotFound(l) => "Library not found: "@ + l@,
            LookupError::SymbolNotFound { library, symbol } => "Symbol not found: "@ + symbol@ + " in library "@ + library@,
            LookupError::SymbolError(e) => "Symbol library error: "@ + e.message_spec(),
        }
    }

    /// The message shown for this error.
    pub fn to_string(&self) -> (r: String)
        ensures
            r@ == self.message_spec(),
    {
        match self {
            LookupError::LibraryNotFound(l) => {
                let mut r = String::from_str("Library not found: ");
                r.append(l.as_str());
                r
            },
            LookupError::SymbolNotFound { library, symbol } => {
                let mut r = String::from_str("Symbol not found: ");
                r.append(symbol.as_str());
                r.append(" in library ");
                r.append(library.as_str());
                r
            },
            LookupError::SymbolError(e) => {
                let mut r = String::from_str("Symbol library error: ");
                let m = e.to_string();
                r.append(m.as_str());
                r
            },
        }
    }
}

/// The file a library of the given name lives in: `<symbols>/<library>.kicad_sym`.
pub open spec fn library_file_spec(config: KicadConfig, library: Seq<char>) -> Seq<char> {
    join_path(config.symbol_lib_path@, library + ".kicad_sym"@)
}

/// The file a library of the given name lives in.
pub fn library_file_path(config: &KicadConfig, library: &str) -> (r: String)
    ensures
        r@ == library_file_spec(*config, library@),
{
    let mut name = String::from_str(library);
    name.append(".kicad_sym");
    join_path_str(config.symbol_lib_path.as_str(), name.as_str())
}

/// Get the path to a symbol library file, given whether that file exists.
pub fn library_path(config: &KicadConfig, library: &str, file_exists: bool) -> (r: Result<
    String,
    LookupError,
>)
    ensures
        file_exists ==> (r matches Ok(p) && p@ == library_file_spec(*config, library@)),
        !file_exists ==> (r matches Err(LookupError::LibraryNotFound(l)) && l@ == library@),
{
    if file_exists {
        Ok(library_file_path(config, library))
    } else {
        Err(LookupError::LibraryNotFound(String::from_str(library)))
    }
}

} // verus!
