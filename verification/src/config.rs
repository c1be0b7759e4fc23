//! Configuration for KiCAD paths and settings.
//!
//! Paths are held as text; looking at the file system is left to the caller,
//! which hands in what it found.

use vstd::prelude::*;

verus! {

/// Environment variable for KiCAD installation path
pub const KICAD_PATH_ENV: &'static str = "KICAD_PATH";

/// Errors while locating a KiCAD installation
#[derive(Debug, Clone)]
pub enum ConfigError {
    KicadNotFound,
    SymbolLibraryNotFound(String),
}

impl ConfigError {
    /// The message shown for this error.
    pub open spec fn message_spec(&self) -> Seq<char> {
        match self {
            ConfigError::KicadNotFound => "KiCAD installation not found. Set "@ + KICAD_PATH_ENV@
                + " environment variable or install KiCAD to a standard location."@,
            ConfigError::SymbolLibraryNotFound(p) => "Symbol library path not found: "@ + p@,
        }
    }

    /// The message shown for this error.
    pub fn to_string(&self) -> (r: String)
        ensures
            r@ == self.message_spec(),
    {
        match self {
            ConfigError::KicadNotFound => {
                let mut r = String::from_str("KiCAD installation not found. Set ");
                r.append(KICAD_PATH_ENV);
                r.append(" environment variable or install KiCAD to a standard location.");
                r
            },
            ConfigError::SymbolLibraryNotFound(p) => {
                let mut r = String::from_str("Symbol library path not found: ");
                r.append(p.as_str());
                r
            },
        }
    }
}

/// `comp` appended to `base` as a path component: an absolute component
/// replaces the base, otherwise one `/` separates them.
pub open spec fn join_path(base: Seq<char>, comp: Seq<char>) -> Seq<char> {
    if comp.len() > 0 && comp[0] == '/' {
        comp
    } else if base.len() == 0 {
        comp
    } else if base.last() == '/' {
        base + comp
    } else {
        base + seq!['/'] + comp
    }
}

/// Append a path component to a base path.
pub fn join_path_str(base: &str, comp: &str) -> (r: String)
    ensures
        r@ == join_path(base@, comp@),
{
    let c = crate::text::chars_of(comp);
    if c.len() > 0 && c[0] == '/' {
        return String::from_str(comp);
    }
    let b = crate::text::chars_of(base);
    if b.len() == 0 {
        return String::from_str(comp);
    }
    let mut r = String::from_str(base);
    if b[b.len() - 1] != '/' {
        crate::text::push_char(&mut r, '/');
    }
    r.append(comp);
    r
}

/// Configuration for KiCAD installation and paths
#[derive(Debug, Clone)]
pub struct KicadConfig {
    /// Root path of the KiCAD installation
    pub kicad_path: String,
    /// Path to symbol libraries
    pub symbol_lib_path: String,
    /// Path to footprint libraries
    pub footprint_lib_path: String,
}

impl KicadConfig {
    /// Create configuration from a specific KiCAD path
    pub fn from_path(kicad_path: String) -> (r: Result<Self, ConfigError>)
        ensures
            r matches Ok(c) && c.kicad_path@ == kicad_path@ && c.symbol_lib_path@ == join_path(
                kicad_path@,
                "symbols"@,
            ) && c.footprint_lib_path@ == join_path(kicad_path@, "footprints"@),
    {
        let symbol_lib_path = join_path_str(kicad_path.as_str(), "symbols");
        let footprint_lib_path = join_path_str(kicad_path.as_str(), "footprints");
        Ok(KicadConfig { kicad_path, symbol_lib_path, footprint_lib_path })
    }

    /// Standard KiCAD installation paths on Linux, in the order they are tried.
    pub fn standard_paths() -> (r: Vec<String>)
        ensures
            r@.len() == 2,
            r@[0]@ == "/usr/share/kicad"@,
            r@[1]@ == "/usr/local/share/kicad"@,
    {
        let mut r: Vec<String> = Vec::new();
        r.push(String::from_str("/usr/share/kicad"));
        r.push(String::from_str("/usr/local/share/kicad"));
        r
    }

    /// The installation path: the first candidate that exists. The caller lists
    /// the `KICAD_PATH` value first (when set), then the standard paths, each
    /// with whether it exists on disk.
    pub fn find_kicad_path(candidates: &Vec<(String, bool)>) -> (r: Result<String, ConfigError>)
        ensures
            (exists|i: int| 0 <= i < candidates@.len() && candidates@[i].1) ==> ({
                let i = choose|i: int|
                    0 <= i < candidates@.len() && candidates@[i].1 && forall|j: int|
                        0 <= j < i ==> !candidates@[j].1;
                r matches Ok(p) && p@ == candidates@[i].0@
            }),
            !(exists|i: int| 0 <= i < candidates@.len() && candidates@[i].1) ==> r matches Err(
                ConfigError::KicadNotFound,
            ),
    {
        let mut i: usize = 0;
        while i < candidates.len()
            invariant
                i <= candidates@.len(),
                forall|j: int| 0 <= j < i ==> !candidates@[j].1,
            decreases candidates@.len() - i,
        {
            if candidates[i].1 {
                assert forall|k: int|
                    0 <= k < candidates@.len() && candidates@[k].1 && (forall|j: int|
                        0 <= j < k ==> !candidates@[j].1) implies k == i by {
                    if k > i {
                        assert(candidates@[i as int].1);
                    }
                }
                return Ok(candidates[i].0.clone());
            }
            i = i + 1;
        }
        Err(ConfigError::KicadNotFound)
    }

    /// Configuration for the first existing candidate installation path.
    pub fn detect_among(candidates: &Vec<(String, bool)>) -> (r: Result<Self, ConfigError>)
        ensures
            match Self::find_kicad_path_spec(candidates@) {
                Some(p) => r matches Ok(c) && c.kicad_path@ == p && c.symbol_lib_path@ == join_path(
                    p,
                    "symbols"@,
                ) && c.footprint_lib_path@ == join_path(p, "footprints"@),
                None => r matches Err(ConfigError::KicadNotFound),
            },
    {
        let p = Self::find_kicad_path(candidates)?;
        Self::from_path(p)
    }

    /// The configuration of the installation found: the `KICAD_PATH` value when it is
    /// set and exists, else the first standard path that exists. The caller hands in
    /// the variable's value (if set) and each standard path, each with whether it
    /// exists on disk.
    pub fn detect(env: Option<(String, bool)>, standard: &Vec<(String, bool)>) -> (r: Result<Self, ConfigError>)
        ensures
            match env {
                Some((p, true)) => r matches Ok(c) && c.kicad_path@ == p@ && c.symbol_lib_path@ == join_path(
                    p@,
                    "symbols"@,
                ) && c.footprint_lib_path@ == join_path(p@, "footprints"@),
                _ => match Self::find_kicad_path_spec(standard@) {
                    Some(q) => r matches Ok(c) && c.kicad_path@ == q && c.symbol_lib_path@ == join_path(
                        q,
                        "symbols"@,
                    ) && c.footprint_lib_path@ == join_path(q, "footprints"@),
                    None => r matches Err(ConfigError::KicadNotFound),
                },
            },
    {
        match env {
            Some((p, true)) => Self::from_path(p),
            _ => Self::detect_among(standard),
        }
    }

    /// The path of the first candidate that exists.
    pub open spec fn find_kicad_path_spec(candidates: Seq<(String, bool)>) -> Option<Seq<char>> {
        if exists|i: int| 0 <= i < candidates.len() && candidates[i].1 {
            let i = choose|i: int|
                0 <= i < candidates.len() && candidates[i].1 && forall|j: int|
                    0 <= j < i ==> !candidates[j].1;
            Some(candidates[i].0@)
        } else {
            None
        }
    }

    /// All symbol library paths to index: the official one, then the
    /// third-party/plugin paths that exist (found by the caller).
    pub fn all_symbol_lib_paths(&self, third_party: Vec<String>) -> (r: Vec<String>)
        ensures
            r@.len() == third_party@.len() + 1,
            r@[0]@ == self.symbol_lib_path@,
            forall|i: int| 0 <= i < third_party@.len() ==> r@[i + 1] == third_party@[i],
    {
        let mut r: Vec<String> = Vec::new();
        r.push(self.symbol_lib_path.clone());
        let mut i: usize = 0;
        while i < third_party.len()
            invariant
                i <= third_party@.len(),
                r@.len() == i + 1,
                r@[0]@ == self.symbol_lib_path@,
                forall|j: int| 0 <= j < i ==> r@[j + 1] == third_party@[j],
            decreases third_party@.len() - i,
        {
            r.push(third_party[i].clone());
            i = i + 1;
        }
        r
    }
}

} // verus!
