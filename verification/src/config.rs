//! The settings of the command line tool.

use vstd::prelude::*;

verus! {

/// The languages that a grammar can be emitted in.
#[derive(Clone, Copy, Debug, PartialEq, Eq, Structural)]
pub enum SupportedMode {
    /// Rust.
    Rust,
}

/// The settings: the language to emit, what to export, and the files to
/// include and to exclude.
#[derive(Clone, Debug)]
pub struct YccConfig {
    /// The language to emit.
    pub language: SupportedMode,
    /// What is exported.
    pub export: Vec<String>,
    /// Patterns of the files to include.
    pub includes: Vec<String>,
    /// Patterns of the files to exclude.
    pub excludes: Vec<String>,
}

impl Default for YccConfig {
    /// The settings where no file gives any: Rust, and nothing else.
    fn default() -> (c: YccConfig)
        ensures
            c.language == SupportedMode::Rust,
            c.export@.len() == 0,
            c.includes@.len() == 0,
            c.excludes@.len() == 0,
    {
        YccConfig {
            language: SupportedMode::Rust,
            export: Vec::new(),
            includes: Vec::new(),
            excludes: Vec::new(),
        }
    }
}

/// The name of the format of a settings file with the extension
/// `extension`: `json` for a file without extension.
pub open spec fn format_of(extension: Option<Seq<char>>) -> Seq<char> {
    match extension {
        Some(e) => e,
        None => "json"@,
    }
}

/// True for the formats that a settings file can have.
pub open spec fn is_known_format(format: Seq<char>) -> bool {
    format == "json"@ || format == "json5"@
}

impl YccConfig {
    /// The name of the format of a settings file with the extension
    /// `extension`, if it is one that can be read.
    pub fn format(extension: Option<&str>) -> (f: Option<String>)
        ensures
            f is Some <==> is_known_format(format_of(extension_view(extension))),
            f matches Some(s) ==> s@ == format_of(extension_view(extension)),
    {
        let name = match extension {
            Some(e) => e.to_owned(),
            None => "json".to_owned(),
        };
        if crate::strings::same_text(name.as_str(), "json") || crate::strings::same_text(
            name.as_str(),
            "json5",
        ) {
            Some(name)
        } else {
            None
        }
    }
}

/// The model of an extension.
pub open spec fn extension_view(e: Option<&str>) -> Option<Seq<char>> {
    match e {
        Some(s) => Some(s@),
        None => None,
    }
}

} // verus!
