//! Formats in which the boss files are written.
use vstd::prelude::*;

verus! {

/// An error while reading or writing a file: either the data could not be
/// (de)serialized or the file could not be accessed.
#[derive(Debug, Clone, PartialEq, Eq)]
pub enum FileSerializationError {
    Serde(String),
    Io(String),
}

/// The text format of a serialized file.
#[derive(Debug, Copy, Clone, PartialEq, Eq, Ord, PartialOrd, Hash, Structural)]
pub enum SerializationFormat {
    Json,
    Yaml,
}

/// The file extension used for each format.
pub open spec fn file_ending_spec(f: SerializationFormat) -> Seq<char> {
    match f {
        SerializationFormat::Json => seq!['j', 's', 'o', 'n'],
        SerializationFormat::Yaml => seq!['y', 'a', 'm', 'l'],
    }
}

impl SerializationFormat {
    /// The file extension for this format, without the dot.
    pub fn file_ending(&self) -> (s: &'static str)
        ensures
            s@ == file_ending_spec(*self),
    {
        match self {
            SerializationFormat::Json => {
                let s = "json";
                proof {
                    reveal_strlit("json");
                }
                s
            },
            SerializationFormat::Yaml => {
                let s = "yaml";
                proof {
                    reveal_strlit("yaml");
                }
                s
            },
        }
    }
}

impl Default for SerializationFormat {
    fn default() -> (f: Self)
        ensures
            f == SerializationFormat::Json,
    {
        SerializationFormat::Json
    }
}

} // verus!
