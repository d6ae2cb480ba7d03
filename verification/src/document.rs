//! The parsed document and its failure type.

use vstd::prelude::*;
use vstd::string::StringExecFns;

use crate::tree::ConfigNodeID;
use crate::tree::ConfigTree;
use crate::tree::DebugTree;

verus! {

/// One source position: 1-indexed line and column, 0-indexed byte offset,
/// recorded immediately before the first character of a token or container.
#[derive(Clone, Copy, PartialEq, Eq, Structural, Debug)]
pub struct Location {
    pub line_number: usize,
    pub column_number: usize,
    pub byte_number: usize,
}

/// A locally detected parse failure: a short message, the byte offset at
/// which the offending text begins, and up to 50 characters of upcoming
/// input, starting at that offset, as context (empty at file end).
#[derive(Clone, PartialEq, Eq, Debug)]
pub struct ParseFault {
    pub message: String,
    pub offset: usize,
    pub sample: String,
}

/// Failures a parse can end in, each tagged with the file name it came from.
/// Failures of the trusted third-party parsers are carried as their rendered
/// text; locally detected failures carry a structured [`ParseFault`].
#[derive(Clone, PartialEq, Eq, Debug)]
pub enum Error {
    /// The trusted JSON library rejected the input.
    SerdeJson { err: String, file_name: String },
    /// The JSON debug parser rejected the input.
    JSONError { err: ParseFault, file_name: String },
    /// The plist parser rejected the input.
    PlistError { err: ParseFault, file_name: String },
    /// The YAML library rejected the input, or it held an unsupported
    /// construct or not exactly one document.
    YAMLError { err: String, file_name: String },
    /// The trusted TOML library rejected the input.
    SerdeToml { err: String, file_name: String },
}

/// The failure text of a locally detected fault: the message, and the
/// context sample where one was taken.
pub open spec fn fault_text(f: ParseFault) -> Seq<char> {
    if f.sample@.len() == 0 {
        f.message@
    } else {
        f.message@ + " ~~~ "@ + f.sample@ + " ~~~"@
    }
}

impl Error {
    /// The text `describe` renders: the format, the file name in backticks,
    /// and the failure's text.
    pub open spec fn spec_describe(self) -> Seq<char> {
        match self {
            Error::SerdeJson { err, file_name } => "Error while parsing JSON file `"@ + file_name@
                + "`: "@ + err@,
            Error::JSONError { err, file_name } => "Error while parsing JSON file `"@ + file_name@
                + "`: "@ + fault_text(err),
            Error::PlistError { err, file_name } => "Error while parsing plist file `"@
                + file_name@ + "`: "@ + fault_text(err),
            Error::YAMLError { err, file_name } => "Error while parsing YAML file `"@ + file_name@
                + "`: "@ + err@,
            Error::SerdeToml { err, file_name } => "Error while parsing TOML file `"@ + file_name@
                + "`: "@ + err@,
        }
    }

    /// One line saying what failed, in which file, and why.  The tree and
    /// error types carry no Display here, so this method stands in its
    /// place.
    pub fn describe(&self) -> (r: String)
        ensures
            r@ == self.spec_describe(),
    {
        let mut out = String::new();
        match self {
            Error::SerdeJson { err, file_name } => {
                out.append("Error while parsing JSON file `");
                out.append(file_name.as_str());
                out.append("`: ");
                out.append(err.as_str());
            },
            Error::JSONError { err, file_name } => {
                out.append("Error while parsing JSON file `");
                out.append(file_name.as_str());
                out.append("`: ");
                append_fault(&mut out, err);
            },
            Error::PlistError { err, file_name } => {
                out.append("Error while parsing plist file `");
                out.append(file_name.as_str());
                out.append("`: ");
                append_fault(&mut out, err);
            },
            Error::YAMLError { err, file_name } => {
                out.append("Error while parsing YAML file `");
                out.append(file_name.as_str());
                out.append("`: ");
                out.append(err.as_str());
            },
            Error::SerdeToml { err, file_name } => {
                out.append("Error while parsing TOML file `");
                out.append(file_name.as_str());
                out.append("`: ");
                out.append(err.as_str());
            },
        }
        out
    }
}

/// Append a fault's text, as `fault_text` says.
fn append_fault(out: &mut String, f: &ParseFault)
    ensures
        final(out)@ == old(out)@ + fault_text(*f),
{
    out.append(f.message.as_str());
    if !f.sample.as_str().is_empty() {
        out.append(" ~~~ ");
        out.append(f.sample.as_str());
        out.append(" ~~~");
    }
}

/// One parsed document: a tree plus the file name it was parsed from, and,
/// for a debug-mode parse, the table mapping each node identifier to the
/// source location where that node begins.
///
/// The two shapes are alternative representations chosen at parse time and
/// never converted into one another; a non-debug document carries no
/// identifiers and builds no table.
#[derive(PartialEq, Eq, Debug)]
pub enum Config {
    NonDebug { tree: ConfigTree, file_name: String },
    Debug { tree: DebugTree, file_name: String, locations: Vec<Location> },
}

impl Config {
    /// The file name this document was parsed from.
    pub open spec fn spec_file_name(self) -> Seq<char> {
        match self {
            Config::NonDebug { tree, file_name } => file_name@,
            Config::Debug { tree, file_name, locations } => file_name@,
        }
    }

    /// Every object anywhere in the document has unique keys.
    pub open spec fn wf(self) -> bool {
        match self {
            Config::NonDebug { tree, file_name } => tree.wf(),
            Config::Debug { tree, file_name, locations } => tree.wf(),
        }
    }

    /// Look up where the node with the given identifier begins.  Non-debug
    /// documents track no locations, so the answer there is always `None`.
    pub fn source_location(&self, id: ConfigNodeID) -> (r: Option<Location>)
        ensures
            match *self {
                Config::NonDebug { tree, file_name } => r is None,
                Config::Debug { tree, file_name, locations } => {
                    if id.0 < locations@.len() {
                        r == Some(locations@[id.0 as int])
                    } else {
                        r is None
                    }
                },
            },
    {
        match self {
            Config::NonDebug { tree, file_name } => None,
            Config::Debug { tree, file_name, locations } => {
                if id.0 < locations.len() {
                    Some(locations[id.0])
                } else {
                    None
                }
            },
        }
    }
}

} // verus!
