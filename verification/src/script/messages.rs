//! The messages of script errors.

use vstd::prelude::*;
use crate::script::parser::{LineError, ScriptError};

verus! {

fn cat3(a: &str, b: &str, c: &str) -> (r: String)
    ensures
        r@ == a@ + b@ + c@,
{
    let mut m = a.to_owned();
    m.append(b);
    m.append(c);
    m
}

fn cat5(a: &str, b: &str, c: &str, d: &str, e: &str) -> (r: String)
    ensures
        r@ == a@ + b@ + c@ + d@ + e@,
{
    let mut m = a.to_owned();
    m.append(b);
    m.append(c);
    m.append(d);
    m.append(e);
    m
}

/// The message of a line error.
pub open spec fn line_error_text(e: LineError) -> Seq<char> {
    match e {
        LineError::UnterminatedString => "unterminated string literal"@,
        LineError::OutputMissingPath => "Output requires a path"@,
        LineError::MultipleOutputs { path, first } => "evp only supports a single `Output` directive per tape (got `"@ + path@
            + "` after `"@ + first@
            + "`). VHS allows multiple outputs; this is tracked under \"VHS feature parity\" in the README."@,
        LineError::OutputExtension { path, ext } => "Output `"@ + path@ + "` has unsupported extension `."@ + ext@
            + "`. evp writes `.gif`, `.svg`, `.svgz`, `.json` or `.stats`. `.mp4`, `.webm`, `.png` (frame directory), `.txt`, and `.ascii` outputs are VHS features evp does not implement yet (see README \"VHS feature parity\")."@,
        LineError::OutputNoExtension { path } => "Output `"@ + path@
            + "` has no extension. evp picks the renderer from the extension; use `.gif`, `.svg`, `.svgz`, `.json` or `.stats`."@,
        LineError::SetMissingKey => "Set requires a key"@,
        LineError::SetMissingValue { key } => "Set "@ + key@ + " requires a value"@,
        LineError::InvalidValue { key, value } => "invalid value `"@ + value@ + "` for `Set "@ + key@ + "`"@,
        LineError::Color(c) => "`"@ + c.value@ + "` is not a valid color"@,
        LineError::WindowBar(w) => w.value@ + " is not a valid window bar style"@,
        LineError::Theme(t) => crate::style::theme_error_text(t),
        LineError::UnsupportedSet { key } => "`Set "@ + key@
            + "` is a VHS feature that evp does not implement yet. See the README's \"VHS feature parity\" section. Remove the directive or run the tape with vhs instead."@,
        LineError::UnknownSetKey { key } => "unknown Set key: "@ + key@ + ""@,
        LineError::Duration(d) => "invalid duration `"@ + d.text@ + "`"@,
        LineError::EnvKeyMissing => "Env KEY missing"@,
        LineError::EnvValueMissing => "Env value missing"@,
        LineError::SleepMissing => "Sleep needs a duration"@,
        LineError::ScreenshotMissing => "Screenshot needs a path"@,
        LineError::ScreenshotNotPng => "Screenshot expects a .png path"@,
        LineError::WaitUnexpected { token } => "unexpected token in Wait: `"@ + token@ + "`"@,
        LineError::SourceMissing => "Source requires a path"@,
        LineError::SourceUnresolved { path } => "`Source "@ + path@
            + "` needs the file system; read the tape from a file to follow it"@,
        LineError::CopyEmpty => "Copy requires at least one quoted string"@,
        LineError::ExpectedQuoted { token } => "expected quoted string, got `"@ + token@ + "`"@,
        LineError::TypeEmpty => "Type requires at least one quoted string"@,
        LineError::MissingKeyName { spec } => "missing key name in `"@ + spec@ + "`"@,
        LineError::UnknownKey { name } => "unknown key name `"@ + name@ + "`"@,
        LineError::RepeatCount { token } => "invalid repeat count `"@ + token@ + "`"@,
    }
}

impl LineError {
    /// Human-readable description of the error.
    pub fn message(&self) -> (r: String)
        ensures
            r@ == line_error_text(*self),
    {
        match self {
            LineError::UnterminatedString => "unterminated string literal".to_owned(),
            LineError::OutputMissingPath => "Output requires a path".to_owned(),
            LineError::MultipleOutputs { path, first } => cat5(
                "evp only supports a single `Output` directive per tape (got `",
                path.as_str(),
                "` after `",
                first.as_str(),
                "`). VHS allows multiple outputs; this is tracked under \"VHS feature parity\" in the README.",
            ),
            LineError::OutputExtension { path, ext } => cat5(
                "Output `",
                path.as_str(),
                "` has unsupported extension `.",
                ext.as_str(),
                "`. evp writes `.gif`, `.svg`, `.svgz`, `.json` or `.stats`. `.mp4`, `.webm`, `.png` (frame directory), `.txt`, and `.ascii` outputs are VHS features evp does not implement yet (see README \"VHS feature parity\").",
            ),
            LineError::OutputNoExtension { path } => cat3(
                "Output `",
                path.as_str(),
                "` has no extension. evp picks the renderer from the extension; use `.gif`, `.svg`, `.svgz`, `.json` or `.stats`.",
            ),
            LineError::SetMissingKey => "Set requires a key".to_owned(),
            LineError::SetMissingValue { key } => cat3("Set ", key.as_str(), " requires a value"),
            LineError::InvalidValue { key, value } => cat5(
                "invalid value `",
                value.as_str(),
                "` for `Set ",
                key.as_str(),
                "`",
            ),
            LineError::Color(e) => e.message(),
            LineError::WindowBar(e) => e.message(),
            LineError::Theme(e) => e.message(),
            LineError::UnsupportedSet { key } => cat3(
                "`Set ",
                key.as_str(),
                "` is a VHS feature that evp does not implement yet. See the README's \"VHS feature parity\" section. Remove the directive or run the tape with vhs instead.",
            ),
            LineError::UnknownSetKey { key } => cat3("unknown Set key: ", key.as_str(), ""),
            LineError::Duration(e) => e.message(),
            LineError::EnvKeyMissing => "Env KEY missing".to_owned(),
            LineError::EnvValueMissing => "Env value missing".to_owned(),
            LineError::SleepMissing => "Sleep needs a duration".to_owned(),
            LineError::ScreenshotMissing => "Screenshot needs a path".to_owned(),
            LineError::ScreenshotNotPng => "Screenshot expects a .png path".to_owned(),
            LineError::WaitUnexpected { token } => cat3(
                "unexpected token in Wait: `",
                token.as_str(),
                "`",
            ),
            LineError::SourceMissing => "Source requires a path".to_owned(),
            LineError::SourceUnresolved { path } => cat3(
                "`Source ",
                path.as_str(),
                "` needs the file system; read the tape from a file to follow it",
            ),
            LineError::CopyEmpty => "Copy requires at least one quoted string".to_owned(),
            LineError::ExpectedQuoted { token } => cat3(
                "expected quoted string, got `",
                token.as_str(),
                "`",
            ),
            LineError::TypeEmpty => "Type requires at least one quoted string".to_owned(),
            LineError::MissingKeyName { spec } => cat3("missing key name in `", spec.as_str(), "`"),
            LineError::UnknownKey { name } => cat3("unknown key name `", name.as_str(), "`"),
            LineError::RepeatCount { token } => cat3("invalid repeat count `", token.as_str(), "`"),
        }
    }
}


impl ScriptError {
    /// `line N: `raw`: ` followed by the line's error.
    pub fn message(&self) -> (r: String)
        ensures
            r@ == "line "@ + crate::decimal::nat_text(self.line as nat) + ": `"@ + self.raw@ + "`: "@ + line_error_text(self.kind),
    {
        let mut m = "line ".to_owned();
        let n = crate::decimal::u64_text(self.line as u64);
        m.append(n.as_str());
        m.append(": `");
        m.append(self.raw.as_str());
        m.append("`: ");
        let k = self.kind.message();
        m.append(k.as_str());
        m
    }
}

} // verus!
