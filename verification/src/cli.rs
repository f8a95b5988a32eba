//! Decisions of the command-line front end that need no I/O: log level
//! names, which renderer an output path selects, and the CPU affinity line
//! of a process status report.

use vstd::prelude::*;
use crate::script::parser::{output_extension, output_extension_exec};

verus! {

/// How much the program logs.
#[derive(Debug, Clone, Copy, PartialEq, Eq, Structural)]
pub enum LogLevel {
    Error,
    Warn,
    Info,
    Debug,
    Trace,
}

/// The name of a log level as the logging filter reads it.
pub open spec fn level_name(l: LogLevel) -> Seq<char> {
    match l {
        LogLevel::Error => "error"@,
        LogLevel::Warn => "warn"@,
        LogLevel::Info => "info"@,
        LogLevel::Debug => "debug"@,
        LogLevel::Trace => "trace"@,
    }
}

impl LogLevel {
    /// The level's name.
    pub fn as_str(self) -> (r: &'static str)
        ensures
            r@ == level_name(self),
    {
        match self {
            LogLevel::Error => "error",
            LogLevel::Warn => "warn",
            LogLevel::Info => "info",
            LogLevel::Debug => "debug",
            LogLevel::Trace => "trace",
        }
    }
}

/// The renderer an output file is written by.
#[derive(Debug, Clone, Copy, PartialEq, Eq, Structural)]
pub enum OutputKind {
    Gif,
    Svg,
    Json,
}

/// Why a recording cannot be rendered to an output path.
#[derive(Debug, Clone, Copy, PartialEq, Eq, Structural)]
pub enum OutputError {
    /// `.stats` files only come from running a tape.
    StatsFromRecording,
}

impl OutputError {
    /// The message shown to the user.
    pub fn message(&self) -> (r: String)
        ensures
            r@ == "rendering `.stats` files from intermediate JSON recordings is not supported; `.stats` can only be generated when running a `.tape` script."@,
    {
        "rendering `.stats` files from intermediate JSON recordings is not supported; `.stats` can only be generated when running a `.tape` script.".to_owned()
    }
}

/// The renderer of an output path, by its extension (any case): `.svg`
/// and `.svgz` take the SVG renderer, `.json` the JSON one, `.stats` is
/// refused, anything else is a GIF.
pub open spec fn spec_output_kind(path: Seq<char>) -> Result<OutputKind, OutputError> {
    match output_extension(path) {
        Some(e) => if e == "stats"@ {
            Err(OutputError::StatsFromRecording)
        } else if e == "svg"@ || e == "svgz"@ {
            Ok(OutputKind::Svg)
        } else if e == "json"@ {
            Ok(OutputKind::Json)
        } else {
            Ok(OutputKind::Gif)
        },
        None => Ok(OutputKind::Gif),
    }
}

/// Which renderer writes a recording to `path`.
pub fn output_kind_for_path(path: &str) -> (r: Result<OutputKind, OutputError>)
    ensures
        r == spec_output_kind(path@),
{
    let cs = crate::text::chars_of(path);
    match output_extension_exec(cs.as_slice()) {
        Some(e) => {
            let es = crate::text::string_from_chars(e.as_slice());
            if crate::text::str_eq(es.as_str(), "stats") {
                Err(OutputError::StatsFromRecording)
            } else if crate::text::str_eq(es.as_str(), "svg") || crate::text::str_eq(es.as_str(), "svgz") {
                Ok(OutputKind::Svg)
            } else if crate::text::str_eq(es.as_str(), "json") {
                Ok(OutputKind::Json)
            } else {
                Ok(OutputKind::Gif)
            }
        },
        None => Ok(OutputKind::Gif),
    }
}

/// The first line of a process status report that starts with
/// `Cpus_allowed_list:`, what follows trimmed.
pub open spec fn spec_cpu_affinity(lines: Seq<Seq<char>>) -> Option<Seq<char>>
    decreases lines.len(),
{
    if lines.len() == 0 {
        None
    } else if crate::text::starts_with(lines[0], "Cpus_allowed_list:"@) {
        Some(crate::text::trim(lines[0].skip(18)))
    } else {
        spec_cpu_affinity(lines.drop_first())
    }
}

/// The CPUs a process may run on, as its status report lists them.
pub fn cpu_affinity_from_status(status: &str) -> (r: Option<String>)
    ensures
        match r {
            Some(s) => spec_cpu_affinity(crate::script::parser::lines_of(status@)) == Some(s@),
            None => spec_cpu_affinity(crate::script::parser::lines_of(status@)) is None,
        },
{
    let lines = crate::script::parser::split_lines(status);
    let ghost lv = crate::script::parser::lines_of(status@);
    let prefix = crate::text::chars_of("Cpus_allowed_list:");
    proof {
        reveal_strlit("Cpus_allowed_list:");
    }
    assert(prefix@.len() == 18);
    let mut i: usize = 0;
    assert(lv.skip(0) =~= lv);
    while i < lines.len()
        invariant
            i <= lines@.len(),
            crate::script::ast::strings_view(lines@) == lv,
            lv == crate::script::parser::lines_of(status@),
            prefix@ == "Cpus_allowed_list:"@,
            prefix@.len() == 18,
            spec_cpu_affinity(lv) == spec_cpu_affinity(lv.skip(i as int)),
        decreases lines@.len() - i,
    {
        let l = crate::text::chars_of(lines[i].as_str());
        assert(lv.skip(i as int)[0] == l@);
        assert(lv.skip(i as int).drop_first() =~= lv.skip(i + 1));
        if crate::text::starts_with_chars(l.as_slice(), prefix.as_slice()) {
            let rest = crate::text::slice_chars(l.as_slice(), 18, l.len());
            assert(rest@ =~= l@.skip(18));
            let t = crate::text::trim_chars(rest.as_slice());
            assert(lv.skip(i as int).len() > 0);
            assert(crate::text::starts_with(lv.skip(i as int)[0], "Cpus_allowed_list:"@));
            assert(spec_cpu_affinity(lv.skip(i as int)) == Some(crate::text::trim(l@.skip(18))));
            return Some(crate::text::string_from_chars(t.as_slice()));
        }
        i += 1;
    }
    None
}

} // verus!
