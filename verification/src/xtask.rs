//! Options of the developer task runner's commands, and where it finds the
//! project's build outputs. Paths are kept as text.

use vstd::prelude::*;

verus! {

/// `bench`: where the benchmark writes its GIF and JSON renderings.
#[derive(Debug, Clone)]
pub struct BenchArgs {
    pub out: String,
    pub json_out: String,
}

/// `ci`: which parts of the validation suite to skip, and the target.
#[derive(Debug, Clone)]
pub struct CiArgs {
    pub skip_fmt: bool,
    pub skip_clippy: bool,
    pub skip_tests: bool,
    pub skip_smoke: bool,
    pub target: Option<String>,
}

/// `compare`: a tape rendered by this recorder and by VHS side by side.
#[derive(Debug, Clone)]
pub struct CompareArgs {
    pub tape: String,
    pub out_dir: String,
    pub vhs_image: String,
    pub svg: bool,
    pub cpu_pin: Option<String>,
    pub no_build: bool,
}

/// `examples`: render the example tapes or summarise their statistics.
#[derive(Debug, Clone)]
pub struct ExamplesArgs {
    pub command: ExamplesSubcommand,
}

#[derive(Debug, Clone)]
pub enum ExamplesSubcommand {
    Render(RenderArgs),
    Summary(SummaryArgs),
}

/// `examples render`: which example, where, and in which formats.
#[derive(Debug, Clone)]
pub struct RenderArgs {
    pub name: Option<String>,
    pub out_dir: String,
    pub gif: bool,
    pub svg: bool,
    pub stats: bool,
    pub no_build: bool,
}

/// `examples summary`: the directory of statistics files.
#[derive(Debug, Clone)]
pub struct SummaryArgs {
    pub dir: String,
}

/// `ghostty`: obtain the terminal library's build artifacts.
#[derive(Debug, Clone)]
pub struct GhosttyArgs {
    pub command: GhosttySubcommand,
}

#[derive(Debug, Clone)]
pub enum GhosttySubcommand {
    Extract(ExtractArgs),
    Build(BuildArgs),
}

/// `ghostty extract`: destination and platform.
#[derive(Debug, Clone)]
pub struct ExtractArgs {
    pub dest: String,
    pub platform: Option<String>,
}

/// `ghostty build`: target triple, destination and source revision.
#[derive(Debug, Clone)]
pub struct BuildArgs {
    pub target: String,
    pub dest: String,
    pub rev: String,
}

/// `stress`: the stress tape, output directory and comparison options.
#[derive(Debug, Clone)]
pub struct StressArgs {
    pub tape: String,
    pub output_dir: String,
    pub compare_vhs: bool,
    pub vhs_image: String,
    pub cpu_pin: String,
    pub no_build: bool,
}

/// The parent of a path, as std's `Path::parent` gives it on this platform.
pub uninterp spec fn spec_path_parent(p: Seq<char>) -> Option<Seq<char>>;

/// A path extended by another, as std's `Path::join` gives it on this
/// platform.
pub uninterp spec fn spec_path_join(base: Seq<char>, rel: Seq<char>) -> Seq<char>;

/// Calls std's `Path::parent`: the path without its final component, none
/// where it ends in a root or is empty. What that component is, with its
/// separators and normalisation, is named here, not described.
#[verifier::external_body]
fn path_parent(p: &str) -> (r: Option<String>)
    ensures
        match r {
            Some(q) => spec_path_parent(p@) == Some(q@),
            None => spec_path_parent(p@) == None::<Seq<char>>,
        },
{
    match std::path::Path::new(p).parent() {
        Some(q) => Some(q.to_string_lossy().into_owned()),
        None => None,
    }
}

/// Calls std's `Path::join`: `base` extended by `rel`. How the separator is
/// placed is named here, not described.
#[verifier::external_body]
fn path_join(base: &str, rel: &str) -> (r: String)
    ensures
        r@ == spec_path_join(base@, rel@),
{
    std::path::Path::new(base).join(rel).to_string_lossy().into_owned()
}

/// The project's root: the parent of the task runner's manifest directory,
/// none where that directory has no parent.
pub fn project_root(manifest_dir: &str) -> (r: Option<String>)
    ensures
        match r {
            Some(q) => spec_path_parent(manifest_dir@) == Some(q@),
            None => spec_path_parent(manifest_dir@) == None::<Seq<char>>,
        },
{
    path_parent(manifest_dir)
}

/// The build output directory under the project's root.
pub fn target_dir(root: &str) -> (r: String)
    ensures
        r@ == spec_path_join(root@, "target"@),
{
    path_join(root, "target")
}

/// Where the static (musl) release build puts the binary `name`, relative
/// to the project's root.
pub open spec fn musl_bin_rel(name: Seq<char>) -> Seq<char> {
    "target/x86_64-unknown-linux-musl/release/"@ + name
}

/// Where the default release build puts the binary `name`.
pub open spec fn default_bin_rel(name: Seq<char>) -> Seq<char> {
    "target/release/"@ + name
}

/// The binary to run: the static build where it exists, else the default
/// build where that exists, else the static build's path.
pub open spec fn spec_bin_path(root: Seq<char>, name: Seq<char>, musl_exists: bool, default_exists: bool) -> Seq<char> {
    if !musl_exists && default_exists {
        spec_path_join(root, default_bin_rel(name))
    } else {
        spec_path_join(root, musl_bin_rel(name))
    }
}

/// The two places a release build of `name` may be: the static build's and
/// the default build's.
pub fn bin_path_candidates(root: &str, name: &str) -> (r: (String, String))
    ensures
        r.0@ == spec_path_join(root@, musl_bin_rel(name@)),
        r.1@ == spec_path_join(root@, default_bin_rel(name@)),
{
    let mut musl = "target/x86_64-unknown-linux-musl/release/".to_string();
    musl.append(name);
    let mut default = "target/release/".to_string();
    default.append(name);
    (path_join(root, musl.as_str()), path_join(root, default.as_str()))
}

fn bin_path(root: &str, name: &str, musl_exists: bool, default_exists: bool) -> (r: String)
    ensures
        r@ == spec_bin_path(root@, name@, musl_exists, default_exists),
{
    let (musl, default) = bin_path_candidates(root, name);
    if !musl_exists && default_exists { default } else { musl }
}

/// The `evp` binary to run, from which of its two candidate paths exist.
pub fn evp_bin_path(root: &str, musl_exists: bool, default_exists: bool) -> (r: String)
    ensures
        r@ == spec_bin_path(root@, "evp"@, musl_exists, default_exists),
{
    bin_path(root, "evp", musl_exists, default_exists)
}

/// The `evp_helper_tool` binary to run, from which of its two candidate
/// paths exist.
pub fn evp_helper_tool_bin_path(root: &str, musl_exists: bool, default_exists: bool) -> (r: String)
    ensures
        r@ == spec_bin_path(root@, "evp_helper_tool"@, musl_exists, default_exists),
{
    bin_path(root, "evp_helper_tool", musl_exists, default_exists)
}

} // verus!
