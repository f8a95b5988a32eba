//! What the pseudo-terminal runs: the shell command line, its extra
//! environment, and whether a UTF-8 locale must be forced.

use vstd::prelude::*;
use crate::script::ast::{pairs_view, strings_view};

verus! {

/// Size of the pseudo-terminal, in cells and pixels.
#[derive(Debug, Clone, Copy, PartialEq, Eq, Structural)]
pub struct PtySize {
    pub cols: u16,
    pub rows: u16,
    pub px_w: u16,
    pub px_h: u16,
}

/// The words `shell_words::split` makes of a text, `None` when a quote is
/// left open.
pub uninterp spec fn spec_shell_words(text: Seq<char>) -> Option<Seq<Seq<char>>>;

/// Splits a command line into words with shell quoting rules.
///
/// Trusted: `shell_words::split`, which is a function of the text; it
/// fails only on an unclosed quote.
#[verifier::external_body]
fn shell_words_split(text: &str) -> (r: Option<Vec<String>>)
    ensures
        match r {
            Some(v) => spec_shell_words(text@) == Some(strings_view(v@)),
            None => spec_shell_words(text@) is None,
        },
{
    shell_words::split(text).ok()
}

/// Why no command could be made for the shell.
#[derive(Debug)]
pub enum ShellError {
    /// The command line has an unclosed quote.
    Invalid { input: String },
    /// VHS-compatible mode takes a bare shell name.
    MoreThanOneWord { input: String },
    /// A shell VHS-compatible mode does not know.
    UnknownShell { name: String },
}

pub enum ShellErrorView {
    Invalid { input: Seq<char> },
    MoreThanOneWord { input: Seq<char> },
    UnknownShell { name: Seq<char> },
}

impl View for ShellError {
    type V = ShellErrorView;

    open spec fn view(&self) -> ShellErrorView {
        match self {
            ShellError::Invalid { input } => ShellErrorView::Invalid { input: input@ },
            ShellError::MoreThanOneWord { input } => ShellErrorView::MoreThanOneWord { input: input@ },
            ShellError::UnknownShell { name } => ShellErrorView::UnknownShell { name: name@ },
        }
    }
}

/// The message of a shell error.
pub open spec fn shell_error_text(e: ShellErrorView) -> Seq<char> {
    match e {
        ShellErrorView::Invalid { input } => "invalid shell command: `"@ + input + "`: missing closing quote"@,
        ShellErrorView::MoreThanOneWord { input } => "shell command has more than one word: `"@ + input + "`"@,
        ShellErrorView::UnknownShell { name } => "invalid shell: "@ + name,
    }
}

impl ShellError {
    /// Human-readable description of the error.
    pub fn message(&self) -> (r: String)
        ensures
            r@ == shell_error_text(self@),
    {
        match self {
            ShellError::Invalid { input } => {
                let mut m = "invalid shell command: `".to_owned();
                m.append(input.as_str());
                m.append("`: missing closing quote");
                m
            },
            ShellError::MoreThanOneWord { input } => {
                let mut m = "shell command has more than one word: `".to_owned();
                m.append(input.as_str());
                m.append("`");
                m
            },
            ShellError::UnknownShell { name } => {
                let mut m = "invalid shell: ".to_owned();
                m.append(name.as_str());
                m
            },
        }
    }
}

/// The words of a shell command line.
pub fn parse_shell_command(input: &str) -> (r: Result<Vec<String>, ShellError>)
    ensures
        match r {
            Ok(v) => spec_shell_words(input@) == Some(strings_view(v@)),
            Err(e) => spec_shell_words(input@) is None && e@ == (ShellErrorView::Invalid { input: input@ }),
        },
{
    match shell_words_split(input) {
        Some(v) => Ok(v),
        None => Err(ShellError::Invalid { input: input.to_string() }),
    }
}

/// The command and extra environment a shell is started with when VHS's
/// behaviour is mimicked: a bare prompt, no profile, no history.
pub open spec fn mimic_profile(name: Seq<char>) -> Option<(Seq<Seq<char>>, Seq<(Seq<char>, Seq<char>)>)> {
    if name == "bash"@ {
        Some((
            seq!["bash"@, "--noprofile"@, "--norc"@, "--login"@, "+o"@, "history"@],
            seq![("PS1"@, "\\[\\e[38;2;90;86;224m\\]> \\[\\e[0m\\]"@), ("BASH_SILENCE_DEPRECATION_WARNING"@, "1"@)],
        ))
    } else if name == "zsh"@ {
        Some((
            seq!["zsh"@, "--histnostore"@, "--no-rcs"@],
            seq![("PROMPT"@, "%F{#5B56E0}> %F{reset_color}"@)],
        ))
    } else if name == "fish"@ {
        Some((
            seq![
                "fish"@,
                "--login"@,
                "--no-config"@,
                "--private"@,
                "-C"@,
                "function fish_greeting; end"@,
                "-C"@,
                "function fish_prompt; set_color 5B56E0; echo -n \"> \"; set_color normal; end"@,
            ],
            Seq::empty(),
        ))
    } else if name == "powershell"@ {
        Some((
            seq![
                "powershell"@,
                "-NoLogo"@,
                "-NoExit"@,
                "-NoProfile"@,
                "-Command"@,
                "Set-PSReadLineOption -HistorySaveStyle SaveNothing; function prompt { Write-Host '>' -NoNewLine -ForegroundColor Blue; return ' ' }"@,
            ],
            Seq::empty(),
        ))
    } else if name == "pwsh"@ {
        Some((
            seq![
                "pwsh"@,
                "-Login"@,
                "-NoLogo"@,
                "-NoExit"@,
                "-NoProfile"@,
                "-Command"@,
                "Set-PSReadLineOption -HistorySaveStyle SaveNothing; Function prompt { Write-Host -ForegroundColor Blue -NoNewLine '>'; return ' ' }"@,
            ],
            Seq::empty(),
        ))
    } else if name == "cmd"@ {
        Some((seq!["cmd.exe"@, "/k"@, "prompt=^> "@], Seq::empty()))
    } else if name == "nu"@ {
        Some((
            seq![
                "nu"@,
                "--execute"@,
                "$env.PROMPT_COMMAND = {'\x1b[;38;2;91;86;224m>\x1b[m '}; $env.PROMPT_COMMAND_RIGHT = {''}"@,
            ],
            Seq::empty(),
        ))
    } else if name == "osh"@ {
        Some((
            seq!["osh"@, "--norc"@],
            seq![("PS1"@, "\\[\\e[38;2;90;86;224m\\]> \\[\\e[0m\\]"@)],
        ))
    } else if name == "xonsh"@ {
        Some((
            seq!["xonsh"@, "--no-rc"@, "-D"@, "PROMPT=\x1b[;38;2;91;86;224m>\x1b[m "@],
            Seq::empty(),
        ))
    } else {
        None
    }
}

/// A command to start and the variables added to its environment.
#[derive(Debug)]
pub struct ShellCommand {
    pub args: Vec<String>,
    pub env: Vec<(String, String)>,
}

/// Whether a text is blank.
pub open spec fn is_blank(s: Seq<char>) -> bool {
    crate::text::trim(s).len() == 0
}

/// The command and extra environment for the `Set Shell` value `shell`.
/// Normally the value's words, or `default_shell` when there is none.
/// When VHS is mimicked, a single shell name (`bash` by default) chosen
/// among those VHS knows, started with its bare-prompt profile.
pub open spec fn spec_shell_launch(shell: Option<Seq<char>>, mimic_vhs: bool, default_shell: Seq<char>) -> Result<(Seq<Seq<char>>, Seq<(Seq<char>, Seq<char>)>), ShellErrorView> {
    let given = shell is Some && !is_blank(shell->Some_0);
    if mimic_vhs {
        let name: Result<Seq<char>, ShellErrorView> = if given {
            let t = crate::text::trim(shell->Some_0);
            match spec_shell_words(t) {
                None => Err(ShellErrorView::Invalid { input: t }),
                Some(parts) => if parts.len() != 1 {
                    Err(ShellErrorView::MoreThanOneWord { input: t })
                } else {
                    Ok(parts[0])
                },
            }
        } else {
            Ok("bash"@)
        };
        match name {
            Err(e) => Err(e),
            Ok(n) => match mimic_profile(n) {
                Some(p) => Ok(p),
                None => Err(ShellErrorView::UnknownShell { name: n }),
            },
        }
    } else if given {
        match spec_shell_words(shell->Some_0) {
            None => Err(ShellErrorView::Invalid { input: shell->Some_0 }),
            Some(parts) => if parts.len() == 0 {
                Ok((seq![default_shell], Seq::empty()))
            } else {
                Ok((parts, Seq::empty()))
            },
        }
    } else {
        Ok((seq![default_shell], Seq::empty()))
    }
}

fn strs(v: &Vec<&str>) -> (r: Vec<String>)
    ensures
        strings_view(r@) == v@.map_values(|s: &str| s@),
{
    let mut out: Vec<String> = Vec::new();
    let mut i: usize = 0;
    while i < v.len()
        invariant
            i <= v@.len(),
            strings_view(out@) == v@.take(i as int).map_values(|s: &str| s@),
        decreases v@.len() - i,
    {
        let ghost before = out@;
        out.push(v[i].to_owned());
        assert(strings_view(out@) =~= strings_view(before).push(v@[i as int]@));
        assert(v@.take(i + 1).map_values(|s: &str| s@) =~= v@.take(i as int).map_values(|s: &str| s@).push(v@[i as int]@));
        i += 1;
    }
    assert(v@.take(i as int) =~= v@);
    out
}

fn pair(k: &str, v: &str) -> (r: (String, String))
    ensures
        r.0@ == k@,
        r.1@ == v@,
{
    (k.to_owned(), v.to_owned())
}

fn mimic_profile_exec(name: &str) -> (r: Option<ShellCommand>)
    ensures
        match r {
            Some(c) => mimic_profile(name@) == Some((strings_view(c.args@), pairs_view(c.env@))),
            None => mimic_profile(name@) is None,
        },
{
    let ps1 = "\\[\\e[38;2;90;86;224m\\]> \\[\\e[0m\\]";
    let (args, env): (Vec<&str>, Vec<(String, String)>) = if crate::text::str_eq(name, "bash") {
        (vec!["bash", "--noprofile", "--norc", "--login", "+o", "history"], vec![pair("PS1", ps1), pair("BASH_SILENCE_DEPRECATION_WARNING", "1")])
    } else if crate::text::str_eq(name, "zsh") {
        (vec!["zsh", "--histnostore", "--no-rcs"], vec![pair("PROMPT", "%F{#5B56E0}> %F{reset_color}")])
    } else if crate::text::str_eq(name, "fish") {
        (
            vec![
                "fish",
                "--login",
                "--no-config",
                "--private",
                "-C",
                "function fish_greeting; end",
                "-C",
                "function fish_prompt; set_color 5B56E0; echo -n \"> \"; set_color normal; end",
            ],
            Vec::new(),
        )
    } else if crate::text::str_eq(name, "powershell") {
        (
            vec![
                "powershell",
                "-NoLogo",
                "-NoExit",
                "-NoProfile",
                "-Command",
                "Set-PSReadLineOption -HistorySaveStyle SaveNothing; function prompt { Write-Host '>' -NoNewLine -ForegroundColor Blue; return ' ' }",
            ],
            Vec::new(),
        )
    } else if crate::text::str_eq(name, "pwsh") {
        (
            vec![
                "pwsh",
                "-Login",
                "-NoLogo",
                "-NoExit",
                "-NoProfile",
                "-Command",
                "Set-PSReadLineOption -HistorySaveStyle SaveNothing; Function prompt { Write-Host -ForegroundColor Blue -NoNewLine '>'; return ' ' }",
            ],
            Vec::new(),
        )
    } else if crate::text::str_eq(name, "cmd") {
        (vec!["cmd.exe", "/k", "prompt=^> "], Vec::new())
    } else if crate::text::str_eq(name, "nu") {
        (
            vec![
                "nu",
                "--execute",
                "$env.PROMPT_COMMAND = {'\x1b[;38;2;91;86;224m>\x1b[m '}; $env.PROMPT_COMMAND_RIGHT = {''}",
            ],
            Vec::new(),
        )
    } else if crate::text::str_eq(name, "osh") {
        (vec!["osh", "--norc"], vec![pair("PS1", ps1)])
    } else if crate::text::str_eq(name, "xonsh") {
        (vec!["xonsh", "--no-rc", "-D", "PROMPT=\x1b[;38;2;91;86;224m>\x1b[m "], Vec::new())
    } else {
        return None;
    };
    let a = strs(&args);
    proof {
        assert(pairs_view(env@) =~= mimic_profile(name@)->Some_0.1);
        assert(args@.map_values(|s: &str| s@) =~= mimic_profile(name@)->Some_0.0);
    }
    Some(ShellCommand { args: a, env })
}

/// The command and extra environment to start the shell with.
pub fn resolve_shell_command(shell: Option<&str>, mimic_vhs: bool, default_shell: &str) -> (r: Result<ShellCommand, ShellError>)
    ensures
        match r {
            Ok(c) => spec_shell_launch(
                match shell {
                    Some(s) => Some(s@),
                    None => None,
                },
                mimic_vhs,
                default_shell@,
            ) == Ok::<(Seq<Seq<char>>, Seq<(Seq<char>, Seq<char>)>), ShellErrorView>((strings_view(c.args@), pairs_view(c.env@))),
            Err(e) => spec_shell_launch(
                match shell {
                    Some(s) => Some(s@),
                    None => None,
                },
                mimic_vhs,
                default_shell@,
            ) == Err::<(Seq<Seq<char>>, Seq<(Seq<char>, Seq<char>)>), ShellErrorView>(e@),
        },
{
    let (given, trimmed): (bool, String) = match shell {
        Some(raw) => {
            let cs = crate::text::chars_of(raw);
            let t = crate::text::trim_chars(cs.as_slice());
            (t.len() > 0, crate::text::string_from_chars(t.as_slice()))
        },
        None => (false, String::new()),
    };
    let default_only = ShellCommand { args: vec![default_shell.to_owned()], env: Vec::new() };
    assert(strings_view(default_only.args@) =~= seq![default_shell@]);
    assert(pairs_view(default_only.env@) =~= Seq::<(Seq<char>, Seq<char>)>::empty());
    if mimic_vhs {
        let name: String = if given {
            let parts = parse_shell_command(trimmed.as_str())?;
            if parts.len() != 1 {
                return Err(ShellError::MoreThanOneWord { input: trimmed });
            }
            assert(strings_view(parts@)[0] == parts@[0]@);
            parts[0].clone()
        } else {
            "bash".to_owned()
        };
        match mimic_profile_exec(name.as_str()) {
            Some(c) => Ok(c),
            None => Err(ShellError::UnknownShell { name }),
        }
    } else if given {
        let raw = match shell {
            Some(r) => r,
            None => "",
        };
        let parts = parse_shell_command(raw)?;
        if parts.len() == 0 {
            Ok(default_only)
        } else {
            Ok(ShellCommand { args: parts, env: Vec::new() })
        }
    } else {
        Ok(default_only)
    }
}

/// Whether a locale name asks for UTF-8 (`utf-8` or `utf8`, in any case).
pub open spec fn is_utf8_locale(v: Seq<char>) -> bool {
    let l = crate::text::ascii_lower_seq(v);
    crate::style::contains_seq(l, "utf-8"@) || crate::style::contains_seq(l, "utf8"@)
}

/// The value of `name` in the variables the script sets, else in the
/// process environment.
pub open spec fn effective_var(env: Seq<(Seq<char>, Seq<char>)>, name: Seq<char>, process: Option<Seq<char>>) -> Option<Seq<char>>
    decreases env.len(),
{
    if env.len() == 0 {
        process
    } else if env[0].0 == name {
        Some(env[0].1)
    } else {
        effective_var(env.drop_first(), name, process)
    }
}

/// Whether the locale the shell would see is UTF-8: `LC_ALL`, else
/// `LC_CTYPE`, else `LANG` decides; none set means no.
pub open spec fn spec_has_utf8_locale(
    env: Seq<(Seq<char>, Seq<char>)>,
    lc_all: Option<Seq<char>>,
    lc_ctype: Option<Seq<char>>,
    lang: Option<Seq<char>>,
) -> bool {
    match effective_var(env, "LC_ALL"@, lc_all) {
        Some(v) => is_utf8_locale(v),
        None => match effective_var(env, "LC_CTYPE"@, lc_ctype) {
            Some(v) => is_utf8_locale(v),
            None => match effective_var(env, "LANG"@, lang) {
                Some(v) => is_utf8_locale(v),
                None => false,
            },
        },
    }
}

pub open spec fn opt_string_view(o: Option<String>) -> Option<Seq<char>> {
    match o {
        Some(s) => Some(s@),
        None => None,
    }
}

fn is_utf8_locale_exec(v: &str) -> (r: bool)
    ensures
        r == is_utf8_locale(v@),
{
    let cs = crate::text::chars_of(v);
    let l = crate::text::ascii_lower_chars(cs.as_slice());
    let a = crate::text::chars_of("utf-8");
    let b = crate::text::chars_of("utf8");
    crate::style::contains_chars(l.as_slice(), a.as_slice()) || crate::style::contains_chars(l.as_slice(), b.as_slice())
}

fn effective_var_exec(env: &Vec<(String, String)>, name: &str, process: &Option<String>) -> (r: Option<String>)
    ensures
        opt_string_view(r) == effective_var(pairs_view(env@), name@, opt_string_view(*process)),
{
    let ghost ev = pairs_view(env@);
    let mut i: usize = 0;
    assert(ev.skip(0) =~= ev);
    while i < env.len()
        invariant
            i <= env@.len(),
            ev == pairs_view(env@),
            effective_var(ev, name@, opt_string_view(*process)) == effective_var(ev.skip(i as int), name@, opt_string_view(*process)),
        decreases env@.len() - i,
    {
        assert(ev.skip(i as int)[0] == (env@[i as int].0@, env@[i as int].1@));
        assert(ev.skip(i as int).drop_first() =~= ev.skip(i + 1));
        if crate::text::str_eq(env[i].0.as_str(), name) {
            return Some(env[i].1.clone());
        }
        i += 1;
    }
    assert(ev.skip(i as int) =~= Seq::<(Seq<char>, Seq<char>)>::empty());
    match process {
        Some(p) => Some(p.clone()),
        None => None,
    }
}

/// Whether the shell's locale is already UTF-8; when it is not, the
/// terminal forces `LANG` and `LC_ALL` to `C.UTF-8`.
pub fn has_utf8_locale(
    env: &Vec<(String, String)>,
    lc_all: &Option<String>,
    lc_ctype: &Option<String>,
    lang: &Option<String>,
) -> (r: bool)
    ensures
        r == spec_has_utf8_locale(
            pairs_view(env@),
            opt_string_view(*lc_all),
            opt_string_view(*lc_ctype),
            opt_string_view(*lang),
        ),
{
    match effective_var_exec(env, "LC_ALL", lc_all) {
        Some(v) => is_utf8_locale_exec(v.as_str()),
        None => match effective_var_exec(env, "LC_CTYPE", lc_ctype) {
            Some(v) => is_utf8_locale_exec(v.as_str()),
            None => match effective_var_exec(env, "LANG", lang) {
                Some(v) => is_utf8_locale_exec(v.as_str()),
                None => false,
            },
        },
    }
}

/// The name a program is started under: the last component of its path.
pub fn command_arg0(program: &str) -> (r: String)
    ensures
        r@ == match crate::script::parser::file_name(program@) {
            Some(n) => n,
            None => program@,
        },
{
    let cs = crate::text::chars_of(program);
    match crate::script::parser::file_name_exec(cs.as_slice()) {
        Some(n) => crate::text::string_from_chars(n.as_slice()),
        None => program.to_owned(),
    }
}

} // verus!
