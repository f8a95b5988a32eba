//! `.tape` script tokenizer and parser.
//!
//! The grammar is line oriented: each non-blank line (after its `#`
//! comment is dropped) is split into tokens, white-space separated, with
//! `"…"`, `'…'` and `` `…` `` strings kept whole and with their quotes, and
//! the first token says what the line does.

use vstd::prelude::*;
use crate::decimal::{all_digits, digits_value, pow10, round_half_even, shift_point, split_float};
use crate::text::{first_index, is_ws, trim};
use crate::script::ast::{
    events_view, no_mods, pairs_view, strings_view, Event, EventView, FloatText, KeyAction, KeySpec,
    ModSet,
    NamedKey, Script, ScriptView, Settings, SettingsView, WaitScope, empty_script,
};
use crate::style::{ColorError, ThemeError, ThemeErrorView, WindowBarError};

verus! {

// ---------------------------------------------------------------------------
// Lines and comments
// ---------------------------------------------------------------------------

/// `l` without one trailing carriage return.
pub open spec fn strip_cr(l: Seq<char>) -> Seq<char> {
    if l.len() > 0 && l.last() == '\r' {
        l.drop_last()
    } else {
        l
    }
}

/// The lines of `s` as `str::lines` gives them: split at `\n`, a `\r`
/// just before it dropped, no empty line after a final `\n`.
pub open spec fn lines_of(s: Seq<char>) -> Seq<Seq<char>>
    decreases s.len(),
{
    if s.len() == 0 {
        Seq::empty()
    } else {
        match first_index(s, '\n') {
            None => seq![s],
            Some(k) => {
                proof {
                    lemma_first_index_bound(s, '\n');
                }
                seq![strip_cr(s.take(k))] + lines_of(s.skip(k + 1))
            },
        }
    }
}

pub proof fn lemma_first_index_bound(s: Seq<char>, c: char)
    ensures
        match first_index(s, c) {
            Some(k) => 0 <= k < s.len() && s[k] == c,
            None => true,
        },
    decreases s.len(),
{
    if s.len() > 0 && s[0] != c {
        lemma_first_index_bound(s.drop_first(), c);
    }
}

pub open spec fn is_quote(c: char) -> bool {
    c == '"' || c == '\'' || c == '`'
}

/// Where a `#` comment starts in `s`, scanning from `i` with `q` the quote
/// that is open there, if any; `s.len()` when there is none.
pub open spec fn comment_start(s: Seq<char>, i: int, q: Option<char>) -> int
    decreases s.len() - i,
{
    if i < 0 || i >= s.len() {
        s.len() as int
    } else {
        match q {
            Some(open) => if s[i] == open {
                comment_start(s, i + 1, None)
            } else {
                comment_start(s, i + 1, q)
            },
            None => if is_quote(s[i]) {
                comment_start(s, i + 1, Some(s[i]))
            } else if s[i] == '#' {
                i
            } else {
                comment_start(s, i + 1, None)
            },
        }
    }
}

/// `s` without its comment: from the first `#` outside quotes on.
pub open spec fn strip_comment(s: Seq<char>) -> Seq<char> {
    s.take(comment_start(s, 0, None))
}

proof fn lemma_comment_start_bound(s: Seq<char>, i: int, q: Option<char>)
    requires
        0 <= i,
    ensures
        i <= comment_start(s, i, q) <= s.len() || (i > s.len() && comment_start(s, i, q) == s.len()),
    decreases s.len() - i,
{
    if i < s.len() {
        match q {
            Some(open) => if s[i] == open {
                lemma_comment_start_bound(s, i + 1, None);
            } else {
                lemma_comment_start_bound(s, i + 1, q);
            },
            None => if is_quote(s[i]) {
                lemma_comment_start_bound(s, i + 1, Some(s[i]));
            } else if s[i] == '#' {
            } else {
                lemma_comment_start_bound(s, i + 1, None);
            },
        }
    }
}

fn strip_comment_exec(s: &[char]) -> (r: Vec<char>)
    ensures
        r@ == strip_comment(s@),
{
    let mut i: usize = 0;
    let mut q: Option<char> = None;
    while i < s.len()
        invariant
            i <= s@.len(),
            comment_start(s@, 0, None) == comment_start(s@, i as int, q),
        decreases s@.len() - i,
    {
        match q {
            Some(open) => {
                if s[i] == open {
                    q = None;
                }
            },
            None => {
                if s[i] == '"' || s[i] == '\'' || s[i] == '`' {
                    q = Some(s[i]);
                } else if s[i] == '#' {
                    proof {
                        lemma_comment_start_bound(s@, 0, None);
                    }
                    return crate::text::slice_chars(s, 0, i);
                }
            },
        }
        i += 1;
    }
    assert(s@.take(s@.len() as int) =~= s@);
    crate::text::slice_chars(s, 0, s.len())
}

// ---------------------------------------------------------------------------
// Tokens
// ---------------------------------------------------------------------------

/// Index just after the quote `q` that closes a string whose text starts at
/// `i`. Inside `"…"` and `'…'` a backslash before the quote keeps the
/// string open; backquoted strings are raw.
pub open spec fn quote_end(s: Seq<char>, q: char, i: int) -> Option<int>
    decreases s.len() - i,
{
    if i < 0 || i >= s.len() {
        None
    } else if s[i] == q {
        Some(i + 1)
    } else if q != '`' && s[i] == '\\' && i + 1 < s.len() && s[i + 1] == q {
        quote_end(s, q, i + 2)
    } else {
        quote_end(s, q, i + 1)
    }
}

/// Index of the first white space at or after `i` (or the end).
pub open spec fn bare_end(s: Seq<char>, i: int) -> int
    decreases s.len() - i,
{
    if i < 0 || i >= s.len() || is_ws(s[i]) {
        i
    } else {
        bare_end(s, i + 1)
    }
}

pub proof fn lemma_quote_end_bound(s: Seq<char>, q: char, i: int)
    ensures
        match quote_end(s, q, i) {
            Some(e) => i < e <= s.len(),
            None => true,
        },
    decreases s.len() - i,
{
    if 0 <= i < s.len() && s[i] != q {
        if q != '`' && s[i] == '\\' && i + 1 < s.len() && s[i + 1] == q {
            lemma_quote_end_bound(s, q, i + 2);
        } else {
            lemma_quote_end_bound(s, q, i + 1);
        }
    }
}

pub proof fn lemma_bare_end_bound(s: Seq<char>, i: int)
    requires
        0 <= i <= s.len(),
    ensures
        i <= bare_end(s, i) <= s.len(),
    decreases s.len() - i,
{
    if i < s.len() && !is_ws(s[i]) {
        lemma_bare_end_bound(s, i + 1);
    }
}

/// The tokens of `s` from index `i` on; `None` when a string is left open.
pub open spec fn tokens_from(s: Seq<char>, i: int) -> Option<Seq<Seq<char>>>
    decreases s.len() - i,
{
    if i < 0 || i >= s.len() {
        Some(Seq::empty())
    } else if is_ws(s[i]) {
        tokens_from(s, i + 1)
    } else if is_quote(s[i]) {
        match quote_end(s, s[i], i + 1) {
            None => None,
            Some(e) => {
                proof {
                    lemma_quote_end_bound(s, s[i], i + 1);
                }
                match tokens_from(s, e) {
                    None => None,
                    Some(rest) => Some(seq![s.subrange(i, e)] + rest),
                }
            },
        }
    } else {
        let e = bare_end(s, i);
        proof {
            lemma_bare_end_bound(s, i + 1);
        }
        match tokens_from(s, e) {
            None => None,
            Some(rest) => Some(seq![s.subrange(i, e)] + rest),
        }
    }
}

/// The tokens of a line.
pub open spec fn tokenize(s: Seq<char>) -> Option<Seq<Seq<char>>> {
    tokens_from(s, 0)
}

proof fn lemma_bare_end_step(s: Seq<char>, i: int)
    requires
        0 <= i < s.len(),
        !is_ws(s[i]),
    ensures
        bare_end(s, i) == bare_end(s, i + 1),
{
}

fn quote_end_exec(s: &[char], q: char, i: usize) -> (r: Option<usize>)
    requires
        i <= s@.len(),
    ensures
        match r {
            Some(e) => quote_end(s@, q, i as int) == Some(e as int),
            None => quote_end(s@, q, i as int) is None,
        },
{
    let mut j = i;
    let n = s.len();
    while j < n
        invariant
            i <= j <= n,
            n == s@.len(),
            quote_end(s@, q, i as int) == quote_end(s@, q, j as int),
        decreases n - j,
    {
        if s[j] == q {
            return Some(j + 1);
        }
        if q != '`' && s[j] == '\\' && j + 1 < n && s[j + 1] == q {
            j += 2;
        } else {
            j += 1;
        }
    }
    None
}

fn bare_end_exec(s: &[char], i: usize) -> (r: usize)
    requires
        i <= s@.len(),
    ensures
        r as int == bare_end(s@, i as int),
{
    let mut j = i;
    let n = s.len();
    while j < n && !crate::text::is_ws_exec(s[j])
        invariant
            i <= j <= n,
            n == s@.len(),
            bare_end(s@, i as int) == bare_end(s@, j as int),
        decreases n - j,
    {
        j += 1;
    }
    j
}

pub open spec fn chars_view(v: Seq<Vec<char>>) -> Seq<Seq<char>> {
    v.map_values(|t: Vec<char>| t@)
}

/// Splits a line into tokens; `None` when a quoted string is not closed.
pub fn tokenize_exec(s: &[char]) -> (r: Option<Vec<Vec<char>>>)
    ensures
        match r {
            Some(t) => tokenize(s@) == Some(chars_view(t@)),
            None => tokenize(s@) is None,
        },
{
    let mut out: Vec<Vec<char>> = Vec::new();
    let mut i: usize = 0;
    let n = s.len();
    while i < n
        invariant
            i <= n,
            n == s@.len(),
            tokenize(s@) == match tokens_from(s@, i as int) {
                Some(rest) => Some(chars_view(out@) + rest),
                None => None::<Seq<Seq<char>>>,
            },
        decreases n - i,
    {
        let c = s[i];
        if crate::text::is_ws_exec(c) {
            i += 1;
        } else if c == '"' || c == '\'' || c == '`' {
            match quote_end_exec(s, c, i + 1) {
                None => {
                    return None;
                },
                Some(e) => {
                    proof {
                        lemma_quote_end_bound(s@, c, i + 1);
                    }
                    let tok = crate::text::slice_chars(s, i, e);
                    let ghost before = out@;
                    out.push(tok);
                    proof {
                        assert(chars_view(out@) =~= chars_view(before).push(s@.subrange(i as int, e as int)));
                        match tokens_from(s@, e as int) {
                            Some(rest) => {
                                assert(chars_view(before) + (seq![s@.subrange(i as int, e as int)] + rest)
                                    =~= chars_view(out@) + rest);
                            },
                            None => {},
                        }
                    }
                    i = e;
                },
            }
        } else {
            let e = bare_end_exec(s, i);
            proof {
                lemma_bare_end_bound(s@, i + 1);
                lemma_bare_end_step(s@, i as int);
            }
            let tok = crate::text::slice_chars(s, i, e);
            let ghost before = out@;
            out.push(tok);
            proof {
                assert(chars_view(out@) =~= chars_view(before).push(s@.subrange(i as int, e as int)));
                match tokens_from(s@, e as int) {
                    Some(rest) => {
                        assert(chars_view(before) + (seq![s@.subrange(i as int, e as int)] + rest)
                            =~= chars_view(out@) + rest);
                    },
                    None => {},
                }
            }
            i = e;
        }
    }
    assert(chars_view(out@) + Seq::<Seq<char>>::empty() =~= chars_view(out@));
    Some(out)
}

// ---------------------------------------------------------------------------
// Durations
// ---------------------------------------------------------------------------

/// The numeral of a duration and its unit: `ms`, `s` and `m` suffixes, bare
/// numbers being seconds. The unit is given as a factor `k` and a power
/// `m` of ten, a count of units being `k * 10^m` nanoseconds.
pub open spec fn duration_unit(s: Seq<char>) -> (Seq<char>, nat, nat) {
    if s.len() >= 2 && s[s.len() - 2] == 'm' && s[s.len() - 1] == 's' {
        (s.take(s.len() - 2), 1, 6)
    } else if s.len() >= 1 && s[s.len() - 1] == 's' {
        (s.drop_last(), 1, 9)
    } else if s.len() >= 1 && s[s.len() - 1] == 'm' {
        (s.drop_last(), 60, 9)
    } else {
        (s, 1, 9)
    }
}

/// The duration a text names, in nanoseconds: `1s`, `500ms`, `2m`, `0.5s`,
/// `1e3s`, bare numbers being seconds, surrounding white space ignored. The
/// number is read as `f64` parsing reads a finite numeral (a decimal,
/// optionally with an exponent); its exact value is rounded to the nearest
/// nanosecond, halves to even. `None` when the text is no such numeral,
/// when it is negative (other than zero), or when the duration does not fit
/// in a `u64` of nanoseconds.
pub open spec fn spec_parse_duration(s: Seq<char>) -> Option<u64> {
    let (num, k, m) = duration_unit(trim(s));
    match split_float(num) {
        None => None,
        Some((neg, ip, fp, e)) => if neg && digits_value(ip + fp) != 0 {
            None
        } else {
            crate::decimal::scaled_rounded(shift_point(ip, fp, e).0, shift_point(ip, fp, e).1, k, m)
        },
    }
}

/// A text that names no duration.
#[derive(Debug)]
pub struct InvalidDuration {
    /// The text, trimmed.
    pub text: String,
}

impl InvalidDuration {
    /// Human-readable description of the error.
    pub fn message(&self) -> (r: String)
        ensures
            r@ == "invalid duration `"@ + self.text@ + "`"@,
    {
        let mut m = "invalid duration `".to_owned();
        m.append(self.text.as_str());
        m.append("`");
        m
    }
}

fn is_zero_digits(d: &[char]) -> (r: bool)
    requires
        all_digits(d@),
    ensures
        r == (digits_value(d@) == 0),
{
    let mut i: usize = 0;
    while i < d.len()
        invariant
            i <= d@.len(),
            all_digits(d@),
            digits_value(d@.take(i as int)) == 0,
        decreases d@.len() - i,
    {
        assert(d@.take(i + 1).drop_last() =~= d@.take(i as int));
        if d[i] != '0' {
            proof {
                let pre = d@.take(i + 1);
                let rest = d@.skip(i + 1);
                assert(pre + rest =~= d@);
                crate::decimal::lemma_digits_concat(pre, rest);
                crate::decimal::lemma_pow10_positive(rest.len());
                assert(crate::decimal::is_digit(d@[i as int]));
                assert(digits_value(pre) >= 1);
                assert(digits_value(pre) * pow10(rest.len()) >= 1) by (nonlinear_arith)
                    requires
                        digits_value(pre) >= 1,
                        pow10(rest.len()) >= 1,
                ;
            }
            return false;
        }
        i += 1;
    }
    assert(d@.take(i as int) =~= d@);
    true
}

fn concat_chars(a: &[char], b: &[char]) -> (r: Vec<char>)
    ensures
        r@ == a@ + b@,
{
    let mut out = crate::text::slice_chars(a, 0, a.len());
    let mut i: usize = 0;
    assert(out@ =~= a@ + b@.take(0));
    while i < b.len()
        invariant
            i <= b@.len(),
            out@ == a@ + b@.take(i as int),
        decreases b@.len() - i,
    {
        out.push(b[i]);
        i += 1;
        assert(out@ =~= a@ + b@.take(i as int));
    }
    assert(b@.take(b@.len() as int) =~= b@);
    out
}

/// Duration of a text already split into characters.
fn duration_of(s: &[char]) -> (r: Option<u64>)
    ensures
        r == spec_parse_duration(s@),
{
    let t = crate::text::trim_chars(s);
    let n = t.len();
    let (num, k, m): (Vec<char>, u64, usize) = if n >= 2 && t[n - 2] == 'm' && t[n - 1] == 's' {
        (crate::text::slice_chars(t.as_slice(), 0, n - 2), 1, 6)
    } else if n >= 1 && t[n - 1] == 's' {
        (crate::text::slice_chars(t.as_slice(), 0, n - 1), 1, 9)
    } else if n >= 1 && t[n - 1] == 'm' {
        (crate::text::slice_chars(t.as_slice(), 0, n - 1), 60, 9)
    } else {
        (crate::text::slice_chars(t.as_slice(), 0, n), 1, 9)
    };
    assert(t@.take(n as int) =~= t@);
    assert(t@.take(n - 1) =~= t@.drop_last());
    assert(duration_unit(t@) == (num@, k as nat, m as nat));
    let ghost nv = num@;
    let marker = crate::decimal::exp_marker_exec(num.as_slice());
    let (mant, exp_part): (Vec<char>, Option<Vec<char>>) = match marker {
        None => (num, None),
        Some(j) => (
            crate::text::slice_chars(num.as_slice(), 0, j),
            Some(crate::text::slice_chars(num.as_slice(), j + 1, num.len())),
        ),
    };
    proof {
        match marker {
            None => {},
            Some(j) => {
                assert(mant@ =~= nv.take(j as int));
                assert(exp_part->0@ =~= nv.skip(j + 1));
            },
        }
    }
    match crate::decimal::split_decimal_exec(mant.as_slice()) {
        None => None,
        Some((neg, ip, fp)) => {
            let (eneg, emag): (bool, u128) = match &exp_part {
                None => (false, 0),
                Some(x) => match crate::decimal::exponent_capped(x.as_slice()) {
                    None => {
                        return None;
                    },
                    Some(v) => v,
                },
            };
            let ghost e: int = match exp_part {
                None => 0,
                Some(x) => crate::decimal::parse_exponent(x@)->0,
            };
            proof {
                assert(split_float(nv) == Some((neg, ip@, fp@, e)));
            }
            duration_digits(ip, fp, neg, eneg, emag, Ghost(e), k, m)
        },
    }
}

fn zero_chars(z: usize) -> (r: Vec<char>)
    ensures
        r@ == crate::decimal::zeros(z as nat),
{
    let mut v: Vec<char> = Vec::new();
    let mut i: usize = 0;
    while i < z
        invariant
            i <= z,
            v@ == crate::decimal::zeros(i as nat),
        decreases z - i,
    {
        v.push('0');
        i += 1;
        assert(v@ =~= crate::decimal::zeros(i as nat));
    }
    v
}

/// The nanoseconds of the decimal `ip.fp` times `10^e`, in the unit `k`
/// times `10^m` nanoseconds; `e` known through its sign and a magnitude
/// held at most at the cap.
fn duration_digits(
    ip: Vec<char>,
    fp: Vec<char>,
    neg: bool,
    eneg: bool,
    emag: u128,
    Ghost(e): Ghost<int>,
    k: u64,
    m: usize,
) -> (r: Option<u64>)
    requires
        all_digits(ip@),
        all_digits(fp@),
        1 <= k <= 60,
        m <= 9,
        emag <= crate::decimal::exp_cap(),
        eneg ==> -e >= emag,
        !eneg ==> e >= emag,
        emag < crate::decimal::exp_cap() ==> e == (if eneg { -(emag as int) } else { emag as int }),
    ensures
        r == (if neg && digits_value(ip@ + fp@) != 0 {
            None
        } else {
            crate::decimal::scaled_rounded(shift_point(ip@, fp@, e).0, shift_point(ip@, fp@, e).1, k as nat, m as nat)
        }),
{
    let both = concat_chars(ip.as_slice(), fp.as_slice());
    proof {
        assert forall|j: int| 0 <= j < both@.len() implies crate::decimal::is_digit(#[trigger] both@[j]) by {
            if j < ip@.len() {
                assert(both@[j] == ip@[j]);
            } else {
                assert(both@[j] == fp@[j - ip@.len()]);
            }
        }
    }
    let zero = is_zero_digits(both.as_slice());
    if neg && !zero {
        return None;
    }
    if zero {
        proof {
            crate::decimal::lemma_shift_zero(ip@, fp@, e, k as nat, m as nat);
        }
        return Some(0);
    }
    let l = both.len();
    let ipl = ip.len();
    let ghost p: int = ip@.len() + e;
    let ghost sh = shift_point(ip@, fp@, e);
    let (a, b): (Vec<char>, Vec<char>) = if !eneg {
        let pw: u128 = ipl as u128 + emag;
        if pw >= l as u128 + 20 {
            proof {
                crate::decimal::lemma_shift_too_big(ip@, fp@, e, k as nat, m as nat);
            }
            return None;
        }
        assert(emag < crate::decimal::exp_cap());
        if pw >= l as u128 {
            let z = (pw - l as u128) as usize;
            let zs = zero_chars(z);
            (concat_chars(both.as_slice(), zs.as_slice()), Vec::new())
        } else {
            let pu = pw as usize;
            (crate::text::slice_chars(both.as_slice(), 0, pu), crate::text::slice_chars(both.as_slice(), pu, l))
        }
    } else if emag <= ipl as u128 {
        assert(emag < crate::decimal::exp_cap());
        let pu = ipl - emag as usize;
        (crate::text::slice_chars(both.as_slice(), 0, pu), crate::text::slice_chars(both.as_slice(), pu, l))
    } else {
        let q: u128 = emag - ipl as u128;
        if q >= 12 {
            proof {
                crate::decimal::lemma_shift_too_small(ip@, fp@, e, k as nat, m as nat);
            }
            return Some(0);
        }
        assert(emag < crate::decimal::exp_cap());
        let zs = zero_chars(q as usize);
        (Vec::new(), concat_chars(zs.as_slice(), both.as_slice()))
    };
    proof {
        if p >= both@.len() {
            assert(a@ =~= sh.0);
            assert(b@ =~= sh.1);
        } else if p >= 0 {
            assert(a@ =~= sh.0);
            assert(b@ =~= sh.1);
        } else {
            assert(a@ =~= sh.0);
            assert(b@ =~= sh.1);
        }
        crate::decimal::lemma_shift_digits(ip@, fp@, e);
    }
    crate::decimal::scale_decimal(a.as_slice(), b.as_slice(), k, m)
}

/// Parses a duration: `1s`, `500ms`, `2m`, `0.5s`; a bare number is
/// seconds. The result is in nanoseconds, rounded half to even.
pub fn parse_duration(s: &str) -> (r: Result<u64, InvalidDuration>)
    ensures
        match r {
            Ok(n) => spec_parse_duration(s@) == Some(n),
            Err(e) => spec_parse_duration(s@) is None && e.text@ == trim(s@),
        },
{
    let cs = crate::text::chars_of(s);
    match duration_of(cs.as_slice()) {
        Some(n) => Ok(n),
        None => {
            let t = crate::text::trim_chars(cs.as_slice());
            Err(InvalidDuration { text: crate::text::string_from_chars(t.as_slice()) })
        },
    }
}


// ---------------------------------------------------------------------------
// Errors
// ---------------------------------------------------------------------------

/// Why a line of a script was refused.
#[derive(Debug)]
pub enum LineError {
    UnterminatedString,
    OutputMissingPath,
    /// A second `Output` (`path`) after `first`.
    MultipleOutputs { path: String, first: String },
    /// An `Output` whose extension (lower-cased) is neither `gif` nor `svg`.
    OutputExtension { path: String, ext: String },
    OutputNoExtension { path: String },
    SetMissingKey,
    SetMissingValue { key: String },
    /// A `Set` value that is not a number (or boolean) of the key's type.
    InvalidValue { key: String, value: String },
    Color(ColorError),
    WindowBar(WindowBarError),
    Theme(ThemeError),
    /// A `Set` key of VHS that this recorder does not implement.
    UnsupportedSet { key: String },
    UnknownSetKey { key: String },
    Duration(InvalidDuration),
    EnvKeyMissing,
    EnvValueMissing,
    SleepMissing,
    ScreenshotMissing,
    ScreenshotNotPng,
    WaitUnexpected { token: String },
    SourceMissing,
    /// A `Source` directive, which reading a text alone cannot follow.
    SourceUnresolved { path: String },
    CopyEmpty,
    ExpectedQuoted { token: String },
    TypeEmpty,
    MissingKeyName { spec: String },
    UnknownKey { name: String },
    RepeatCount { token: String },
}

/// Model of a [`LineError`].
pub enum LineErrorView {
    UnterminatedString,
    OutputMissingPath,
    MultipleOutputs { path: Seq<char>, first: Seq<char> },
    OutputExtension { path: Seq<char>, ext: Seq<char> },
    OutputNoExtension { path: Seq<char> },
    SetMissingKey,
    SetMissingValue { key: Seq<char> },
    InvalidValue { key: Seq<char>, value: Seq<char> },
    Color { value: Seq<char> },
    WindowBar { value: Seq<char> },
    Theme(ThemeErrorView),
    UnsupportedSet { key: Seq<char> },
    UnknownSetKey { key: Seq<char> },
    Duration { text: Seq<char> },
    EnvKeyMissing,
    EnvValueMissing,
    SleepMissing,
    ScreenshotMissing,
    ScreenshotNotPng,
    WaitUnexpected { token: Seq<char> },
    SourceMissing,
    SourceUnresolved { path: Seq<char> },
    CopyEmpty,
    ExpectedQuoted { token: Seq<char> },
    TypeEmpty,
    MissingKeyName { spec: Seq<char> },
    UnknownKey { name: Seq<char> },
    RepeatCount { token: Seq<char> },
}

impl View for LineError {
    type V = LineErrorView;

    open spec fn view(&self) -> LineErrorView {
        match self {
            LineError::UnterminatedString => LineErrorView::UnterminatedString,
            LineError::OutputMissingPath => LineErrorView::OutputMissingPath,
            LineError::MultipleOutputs { path, first } => LineErrorView::MultipleOutputs {
                path: path@,
                first: first@,
            },
            LineError::OutputExtension { path, ext } => LineErrorView::OutputExtension {
                path: path@,
                ext: ext@,
            },
            LineError::OutputNoExtension { path } => LineErrorView::OutputNoExtension { path: path@ },
            LineError::SetMissingKey => LineErrorView::SetMissingKey,
            LineError::SetMissingValue { key } => LineErrorView::SetMissingValue { key: key@ },
            LineError::InvalidValue { key, value } => LineErrorView::InvalidValue {
                key: key@,
                value: value@,
            },
            LineError::Color(e) => LineErrorView::Color { value: e.value@ },
            LineError::WindowBar(e) => LineErrorView::WindowBar { value: e.value@ },
            LineError::Theme(e) => LineErrorView::Theme(e@),
            LineError::UnsupportedSet { key } => LineErrorView::UnsupportedSet { key: key@ },
            LineError::UnknownSetKey { key } => LineErrorView::UnknownSetKey { key: key@ },
            LineError::Duration(e) => LineErrorView::Duration { text: e.text@ },
            LineError::EnvKeyMissing => LineErrorView::EnvKeyMissing,
            LineError::EnvValueMissing => LineErrorView::EnvValueMissing,
            LineError::SleepMissing => LineErrorView::SleepMissing,
            LineError::ScreenshotMissing => LineErrorView::ScreenshotMissing,
            LineError::ScreenshotNotPng => LineErrorView::ScreenshotNotPng,
            LineError::WaitUnexpected { token } => LineErrorView::WaitUnexpected { token: token@ },
            LineError::SourceMissing => LineErrorView::SourceMissing,
            LineError::SourceUnresolved { path } => LineErrorView::SourceUnresolved { path: path@ },
            LineError::CopyEmpty => LineErrorView::CopyEmpty,
            LineError::ExpectedQuoted { token } => LineErrorView::ExpectedQuoted { token: token@ },
            LineError::TypeEmpty => LineErrorView::TypeEmpty,
            LineError::MissingKeyName { spec } => LineErrorView::MissingKeyName { spec: spec@ },
            LineError::UnknownKey { name } => LineErrorView::UnknownKey { name: name@ },
            LineError::RepeatCount { token } => LineErrorView::RepeatCount { token: token@ },
        }
    }
}

// ---------------------------------------------------------------------------
// Token helpers
// ---------------------------------------------------------------------------

/// Whether a token is wrapped in a pair of the same quote.
pub open spec fn is_quoted(t: Seq<char>) -> bool {
    t.len() >= 2 && t[0] == t.last() && is_quote(t[0])
}

/// A token without its surrounding quotes, if it has a pair.
pub open spec fn unquote(t: Seq<char>) -> Seq<char> {
    if is_quoted(t) {
        t.subrange(1, t.len() - 1)
    } else {
        t
    }
}

/// The text of a quoted token; `None` for a token that is not quoted.
pub open spec fn unquote_required(t: Seq<char>) -> Option<Seq<char>> {
    if is_quoted(t) {
        Some(t.subrange(1, t.len() - 1))
    } else {
        None
    }
}

fn is_quoted_exec(t: &[char]) -> (r: bool)
    ensures
        r == is_quoted(t@),
{
    let n = t.len();
    n >= 2 && t[0] == t[n - 1] && (t[0] == '"' || t[0] == '\'' || t[0] == '`')
}

fn unquote_exec(t: &[char]) -> (r: Vec<char>)
    ensures
        r@ == unquote(t@),
{
    if is_quoted_exec(t) {
        crate::text::slice_chars(t, 1, t.len() - 1)
    } else {
        crate::text::slice_chars(t, 0, t.len())
    }
}

fn to_string(t: &[char]) -> (r: String)
    ensures
        r@ == t@,
{
    crate::text::string_from_chars(t)
}

/// Whether the characters `t` spell `lit`.
fn is_lit(t: &[char], lit: &str) -> (r: bool)
    ensures
        r == (t@ == lit@),
{
    let l = crate::text::chars_of(lit);
    crate::text::chars_eq(t, l.as_slice())
}

// ---------------------------------------------------------------------------
// Keys
// ---------------------------------------------------------------------------

/// `s` split at every `c`, as `str::split` does.
pub open spec fn split_on(s: Seq<char>, c: char) -> Seq<Seq<char>>
    decreases s.len(),
{
    match first_index(s, c) {
        None => seq![s],
        Some(k) => {
            proof {
                lemma_first_index_bound(s, c);
            }
            seq![s.take(k)] + split_on(s.skip(k + 1), c)
        },
    }
}

/// Reads the `+`-separated parts of a key spec: modifier names set their
/// modifier; any other part becomes the key name, the last one winning.
pub open spec fn fold_key_parts(parts: Seq<Seq<char>>, mods: ModSet, last: Seq<char>) -> (ModSet, Seq<char>)
    decreases parts.len(),
{
    if parts.len() == 0 {
        (mods, last)
    } else {
        let p = parts[0];
        if p == "Ctrl"@ || p == "Control"@ {
            fold_key_parts(parts.drop_first(), ModSet { ctrl: true, ..mods }, last)
        } else if p == "Alt"@ || p == "Option"@ {
            fold_key_parts(parts.drop_first(), ModSet { alt: true, ..mods }, last)
        } else if p == "Shift"@ {
            fold_key_parts(parts.drop_first(), ModSet { shift: true, ..mods }, last)
        } else {
            fold_key_parts(parts.drop_first(), mods, p)
        }
    }
}

/// The key a key name names: a named key, or a single character.
pub open spec fn named_key(n: Seq<char>) -> Option<NamedKey> {
    if n == "Enter"@ || n == "Return"@ {
        Some(NamedKey::Enter)
    } else if n == "Escape"@ || n == "Esc"@ {
        Some(NamedKey::Escape)
    } else if n == "Tab"@ {
        Some(NamedKey::Tab)
    } else if n == "Backspace"@ {
        Some(NamedKey::Backspace)
    } else if n == "Delete"@ {
        Some(NamedKey::Delete)
    } else if n == "Insert"@ {
        Some(NamedKey::Insert)
    } else if n == "Space"@ {
        Some(NamedKey::Space)
    } else if n == "Up"@ {
        Some(NamedKey::Up)
    } else if n == "Down"@ {
        Some(NamedKey::Down)
    } else if n == "Left"@ {
        Some(NamedKey::Left)
    } else if n == "Right"@ {
        Some(NamedKey::Right)
    } else if n == "PageUp"@ {
        Some(NamedKey::PageUp)
    } else if n == "PageDown"@ {
        Some(NamedKey::PageDown)
    } else if n == "Home"@ {
        Some(NamedKey::Home)
    } else if n == "End"@ {
        Some(NamedKey::End)
    } else if n == "ScrollUp"@ {
        Some(NamedKey::ScrollUp)
    } else if n == "ScrollDown"@ {
        Some(NamedKey::ScrollDown)
    } else if n.len() == 1 {
        Some(NamedKey::Char(n[0]))
    } else {
        None
    }
}

/// The key spec `Ctrl+Shift+Tab`, `Alt+x`, `Enter` names.
pub open spec fn spec_key_spec(s: Seq<char>) -> Result<KeySpec, LineErrorView> {
    let (mods, last) = fold_key_parts(split_on(s, '+'), no_mods(), Seq::empty());
    if last.len() == 0 {
        Err(LineErrorView::MissingKeyName { spec: s })
    } else {
        match named_key(last) {
            Some(k) => Ok(KeySpec { key: k, mods }),
            None => Err(LineErrorView::UnknownKey { name: last }),
        }
    }
}

fn named_key_exec(n: &[char]) -> (r: Option<NamedKey>)
    ensures
        r == named_key(n@),
{
    if is_lit(n, "Enter") || is_lit(n, "Return") {
        Some(NamedKey::Enter)
    } else if is_lit(n, "Escape") || is_lit(n, "Esc") {
        Some(NamedKey::Escape)
    } else if is_lit(n, "Tab") {
        Some(NamedKey::Tab)
    } else if is_lit(n, "Backspace") {
        Some(NamedKey::Backspace)
    } else if is_lit(n, "Delete") {
        Some(NamedKey::Delete)
    } else if is_lit(n, "Insert") {
        Some(NamedKey::Insert)
    } else if is_lit(n, "Space") {
        Some(NamedKey::Space)
    } else if is_lit(n, "Up") {
        Some(NamedKey::Up)
    } else if is_lit(n, "Down") {
        Some(NamedKey::Down)
    } else if is_lit(n, "Left") {
        Some(NamedKey::Left)
    } else if is_lit(n, "Right") {
        Some(NamedKey::Right)
    } else if is_lit(n, "PageUp") {
        Some(NamedKey::PageUp)
    } else if is_lit(n, "PageDown") {
        Some(NamedKey::PageDown)
    } else if is_lit(n, "Home") {
        Some(NamedKey::Home)
    } else if is_lit(n, "End") {
        Some(NamedKey::End)
    } else if is_lit(n, "ScrollUp") {
        Some(NamedKey::ScrollUp)
    } else if is_lit(n, "ScrollDown") {
        Some(NamedKey::ScrollDown)
    } else if n.len() == 1 {
        Some(NamedKey::Char(n[0]))
    } else {
        None
    }
}

/// Reads a key spec such as `Ctrl+C`.
pub fn parse_key_spec(s: &[char]) -> (r: Result<KeySpec, LineError>)
    ensures
        match r {
            Ok(k) => spec_key_spec(s@) == Ok::<KeySpec, LineErrorView>(k),
            Err(e) => spec_key_spec(s@) == Err::<KeySpec, LineErrorView>(e@),
        },
{
    let mut mods = ModSet::none();
    let mut last: Vec<char> = Vec::new();
    let mut rem: Vec<char> = crate::text::slice_chars(s, 0, s.len());
    let mut done = false;
    assert(s@.take(s@.len() as int) =~= s@);
    while !done
        invariant
            fold_key_parts(split_on(s@, '+'), no_mods(), Seq::empty()) == if done {
                (mods, last@)
            } else {
                fold_key_parts(split_on(rem@, '+'), mods, last@)
            },
        decreases rem@.len() + if done { 0int } else { 1int },
    {
        let (part, next, is_last): (Vec<char>, Vec<char>, bool) = match crate::text::first_index_of(rem.as_slice(), '+') {
            None => {
                proof {
                    assert(split_on(rem@, '+') == seq![rem@]);
                }
                (crate::text::slice_chars(rem.as_slice(), 0, rem.len()), Vec::new(), true)
            },
            Some(k) => {
                let n = rem.len();
                let p = crate::text::slice_chars(rem.as_slice(), 0, k);
                let q = crate::text::slice_chars(rem.as_slice(), k + 1, n);
                proof {
                    assert(p@ =~= rem@.take(k as int));
                    assert(q@ =~= rem@.skip(k + 1));
                }
                (p, q, false)
            },
        };
        assert(rem@.take(rem@.len() as int) =~= rem@);
        let ghost parts = split_on(rem@, '+');
        assert(parts[0] == part@);
        assert(is_last ==> parts.drop_first() =~= Seq::<Seq<char>>::empty());
        assert(!is_last ==> parts.drop_first() == split_on(next@, '+'));
        assert(parts.len() > 0);
        let ghost old_mods = mods;
        let ghost old_last = last@;
        if is_lit(part.as_slice(), "Ctrl") || is_lit(part.as_slice(), "Control") {
            mods = ModSet { ctrl: true, ..mods };
        } else if is_lit(part.as_slice(), "Alt") || is_lit(part.as_slice(), "Option") {
            mods = ModSet { alt: true, ..mods };
        } else if is_lit(part.as_slice(), "Shift") {
            mods = ModSet { shift: true, ..mods };
        } else {
            last = part;
        }
        assert(fold_key_parts(parts, old_mods, old_last) == fold_key_parts(parts.drop_first(), mods, last@));
        if is_last {
            assert(fold_key_parts(parts.drop_first(), mods, last@) == (mods, last@));
            done = true;
        } else {
            rem = next;
        }
    }
    if last.len() == 0 {
        return Err(LineError::MissingKeyName { spec: to_string(s) });
    }
    match named_key_exec(last.as_slice()) {
        Some(k) => Ok(KeySpec { key: k, mods }),
        None => Err(LineError::UnknownKey { name: to_string(last.as_slice()) }),
    }
}


/// The delay after `@` in a head token, when there is one.
pub open spec fn duration_or_error(t: Seq<char>) -> Result<u64, LineErrorView> {
    match spec_parse_duration(t) {
        Some(d) => Ok(d),
        None => Err(LineErrorView::Duration { text: trim(t) }),
    }
}

/// The key press a line such as `Down@20ms 5` describes: a key spec, an
/// optional `@delay`, an optional repeat count.
pub open spec fn spec_key_event(head: Seq<char>, rest: Seq<Seq<char>>) -> Result<EventView, LineErrorView> {
    let at = first_index(head, '@');
    let name = match at {
        Some(k) => head.take(k),
        None => head,
    };
    let delay = match at {
        Some(k) => duration_or_error(head.skip(k + 1)),
        None => Ok(0u64),
    };
    match delay {
        Err(e) => Err(e),
        Ok(d) => match spec_key_spec(name) {
            Err(e) => Err(e),
            Ok(key) => if rest.len() == 0 {
                Ok(EventView::Key { key, action: KeyAction::Press, count: 1, delay: d })
            } else {
                match crate::decimal::parse_unsigned(rest[0], u32::MAX as nat) {
                    Some(c) => Ok(EventView::Key { key, action: KeyAction::Press, count: c as u32, delay: d }),
                    None => Err(LineErrorView::RepeatCount { token: rest[0] }),
                }
            },
        },
    }
}

fn duration_or_error_exec(t: &[char]) -> (r: Result<u64, LineError>)
    ensures
        match r {
            Ok(d) => duration_or_error(t@) == Ok::<u64, LineErrorView>(d),
            Err(e) => duration_or_error(t@) == Err::<u64, LineErrorView>(e@),
        },
{
    match duration_of(t) {
        Some(d) => Ok(d),
        None => {
            let tt = crate::text::trim_chars(t);
            Err(LineError::Duration(InvalidDuration { text: to_string(tt.as_slice()) }))
        },
    }
}

pub open spec fn toks_view(v: Seq<Vec<char>>) -> Seq<Seq<char>> {
    v.map_values(|t: Vec<char>| t@)
}

fn parse_key_event(head: &[char], rest: &[Vec<char>]) -> (r: Result<Event, LineError>)
    ensures
        match r {
            Ok(e) => spec_key_event(head@, toks_view(rest@)) == Ok::<EventView, LineErrorView>(e@),
            Err(e) => spec_key_event(head@, toks_view(rest@)) == Err::<EventView, LineErrorView>(e@),
        },
{
    let n = head.len();
    let (name, delay) = match crate::text::first_index_of(head, '@') {
        Some(k) => {
            let nm = crate::text::slice_chars(head, 0, k);
            let dt = crate::text::slice_chars(head, k + 1, n);
            assert(nm@ =~= head@.take(k as int));
            assert(dt@ =~= head@.skip(k + 1));
            match duration_or_error_exec(dt.as_slice()) {
                Ok(d) => (nm, d),
                Err(e) => return Err(e),
            }
        },
        None => {
            let nm = crate::text::slice_chars(head, 0, n);
            assert(nm@ =~= head@);
            (nm, 0u64)
        },
    };
    let key = match parse_key_spec(name.as_slice()) {
        Ok(k) => k,
        Err(e) => return Err(e),
    };
    if rest.len() == 0 {
        return Ok(Event::Key { key, action: KeyAction::Press, count: 1, delay });
    }
    assert(toks_view(rest@)[0] == rest@[0]@);
    match crate::decimal::parse_unsigned_exec(rest[0].as_slice(), 0xffff_ffff) {
        Some(c) => Ok(Event::Key { key, action: KeyAction::Press, count: c as u32, delay }),
        None => Err(LineError::RepeatCount { token: to_string(rest[0].as_slice()) }),
    }
}

// ---------------------------------------------------------------------------
// Wait
// ---------------------------------------------------------------------------

/// One token of a `Wait` line applied to the scope, timeout and pattern.
pub open spec fn wait_step(acc: (WaitScope, u64, Seq<char>), t: Seq<char>) -> Result<(WaitScope, u64, Seq<char>), LineErrorView> {
    if t == "Line"@ {
        Ok((WaitScope::Line, acc.1, acc.2))
    } else if t == "Screen"@ {
        Ok((WaitScope::Screen, acc.1, acc.2))
    } else if t.len() > 0 && t[0] == '@' {
        match duration_or_error(t.drop_first()) {
            Ok(d) => Ok((acc.0, d, acc.2)),
            Err(e) => Err(e),
        }
    } else if t.len() >= 2 && t[0] == '/' && t.last() == '/' {
        Ok((acc.0, acc.1, t.subrange(1, t.len() - 1)))
    } else {
        Err(LineErrorView::WaitUnexpected { token: t })
    }
}

pub open spec fn wait_fold(acc: (WaitScope, u64, Seq<char>), ts: Seq<Seq<char>>) -> Result<(WaitScope, u64, Seq<char>), LineErrorView>
    decreases ts.len(),
{
    if ts.len() == 0 {
        Ok(acc)
    } else {
        match wait_step(acc, ts[0]) {
            Err(e) => Err(e),
            Ok(a) => wait_fold(a, ts.drop_first()),
        }
    }
}

/// The `Wait` event of a line: `Line` or `Screen`, `@timeout` and
/// `/pattern/`, each optional, over the settings' defaults.
pub open spec fn spec_wait(ts: Seq<Seq<char>>, st: SettingsView) -> Result<EventView, LineErrorView> {
    match wait_fold((WaitScope::Line, st.wait_timeout, st.wait_pattern), ts) {
        Ok((scope, timeout, pattern)) => Ok(EventView::Wait { scope, timeout, pattern }),
        Err(e) => Err(e),
    }
}

/// Whether a `Wait` line's tokens choose the whole screen: a `Screen`
/// token with no `Line` token after it.
pub open spec fn screen_chosen(ts: Seq<Seq<char>>) -> bool {
    exists|i: int| 0 <= i < ts.len() && #[trigger] ts[i] == "Screen"@ && forall|j: int| i < j < ts.len() ==> #[trigger] ts[j] != "Line"@
}

/// A `/pattern/` token of a `Wait` line.
pub open spec fn pattern_token(t: Seq<char>) -> bool {
    t.len() >= 2 && t[0] == '/' && t.last() == '/'
}

proof fn lemma_wait_words()
    ensures
        "Line"@.len() == 4 && "Line"@[0] == 'L',
        "Screen"@.len() == 6 && "Screen"@[0] == 'S',
{
    reveal_strlit("Line");
    reveal_strlit("Screen");
}

proof fn lemma_wait_fold_chooses(acc: (WaitScope, u64, Seq<char>), ts: Seq<Seq<char>>)
    ensures
        wait_fold(acc, ts) matches Ok(r) ==> {
            &&& (r.0 == WaitScope::Screen <==> (screen_chosen(ts) || (acc.0 == WaitScope::Screen
                && forall|j: int| 0 <= j < ts.len() ==> #[trigger] ts[j] != "Line"@)))
            &&& ((exists|i: int| 0 <= i < ts.len() && pattern_token(#[trigger] ts[i]) && r.2 == ts[i].subrange(1, ts[i].len() - 1)
                && forall|j: int| i < j < ts.len() ==> !pattern_token(#[trigger] ts[j]))
                || (r.2 == acc.2 && forall|j: int| 0 <= j < ts.len() ==> !pattern_token(#[trigger] ts[j])))
        },
    decreases ts.len(),
{
    lemma_wait_words();
    if ts.len() > 0 {
        let t = ts[0];
        let rest = ts.drop_first();
        match wait_step(acc, t) {
            Err(_) => {},
            Ok(a) => {
                lemma_wait_fold_chooses(a, rest);
                match wait_fold(a, rest) {
                    Err(_) => {},
                    Ok(r) => {
                        assert(wait_fold(acc, ts) == wait_fold(a, rest));
                        // Tokens of `ts` after the first are those of `rest`.
                        assert forall|j: int| 0 <= j < rest.len() implies #[trigger] rest[j] == ts[j + 1] by {}
                        // The scope.
                        if screen_chosen(rest) {
                            let i = choose|i: int| 0 <= i < rest.len() && #[trigger] rest[i] == "Screen"@ && forall|j: int| i < j < rest.len() ==> #[trigger] rest[j] != "Line"@;
                            assert(ts[i + 1] == "Screen"@);
                            assert forall|j: int| i + 1 < j < ts.len() implies #[trigger] ts[j] != "Line"@ by {
                                assert(ts[j] == rest[j - 1]);
                            }
                            assert(screen_chosen(ts));
                        }
                        if screen_chosen(ts) {
                            let i = choose|i: int| 0 <= i < ts.len() && #[trigger] ts[i] == "Screen"@ && forall|j: int| i < j < ts.len() ==> #[trigger] ts[j] != "Line"@;
                            if i > 0 {
                                assert(rest[i - 1] == "Screen"@);
                                assert forall|j: int| i - 1 < j < rest.len() implies #[trigger] rest[j] != "Line"@ by {
                                    assert(rest[j] == ts[j + 1]);
                                }
                                assert(screen_chosen(rest));
                            } else {
                                assert(t == "Screen"@);
                                assert forall|j: int| 0 <= j < rest.len() implies #[trigger] rest[j] != "Line"@ by {
                                    assert(rest[j] == ts[j + 1]);
                                }
                            }
                        }
                        if t == "Screen"@ && (forall|j: int| 0 <= j < rest.len() ==> #[trigger] rest[j] != "Line"@) {
                            assert forall|j: int| 0 < j < ts.len() implies #[trigger] ts[j] != "Line"@ by {
                                assert(ts[j] == rest[j - 1]);
                            }
                            assert(screen_chosen(ts));
                        }
                        if forall|j: int| 0 <= j < ts.len() ==> #[trigger] ts[j] != "Line"@ {
                            assert forall|j: int| 0 <= j < rest.len() implies #[trigger] rest[j] != "Line"@ by {
                                assert(rest[j] == ts[j + 1]);
                            }
                        }
                        if forall|j: int| 0 <= j < rest.len() ==> #[trigger] rest[j] != "Line"@ {
                            if t != "Line"@ {
                                assert forall|j: int| 0 <= j < ts.len() implies #[trigger] ts[j] != "Line"@ by {
                                    if j > 0 {
                                        assert(ts[j] == rest[j - 1]);
                                    }
                                }
                            }
                        }
                        if t == "Line"@ {
                            assert(ts[0] == "Line"@);
                        }
                        // The pattern.
                        if exists|i: int| 0 <= i < rest.len() && pattern_token(#[trigger] rest[i]) && r.2 == rest[i].subrange(1, rest[i].len() - 1)
                            && forall|j: int| i < j < rest.len() ==> !pattern_token(#[trigger] rest[j]) {
                            let i = choose|i: int| 0 <= i < rest.len() && pattern_token(#[trigger] rest[i]) && r.2 == rest[i].subrange(1, rest[i].len() - 1)
                                && forall|j: int| i < j < rest.len() ==> !pattern_token(#[trigger] rest[j]);
                            assert(ts[i + 1] == rest[i]);
                            assert forall|j: int| i + 1 < j < ts.len() implies !pattern_token(#[trigger] ts[j]) by {
                                assert(ts[j] == rest[j - 1]);
                            }
                        } else {
                            assert(r.2 == a.2);
                            if pattern_token(t) {
                                assert(t != "Line"@ && t != "Screen"@);
                                assert(a.2 == t.subrange(1, t.len() - 1));
                                assert forall|j: int| 0 < j < ts.len() implies !pattern_token(#[trigger] ts[j]) by {
                                    assert(ts[j] == rest[j - 1]);
                                }
                            } else {
                                assert(t == "Line"@ || t == "Screen"@ || (t.len() > 0 && t[0] == '@'));
                                assert(a.2 == acc.2);
                                assert forall|j: int| 0 <= j < ts.len() implies !pattern_token(#[trigger] ts[j]) by {
                                    if j > 0 {
                                        assert(ts[j] == rest[j - 1]);
                                    }
                                }
                            }
                        }
                    },
                }
            },
        }
    }
}

/// What a `Wait` line waits for: the whole screen exactly when a `Screen`
/// token has no `Line` token after it (else the last line), and the
/// pattern of the last `/pattern/` token, or the settings' default
/// pattern when there is none.
pub proof fn lemma_wait_scope_and_pattern(ts: Seq<Seq<char>>, st: SettingsView)
    ensures
        spec_wait(ts, st) matches Ok(EventView::Wait { scope, pattern, .. }) ==> {
            &&& (scope == WaitScope::Screen <==> screen_chosen(ts))
            &&& ((exists|i: int| 0 <= i < ts.len() && pattern_token(#[trigger] ts[i]) && pattern == ts[i].subrange(1, ts[i].len() - 1)
                && forall|j: int| i < j < ts.len() ==> !pattern_token(#[trigger] ts[j]))
                || (pattern == st.wait_pattern && forall|j: int| 0 <= j < ts.len() ==> !pattern_token(#[trigger] ts[j])))
        },
{
    lemma_wait_fold_chooses((WaitScope::Line, st.wait_timeout, st.wait_pattern), ts);
}

/// An `@timeout` token of a `Wait` line.
pub open spec fn timeout_token(t: Seq<char>) -> bool {
    t.len() > 0 && t[0] == '@'
}

proof fn lemma_wait_fold_timeout(acc: (WaitScope, u64, Seq<char>), ts: Seq<Seq<char>>)
    ensures
        wait_fold(acc, ts) matches Ok(r) ==> {
            ||| (exists|i: int| 0 <= i < ts.len() && timeout_token(#[trigger] ts[i])
                && duration_or_error(ts[i].drop_first()) == Ok::<u64, LineErrorView>(r.1)
                && forall|j: int| i < j < ts.len() ==> !timeout_token(#[trigger] ts[j]))
            ||| (r.1 == acc.1 && forall|j: int| 0 <= j < ts.len() ==> !timeout_token(#[trigger] ts[j]))
        },
    decreases ts.len(),
{
    lemma_wait_words();
    if ts.len() > 0 {
        let t = ts[0];
        let rest = ts.drop_first();
        match wait_step(acc, t) {
            Err(_) => {},
            Ok(a) => {
                lemma_wait_fold_timeout(a, rest);
                match wait_fold(a, rest) {
                    Err(_) => {},
                    Ok(r) => {
                        assert(wait_fold(acc, ts) == wait_fold(a, rest));
                        if exists|i: int| 0 <= i < rest.len() && timeout_token(#[trigger] rest[i])
                            && duration_or_error(rest[i].drop_first()) == Ok::<u64, LineErrorView>(r.1)
                            && forall|j: int| i < j < rest.len() ==> !timeout_token(#[trigger] rest[j]) {
                            let i = choose|i: int| 0 <= i < rest.len() && timeout_token(#[trigger] rest[i])
                                && duration_or_error(rest[i].drop_first()) == Ok::<u64, LineErrorView>(r.1)
                                && forall|j: int| i < j < rest.len() ==> !timeout_token(#[trigger] rest[j]);
                            assert(ts[i + 1] == rest[i]);
                            assert forall|j: int| i + 1 < j < ts.len() implies !timeout_token(#[trigger] ts[j]) by {
                                assert(ts[j] == rest[j - 1]);
                            }
                        } else {
                            assert(r.1 == a.1);
                            if timeout_token(t) {
                                assert(t != "Line"@ && t != "Screen"@);
                                assert(duration_or_error(t.drop_first()) == Ok::<u64, LineErrorView>(a.1));
                                assert forall|j: int| 0 < j < ts.len() implies !timeout_token(#[trigger] ts[j]) by {
                                    assert(ts[j] == rest[j - 1]);
                                }
                            } else {
                                assert(a.1 == acc.1);
                                assert forall|j: int| 0 <= j < ts.len() implies !timeout_token(#[trigger] ts[j]) by {
                                    if j > 0 {
                                        assert(ts[j] == rest[j - 1]);
                                    }
                                }
                            }
                        }
                    },
                }
            },
        }
    }
}

/// How long a `Wait` line waits: the duration of its last `@timeout`
/// token, or the settings' default timeout when there is none.
pub proof fn lemma_wait_timeout(ts: Seq<Seq<char>>, st: SettingsView)
    ensures
        spec_wait(ts, st) matches Ok(EventView::Wait { timeout, .. }) ==> {
            ||| (exists|i: int| 0 <= i < ts.len() && timeout_token(#[trigger] ts[i])
                && duration_or_error(ts[i].drop_first()) == Ok::<u64, LineErrorView>(timeout)
                && forall|j: int| i < j < ts.len() ==> !timeout_token(#[trigger] ts[j]))
            ||| (timeout == st.wait_timeout && forall|j: int| 0 <= j < ts.len() ==> !timeout_token(#[trigger] ts[j]))
        },
{
    lemma_wait_fold_timeout((WaitScope::Line, st.wait_timeout, st.wait_pattern), ts);
}

fn parse_wait(ts: &[Vec<char>], st: &Settings) -> (r: Result<Event, LineError>)
    ensures
        match r {
            Ok(e) => spec_wait(toks_view(ts@), st@) == Ok::<EventView, LineErrorView>(e@),
            Err(e) => spec_wait(toks_view(ts@), st@) == Err::<EventView, LineErrorView>(e@),
        },
{
    let ghost tv = toks_view(ts@);
    let ghost init = (WaitScope::Line, st@.wait_timeout, st@.wait_pattern);
    let mut scope = WaitScope::Line;
    let mut timeout = st.wait_timeout;
    let mut pattern: Vec<char> = crate::text::chars_of(st.wait_pattern.as_str());
    let mut i: usize = 0;
    assert(tv.skip(0) =~= tv);
    while i < ts.len()
        invariant
            i <= ts@.len(),
            tv == toks_view(ts@),
            init == (WaitScope::Line, st@.wait_timeout, st@.wait_pattern),
            wait_fold(init, tv) == wait_fold((scope, timeout, pattern@), tv.skip(i as int)),
        decreases ts@.len() - i,
    {
        let t = ts[i].as_slice();
        assert(tv.skip(i as int)[0] == t@);
        assert(tv.skip(i as int).drop_first() =~= tv.skip(i + 1));
        let n = t.len();
        if is_lit(t, "Line") {
            scope = WaitScope::Line;
        } else if is_lit(t, "Screen") {
            scope = WaitScope::Screen;
        } else if n > 0 && t[0] == '@' {
            let d = crate::text::slice_chars(t, 1, n);
            assert(d@ =~= t@.drop_first());
            match duration_or_error_exec(d.as_slice()) {
                Ok(x) => {
                    timeout = x;
                },
                Err(e) => {
                    assert(wait_step((scope, timeout, pattern@), t@) == Err::<(WaitScope, u64, Seq<char>), LineErrorView>(e@));
                    assert(wait_fold((scope, timeout, pattern@), tv.skip(i as int)) == Err::<(WaitScope, u64, Seq<char>), LineErrorView>(e@));
                    return Err(e);
                },
            }
        } else if n >= 2 && t[0] == '/' && t[n - 1] == '/' {
            pattern = crate::text::slice_chars(t, 1, n - 1);
        } else {
            let e = LineError::WaitUnexpected { token: to_string(t) };
            assert(wait_step((scope, timeout, pattern@), t@) == Err::<(WaitScope, u64, Seq<char>), LineErrorView>(e@));
            assert(wait_fold((scope, timeout, pattern@), tv.skip(i as int)) == Err::<(WaitScope, u64, Seq<char>), LineErrorView>(e@));
            return Err(e);
        }
        i += 1;
    }
    assert(tv.skip(i as int) =~= Seq::<Seq<char>>::empty());
    Ok(Event::Wait { scope, timeout, pattern: to_string(pattern.as_slice()) })
}

// ---------------------------------------------------------------------------
// Quoted texts
// ---------------------------------------------------------------------------

/// The texts of quoted tokens; the first token that is not quoted is an
/// error.
pub open spec fn all_unquoted(ts: Seq<Seq<char>>) -> Result<Seq<Seq<char>>, LineErrorView>
    decreases ts.len(),
{
    if ts.len() == 0 {
        Ok(Seq::empty())
    } else {
        match unquote_required(ts[0]) {
            None => Err(LineErrorView::ExpectedQuoted { token: ts[0] }),
            Some(t) => match all_unquoted(ts.drop_first()) {
                Err(e) => Err(e),
                Ok(rest) => Ok(seq![t] + rest),
            },
        }
    }
}

/// Texts joined with single spaces.
pub open spec fn join_space(ts: Seq<Seq<char>>) -> Seq<char>
    decreases ts.len(),
{
    if ts.len() == 0 {
        Seq::empty()
    } else if ts.len() == 1 {
        ts[0]
    } else {
        join_space(ts.drop_last()) + seq![' '] + ts.last()
    }
}

fn unquote_all(ts: &[Vec<char>]) -> (r: Result<Vec<Vec<char>>, LineError>)
    ensures
        match r {
            Ok(v) => all_unquoted(toks_view(ts@)) == Ok::<Seq<Seq<char>>, LineErrorView>(toks_view(v@)),
            Err(e) => all_unquoted(toks_view(ts@)) == Err::<Seq<Seq<char>>, LineErrorView>(e@),
        },
{
    let ghost tv = toks_view(ts@);
    let mut out: Vec<Vec<char>> = Vec::new();
    let mut i: usize = 0;
    assert(tv.skip(0) =~= tv);
    assert(toks_view(out@) + Seq::<Seq<char>>::empty() =~= toks_view(out@));
    while i < ts.len()
        invariant
            i <= ts@.len(),
            tv == toks_view(ts@),
            all_unquoted(tv) == match all_unquoted(tv.skip(i as int)) {
                Err(e) => Err(e),
                Ok(rest) => Ok(toks_view(out@) + rest),
            },
        decreases ts@.len() - i,
    {
        let t = ts[i].as_slice();
        assert(tv.skip(i as int)[0] == t@);
        assert(tv.skip(i as int).drop_first() =~= tv.skip(i + 1));
        if !is_quoted_exec(t) {
            return Err(LineError::ExpectedQuoted { token: to_string(t) });
        }
        let inner = crate::text::slice_chars(t, 1, t.len() - 1);
        let ghost before = toks_view(out@);
        out.push(inner);
        proof {
            assert(toks_view(out@) =~= before.push(t@.subrange(1, t@.len() - 1)));
            match all_unquoted(tv.skip(i + 1)) {
                Ok(rest) => {
                    assert(before + (seq![t@.subrange(1, t@.len() - 1)] + rest) =~= toks_view(out@) + rest);
                },
                Err(_) => {},
            }
        }
        i += 1;
    }
    assert(tv.skip(i as int) =~= Seq::<Seq<char>>::empty());
    assert(toks_view(out@) + Seq::<Seq<char>>::empty() =~= toks_view(out@));
    Ok(out)
}

fn join_space_exec(ts: &[Vec<char>]) -> (r: Vec<char>)
    ensures
        r@ == join_space(toks_view(ts@)),
{
    let ghost tv = toks_view(ts@);
    let mut out: Vec<char> = Vec::new();
    let mut i: usize = 0;
    while i < ts.len()
        invariant
            i <= ts@.len(),
            tv == toks_view(ts@),
            out@ == join_space(tv.take(i as int)),
        decreases ts@.len() - i,
    {
        assert(tv.take(i + 1).drop_last() =~= tv.take(i as int));
        assert(tv.take(i + 1).last() == ts@[i as int]@);
        let ghost before = out@;
        if i > 0 {
            out.push(' ');
        }
        let t = ts[i].as_slice();
        let mut j: usize = 0;
        let ghost mid = out@;
        while j < t.len()
            invariant
                j <= t@.len(),
                out@ == mid + t@.take(j as int),
            decreases t@.len() - j,
        {
            out.push(t[j]);
            j += 1;
            assert(out@ =~= mid + t@.take(j as int));
        }
        assert(t@.take(t@.len() as int) =~= t@);
        proof {
            if i == 0 {
                assert(tv.take(1) =~= seq![t@]);
                assert(out@ =~= t@);
            } else {
                assert(out@ =~= before + seq![' '] + t@);
            }
        }
        i += 1;
    }
    assert(tv.take(i as int) =~= tv);
    out
}

// ---------------------------------------------------------------------------
// Output paths
// ---------------------------------------------------------------------------

/// The last component of a path, as `Path::file_name` reads it: `.`
/// components are skipped, and a path ending in `..` (or with no
/// component) has none.
pub open spec fn file_name(p: Seq<char>) -> Option<Seq<char>>
    decreases p.len(),
{
    if p.len() == 0 {
        None
    } else if p.last() == '/' {
        file_name(p.drop_last())
    } else {
        let comp = match crate::text::last_index(p, '/') {
            Some(k) => p.skip(k + 1),
            None => p,
        };
        if comp == "."@ {
            match crate::text::last_index(p, '/') {
                Some(k) => {
                    proof {
                        lemma_last_index_bound(p, '/');
                    }
                    file_name(p.take(k))
                },
                None => None,
            }
        } else if comp == ".."@ {
            None
        } else {
            Some(comp)
        }
    }
}

pub proof fn lemma_last_index_bound(s: Seq<char>, c: char)
    ensures
        match crate::text::last_index(s, c) {
            Some(k) => 0 <= k < s.len() && s[k] == c,
            None => true,
        },
    decreases s.len(),
{
    if s.len() > 0 && s.last() != c {
        lemma_last_index_bound(s.drop_last(), c);
    }
}

/// The extension of a file name, as `Path::extension` reads it: what
/// follows the last `.`, unless that dot starts the name.
pub open spec fn name_extension(n: Seq<char>) -> Option<Seq<char>> {
    match crate::text::last_index(n, '.') {
        Some(k) => if k == 0 {
            None
        } else {
            Some(n.skip(k + 1))
        },
        None => None,
    }
}

/// The lower-cased extension of an output path.
pub open spec fn output_extension(p: Seq<char>) -> Option<Seq<char>> {
    match file_name(p) {
        Some(n) => match name_extension(n) {
            Some(e) => Some(crate::text::ascii_lower_seq(e)),
            None => None,
        },
        None => None,
    }
}

pub fn file_name_exec(p: &[char]) -> (r: Option<Vec<char>>)
    ensures
        match r {
            Some(n) => file_name(p@) == Some(n@),
            None => file_name(p@) is None,
        },
{
    let mut cur: Vec<char> = crate::text::slice_chars(p, 0, p.len());
    assert(cur@ =~= p@);
    loop
        invariant
            file_name(p@) == file_name(cur@),
        decreases cur@.len(),
    {
        let n = cur.len();
        if n == 0 {
            return None;
        }
        let ghost prev = cur@;
        if cur[n - 1] == '/' {
            cur = crate::text::slice_chars(cur.as_slice(), 0, n - 1);
            assert(cur@ =~= prev.drop_last());
            continue;
        }
        let (comp, slash) = match crate::text::last_index_of(cur.as_slice(), '/') {
            Some(k) => (crate::text::slice_chars(cur.as_slice(), k + 1, n), Some(k)),
            None => (crate::text::slice_chars(cur.as_slice(), 0, n), None),
        };
        assert(prev.take(n as int) =~= prev);
        assert(comp@ == match crate::text::last_index(prev, '/') {
            Some(k) => prev.skip(k + 1),
            None => prev,
        });
        if is_lit(comp.as_slice(), ".") {
            match slash {
                Some(k) => {
                    cur = crate::text::slice_chars(cur.as_slice(), 0, k);
                },
                None => {
                    return None;
                },
            }
        } else if is_lit(comp.as_slice(), "..") {
            return None;
        } else {
            return Some(comp);
        }
    }
}

pub fn output_extension_exec(p: &[char]) -> (r: Option<Vec<char>>)
    ensures
        match r {
            Some(e) => output_extension(p@) == Some(e@),
            None => output_extension(p@) is None,
        },
{
    match file_name_exec(p) {
        None => None,
        Some(n) => {
            let len = n.len();
            match crate::text::last_index_of(n.as_slice(), '.') {
                Some(k) => {
                    if k == 0 {
                        None
                    } else {
                        let e = crate::text::slice_chars(n.as_slice(), k + 1, len);
                        assert(e@ =~= n@.skip(k + 1));
                        Some(crate::text::ascii_lower_chars(e.as_slice()))
                    }
                },
                None => None,
            }
        },
    }
}


// ---------------------------------------------------------------------------
// Set
// ---------------------------------------------------------------------------

/// The value of a `Set`: the token after the key, unquoted.
pub open spec fn set_scalar(rest: Seq<Seq<char>>) -> Option<Seq<char>> {
    if rest.len() >= 2 {
        Some(unquote(rest[1]))
    } else {
        None
    }
}

/// The value of `Set Theme`: one token, unquoted, or several joined with
/// spaces as written.
pub open spec fn set_value(rest: Seq<Seq<char>>) -> Option<Seq<char>> {
    if rest.len() < 2 {
        None
    } else if rest.len() == 2 {
        Some(unquote(rest[1]))
    } else {
        Some(join_space(rest.skip(1)))
    }
}

/// An unsigned setting of at most `max`.
pub open spec fn unsigned_setting(key: Seq<char>, v: Seq<char>, max: nat) -> Result<nat, LineErrorView> {
    match crate::decimal::parse_unsigned(v, max) {
        Some(n) => Ok(n),
        None => Err(LineErrorView::InvalidValue { key, value: v }),
    }
}

/// A floating-point setting.
pub open spec fn float_setting(key: Seq<char>, v: Seq<char>) -> Result<Seq<char>, LineErrorView> {
    if crate::decimal::is_float_literal(v) {
        Ok(v)
    } else {
        Err(LineErrorView::InvalidValue { key, value: v })
    }
}

/// A boolean setting: `true` or `false`.
pub open spec fn bool_setting(key: Seq<char>, v: Seq<char>) -> Result<bool, LineErrorView> {
    if v == "true"@ {
        Ok(true)
    } else if v == "false"@ {
        Ok(false)
    } else {
        Err(LineErrorView::InvalidValue { key, value: v })
    }
}

/// The keys whose value is a single token.
pub open spec fn is_scalar_key(k: Seq<char>) -> bool {
    k == "Shell"@ || k == "FontFamily"@ || k == "FontSize"@ || k == "Width"@ || k == "Height"@
        || k == "Cols"@ || k == "Columns"@ || k == "Rows"@ || k == "Padding"@ || k == "Margin"@
        || k == "MarginFill"@ || k == "WindowBar"@ || k == "WindowBarSize"@ || k
        == "BorderRadius"@ || k == "LineHeight"@ || k == "Framerate"@ || k == "FrameRate"@ || k
        == "FPS"@ || k == "PlaybackSpeed"@ || k == "TypingSpeed"@ || k == "WaitTimeout"@ || k
        == "WaitPattern"@ || k == "CursorBlink"@
}

/// A scalar `Set key v` applied to the settings.
pub open spec fn apply_scalar(st: SettingsView, k: Seq<char>, v: Seq<char>) -> Result<SettingsView, LineErrorView> {
    if k == "Shell"@ {
        Ok(SettingsView { shell: Some(v), ..st })
    } else if k == "FontFamily"@ {
        Ok(SettingsView { font_family: Some(v), ..st })
    } else if k == "FontSize"@ {
        match float_setting(k, v) {
            Ok(f) => Ok(SettingsView { font_size: f, ..st }),
            Err(e) => Err(e),
        }
    } else if k == "Width"@ {
        match unsigned_setting(k, v, u32::MAX as nat) {
            Ok(n) => Ok(SettingsView { width: Some(n as u32), ..st }),
            Err(e) => Err(e),
        }
    } else if k == "Height"@ {
        match unsigned_setting(k, v, u32::MAX as nat) {
            Ok(n) => Ok(SettingsView { height: Some(n as u32), ..st }),
            Err(e) => Err(e),
        }
    } else if k == "Cols"@ || k == "Columns"@ {
        match unsigned_setting(k, v, u16::MAX as nat) {
            Ok(n) => Ok(SettingsView { cols: Some(n as u16), ..st }),
            Err(e) => Err(e),
        }
    } else if k == "Rows"@ {
        match unsigned_setting(k, v, u16::MAX as nat) {
            Ok(n) => Ok(SettingsView { rows: Some(n as u16), ..st }),
            Err(e) => Err(e),
        }
    } else if k == "Padding"@ {
        match unsigned_setting(k, v, u32::MAX as nat) {
            Ok(n) => Ok(SettingsView { padding: n as u32, ..st }),
            Err(e) => Err(e),
        }
    } else if k == "Margin"@ {
        match unsigned_setting(k, v, u32::MAX as nat) {
            Ok(n) => Ok(SettingsView { margin: n as u32, ..st }),
            Err(e) => Err(e),
        }
    } else if k == "MarginFill"@ {
        match crate::style::spec_parse_hex_color(v) {
            Some(c) => Ok(SettingsView { margin_fill: c, ..st }),
            None => Err(LineErrorView::Color { value: trim(v) }),
        }
    } else if k == "WindowBar"@ {
        match crate::style::spec_window_bar(v) {
            Some(w) => Ok(SettingsView { window_bar: w, ..st }),
            None => Err(LineErrorView::WindowBar { value: v }),
        }
    } else if k == "WindowBarSize"@ {
        match unsigned_setting(k, v, u32::MAX as nat) {
            Ok(n) => Ok(SettingsView { window_bar_size: n as u32, ..st }),
            Err(e) => Err(e),
        }
    } else if k == "BorderRadius"@ {
        match unsigned_setting(k, v, u32::MAX as nat) {
            Ok(n) => Ok(SettingsView { border_radius: n as u32, ..st }),
            Err(e) => Err(e),
        }
    } else if k == "LineHeight"@ {
        match float_setting(k, v) {
            Ok(f) => Ok(SettingsView { line_height: f, ..st }),
            Err(e) => Err(e),
        }
    } else if k == "Framerate"@ || k == "FrameRate"@ || k == "FPS"@ {
        match unsigned_setting(k, v, u32::MAX as nat) {
            Ok(n) => Ok(SettingsView { framerate: n as u32, ..st }),
            Err(e) => Err(e),
        }
    } else if k == "PlaybackSpeed"@ {
        match float_setting(k, v) {
            Ok(f) => Ok(SettingsView { playback_speed: f, ..st }),
            Err(e) => Err(e),
        }
    } else if k == "TypingSpeed"@ {
        match duration_or_error(v) {
            Ok(d) => Ok(SettingsView { typing_speed: d, ..st }),
            Err(e) => Err(e),
        }
    } else if k == "WaitTimeout"@ {
        match duration_or_error(v) {
            Ok(d) => Ok(SettingsView { wait_timeout: d, ..st }),
            Err(e) => Err(e),
        }
    } else if k == "WaitPattern"@ {
        Ok(SettingsView { wait_pattern: v, ..st })
    } else {
        match bool_setting(k, v) {
            Ok(b) => Ok(SettingsView { cursor_blink: b, ..st }),
            Err(e) => Err(e),
        }
    }
}

/// A `Set` line (the tokens after `Set`) applied to the settings.
pub open spec fn spec_apply_set(st: SettingsView, rest: Seq<Seq<char>>) -> Result<SettingsView, LineErrorView> {
    if rest.len() == 0 {
        Err(LineErrorView::SetMissingKey)
    } else {
        let k = rest[0];
        if k == "Theme"@ {
            match set_value(rest) {
                None => Err(LineErrorView::SetMissingValue { key: k }),
                Some(v) => match crate::style::spec_theme_from_spec(v) {
                    Ok(t) => Ok(SettingsView { theme: t, ..st }),
                    Err(e) => Err(LineErrorView::Theme(e)),
                },
            }
        } else if k == "LetterSpacing"@ || k == "LoopOffset"@ {
            Err(LineErrorView::UnsupportedSet { key: k })
        } else if is_scalar_key(k) {
            match set_scalar(rest) {
                None => Err(LineErrorView::SetMissingValue { key: k }),
                Some(v) => apply_scalar(st, k, v),
            }
        } else {
            Err(LineErrorView::UnknownSetKey { key: k })
        }
    }
}

fn unsigned_setting_exec(k: &[char], v: &[char], max: u64) -> (r: Result<u64, LineError>)
    ensures
        match r {
            Ok(n) => unsigned_setting(k@, v@, max as nat) == Ok::<nat, LineErrorView>(n as nat),
            Err(e) => unsigned_setting(k@, v@, max as nat) == Err::<nat, LineErrorView>(e@),
        },
{
    match crate::decimal::parse_unsigned_exec(v, max) {
        Some(n) => Ok(n),
        None => Err(LineError::InvalidValue { key: to_string(k), value: to_string(v) }),
    }
}

fn float_setting_exec(k: &[char], v: &[char]) -> (r: Result<FloatText, LineError>)
    ensures
        match r {
            Ok(f) => float_setting(k@, v@) == Ok::<Seq<char>, LineErrorView>(f@),
            Err(e) => float_setting(k@, v@) == Err::<Seq<char>, LineErrorView>(e@),
        },
{
    if crate::decimal::is_float_literal_exec(v) {
        Ok(FloatText { text: to_string(v) })
    } else {
        Err(LineError::InvalidValue { key: to_string(k), value: to_string(v) })
    }
}

fn apply_scalar_exec(st: &mut Settings, k: &[char], v: &[char]) -> (r: Result<(), LineError>)
    ensures
        match apply_scalar(old(st)@, k@, v@) {
            Ok(s2) => r is Ok && final(st)@ == s2,
            Err(e) => r matches Err(x) && x@ == e && final(st)@ == old(st)@,
        },
{
    if is_lit(k, "Shell") {
        st.shell = Some(to_string(v));
    } else if is_lit(k, "FontFamily") {
        st.font_family = Some(to_string(v));
    } else if is_lit(k, "FontSize") {
        st.font_size = float_setting_exec(k, v)?;
    } else if is_lit(k, "Width") {
        st.width = Some(unsigned_setting_exec(k, v, 0xffff_ffff)? as u32);
    } else if is_lit(k, "Height") {
        st.height = Some(unsigned_setting_exec(k, v, 0xffff_ffff)? as u32);
    } else if is_lit(k, "Cols") || is_lit(k, "Columns") {
        st.cols = Some(unsigned_setting_exec(k, v, 0xffff)? as u16);
    } else if is_lit(k, "Rows") {
        st.rows = Some(unsigned_setting_exec(k, v, 0xffff)? as u16);
    } else if is_lit(k, "Padding") {
        st.padding = unsigned_setting_exec(k, v, 0xffff_ffff)? as u32;
    } else if is_lit(k, "Margin") {
        st.margin = unsigned_setting_exec(k, v, 0xffff_ffff)? as u32;
    } else if is_lit(k, "MarginFill") {
        let vs = to_string(v);
        match crate::style::parse_hex_color(vs.as_str()) {
            Ok(c) => {
                st.margin_fill = c;
            },
            Err(e) => return Err(LineError::Color(e)),
        }
    } else if is_lit(k, "WindowBar") {
        let vs = to_string(v);
        match crate::style::WindowBarStyle::parse(vs.as_str()) {
            Ok(w) => {
                st.window_bar = w;
            },
            Err(e) => return Err(LineError::WindowBar(e)),
        }
    } else if is_lit(k, "WindowBarSize") {
        st.window_bar_size = unsigned_setting_exec(k, v, 0xffff_ffff)? as u32;
    } else if is_lit(k, "BorderRadius") {
        st.border_radius = unsigned_setting_exec(k, v, 0xffff_ffff)? as u32;
    } else if is_lit(k, "LineHeight") {
        st.line_height = float_setting_exec(k, v)?;
    } else if is_lit(k, "Framerate") || is_lit(k, "FrameRate") || is_lit(k, "FPS") {
        st.framerate = unsigned_setting_exec(k, v, 0xffff_ffff)? as u32;
    } else if is_lit(k, "PlaybackSpeed") {
        st.playback_speed = float_setting_exec(k, v)?;
    } else if is_lit(k, "TypingSpeed") {
        st.typing_speed = duration_or_error_exec(v)?;
    } else if is_lit(k, "WaitTimeout") {
        st.wait_timeout = duration_or_error_exec(v)?;
    } else if is_lit(k, "WaitPattern") {
        st.wait_pattern = to_string(v);
    } else if is_lit(v, "true") {
        st.cursor_blink = true;
    } else if is_lit(v, "false") {
        st.cursor_blink = false;
    } else {
        return Err(LineError::InvalidValue { key: to_string(k), value: to_string(v) });
    }
    Ok(())
}

fn is_scalar_key_exec(k: &[char]) -> (r: bool)
    ensures
        r == is_scalar_key(k@),
{
    is_lit(k, "Shell") || is_lit(k, "FontFamily") || is_lit(k, "FontSize") || is_lit(k, "Width")
        || is_lit(k, "Height") || is_lit(k, "Cols") || is_lit(k, "Columns") || is_lit(k, "Rows")
        || is_lit(k, "Padding") || is_lit(k, "Margin") || is_lit(k, "MarginFill") || is_lit(
        k,
        "WindowBar",
    ) || is_lit(k, "WindowBarSize") || is_lit(k, "BorderRadius") || is_lit(k, "LineHeight")
        || is_lit(k, "Framerate") || is_lit(k, "FrameRate") || is_lit(k, "FPS") || is_lit(
        k,
        "PlaybackSpeed",
    ) || is_lit(k, "TypingSpeed") || is_lit(k, "WaitTimeout") || is_lit(k, "WaitPattern")
        || is_lit(k, "CursorBlink")
}

fn apply_set(st: &mut Settings, rest: &[Vec<char>]) -> (r: Result<(), LineError>)
    ensures
        match spec_apply_set(old(st)@, toks_view(rest@)) {
            Ok(s2) => r is Ok && final(st)@ == s2,
            Err(e) => r matches Err(x) && x@ == e && final(st)@ == old(st)@,
        },
{
    let ghost tv = toks_view(rest@);
    if rest.len() == 0 {
        return Err(LineError::SetMissingKey);
    }
    assert(tv[0] == rest@[0]@);
    let k = rest[0].as_slice();
    if is_lit(k, "Theme") {
        if rest.len() < 2 {
            return Err(LineError::SetMissingValue { key: to_string(k) });
        }
        let v: Vec<char> = if rest.len() == 2 {
            assert(tv[1] == rest@[1]@);
            unquote_exec(rest[1].as_slice())
        } else {
            let tail = vstd::slice::slice_subrange(rest, 1, rest.len());
            assert(toks_view(tail@) =~= tv.skip(1));
            join_space_exec(tail)
        };
        let vs = to_string(v.as_slice());
        match crate::style::Theme::from_spec(vs.as_str()) {
            Ok(t) => {
                st.theme = t;
                Ok(())
            },
            Err(e) => Err(LineError::Theme(e)),
        }
    } else if is_lit(k, "LetterSpacing") || is_lit(k, "LoopOffset") {
        Err(LineError::UnsupportedSet { key: to_string(k) })
    } else if is_scalar_key_exec(k) {
        if rest.len() < 2 {
            return Err(LineError::SetMissingValue { key: to_string(k) });
        }
        assert(tv[1] == rest@[1]@);
        let v = unquote_exec(rest[1].as_slice());
        apply_scalar_exec(st, k, v.as_slice())
    } else {
        Err(LineError::UnknownSetKey { key: to_string(k) })
    }
}


// ---------------------------------------------------------------------------
// Lines
// ---------------------------------------------------------------------------

/// What a line asks of its reader besides the changes it made.
#[derive(Debug)]
pub enum LineOutcome {
    /// The line has been applied.
    Applied,
    /// `Source path`: the lines of that file go here.
    Source(String),
}

pub enum OutcomeView {
    Applied,
    Source(Seq<char>),
}

impl View for LineOutcome {
    type V = OutcomeView;

    open spec fn view(&self) -> OutcomeView {
        match self {
            LineOutcome::Applied => OutcomeView::Applied,
            LineOutcome::Source(p) => OutcomeView::Source(p@),
        }
    }
}

pub open spec fn applied(s: ScriptView) -> Result<(ScriptView, OutcomeView), LineErrorView> {
    Ok((s, OutcomeView::Applied))
}

pub open spec fn push_event(s: ScriptView, e: EventView) -> ScriptView {
    ScriptView { events: s.events.push(e), ..s }
}

/// One `Type` event per text, all with the same delay.
pub open spec fn type_events(texts: Seq<Seq<char>>, delay: u64) -> Seq<EventView> {
    texts.map_values(|t: Seq<char>| EventView::Type { text: t, delay })
}

/// The extensions an `Output` can have: `.gif`, `.svg`, `.svgz` (gzipped
/// SVG), `.json` (the recording itself) and `.stats` (a report of the
/// rendering run).
pub open spec fn is_output_ext(e: Seq<char>) -> bool {
    e == "gif"@ || e == "svg"@ || e == "svgz"@ || e == "json"@ || e == "stats"@
}

/// A tokenized line applied to the script.
pub open spec fn spec_apply_tokens(s: ScriptView, toks: Seq<Seq<char>>) -> Result<(ScriptView, OutcomeView), LineErrorView> {
    let head = toks[0];
    let rest = toks.skip(1);
    if head == "Output"@ {
        if rest.len() == 0 {
            Err(LineErrorView::OutputMissingPath)
        } else {
            let path = unquote(rest[0]);
            if s.outputs.len() > 0 {
                Err(LineErrorView::MultipleOutputs { path, first: s.outputs[0] })
            } else {
                match output_extension(path) {
                    None => Err(LineErrorView::OutputNoExtension { path }),
                    Some(e) => if is_output_ext(e) {
                        applied(ScriptView { outputs: s.outputs.push(path), ..s })
                    } else {
                        Err(LineErrorView::OutputExtension { path, ext: e })
                    },
                }
            }
        }
    } else if head == "Set"@ {
        match spec_apply_set(s.settings, rest) {
            Ok(st) => applied(ScriptView { settings: st, ..s }),
            Err(e) => Err(e),
        }
    } else if head == "Env"@ {
        if rest.len() == 0 {
            Err(LineErrorView::EnvKeyMissing)
        } else if rest.len() == 1 {
            Err(LineErrorView::EnvValueMissing)
        } else {
            applied(ScriptView { env: s.env.push((unquote(rest[0]), unquote(rest[1]))), ..s })
        }
    } else if head == "Require"@ {
        applied(ScriptView { require: s.require + rest.map_values(|t: Seq<char>| unquote(t)), ..s })
    } else if head == "Sleep"@ {
        if rest.len() == 0 {
            Err(LineErrorView::SleepMissing)
        } else {
            match duration_or_error(rest[0]) {
                Ok(d) => applied(push_event(s, EventView::Sleep(d))),
                Err(e) => Err(e),
            }
        }
    } else if head == "Hide"@ {
        applied(push_event(s, EventView::Hide))
    } else if head == "Show"@ {
        applied(push_event(s, EventView::Show))
    } else if head == "Screenshot"@ {
        if rest.len() == 0 {
            Err(LineErrorView::ScreenshotMissing)
        } else {
            let path = unquote(rest[0]);
            if crate::text::ends_with(path, ".png"@) {
                applied(push_event(s, EventView::Screenshot(path)))
            } else {
                Err(LineErrorView::ScreenshotNotPng)
            }
        }
    } else if head == "Wait"@ {
        match spec_wait(rest, s.settings) {
            Ok(e) => applied(push_event(s, e)),
            Err(e) => Err(e),
        }
    } else if head == "Source"@ {
        if rest.len() == 0 {
            Err(LineErrorView::SourceMissing)
        } else {
            Ok((s, OutcomeView::Source(unquote(rest[0]))))
        }
    } else if head == "Copy"@ {
        if rest.len() == 0 {
            Err(LineErrorView::CopyEmpty)
        } else {
            match all_unquoted(rest) {
                Ok(ts) => applied(push_event(s, EventView::Copy(join_space(ts)))),
                Err(e) => Err(e),
            }
        }
    } else if head == "Paste"@ {
        applied(push_event(s, EventView::Paste))
    } else if head == "Type"@ || crate::text::starts_with(head, "Type@"@) {
        let delay = if head == "Type"@ {
            Ok(s.settings.typing_speed)
        } else {
            duration_or_error(head.skip("Type@"@.len() as int))
        };
        match delay {
            Err(e) => Err(e),
            Ok(d) => if rest.len() == 0 {
                Err(LineErrorView::TypeEmpty)
            } else {
                match all_unquoted(rest) {
                    Ok(ts) => applied(ScriptView { events: s.events + type_events(ts, d), ..s }),
                    Err(e) => Err(e),
                }
            },
        }
    } else {
        match spec_key_event(head, rest) {
            Ok(e) => applied(push_event(s, e)),
            Err(e) => Err(e),
        }
    }
}

/// A raw line applied to the script: its comment dropped and the rest
/// trimmed; blank lines change nothing.
pub open spec fn spec_apply_line(s: ScriptView, raw: Seq<char>) -> Result<(ScriptView, OutcomeView), LineErrorView> {
    let line = trim(strip_comment(raw));
    if line.len() == 0 {
        applied(s)
    } else {
        match tokenize(line) {
            None => Err(LineErrorView::UnterminatedString),
            Some(toks) => if toks.len() == 0 {
                applied(s)
            } else {
                spec_apply_tokens(s, toks)
            },
        }
    }
}

fn push_event_exec(script: &mut Script, e: Event)
    ensures
        final(script)@ == push_event(old(script)@, e@),
{
    let ghost before = script.events@;
    script.events.push(e);
    assert(events_view(script.events@) =~= events_view(before).push(e@));
}

#[verifier::rlimit(30)]
fn apply_tokens(script: &mut Script, toks: &[Vec<char>]) -> (r: Result<LineOutcome, LineError>)
    requires
        toks@.len() > 0,
    ensures
        match spec_apply_tokens(old(script)@, toks_view(toks@)) {
            Ok((s2, o)) => r matches Ok(x) && x@ == o && final(script)@ == s2,
            Err(e) => r matches Err(x) && x@ == e && final(script)@ == old(script)@,
        },
{
    let ghost tv = toks_view(toks@);
    let head = toks[0].as_slice();
    let rest = vstd::slice::slice_subrange(toks, 1, toks.len());
    assert(tv[0] == head@);
    assert(toks_view(rest@) =~= tv.skip(1));
    let ghost rv = tv.skip(1);
    if is_lit(head, "Output") {
        if rest.len() == 0 {
            return Err(LineError::OutputMissingPath);
        }
        assert(rv[0] == rest@[0]@);
        let path = unquote_exec(rest[0].as_slice());
        if script.outputs.len() > 0 {
            assert(strings_view(script.outputs@)[0] == script.outputs@[0]@);
            return Err(LineError::MultipleOutputs {
                path: to_string(path.as_slice()),
                first: script.outputs[0].clone(),
            });
        }
        match output_extension_exec(path.as_slice()) {
            None => Err(LineError::OutputNoExtension { path: to_string(path.as_slice()) }),
            Some(e) => {
                if is_lit(e.as_slice(), "gif") || is_lit(e.as_slice(), "svg") || is_lit(e.as_slice(), "svgz")
                    || is_lit(e.as_slice(), "json") || is_lit(e.as_slice(), "stats") {
                    let ghost before = script.outputs@;
                    script.outputs.push(to_string(path.as_slice()));
                    assert(strings_view(script.outputs@) =~= strings_view(before).push(path@));
                    Ok(LineOutcome::Applied)
                } else {
                    Err(LineError::OutputExtension {
                        path: to_string(path.as_slice()),
                        ext: to_string(e.as_slice()),
                    })
                }
            },
        }
    } else if is_lit(head, "Set") {
        match apply_set(&mut script.settings, rest) {
            Ok(()) => Ok(LineOutcome::Applied),
            Err(e) => Err(e),
        }
    } else if is_lit(head, "Env") {
        if rest.len() == 0 {
            return Err(LineError::EnvKeyMissing);
        }
        if rest.len() == 1 {
            return Err(LineError::EnvValueMissing);
        }
        assert(rv[0] == rest@[0]@);
        assert(rv[1] == rest@[1]@);
        let k = unquote_exec(rest[0].as_slice());
        let v = unquote_exec(rest[1].as_slice());
        let ghost before = script.env@;
        script.env.push((to_string(k.as_slice()), to_string(v.as_slice())));
        assert(pairs_view(script.env@) =~= pairs_view(before).push((k@, v@)));
        Ok(LineOutcome::Applied)
    } else if is_lit(head, "Require") {
        let ghost before = strings_view(script.require@);
        let mut i: usize = 0;
        while i < rest.len()
            invariant
                i <= rest@.len(),
                rv == toks_view(rest@),
                strings_view(script.require@) == before + rv.take(i as int).map_values(
                    |t: Seq<char>| unquote(t),
                ),
                before == strings_view(old(script).require@),
                script.outputs == old(script).outputs,
                script.settings == old(script).settings,
                script.env == old(script).env,
                script.events == old(script).events,
            decreases rest@.len() - i,
        {
            assert(rv[i as int] == rest@[i as int]@);
            let u = unquote_exec(rest[i].as_slice());
            let ghost mid = script.require@;
            script.require.push(to_string(u.as_slice()));
            assert(rv.take(i + 1).map_values(|t: Seq<char>| unquote(t)) =~= rv.take(
                i as int,
            ).map_values(|t: Seq<char>| unquote(t)).push(unquote(rv[i as int])));
            assert(strings_view(script.require@) =~= strings_view(mid).push(u@));
            i += 1;
        }
        assert(rv.take(i as int) =~= rv);
        Ok(LineOutcome::Applied)
    } else if is_lit(head, "Sleep") {
        if rest.len() == 0 {
            return Err(LineError::SleepMissing);
        }
        assert(rv[0] == rest@[0]@);
        let d = duration_or_error_exec(rest[0].as_slice())?;
        push_event_exec(script, Event::Sleep(d));
        Ok(LineOutcome::Applied)
    } else if is_lit(head, "Hide") {
        push_event_exec(script, Event::Hide);
        Ok(LineOutcome::Applied)
    } else if is_lit(head, "Show") {
        push_event_exec(script, Event::Show);
        Ok(LineOutcome::Applied)
    } else if is_lit(head, "Screenshot") {
        if rest.len() == 0 {
            return Err(LineError::ScreenshotMissing);
        }
        assert(rv[0] == rest@[0]@);
        let path = unquote_exec(rest[0].as_slice());
        let png = crate::text::chars_of(".png");
        if !crate::text::ends_with_chars(path.as_slice(), png.as_slice()) {
            return Err(LineError::ScreenshotNotPng);
        }
        push_event_exec(script, Event::Screenshot(to_string(path.as_slice())));
        Ok(LineOutcome::Applied)
    } else if is_lit(head, "Wait") {
        let e = parse_wait(rest, &script.settings)?;
        push_event_exec(script, e);
        Ok(LineOutcome::Applied)
    } else if is_lit(head, "Source") {
        if rest.len() == 0 {
            return Err(LineError::SourceMissing);
        }
        assert(rv[0] == rest@[0]@);
        let p = unquote_exec(rest[0].as_slice());
        Ok(LineOutcome::Source(to_string(p.as_slice())))
    } else if is_lit(head, "Copy") {
        if rest.len() == 0 {
            return Err(LineError::CopyEmpty);
        }
        let texts = unquote_all(rest)?;
        let text = join_space_exec(texts.as_slice());
        push_event_exec(script, Event::Copy(to_string(text.as_slice())));
        Ok(LineOutcome::Applied)
    } else if is_lit(head, "Paste") {
        push_event_exec(script, Event::Paste);
        Ok(LineOutcome::Applied)
    } else if is_lit(head, "Type") || crate::text::starts_with_chars(
        head,
        crate::text::chars_of("Type@").as_slice(),
    ) {
        let delay: u64 = if is_lit(head, "Type") {
            script.settings.typing_speed
        } else {
            let prefix = crate::text::chars_of("Type@");
            let n = head.len();
            let d = crate::text::slice_chars(head, prefix.len(), n);
            assert(d@ =~= head@.skip("Type@"@.len() as int));
            duration_or_error_exec(d.as_slice())?
        };
        if rest.len() == 0 {
            return Err(LineError::TypeEmpty);
        }
        let texts = unquote_all(rest)?;
        let ghost before = script.events@;
        let ghost tsv = toks_view(texts@);
        let mut i: usize = 0;
        while i < texts.len()
            invariant
                i <= texts@.len(),
                tsv == toks_view(texts@),
                events_view(script.events@) == events_view(before) + type_events(
                    tsv.take(i as int),
                    delay,
                ),
                before == old(script).events@,
                script.outputs == old(script).outputs,
                script.settings == old(script).settings,
                script.env == old(script).env,
                script.require == old(script).require,
            decreases texts@.len() - i,
        {
            let ghost mid = script.events@;
            script.events.push(Event::Type { text: to_string(texts[i].as_slice()), delay });
            assert(type_events(tsv.take(i + 1), delay) =~= type_events(tsv.take(i as int), delay).push(
                EventView::Type { text: tsv[i as int], delay },
            ));
            assert(events_view(script.events@) =~= events_view(mid).push(
                EventView::Type { text: texts@[i as int]@, delay },
            ));
            i += 1;
        }
        assert(tsv.take(i as int) =~= tsv);
        Ok(LineOutcome::Applied)
    } else {
        let e = parse_key_event(head, rest)?;
        push_event_exec(script, e);
        Ok(LineOutcome::Applied)
    }
}

/// Applies one raw line of a script; a `Source` line is handed back to the
/// caller, who reads that file's lines in its place.
pub fn apply_line(script: &mut Script, raw: &str) -> (r: Result<LineOutcome, LineError>)
    ensures
        match spec_apply_line(old(script)@, raw@) {
            Ok((s2, o)) => r matches Ok(x) && x@ == o && final(script)@ == s2,
            Err(e) => r matches Err(x) && x@ == e && final(script)@ == old(script)@,
        },
{
    let cs = crate::text::chars_of(raw);
    let nc = strip_comment_exec(cs.as_slice());
    let line = crate::text::trim_chars(nc.as_slice());
    if line.len() == 0 {
        return Ok(LineOutcome::Applied);
    }
    match tokenize_exec(line.as_slice()) {
        None => Err(LineError::UnterminatedString),
        Some(toks) => {
            if toks.len() == 0 {
                Ok(LineOutcome::Applied)
            } else {
                assert(chars_view(toks@) =~= toks_view(toks@));
                apply_tokens(script, toks.as_slice())
            }
        },
    }
}

/// The lines of a text, as `str::lines` splits them.
pub fn split_lines(src: &str) -> (r: Vec<String>)
    ensures
        strings_view(r@) == lines_of(src@),
{
    let cs = crate::text::chars_of(src);
    let n = cs.len();
    let mut out: Vec<String> = Vec::new();
    let mut i: usize = 0;
    assert(cs@.skip(0) =~= cs@);
    while i < n
        invariant
            i <= n,
            n == cs@.len(),
            cs@ == src@,
            lines_of(src@) == strings_view(out@) + lines_of(cs@.skip(i as int)),
        decreases n - i,
    {
        let rem = vstd::slice::slice_subrange(cs.as_slice(), i, n);
        assert(rem@ =~= cs@.skip(i as int));
        let ghost before = out@;
        match crate::text::first_index_of(rem, '\n') {
            None => {
                out.push(to_string(rem));
                assert(strings_view(out@) =~= strings_view(before) + seq![rem@]);
                assert(cs@.skip(n as int) =~= Seq::<char>::empty());
                i = n;
            },
            Some(k) => {
                let line_end: usize = if k > 0 && rem[k - 1] == '\r' { k - 1 } else { k };
                let l = crate::text::slice_chars(rem, 0, line_end);
                assert(l@ =~= strip_cr(rem@.take(k as int)));
                out.push(to_string(l.as_slice()));
                assert(strings_view(out@) =~= strings_view(before).push(l@));
                assert(rem@.skip(k + 1) =~= cs@.skip(i + k + 1));
                i = i + k + 1;
            },
        }
    }
    assert(strings_view(out@) + Seq::<Seq<char>>::empty() =~= strings_view(out@));
    out
}

/// Why a script was refused: the line (counted from 1), its text and what
/// is wrong with it.
#[derive(Debug)]
pub struct ScriptError {
    pub line: usize,
    pub raw: String,
    pub kind: LineError,
}

pub struct ScriptErrorView {
    pub line: nat,
    pub raw: Seq<char>,
    pub kind: LineErrorView,
}

impl View for ScriptError {
    type V = ScriptErrorView;

    open spec fn view(&self) -> ScriptErrorView {
        ScriptErrorView { line: self.line as nat, raw: self.raw@, kind: self.kind@ }
    }
}


/// The lines applied in turn from line `done + 1` on; reading a text
/// alone, a `Source` line is refused.
pub open spec fn spec_parse_lines(s: ScriptView, lines: Seq<Seq<char>>, done: nat) -> Result<ScriptView, ScriptErrorView>
    decreases lines.len(),
{
    if lines.len() == 0 {
        Ok(s)
    } else {
        match spec_apply_line(s, lines[0]) {
            Err(e) => Err(ScriptErrorView { line: done + 1, raw: lines[0], kind: e }),
            Ok((s2, o)) => match o {
                OutcomeView::Applied => spec_parse_lines(s2, lines.drop_first(), done + 1),
                OutcomeView::Source(p) => Err(
                    ScriptErrorView {
                        line: done + 1,
                        raw: lines[0],
                        kind: LineErrorView::SourceUnresolved { path: p },
                    },
                ),
            },
        }
    }
}

/// The script a text holds.
pub open spec fn spec_parse(src: Seq<char>) -> Result<ScriptView, ScriptErrorView> {
    spec_parse_lines(empty_script(), lines_of(src), 0)
}

/// Parses a complete script. `Source` directives need files, which a text
/// alone does not give: they are refused here.
#[verifier::rlimit(40)]
pub fn parse(src: &str) -> (r: Result<Script, ScriptError>)
    ensures
        match r {
            Ok(s) => spec_parse(src@) == Ok::<ScriptView, ScriptErrorView>(s@),
            Err(e) => spec_parse(src@) == Err::<ScriptView, ScriptErrorView>(e@),
        },
{
    let lines = split_lines(src);
    let ghost lv = strings_view(lines@);
    let mut script = Script::default();
    let mut i: usize = 0;
    assert(lv.skip(0) =~= lv);
    while i < lines.len()
        invariant
            i <= lines@.len(),
            lv == strings_view(lines@),
            lv == lines_of(src@),
            spec_parse(src@) == spec_parse_lines(script@, lv.skip(i as int), i as nat),
        decreases lines@.len() - i,
    {
        assert(lv.skip(i as int)[0] == lines@[i as int]@);
        assert(lv.skip(i as int).drop_first() =~= lv.skip(i + 1));
        match apply_line(&mut script, lines[i].as_str()) {
            Err(kind) => {
                return Err(ScriptError { line: i + 1, raw: lines[i].clone(), kind });
            },
            Ok(LineOutcome::Applied) => {},
            Ok(LineOutcome::Source(path)) => {
                return Err(
                    ScriptError {
                        line: i + 1,
                        raw: lines[i].clone(),
                        kind: LineError::SourceUnresolved { path },
                    },
                );
            },
        }
        i += 1;
    }
    assert(lv.skip(i as int) =~= Seq::<Seq<char>>::empty());
    Ok(script)
}

} // verus!
