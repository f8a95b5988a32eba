//! What a written script reads back as.

use vstd::prelude::*;
use crate::decimal::nat_text;
use crate::script::ast::{default_settings, empty_script, no_mods, EventView, KeyAction, KeySpec, ModSet, NamedKey, ScriptView, SettingsView};
use crate::script::parser::{
    all_unquoted, applied, bare_end, comment_start, is_quote, lines_of, push_event, quote_end,
    fold_key_parts, named_key, spec_apply_line, spec_apply_tokens, spec_key_event, spec_key_spec,
    spec_parse_lines, split_on, strip_comment, tokenize, tokens_from,
    type_events, unquote_required, OutcomeView, ScriptErrorView,
};
use crate::script::writer::{default_delay, escape_quoted, event_line, join_sep, key_name, millis, mods_names, mods_prefix};
use crate::text::{first_index, is_ws, trim, trim_end, trim_start};

verus! {

/// A text that goes between double quotes as it is: no `"`, `\` or line
/// feed.
pub open spec fn plain_text(t: Seq<char>) -> bool {
    forall|k: int| 0 <= k < t.len() ==> #[trigger] t[k] != '"' && t[k] != '\\' && t[k] != '\n'
}

proof fn lemma_escape_plain(t: Seq<char>)
    requires
        plain_text(t),
    ensures
        escape_quoted(t) == t,
    decreases t.len(),
{
    if t.len() > 0 {
        let d = t.drop_last();
        assert forall|k: int| 0 <= k < d.len() implies #[trigger] d[k] != '"' && d[k] != '\\' && d[k] != '\n' by {
            assert(d[k] == t[k]);
        }
        lemma_escape_plain(d);
        assert(t[t.len() - 1] == t.last());
        assert(d + seq![t.last()] =~= t);
    }
}

proof fn lemma_comment_bare_run(s: Seq<char>, i: int, j: int)
    requires
        0 <= i <= j <= s.len(),
        forall|k: int| i <= k < j ==> !is_quote(#[trigger] s[k]) && s[k] != '#',
    ensures
        comment_start(s, i, None) == comment_start(s, j, None),
    decreases j - i,
{
    if i < j {
        assert(!is_quote(s[i]) && s[i] != '#');
        lemma_comment_bare_run(s, i + 1, j);
    }
}

proof fn lemma_comment_quoted_run(s: Seq<char>, i: int, j: int, q: char)
    requires
        0 <= i <= j < s.len(),
        forall|k: int| i <= k < j ==> #[trigger] s[k] != q,
        s[j] == q,
    ensures
        comment_start(s, i, Some(q)) == comment_start(s, j + 1, None),
    decreases j - i,
{
    if i < j {
        assert(s[i] != q);
        lemma_comment_quoted_run(s, i + 1, j, q);
    }
}

proof fn lemma_quote_end_run(s: Seq<char>, i: int, j: int, q: char)
    requires
        0 <= i <= j < s.len(),
        forall|k: int| i <= k < j ==> #[trigger] s[k] != q && s[k] != '\\',
        s[j] == q,
    ensures
        quote_end(s, q, i) == Some(j + 1),
    decreases j - i,
{
    if i < j {
        assert(s[i] != q && s[i] != '\\');
        lemma_quote_end_run(s, i + 1, j, q);
    }
}

proof fn lemma_bare_end_run(s: Seq<char>, i: int, j: int)
    requires
        0 <= i <= j < s.len(),
        forall|k: int| i <= k < j ==> !is_ws(#[trigger] s[k]),
        is_ws(s[j]),
    ensures
        bare_end(s, i) == j,
    decreases j - i,
{
    if i < j {
        assert(!is_ws(s[i]));
        lemma_bare_end_run(s, i + 1, j);
    }
}

proof fn lemma_first_index_at(s: Seq<char>, c: char, j: int)
    requires
        0 <= j < s.len(),
        forall|k: int| 0 <= k < j ==> #[trigger] s[k] != c,
        s[j] == c,
    ensures
        first_index(s, c) == Some(j),
    decreases j,
{
    if j > 0 {
        let d = s.drop_first();
        assert forall|k: int| 0 <= k < j - 1 implies #[trigger] d[k] != c by {
            assert(d[k] == s[k + 1]);
        }
        assert(s[0] != c);
        lemma_first_index_at(d, c, j - 1);
    }
}

/// A text that is one line once a line feed ends it: no line feed in it,
/// and no carriage return at its end.
pub open spec fn one_line(l: Seq<char>) -> bool {
    &&& forall|k: int| 0 <= k < l.len() ==> #[trigger] l[k] != '\n'
    &&& (l.len() > 0 ==> l.last() != '\r')
}

/// A character that can stand in a bare token: no white space (so no line
/// feed), quote or `#`.
pub open spec fn bare_char(c: char) -> bool {
    !is_ws(c) && !is_quote(c) && c != '#'
}

/// A token that is written bare: characters that can stand in one, and at
/// least one.
pub open spec fn bare_token(t: Seq<char>) -> bool {
    t.len() > 0 && forall|k: int| 0 <= k < t.len() ==> bare_char(#[trigger] t[k])
}

/// Tokens written one after another, a space between two.
pub open spec fn spaced(ts: Seq<Seq<char>>) -> Seq<char>
    decreases ts.len(),
{
    if ts.len() <= 1 {
        if ts.len() == 0 { Seq::empty() } else { ts[0] }
    } else {
        ts[0] + seq![' '] + spaced(ts.drop_first())
    }
}

proof fn lemma_spaced_chars(ts: Seq<Seq<char>>)
    requires
        forall|i: int| 0 <= i < ts.len() ==> bare_token(#[trigger] ts[i]),
    ensures
        forall|k: int| 0 <= k < spaced(ts).len() ==> (#[trigger] spaced(ts)[k] == ' ' || bare_char(spaced(ts)[k])),
        ts.len() > 0 ==> spaced(ts).len() > 0 && bare_char(spaced(ts)[0]) && bare_char(spaced(ts).last()),
    decreases ts.len(),
{
    if ts.len() > 1 {
        let d = ts.drop_first();
        assert forall|i: int| 0 <= i < d.len() implies bare_token(#[trigger] d[i]) by {
            assert(d[i] == ts[i + 1]);
        }
        lemma_spaced_chars(d);
        let l = spaced(ts);
        let h = ts[0];
        assert(bare_token(h));
        assert(l == h + seq![' '] + spaced(d));
        assert forall|k: int| 0 <= k < l.len() implies (#[trigger] l[k] == ' ' || bare_char(l[k])) by {
            if k < h.len() {
                assert(l[k] == h[k]);
            } else if k > h.len() {
                assert(l[k] == spaced(d)[k - h.len() - 1]);
            }
        }
        assert(l[0] == h[0]);
        assert(l.last() == spaced(d).last());
    } else if ts.len() == 1 {
        assert(bare_token(ts[0]));
        assert(spaced(ts)[0] == ts[0][0]);
    }
}

proof fn lemma_bare_end_to(s: Seq<char>, i: int, j: int)
    requires
        0 <= i <= j <= s.len(),
        forall|k: int| i <= k < j ==> !is_ws(#[trigger] s[k]),
        j == s.len() || is_ws(s[j]),
    ensures
        bare_end(s, i) == j,
    decreases j - i,
{
    if i < j {
        assert(!is_ws(s[i]));
        lemma_bare_end_to(s, i + 1, j);
    }
}

proof fn lemma_tokens_spaced(s: Seq<char>, i: int, ts: Seq<Seq<char>>)
    requires
        0 <= i <= s.len(),
        s.subrange(i, s.len() as int) == spaced(ts),
        ts.len() > 0,
        forall|j: int| 0 <= j < ts.len() ==> bare_token(#[trigger] ts[j]),
    ensures
        tokens_from(s, i) == Some(ts),
    decreases ts.len(),
{
    let h = ts[0];
    let n = h.len() as int;
    assert(bare_token(h));
    let d = ts.drop_first();
    if ts.len() == 1 {
        assert(spaced(ts) == h);
    } else {
        assert(spaced(ts) == h + seq![' '] + spaced(d));
    }
    assert forall|k: int| i <= k < i + n implies !is_ws(#[trigger] s[k]) by {
        assert(s[k] == s.subrange(i, s.len() as int)[k - i]);
        assert(s.subrange(i, s.len() as int)[k - i] == h[k - i]);
    }
    assert(s[i] == h[0]) by {
        assert(s[i] == s.subrange(i, s.len() as int)[0]);
    }
    assert(!is_ws(s[i]) && !is_quote(s[i]));
    if ts.len() == 1 {
        assert(i + n == s.len());
        lemma_bare_end_to(s, i, i + n);
        assert(tokens_from(s, i + n) == Some(Seq::<Seq<char>>::empty()));
        assert(s.subrange(i, i + n) =~= h);
        assert(seq![h] + Seq::<Seq<char>>::empty() =~= ts);
    } else {
        assert(s[i + n] == ' ') by {
            assert(s[i + n] == s.subrange(i, s.len() as int)[n]);
        }
        assert(is_ws(' '));
        lemma_bare_end_to(s, i, i + n);
        assert forall|j: int| 0 <= j < d.len() implies bare_token(#[trigger] d[j]) by {
            assert(d[j] == ts[j + 1]);
        }
        assert(s.subrange(i + n + 1, s.len() as int) =~= spaced(d)) by {
            assert(s.subrange(i + n + 1, s.len() as int) =~= s.subrange(i, s.len() as int).skip(n + 1));
        }
        lemma_tokens_spaced(s, i + n + 1, d);
        assert(tokens_from(s, i + n) == tokens_from(s, i + n + 1));
        assert(s.subrange(i, i + n) =~= h) by {
            assert(s.subrange(i, i + n) =~= s.subrange(i, s.len() as int).take(n));
        }
        assert(seq![h] + d =~= ts);
    }
}

/// A line of bare tokens, a space between two, reads as exactly those
/// tokens, and is one line of a text where a line feed ends it.
proof fn lemma_spaced_line(ts: Seq<Seq<char>>)
    requires
        ts.len() > 0,
        forall|j: int| 0 <= j < ts.len() ==> bare_token(#[trigger] ts[j]),
    ensures
        ({
            let l = spaced(ts);
            &&& trim(strip_comment(l)) == l
            &&& l.len() > 0
            &&& tokenize(l) == Some(ts)
            &&& one_line(l)
        }),
{
    let l = spaced(ts);
    lemma_spaced_chars(ts);
    assert(is_ws(' ') && !is_quote(' '));
    assert forall|k: int| 0 <= k < l.len() implies !is_quote(#[trigger] l[k]) && l[k] != '#' by {
        assert(l[k] == ' ' || bare_char(l[k]));
    }
    lemma_comment_bare_run(l, 0, l.len() as int);
    assert(strip_comment(l) =~= l);
    assert(trim_start(l) == l);
    assert(trim_end(l) == l);
    assert(l.subrange(0, l.len() as int) =~= l);
    lemma_tokens_spaced(l, 0, ts);
    let lf = l + seq!['\n'];
    assert forall|k: int| 0 <= k < l.len() implies #[trigger] lf[k] != '\n' by {
        assert(lf[k] == l[k]);
        assert(l[k] == ' ' || bare_char(l[k]));
        assert(is_ws('\n'));
    }
    assert forall|k: int| 0 <= k < l.len() implies #[trigger] l[k] != '\n' by {
        assert(lf[k] == l[k]);
    }
    assert(l.last() != '\r') by {
        assert(is_ws('\r'));
    }
    assert(trim(strip_comment(l)) == l);
    assert(tokenize(l) == Some(ts));
}

/// A head token (no white space, quote or `#`) followed by a space and a
/// plain double-quoted text is one line of exactly those two tokens.
proof fn lemma_head_quoted_line(h: Seq<char>, t: Seq<char>)
    requires
        h.len() > 0,
        forall|k: int| 0 <= k < h.len() ==> !is_ws(#[trigger] h[k]) && !is_quote(h[k]) && h[k] != '#' && h[k] != '\n',
        plain_text(t),
    ensures
        ({
            let l = h + seq![' ', '"'] + t + seq!['"'];
            &&& trim(strip_comment(l)) == l
            &&& tokenize(l) == Some(seq![h, seq!['"'] + t + seq!['"']])
            &&& one_line(l)
        }),
{
    let l = h + seq![' ', '"'] + t + seq!['"'];
    let n = h.len() as int;
    let m = t.len() as int;
    assert(l.len() == n + 3 + m);
    assert forall|k: int| 0 <= k < n implies #[trigger] l[k] == h[k] by {}
    assert forall|k: int| 0 <= k < m implies #[trigger] l[n + 2 + k] == t[k] by {}
    assert(l[n] == ' ');
    assert(l[n + 1] == '"');
    assert(l[n + 2 + m] == '"');
    assert(is_ws(' '));
    assert(is_quote('"'));
    // The comment scan runs to the end: the head, the space, then the text
    // inside the quotes.
    assert forall|k: int| 0 <= k < n + 1 implies !is_quote(#[trigger] l[k]) && l[k] != '#' by {
        if k < n {
            assert(l[k] == h[k]);
        }
    }
    lemma_comment_bare_run(l, 0, n + 1);
    assert forall|k: int| n + 2 <= k < n + 2 + m implies #[trigger] l[k] != '"' && l[k] != '\\' by {
        assert(l[k] == t[k - n - 2]);
    }
    lemma_comment_quoted_run(l, n + 2, n + 2 + m, '"');
    assert(comment_start(l, n + 3 + m, None) == l.len());
    assert(comment_start(l, 0, None) == l.len());
    assert(strip_comment(l) =~= l);
    assert(!is_ws(l[0])) by {
        assert(l[0] == h[0]);
    }
    assert(trim_start(l) == l);
    assert(l.last() == '"');
    assert(trim_end(l) == l);
    // The tokens.
    assert forall|k: int| 0 <= k < n implies !is_ws(#[trigger] l[k]) by {
        assert(l[k] == h[k]);
    }
    lemma_bare_end_run(l, 0, n);
    assert(!is_quote(l[0])) by {
        assert(l[0] == h[0]);
    }
    lemma_quote_end_run(l, n + 2, n + 2 + m, '"');
    assert(tokens_from(l, n + 3 + m) == Some(Seq::<Seq<char>>::empty()));
    let q = seq!['"'] + t + seq!['"'];
    assert(l.subrange(n + 1, n + 3 + m) =~= q);
    assert(tokens_from(l, n + 1) == Some(seq![q] + Seq::<Seq<char>>::empty()));
    assert(tokens_from(l, n) == tokens_from(l, n + 1));
    assert(l.subrange(0, n) =~= h);
    assert(seq![q] + Seq::<Seq<char>>::empty() =~= seq![q]);
    assert(seq![h] + seq![q] =~= seq![h, q]);
    // The line ends at its only line feed.
    let lf = l + seq!['\n'];
    assert forall|k: int| 0 <= k < l.len() implies #[trigger] lf[k] != '\n' by {
        assert(lf[k] == l[k]);
        if k < n {
            assert(l[k] == h[k]);
        } else if n + 2 <= k < n + 2 + m {
            assert(l[k] == t[k - n - 2]);
        }
    }
    assert forall|k: int| 0 <= k < l.len() implies #[trigger] l[k] != '\n' by {
        assert(lf[k] == l[k]);
    }
}

/// The head token of a written `Type` line: `Type`, or `Type@` and the
/// delay in milliseconds.
spec fn type_head(delay: u64) -> Seq<char> {
    if delay == default_delay() {
        "Type"@
    } else {
        "Type@"@ + nat_text(millis(delay)) + "ms"@
    }
}

proof fn lemma_type_head(delay: u64)
    ensures
        ({
            let h = type_head(delay);
            &&& h.len() >= 4
            &&& h.take(4) == "Type"@
            &&& forall|k: int| 0 <= k < h.len() ==> !is_ws(#[trigger] h[k]) && !is_quote(h[k]) && h[k] != '#' && h[k] != '\n'
            &&& delay != default_delay() ==> h.len() >= 8 && h[4] == '@' && h.take(5) == "Type@"@
                && h.skip(5) == nat_text(millis(delay)) + "ms"@
        }),
{
    reveal_strlit("Type");
    reveal_strlit("Type@");
    reveal_strlit("ms");
    let h = type_head(delay);
    if delay == default_delay() {
        assert(h.take(4) =~= h);
    } else {
        let d = nat_text(millis(delay));
        crate::script::writer::lemma_nat_text_digits(millis(delay));
        assert(h.len() == 5 + d.len() + 2);
        assert forall|k: int| 0 <= k < h.len() implies !is_ws(#[trigger] h[k]) && !is_quote(h[k]) && h[k] != '#' && h[k] != '\n' by {
            if 5 <= k < 5 + d.len() {
                assert(h[k] == d[k - 5]);
                assert(crate::decimal::is_digit(d[k - 5]));
            }
        }
        assert(h.take(4) =~= "Type"@);
        assert(h.take(5) =~= "Type@"@);
        assert(h.skip(5) =~= d + "ms"@);
    }
}

proof fn lemma_type_head_not_other(delay: u64)
    ensures
        ({
            let h = type_head(delay);
            &&& h != "Output"@ && h != "Set"@ && h != "Env"@ && h != "Require"@ && h != "Sleep"@
            &&& h != "Hide"@ && h != "Show"@ && h != "Screenshot"@ && h != "Wait"@
            &&& h != "Source"@ && h != "Copy"@ && h != "Paste"@
            &&& (h == "Type"@ || crate::text::starts_with(h, "Type@"@))
            &&& (h == "Type"@ <==> delay == default_delay())
        }),
{
    reveal_strlit("Output");
    reveal_strlit("Set");
    reveal_strlit("Env");
    reveal_strlit("Require");
    reveal_strlit("Sleep");
    reveal_strlit("Hide");
    reveal_strlit("Show");
    reveal_strlit("Screenshot");
    reveal_strlit("Wait");
    reveal_strlit("Source");
    reveal_strlit("Copy");
    reveal_strlit("Paste");
    reveal_strlit("Type");
    reveal_strlit("Type@");
    lemma_type_head(delay);
    let h = type_head(delay);
    assert(h[0] == 'T') by {
        assert(h.take(4)[0] == h[0]);
    }
    if delay != default_delay() {
        assert(h.len() >= 8);
    }
}

/// The two tokens of a written `Type` line push that one event.
proof fn lemma_type_tokens(s: ScriptView, text: Seq<char>, delay: u64)
    requires
        delay % 1_000_000 == 0,
        delay == default_delay() ==> s.settings.typing_speed == default_delay(),
    ensures
        spec_apply_tokens(s, seq![type_head(delay), seq!['"'] + text + seq!['"']])
            == applied(push_event(s, EventView::Type { text, delay })),
{
    let e = EventView::Type { text, delay };
    let h = type_head(delay);
    let q = seq!['"'] + text + seq!['"'];
    let toks = seq![h, q];
    lemma_type_head(delay);
    lemma_type_head_not_other(delay);
    assert(toks[0] == h);
    assert(toks.skip(1) =~= seq![q]);
    assert(q.len() >= 2 && q[0] == '"' && q.last() == '"');
    assert(q.subrange(1, q.len() - 1) =~= text);
    assert(unquote_required(q) == Some(text));
    assert(seq![q].drop_first() =~= Seq::<Seq<char>>::empty());
    assert(seq![text] + Seq::<Seq<char>>::empty() =~= seq![text]);
    assert(all_unquoted(Seq::<Seq<char>>::empty()) == Ok::<Seq<Seq<char>>, crate::script::parser::LineErrorView>(Seq::empty()));
    assert(seq![q][0] == q);
    assert(all_unquoted(seq![q]) == Ok::<Seq<Seq<char>>, crate::script::parser::LineErrorView>(seq![text]));
    if delay != default_delay() {
        let ms = millis(delay);
        assert(ms * 1_000_000 == delay) by (nonlinear_arith)
            requires
                ms == delay / 1_000_000,
                delay % 1_000_000 == 0,
        ;
        crate::script::writer::lemma_written_millis_read_back(ms);
    }
    assert(type_events(seq![text], delay) =~= seq![e]);
    assert(s.events + seq![e] =~= s.events.push(e));
}

/// The line a `Type` event is written as, without its line feed.
spec fn type_line(text: Seq<char>, delay: u64) -> Seq<char> {
    type_head(delay) + seq![' ', '"'] + text + seq!['"']
}

proof fn lemma_type_event_line(text: Seq<char>, delay: u64)
    requires
        plain_text(text),
    ensures
        event_line(EventView::Type { text, delay }) == type_line(text, delay) + seq!['\n'],
{
    reveal_strlit("Type \"");
    reveal_strlit("\"\n");
    reveal_strlit("Type@");
    reveal_strlit("ms \"");
    reveal_strlit("Type");
    reveal_strlit("ms");
    lemma_escape_plain(text);
    assert(event_line(EventView::Type { text, delay }) =~= type_line(text, delay) + seq!['\n']);
}

proof fn lemma_type_line_applied(s: ScriptView, text: Seq<char>, delay: u64)
    requires
        plain_text(text),
        delay % 1_000_000 == 0,
        delay == default_delay() ==> s.settings.typing_speed == default_delay(),
    ensures
        spec_apply_line(s, type_line(text, delay)) == applied(push_event(s, EventView::Type { text, delay })),
        one_line(type_line(text, delay)),
{
    lemma_type_head(delay);
    lemma_head_quoted_line(type_head(delay), text);
    lemma_type_tokens(s, text, delay);
}

/// The line a `Sleep` event is written as when it is written in
/// milliseconds, without its line feed.
spec fn sleep_tokens(d: u64) -> Seq<Seq<char>> {
    seq!["Sleep"@, nat_text(millis(d)) + "ms"@]
}

proof fn lemma_sleep_event_line(d: u64)
    requires
        !(millis(d) >= 1000 && millis(d) % 100 == 0),
    ensures
        event_line(EventView::Sleep(d)) == spaced(sleep_tokens(d)) + seq!['\n'],
        forall|j: int| 0 <= j < sleep_tokens(d).len() ==> bare_token(#[trigger] sleep_tokens(d)[j]),
{
    reveal_strlit("Sleep");
    reveal_strlit("Sleep ");
    reveal_strlit("ms\n");
    reveal_strlit("ms");
    let ms = millis(d);
    let t = nat_text(ms) + "ms"@;
    let ts = sleep_tokens(d);
    crate::script::writer::lemma_nat_text_digits(ms);
    assert(bare_token("Sleep"@));
    assert forall|k: int| 0 <= k < t.len() implies bare_char(#[trigger] t[k]) by {
        if k < nat_text(ms).len() {
            assert(t[k] == nat_text(ms)[k]);
            assert(crate::decimal::is_digit(nat_text(ms)[k]));
        }
    }
    assert(bare_token(ts[0]) && bare_token(ts[1]));
    assert(spaced(ts.drop_first()) == t) by {
        assert(ts.drop_first() =~= seq![t]);
    }
    assert(spaced(ts) == "Sleep"@ + seq![' '] + t);
    assert(event_line(EventView::Sleep(d)) =~= spaced(ts) + seq!['\n']);
}

proof fn lemma_sleep_tokens_applied(s: ScriptView, d: u64)
    requires
        d % 1_000_000 == 0,
    ensures
        spec_apply_tokens(s, sleep_tokens(d)) == applied(push_event(s, EventView::Sleep(d))),
{
    reveal_strlit("Sleep");
    reveal_strlit("Output");
    reveal_strlit("Set");
    reveal_strlit("Env");
    reveal_strlit("Require");
    let ms = millis(d);
    let t = nat_text(ms) + "ms"@;
    let ts = sleep_tokens(d);
    assert(ms * 1_000_000 == d) by (nonlinear_arith)
        requires
            ms == d / 1_000_000,
            d % 1_000_000 == 0,
    ;
    crate::script::writer::lemma_written_millis_read_back(ms);
    assert(ts[0] == "Sleep"@);
    assert(ts.skip(1)[0] == t);
    assert(crate::script::parser::duration_or_error(t) == Ok::<u64, crate::script::parser::LineErrorView>(d));
}

proof fn lemma_sleep_line(s: ScriptView, d: u64)
    requires
        d % 1_000_000 == 0,
        !(millis(d) >= 1000 && millis(d) % 100 == 0),
    ensures
        event_line(EventView::Sleep(d)) == spaced(sleep_tokens(d)) + seq!['\n'],
        spec_apply_line(s, spaced(sleep_tokens(d))) == applied(push_event(s, EventView::Sleep(d))),
        one_line(spaced(sleep_tokens(d))),
{
    lemma_sleep_event_line(d);
    lemma_spaced_line(sleep_tokens(d));
    lemma_sleep_tokens_applied(s, d);
}

/// The lengths and first letters of the words a key line is told apart
/// by.
proof fn lemma_words()
    ensures
        "Enter"@.len() == 5 && "Enter"@[0] == 'E' && "Enter"@[1] == 'n' && "Enter"@[2] == 't',
        "Return"@.len() == 6 && "Return"@[0] == 'R' && "Return"@[1] == 'e' && "Return"@[2] == 't',
        "Escape"@.len() == 6 && "Escape"@[0] == 'E' && "Escape"@[1] == 's' && "Escape"@[2] == 'c',
        "Esc"@.len() == 3 && "Esc"@[0] == 'E' && "Esc"@[1] == 's' && "Esc"@[2] == 'c',
        "Tab"@.len() == 3 && "Tab"@[0] == 'T' && "Tab"@[1] == 'a' && "Tab"@[2] == 'b',
        "Backspace"@.len() == 9 && "Backspace"@[0] == 'B' && "Backspace"@[1] == 'a' && "Backspace"@[2] == 'c',
        "Delete"@.len() == 6 && "Delete"@[0] == 'D' && "Delete"@[1] == 'e' && "Delete"@[2] == 'l',
        "Insert"@.len() == 6 && "Insert"@[0] == 'I' && "Insert"@[1] == 'n' && "Insert"@[2] == 's',
        "Space"@.len() == 5 && "Space"@[0] == 'S' && "Space"@[1] == 'p' && "Space"@[2] == 'a',
        "Up"@.len() == 2 && "Up"@[0] == 'U' && "Up"@[1] == 'p',
        "Down"@.len() == 4 && "Down"@[0] == 'D' && "Down"@[1] == 'o' && "Down"@[2] == 'w',
        "Left"@.len() == 4 && "Left"@[0] == 'L' && "Left"@[1] == 'e' && "Left"@[2] == 'f',
        "Right"@.len() == 5 && "Right"@[0] == 'R' && "Right"@[1] == 'i' && "Right"@[2] == 'g',
        "PageUp"@.len() == 6 && "PageUp"@[0] == 'P' && "PageUp"@[1] == 'a' && "PageUp"@[2] == 'g',
        "PageDown"@.len() == 8 && "PageDown"@[0] == 'P' && "PageDown"@[1] == 'a' && "PageDown"@[2] == 'g',
        "Home"@.len() == 4 && "Home"@[0] == 'H' && "Home"@[1] == 'o' && "Home"@[2] == 'm',
        "End"@.len() == 3 && "End"@[0] == 'E' && "End"@[1] == 'n' && "End"@[2] == 'd',
        "ScrollUp"@.len() == 8 && "ScrollUp"@[0] == 'S' && "ScrollUp"@[1] == 'c' && "ScrollUp"@[2] == 'r',
        "ScrollDown"@.len() == 10 && "ScrollDown"@[0] == 'S' && "ScrollDown"@[1] == 'c' && "ScrollDown"@[2] == 'r',
        "Output"@.len() == 6 && "Output"@[0] == 'O' && "Output"@[1] == 'u' && "Output"@[2] == 't',
        "Set"@.len() == 3 && "Set"@[0] == 'S' && "Set"@[1] == 'e' && "Set"@[2] == 't',
        "Env"@.len() == 3 && "Env"@[0] == 'E' && "Env"@[1] == 'n' && "Env"@[2] == 'v',
        "Require"@.len() == 7 && "Require"@[0] == 'R' && "Require"@[1] == 'e' && "Require"@[2] == 'q',
        "Sleep"@.len() == 5 && "Sleep"@[0] == 'S' && "Sleep"@[1] == 'l' && "Sleep"@[2] == 'e',
        "Hide"@.len() == 4 && "Hide"@[0] == 'H' && "Hide"@[1] == 'i' && "Hide"@[2] == 'd',
        "Show"@.len() == 4 && "Show"@[0] == 'S' && "Show"@[1] == 'h' && "Show"@[2] == 'o',
        "Screenshot"@.len() == 10 && "Screenshot"@[0] == 'S' && "Screenshot"@[1] == 'c' && "Screenshot"@[2] == 'r',
        "Wait"@.len() == 4 && "Wait"@[0] == 'W' && "Wait"@[1] == 'a' && "Wait"@[2] == 'i',
        "Source"@.len() == 6 && "Source"@[0] == 'S' && "Source"@[1] == 'o' && "Source"@[2] == 'u',
        "Copy"@.len() == 4 && "Copy"@[0] == 'C' && "Copy"@[1] == 'o' && "Copy"@[2] == 'p',
        "Paste"@.len() == 5 && "Paste"@[0] == 'P' && "Paste"@[1] == 'a' && "Paste"@[2] == 's',
        "Type"@.len() == 4 && "Type"@[0] == 'T' && "Type"@[1] == 'y' && "Type"@[2] == 'p',
        "Type@"@.len() == 5 && "Type@"@[0] == 'T' && "Type@"@[1] == 'y' && "Type@"@[2] == 'p',
        "Ctrl"@.len() == 4 && "Ctrl"@[0] == 'C' && "Ctrl"@[1] == 't' && "Ctrl"@[2] == 'r',
        "Control"@.len() == 7 && "Control"@[0] == 'C' && "Control"@[1] == 'o' && "Control"@[2] == 'n',
        "Alt"@.len() == 3 && "Alt"@[0] == 'A' && "Alt"@[1] == 'l' && "Alt"@[2] == 't',
        "Option"@.len() == 6 && "Option"@[0] == 'O' && "Option"@[1] == 'p' && "Option"@[2] == 't',
        "Shift"@.len() == 5 && "Shift"@[0] == 'S' && "Shift"@[1] == 'h' && "Shift"@[2] == 'i',
{
    reveal_strlit("Enter");
    reveal_strlit("Return");
    reveal_strlit("Escape");
    reveal_strlit("Esc");
    reveal_strlit("Tab");
    reveal_strlit("Backspace");
    reveal_strlit("Delete");
    reveal_strlit("Insert");
    reveal_strlit("Space");
    reveal_strlit("Up");
    reveal_strlit("Down");
    reveal_strlit("Left");
    reveal_strlit("Right");
    reveal_strlit("PageUp");
    reveal_strlit("PageDown");
    reveal_strlit("Home");
    reveal_strlit("End");
    reveal_strlit("ScrollUp");
    reveal_strlit("ScrollDown");
    reveal_strlit("Output");
    reveal_strlit("Set");
    reveal_strlit("Env");
    reveal_strlit("Require");
    reveal_strlit("Sleep");
    reveal_strlit("Hide");
    reveal_strlit("Show");
    reveal_strlit("Screenshot");
    reveal_strlit("Wait");
    reveal_strlit("Source");
    reveal_strlit("Copy");
    reveal_strlit("Paste");
    reveal_strlit("Type");
    reveal_strlit("Type@");
    reveal_strlit("Ctrl");
    reveal_strlit("Control");
    reveal_strlit("Alt");
    reveal_strlit("Option");
    reveal_strlit("Shift");
}

/// A key the writer writes by a name that reads back as that key: a named
/// key, or a character that is no white space, quote, `#`, `+`, `@` or
/// lower-case letter (letters are written upper-case).
pub open spec fn plain_key(k: NamedKey) -> bool {
    match k {
        NamedKey::Enter | NamedKey::Escape | NamedKey::Tab | NamedKey::Backspace | NamedKey::Delete
        | NamedKey::Insert | NamedKey::Space | NamedKey::Up | NamedKey::Down | NamedKey::Left
        | NamedKey::Right | NamedKey::PageUp | NamedKey::PageDown | NamedKey::Home | NamedKey::End => true,
        NamedKey::Char(c) => bare_char(c) && c != '+' && c != '@' && !('a' <= c && c <= 'z'),
        _ => false,
    }
}

/// No `c` in `s`.
pub open spec fn lacks(s: Seq<char>, c: char) -> bool {
    forall|k: int| 0 <= k < s.len() ==> #[trigger] s[k] != c
}

proof fn lemma_first_index_none(s: Seq<char>, c: char)
    requires
        lacks(s, c),
    ensures
        first_index(s, c) == None::<int>,
    decreases s.len(),
{
    if s.len() > 0 {
        let d = s.drop_first();
        assert forall|k: int| 0 <= k < d.len() implies #[trigger] d[k] != c by {
            assert(d[k] == s[k + 1]);
        }
        assert(s[0] != c);
        lemma_first_index_none(d, c);
    }
}

/// The parts, each followed by `+`.
spec fn plus_prefix(ns: Seq<Seq<char>>) -> Seq<char>
    decreases ns.len(),
{
    if ns.len() == 0 {
        Seq::empty()
    } else {
        ns[0] + seq!['+'] + plus_prefix(ns.drop_first())
    }
}

proof fn lemma_plus_prefix_snoc(ns: Seq<Seq<char>>)
    requires
        ns.len() > 0,
    ensures
        plus_prefix(ns) == plus_prefix(ns.drop_last()) + ns.last() + seq!['+'],
    decreases ns.len(),
{
    if ns.len() == 1 {
        assert(ns.drop_last() =~= Seq::<Seq<char>>::empty());
        assert(ns.drop_first() =~= Seq::<Seq<char>>::empty());
        assert(plus_prefix(ns.drop_first()) == Seq::<char>::empty());
        assert(plus_prefix(ns.drop_last()) == Seq::<char>::empty());
        assert(plus_prefix(ns) =~= ns[0] + seq!['+'] + Seq::<char>::empty());
        assert(plus_prefix(ns.drop_last()) + ns.last() + seq!['+'] =~= Seq::<char>::empty() + ns[0] + seq!['+']);
    } else {
        let d = ns.drop_first();
        lemma_plus_prefix_snoc(d);
        assert(d.drop_last() =~= ns.drop_last().drop_first());
        assert(ns.drop_last()[0] == ns[0]);
        assert(d.last() == ns.last());
        assert(plus_prefix(ns.drop_last()) == ns[0] + seq!['+'] + plus_prefix(d.drop_last()));
        assert(plus_prefix(ns) =~= plus_prefix(ns.drop_last()) + ns.last() + seq!['+']);
    }
}

proof fn lemma_join_plus(ns: Seq<Seq<char>>)
    requires
        ns.len() > 0,
    ensures
        join_sep(ns, "+"@) + "+"@ == plus_prefix(ns),
    decreases ns.len(),
{
    reveal_strlit("+");
    lemma_plus_prefix_snoc(ns);
    if ns.len() == 1 {
        assert(ns.drop_last() =~= Seq::<Seq<char>>::empty());
        assert(ns[0] == ns.last());
        assert(join_sep(ns, "+"@) + "+"@ =~= Seq::<char>::empty() + ns.last() + seq!['+']);
    } else {
        lemma_join_plus(ns.drop_last());
        assert(join_sep(ns, "+"@) + "+"@ =~= (join_sep(ns.drop_last(), "+"@) + "+"@) + ns.last() + seq!['+']);
    }
}

proof fn lemma_split_plus(ns: Seq<Seq<char>>, kn: Seq<char>)
    requires
        forall|i: int| 0 <= i < ns.len() ==> lacks(#[trigger] ns[i], '+'),
        lacks(kn, '+'),
    ensures
        split_on(plus_prefix(ns) + kn, '+') == ns + seq![kn],
    decreases ns.len(),
{
    if ns.len() == 0 {
        assert(plus_prefix(ns) + kn =~= kn);
        lemma_first_index_none(kn, '+');
        assert(ns + seq![kn] =~= seq![kn]);
    } else {
        let h = ns[0];
        let d = ns.drop_first();
        assert(lacks(h, '+'));
        assert forall|i: int| 0 <= i < d.len() implies lacks(#[trigger] d[i], '+') by {
            assert(d[i] == ns[i + 1]);
        }
        lemma_split_plus(d, kn);
        let s = plus_prefix(ns) + kn;
        assert(s =~= h + seq!['+'] + (plus_prefix(d) + kn));
        assert forall|k: int| 0 <= k < h.len() implies #[trigger] s[k] != '+' by {
            assert(s[k] == h[k]);
        }
        lemma_first_index_at(s, '+', h.len() as int);
        assert(s.take(h.len() as int) =~= h);
        assert(s.skip(h.len() as int + 1) =~= plus_prefix(d) + kn);
        assert(seq![h] + (d + seq![kn]) =~= ns + seq![kn]);
    }
}

/// Whether `n` is a word the key parser reads as a modifier.
spec fn is_mod_word(n: Seq<char>) -> bool {
    n == "Ctrl"@ || n == "Control"@ || n == "Alt"@ || n == "Option"@ || n == "Shift"@
}

proof fn lemma_fold_mods(ns: Seq<Seq<char>>, kn: Seq<char>, mods: ModSet, last: Seq<char>)
    requires
        forall|i: int| 0 <= i < ns.len() ==> (#[trigger] ns[i] == "Ctrl"@ || ns[i] == "Alt"@ || ns[i] == "Shift"@),
        !is_mod_word(kn),
    ensures
        fold_key_parts(ns + seq![kn], mods, last) == (
            ModSet {
                ctrl: mods.ctrl || ns.contains("Ctrl"@),
                alt: mods.alt || ns.contains("Alt"@),
                shift: mods.shift || ns.contains("Shift"@),
                super_key: mods.super_key,
            },
            kn,
        ),
    decreases ns.len(),
{
    reveal_strlit("Ctrl");
    reveal_strlit("Alt");
    reveal_strlit("Shift");
    reveal_strlit("Control");
    reveal_strlit("Option");
    let all = ns + seq![kn];
    if ns.len() == 0 {
        assert(all =~= seq![kn]);
        assert(all.drop_first() =~= Seq::<Seq<char>>::empty());
        assert(!ns.contains("Ctrl"@) && !ns.contains("Alt"@) && !ns.contains("Shift"@));
        assert(all[0] == kn);
        assert(fold_key_parts(all, mods, last) == fold_key_parts(all.drop_first(), mods, kn));
        assert(fold_key_parts(Seq::<Seq<char>>::empty(), mods, kn) == (mods, kn));
    } else {
        let h = ns[0];
        let d = ns.drop_first();
        assert forall|i: int| 0 <= i < d.len() implies (#[trigger] d[i] == "Ctrl"@ || d[i] == "Alt"@ || d[i] == "Shift"@) by {
            assert(d[i] == ns[i + 1]);
        }
        assert(all[0] == h);
        assert(all.drop_first() =~= d + seq![kn]);
        let m2 = if h == "Ctrl"@ {
            ModSet { ctrl: true, ..mods }
        } else if h == "Alt"@ {
            ModSet { alt: true, ..mods }
        } else {
            ModSet { shift: true, ..mods }
        };
        assert("Ctrl"@.len() == 4 && "Alt"@.len() == 3 && "Shift"@.len() == 5);
        assert("Control"@.len() == 7 && "Option"@.len() == 6);
        assert("Ctrl"@ != "Alt"@ && "Ctrl"@ != "Shift"@ && "Alt"@ != "Shift"@);
        assert("Ctrl"@ != "Control"@ && "Alt"@ != "Control"@ && "Shift"@ != "Control"@);
        assert("Alt"@ != "Option"@ && "Shift"@ != "Option"@);
        lemma_fold_mods(d, kn, m2, last);
        assert(fold_key_parts(all, mods, last) == fold_key_parts(d + seq![kn], m2, last));
        assert forall|w: Seq<char>| ns.contains(w) <==> (w == h || d.contains(w)) by {
            if ns.contains(w) {
                let i = choose|i: int| 0 <= i < ns.len() && ns[i] == w;
                if i > 0 {
                    assert(d[i - 1] == w);
                }
            }
            if d.contains(w) {
                let i = choose|i: int| 0 <= i < d.len() && d[i] == w;
                assert(ns[i + 1] == w);
            }
            if w == h {
                assert(ns[0] == w);
            }
        }
    }
}

/// Only ASCII letters.
spec fn letters(s: Seq<char>) -> bool {
    forall|k: int| 0 <= k < s.len() ==> ('A' <= #[trigger] s[k] <= 'Z' || 'a' <= s[k] <= 'z')
}

proof fn lemma_letters(s: Seq<char>)
    requires
        letters(s),
        s.len() > 0,
    ensures
        bare_token(s),
        lacks(s, '+'),
        lacks(s, '@'),
{
    assert forall|k: int| 0 <= k < s.len() implies bare_char(#[trigger] s[k]) by {
        assert('A' <= s[k] <= 'Z' || 'a' <= s[k] <= 'z');
    }
}

/// The name of a key the writer can write, its letters, and how the key
/// parser reads it back.
proof fn lemma_key_name(k: NamedKey)
    requires
        plain_key(k),
    ensures
        ({
            let kn = key_name(k);
            &&& bare_token(kn) && lacks(kn, '+') && lacks(kn, '@')
            &&& !is_mod_word(kn)
            &&& named_key(kn) == Some(k)
        }),
{
    lemma_words();
    let kn = key_name(k);
    match k {
        NamedKey::Char(c) => {
            assert(kn == seq![c]);
            assert(bare_token(kn));
        },
        _ => {
            assert(letters(kn)) by {
                reveal_strlit("Enter");
                reveal_strlit("Escape");
                reveal_strlit("Tab");
                reveal_strlit("Backspace");
                reveal_strlit("Delete");
                reveal_strlit("Insert");
                reveal_strlit("Space");
                reveal_strlit("Up");
                reveal_strlit("Down");
                reveal_strlit("Left");
                reveal_strlit("Right");
                reveal_strlit("PageUp");
                reveal_strlit("PageDown");
                reveal_strlit("Home");
                reveal_strlit("End");
            }
            lemma_letters(kn);
        },
    }
}

proof fn lemma_contains_snoc_opt(pre: Seq<Seq<char>>, b: bool, x: Seq<char>, w: Seq<char>)
    ensures
        (pre + (if b { seq![x] } else { Seq::<Seq<char>>::empty() })).contains(w) <==> (pre.contains(w) || (b && w == x)),
{
    let all = pre + (if b { seq![x] } else { Seq::<Seq<char>>::empty() });
    if all.contains(w) {
        let i = choose|i: int| 0 <= i < all.len() && all[i] == w;
        if i < pre.len() {
            assert(pre[i] == w);
        }
    }
    if pre.contains(w) {
        let i = choose|i: int| 0 <= i < pre.len() && pre[i] == w;
        assert(all[i] == w);
    }
    if b && w == x {
        assert(all[pre.len() as int] == w);
    }
}

/// The head token of a key line: its modifiers, each followed by `+`, and
/// the key's name.
spec fn key_head(key: KeySpec) -> Seq<char> {
    mods_prefix(key.mods) + key_name(key.key)
}

proof fn lemma_key_spec_read_back(key: KeySpec)
    requires
        plain_key(key.key),
        !key.mods.super_key,
    ensures
        ({
            let h = key_head(key);
            &&& bare_token(h)
            &&& lacks(h, '@')
            &&& spec_key_spec(h) == Ok::<KeySpec, crate::script::parser::LineErrorView>(key)
            &&& h.len() >= 3 ==> (
                (h.len() == key_name(key.key).len() && h[0] == key_name(key.key)[0] && h[1] == key_name(key.key)[1]
                    && h[2] == key_name(key.key)[2])
                || (h[0] == 'C' && h[1] == 't' && h[2] == 'r')
                || (h[0] == 'A' && h[1] == 'l' && h[2] == 't')
                || (h[0] == 'S' && h[1] == 'h' && h[2] == 'i'))
            &&& h.len() < 3 ==> h == key_name(key.key)
        }),
{
    lemma_words();
    let m = key.mods;
    let kn = key_name(key.key);
    lemma_key_name(key.key);
    let ns = mods_names(m);
    let a = if m.ctrl { seq!["Ctrl"@] } else { Seq::<Seq<char>>::empty() };
    let b = if m.alt { seq!["Alt"@] } else { Seq::<Seq<char>>::empty() };
    let c = if m.shift { seq!["Shift"@] } else { Seq::<Seq<char>>::empty() };
    assert(ns =~= a + b + c);
    assert forall|i: int| 0 <= i < ns.len() implies (#[trigger] ns[i] == "Ctrl"@ || ns[i] == "Alt"@ || ns[i] == "Shift"@) by {
        if i < a.len() {
            assert(ns[i] == a[i]);
        } else if i < a.len() + b.len() {
            assert(ns[i] == b[i - a.len()]);
        } else {
            assert(ns[i] == c[i - a.len() - b.len()]);
        }
    }
    assert(letters("Ctrl"@) && letters("Alt"@) && letters("Shift"@)) by {
        reveal_strlit("Ctrl");
        reveal_strlit("Alt");
        reveal_strlit("Shift");
    }
    lemma_letters("Ctrl"@);
    lemma_letters("Alt"@);
    lemma_letters("Shift"@);
    assert forall|i: int| 0 <= i < ns.len() implies lacks(#[trigger] ns[i], '+') && bare_token(ns[i]) by {
        assert(ns[i] == "Ctrl"@ || ns[i] == "Alt"@ || ns[i] == "Shift"@);
    }
    // The prefix is the modifier names, each followed by `+`.
    let pre = plus_prefix(ns);
    if ns.len() > 0 {
        lemma_join_plus(ns);
    } else {
        assert(pre == Seq::<char>::empty());
    }
    assert(mods_prefix(m) == pre);
    let h = pre + kn;
    assert(key_head(key) == h);
    lemma_split_plus(ns, kn);
    lemma_fold_mods(ns, kn, no_mods(), Seq::empty());
    lemma_contains_snoc_opt(Seq::empty(), m.ctrl, "Ctrl"@, "Ctrl"@);
    assert(Seq::<Seq<char>>::empty() + a =~= a);
    lemma_contains_snoc_opt(a, m.alt, "Alt"@, "Ctrl"@);
    lemma_contains_snoc_opt(a + b, m.shift, "Shift"@, "Ctrl"@);
    lemma_contains_snoc_opt(Seq::empty(), m.ctrl, "Ctrl"@, "Alt"@);
    lemma_contains_snoc_opt(a, m.alt, "Alt"@, "Alt"@);
    lemma_contains_snoc_opt(a + b, m.shift, "Shift"@, "Alt"@);
    lemma_contains_snoc_opt(Seq::empty(), m.ctrl, "Ctrl"@, "Shift"@);
    lemma_contains_snoc_opt(a, m.alt, "Alt"@, "Shift"@);
    lemma_contains_snoc_opt(a + b, m.shift, "Shift"@, "Shift"@);
    assert(!Seq::<Seq<char>>::empty().contains("Ctrl"@));
    assert(!Seq::<Seq<char>>::empty().contains("Alt"@));
    assert(!Seq::<Seq<char>>::empty().contains("Shift"@));
    assert(ns.contains("Ctrl"@) == m.ctrl);
    assert(ns.contains("Alt"@) == m.alt);
    assert(ns.contains("Shift"@) == m.shift);
    let folded = ModSet { ctrl: m.ctrl, alt: m.alt, shift: m.shift, super_key: false };
    assert(folded == m);
    assert(kn.len() > 0);
    assert(spec_key_spec(h) == Ok::<KeySpec, crate::script::parser::LineErrorView>(KeySpec { key: key.key, mods: m }));
    // The head's letters.
    assert forall|k: int| 0 <= k < h.len() implies bare_char(#[trigger] h[k]) && h[k] != '@' by {
        if k >= pre.len() {
            assert(h[k] == kn[k - pre.len()]);
        } else {
            lemma_plus_prefix_chars(ns, k);
        }
    }
    if ns.len() > 0 {
        let n0 = ns[0];
        assert(pre == n0 + seq!['+'] + plus_prefix(ns.drop_first()));
        assert(n0.len() >= 3);
        assert(h[0] == n0[0] && h[1] == n0[1] && h[2] == n0[2]);
    } else {
        assert(h =~= kn);
    }
}

proof fn lemma_plus_prefix_chars(ns: Seq<Seq<char>>, k: int)
    requires
        forall|i: int| 0 <= i < ns.len() ==> lacks(#[trigger] ns[i], '@') && bare_token(ns[i]),
        0 <= k < plus_prefix(ns).len(),
    ensures
        bare_char(plus_prefix(ns)[k]) && plus_prefix(ns)[k] != '@',
    decreases ns.len(),
{
    let h = ns[0];
    let d = ns.drop_first();
    assert(lacks(h, '@') && bare_token(h));
    assert(plus_prefix(ns) == h + seq!['+'] + plus_prefix(d));
    if k < h.len() {
        assert(plus_prefix(ns)[k] == h[k]);
    } else if k == h.len() {
        assert(plus_prefix(ns)[k] == '+');
        assert(!is_ws('+') && !is_quote('+'));
    } else {
        assert forall|i: int| 0 <= i < d.len() implies lacks(#[trigger] d[i], '@') && bare_token(d[i]) by {
            assert(d[i] == ns[i + 1]);
        }
        assert(plus_prefix(ns)[k] == plus_prefix(d)[k - h.len() - 1]);
        lemma_plus_prefix_chars(d, k - h.len() - 1);
    }
}

/// The tokens of a key line: the head, then the repeat count where it is
/// more than one.
spec fn key_tokens(key: KeySpec, count: u32) -> Seq<Seq<char>> {
    if count > 1 {
        seq![key_head(key), nat_text(count as nat)]
    } else {
        seq![key_head(key)]
    }
}

proof fn lemma_key_head_not_command(key: KeySpec)
    requires
        plain_key(key.key),
        !key.mods.super_key,
    ensures
        ({
            let h = key_head(key);
            &&& h != "Output"@ && h != "Set"@ && h != "Env"@ && h != "Require"@ && h != "Sleep"@
            &&& h != "Hide"@ && h != "Show"@ && h != "Screenshot"@ && h != "Wait"@
            &&& h != "Source"@ && h != "Copy"@ && h != "Paste"@ && h != "Type"@
            &&& !crate::text::starts_with(h, "Type@"@)
        }),
{
    lemma_words();
    lemma_key_spec_read_back(key);
    let h = key_head(key);
    if crate::text::starts_with(h, "Type@"@) {
        assert(h.take(5) == "Type@"@);
        assert(h[0] == h.take(5)[0] && h[1] == h.take(5)[1] && h[2] == h.take(5)[2]);
    }
}

proof fn lemma_count_token(count: u32)
    ensures
        bare_token(nat_text(count as nat)),
        crate::decimal::parse_unsigned(nat_text(count as nat), u32::MAX as nat) == Some(count as nat),
{
    let c = nat_text(count as nat);
    crate::script::writer::lemma_nat_text_digits(count as nat);
    assert forall|k: int| 0 <= k < c.len() implies bare_char(#[trigger] c[k]) by {
        assert(crate::decimal::is_digit(c[k]));
    }
    assert(c[0] != '+') by {
        assert(crate::decimal::is_digit(c[0]));
    }
}

proof fn lemma_key_event_line(key: KeySpec, count: u32)
    requires
        plain_key(key.key),
        !key.mods.super_key,
        count >= 1,
    ensures
        event_line(EventView::Key { key, action: KeyAction::Press, count, delay: 0 })
            == spaced(key_tokens(key, count)) + seq!['\n'],
        forall|j: int| 0 <= j < key_tokens(key, count).len() ==> bare_token(#[trigger] key_tokens(key, count)[j]),
{
    reveal_strlit(" ");
    reveal_strlit("\n");
    let e = EventView::Key { key, action: KeyAction::Press, count, delay: 0 };
    let h = key_head(key);
    let toks = key_tokens(key, count);
    lemma_key_spec_read_back(key);
    lemma_count_token(count);
    let c = nat_text(count as nat);
    if count > 1 {
        assert(spaced(toks.drop_first()) == c) by {
            assert(toks.drop_first() =~= seq![c]);
        }
        assert(spaced(toks) == h + seq![' '] + c);
        assert(event_line(e) =~= spaced(toks) + seq!['\n']);
    } else {
        assert(spaced(toks) == h);
        assert(event_line(e) =~= spaced(toks) + seq!['\n']);
    }
}

proof fn lemma_key_tokens_applied(s: ScriptView, key: KeySpec, count: u32)
    requires
        plain_key(key.key),
        !key.mods.super_key,
        count >= 1,
    ensures
        spec_apply_tokens(s, key_tokens(key, count))
            == applied(push_event(s, EventView::Key { key, action: KeyAction::Press, count, delay: 0 })),
{
    let e = EventView::Key { key, action: KeyAction::Press, count, delay: 0 };
    let h = key_head(key);
    let toks = key_tokens(key, count);
    lemma_key_spec_read_back(key);
    lemma_key_head_not_command(key);
    lemma_count_token(count);
    lemma_first_index_none(h, '@');
    let rest = toks.skip(1);
    if count > 1 {
        assert(rest =~= seq![nat_text(count as nat)]);
    } else {
        assert(rest =~= Seq::<Seq<char>>::empty());
    }
    assert(spec_key_event(h, rest) == Ok::<EventView, crate::script::parser::LineErrorView>(e));
    assert(toks[0] == h);
}

proof fn lemma_key_line(s: ScriptView, key: KeySpec, count: u32)
    requires
        plain_key(key.key),
        !key.mods.super_key,
        count >= 1,
    ensures
        event_line(EventView::Key { key, action: KeyAction::Press, count, delay: 0 })
            == spaced(key_tokens(key, count)) + seq!['\n'],
        spec_apply_line(s, spaced(key_tokens(key, count)))
            == applied(push_event(s, EventView::Key { key, action: KeyAction::Press, count, delay: 0 })),
        one_line(spaced(key_tokens(key, count))),
{
    lemma_key_event_line(key, count);
    lemma_spaced_line(key_tokens(key, count));
    lemma_key_tokens_applied(s, key, count);
}

// ---------------------------------------------------------------------------
// Texts read line by line
// ---------------------------------------------------------------------------

proof fn lemma_first_index_min(s: Seq<char>, c: char)
    ensures
        first_index(s, c) matches Some(k) ==> (0 <= k < s.len() && s[k] == c && forall|j: int| 0 <= j < k ==> #[trigger] s[j] != c),
    decreases s.len(),
{
    if s.len() > 0 && s[0] != c {
        let d = s.drop_first();
        lemma_first_index_min(d, c);
        match first_index(d, c) {
            Some(k) => {
                assert forall|j: int| 0 <= j < k + 1 implies #[trigger] s[j] != c by {
                    if j > 0 {
                        assert(s[j] == d[j - 1]);
                    }
                }
            },
            None => {},
        }
    }
}

proof fn lemma_first_index_prefix(a: Seq<char>, b: Seq<char>, c: char)
    requires
        first_index(a, c) is Some,
    ensures
        first_index(a + b, c) == first_index(a, c),
{
    lemma_first_index_min(a, c);
    let k = first_index(a, c)->0;
    let ab = a + b;
    assert forall|j: int| 0 <= j < k implies #[trigger] ab[j] != c by {
        assert(ab[j] == a[j]);
    }
    lemma_first_index_at(ab, c, k);
}

/// Text that ends a line where it ends: empty, or ending with a line feed.
pub open spec fn whole_lines(a: Seq<char>) -> bool {
    a.len() == 0 || a.last() == '\n'
}

proof fn lemma_lines_concat(a: Seq<char>, b: Seq<char>)
    requires
        whole_lines(a),
    ensures
        lines_of(a + b) == lines_of(a) + lines_of(b),
    decreases a.len(),
{
    if a.len() == 0 {
        assert(a + b =~= b);
        assert(lines_of(a) + lines_of(b) =~= lines_of(b));
    } else {
        lemma_first_index_at_last(a);
        lemma_first_index_prefix(a, b, '\n');
        lemma_first_index_min(a, '\n');
        let k = first_index(a, '\n')->0;
        let ab = a + b;
        assert(ab.take(k) =~= a.take(k));
        let ra = a.skip(k + 1);
        assert(ab.skip(k + 1) =~= ra + b);
        if ra.len() > 0 {
            assert(ra.last() == a.last());
        }
        lemma_lines_concat(ra, b);
        assert(lines_of(ab) == seq![crate::script::parser::strip_cr(a.take(k))] + lines_of(ra + b));
        assert(lines_of(a) == seq![crate::script::parser::strip_cr(a.take(k))] + lines_of(ra));
        assert(seq![crate::script::parser::strip_cr(a.take(k))] + (lines_of(ra) + lines_of(b))
            =~= (seq![crate::script::parser::strip_cr(a.take(k))] + lines_of(ra)) + lines_of(b));
    }
}

proof fn lemma_first_index_at_last(a: Seq<char>)
    requires
        a.len() > 0,
        a.last() == '\n',
    ensures
        first_index(a, '\n') is Some,
    decreases a.len(),
{
    if a[0] != '\n' {
        let d = a.drop_first();
        assert(d.len() > 0);
        assert(d.last() == a.last());
        lemma_first_index_at_last(d);
    }
}

proof fn lemma_parse_lines_concat(s: ScriptView, x: Seq<Seq<char>>, y: Seq<Seq<char>>, d: nat)
    ensures
        spec_parse_lines(s, x + y, d) == (match spec_parse_lines(s, x, d) {
            Ok(s1) => spec_parse_lines(s1, y, d + x.len()),
            Err(e) => Err(e),
        }),
    decreases x.len(),
{
    if x.len() == 0 {
        assert(x + y =~= y);
    } else {
        assert((x + y)[0] == x[0]);
        assert((x + y).drop_first() =~= x.drop_first() + y);
        match spec_apply_line(s, x[0]) {
            Err(_) => {},
            Ok((s2, o)) => {
                match o {
                    OutcomeView::Applied => {
                        lemma_parse_lines_concat(s2, x.drop_first(), y, d + 1);
                        assert(d + 1 + x.drop_first().len() == d + x.len());
                    },
                    OutcomeView::Source(_) => {},
                }
            },
        }
    }
}

/// Reading `a + b` is reading `a`, then `b` from where `a` left off.
proof fn lemma_parse_text_concat(s: ScriptView, a: Seq<char>, b: Seq<char>, d: nat)
    requires
        whole_lines(a),
    ensures
        spec_parse_lines(s, lines_of(a + b), d) == (match spec_parse_lines(s, lines_of(a), d) {
            Ok(s1) => spec_parse_lines(s1, lines_of(b), d + lines_of(a).len()),
            Err(e) => Err(e),
        }),
{
    lemma_lines_concat(a, b);
    lemma_parse_lines_concat(s, lines_of(a), lines_of(b), d);
}

/// A line that applies to the script, ended by a line feed, reads as
/// that one change.
proof fn lemma_parse_one_line(s: ScriptView, l: Seq<char>, s2: ScriptView, d: nat)
    requires
        one_line(l),
        spec_apply_line(s, l) == applied(s2),
    ensures
        spec_parse_lines(s, lines_of(l + seq!['\n']), d) == Ok::<ScriptView, ScriptErrorView>(s2),
        lines_of(l + seq!['\n']).len() == 1,
{
    lemma_lines_cons(l, Seq::empty());
    assert(l + seq!['\n'] + Seq::<char>::empty() =~= l + seq!['\n']);
    assert(lines_of(Seq::<char>::empty()) == Seq::<Seq<char>>::empty());
    let ls = seq![l] + Seq::<Seq<char>>::empty();
    assert(ls =~= seq![l]);
    assert(seq![l].drop_first() =~= Seq::<Seq<char>>::empty());
    assert(spec_parse_lines(s2, Seq::<Seq<char>>::empty(), d + 1) == Ok::<ScriptView, ScriptErrorView>(s2));
}

/// Text whose every line is a `#` comment.
pub open spec fn comment_text(t: Seq<char>) -> bool {
    t.len() == 0 || (t[0] == '#' && t.last() == '\n' && forall|i: int| 0 <= i < t.len() - 1 && #[trigger] t[i] == '\n' ==> t[i + 1] == '#')
}

proof fn lemma_comment_line_applies(s: ScriptView, x: Seq<char>)
    requires
        x.len() > 0,
        x[0] == '#',
    ensures
        spec_apply_line(s, x) == applied(s),
{
    assert(comment_start(x, 0, None) == 0);
    assert(strip_comment(x) =~= Seq::<char>::empty());
    assert(trim_start(Seq::<char>::empty()) == Seq::<char>::empty());
    assert(trim_end(Seq::<char>::empty()) == Seq::<char>::empty());
}

/// Comment lines change nothing.
proof fn lemma_comment_text_parse(s: ScriptView, t: Seq<char>, d: nat)
    requires
        comment_text(t),
    ensures
        spec_parse_lines(s, lines_of(t), d) == Ok::<ScriptView, ScriptErrorView>(s),
    decreases t.len(),
{
    if t.len() > 0 {
        lemma_first_index_at_last(t);
        lemma_first_index_min(t, '\n');
        let k = first_index(t, '\n')->0;
        assert(k > 0);
        let line = crate::script::parser::strip_cr(t.take(k));
        assert(t.take(k)[0] == '#');
        if k == 1 {
            assert(line == t.take(k));
        }
        assert(line.len() > 0 && line[0] == '#');
        lemma_comment_line_applies(s, line);
        let rest = t.skip(k + 1);
        assert(lines_of(t) == seq![line] + lines_of(rest));
        if rest.len() > 0 {
            assert(t[k + 1] == '#');
            assert(rest[0] == t[k + 1]);
            assert(rest.last() == t.last());
            assert forall|i: int| 0 <= i < rest.len() - 1 && #[trigger] rest[i] == '\n' implies rest[i + 1] == '#' by {
                assert(rest[i] == t[i + k + 1]);
                assert(rest[i + 1] == t[i + k + 2]);
            }
        }
        lemma_comment_text_parse(s, rest, d + 1);
        let ls = seq![line] + lines_of(rest);
        assert(ls[0] == line);
        assert(ls.drop_first() =~= lines_of(rest));
    } else {
        assert(lines_of(t) == Seq::<Seq<char>>::empty());
    }
}

proof fn lemma_comment_text_concat(a: Seq<char>, b: Seq<char>)
    requires
        comment_text(a),
        comment_text(b),
    ensures
        comment_text(a + b),
{
    let ab = a + b;
    if a.len() > 0 && b.len() > 0 {
        assert(ab[0] == a[0]);
        assert(ab.last() == b.last());
        assert forall|i: int| 0 <= i < ab.len() - 1 && #[trigger] ab[i] == '\n' implies ab[i + 1] == '#' by {
            if i < a.len() - 1 {
                assert(ab[i] == a[i] && ab[i + 1] == a[i + 1]);
            } else if i == a.len() - 1 {
                assert(ab[i + 1] == b[0]);
            } else {
                assert(ab[i] == b[i - a.len()] && ab[i + 1] == b[i + 1 - a.len()]);
            }
        }
    } else if a.len() == 0 {
        assert(ab =~= b);
    } else {
        assert(ab =~= a);
    }
}

/// A `#` and a line with no line feed, then a line feed.
proof fn lemma_comment_piece(body: Seq<char>)
    requires
        lacks(body, '\n'),
    ensures
        comment_text(seq!['#'] + body + seq!['\n']),
{
    let t = seq!['#'] + body + seq!['\n'];
    assert forall|i: int| 0 <= i < t.len() - 1 && #[trigger] t[i] == '\n' implies t[i + 1] == '#' by {
        if i > 0 {
            assert(t[i] == body[i - 1]);
        }
    }
}

proof fn lemma_lines_lack_lf(s: Seq<char>)
    ensures
        forall|i: int| 0 <= i < lines_of(s).len() ==> lacks(#[trigger] lines_of(s)[i], '\n'),
    decreases s.len(),
{
    if s.len() > 0 {
        lemma_first_index_min(s, '\n');
        match first_index(s, '\n') {
            None => {
                lemma_first_index_none_lacks(s);
            },
            Some(k) => {
                let l = crate::script::parser::strip_cr(s.take(k));
                assert forall|j: int| 0 <= j < l.len() implies #[trigger] l[j] != '\n' by {
                    assert(l[j] == s[j]);
                }
                lemma_lines_lack_lf(s.skip(k + 1));
                let all = seq![l] + lines_of(s.skip(k + 1));
                assert forall|i: int| 0 <= i < all.len() implies lacks(#[trigger] all[i], '\n') by {
                    if i > 0 {
                        assert(all[i] == lines_of(s.skip(k + 1))[i - 1]);
                    }
                }
            },
        }
    }
}

proof fn lemma_first_index_none_lacks(s: Seq<char>)
    requires
        first_index(s, '\n') is None,
    ensures
        lacks(s, '\n'),
    decreases s.len(),
{
    if s.len() > 0 {
        lemma_first_index_none_lacks(s.drop_first());
        assert forall|j: int| 0 <= j < s.len() implies #[trigger] s[j] != '\n' by {
            if j > 0 {
                assert(s[j] == s.drop_first()[j - 1]);
            }
        }
    }
}

proof fn lemma_comment_lines_text(ls: Seq<Seq<char>>)
    requires
        forall|i: int| 0 <= i < ls.len() ==> lacks(#[trigger] ls[i], '\n'),
    ensures
        comment_text(crate::script::writer::comment_lines(ls)),
    decreases ls.len(),
{
    reveal_strlit("# ");
    reveal_strlit("\n");
    if ls.len() > 0 {
        let d = ls.drop_last();
        assert forall|i: int| 0 <= i < d.len() implies lacks(#[trigger] d[i], '\n') by {
            assert(d[i] == ls[i]);
        }
        lemma_comment_lines_text(d);
        let l = ls.last();
        assert(lacks(ls[ls.len() - 1], '\n'));
        let body = seq![' '] + l;
        assert forall|j: int| 0 <= j < body.len() implies #[trigger] body[j] != '\n' by {
            if j > 0 {
                assert(body[j] == l[j - 1]);
            }
        }
        lemma_comment_piece(body);
        assert("# "@ + l + "\n"@ =~= seq!['#'] + body + seq!['\n']);
        lemma_comment_text_concat(crate::script::writer::comment_lines(d), "# "@ + l + "\n"@);
    }
}

proof fn lemma_literal_comment(l: Seq<char>)
    requires
        l.len() >= 2,
        l[0] == '#',
        l.last() == '\n',
        forall|j: int| 1 <= j < l.len() - 1 ==> #[trigger] l[j] != '\n',
    ensures
        comment_text(l),
{
    let body = l.subrange(1, l.len() - 1);
    assert forall|j: int| 0 <= j < body.len() implies #[trigger] body[j] != '\n' by {
        assert(body[j] == l[j + 1]);
    }
    lemma_comment_piece(body);
    assert(seq!['#'] + body + seq!['\n'] =~= l);
}

proof fn lemma_header_intro_comment()
    ensures
        comment_text(crate::script::writer::header_intro()),
{
    let a = "# This is a reference tape to help you write your tape files.\n"@;
    let b = "# We recommend viewing this tape using the Elixir language type for syntax highlighting.\n"@;
    let c = "#\n"@;
    assert(comment_text(a)) by {
        reveal_strlit("# This is a reference tape to help you write your tape files.\n");
        lemma_literal_comment(a);
    }
    assert(comment_text(b)) by {
        reveal_strlit("# We recommend viewing this tape using the Elixir language type for syntax highlighting.\n");
        lemma_literal_comment(b);
    }
    assert(comment_text(c)) by {
        reveal_strlit("#\n");
        lemma_literal_comment(c);
    }
    lemma_comment_text_concat(a, b);
    lemma_comment_text_concat(a + b, c);
}

/// The reference header a written script starts with is comments only.
proof fn lemma_reference_header_comment()
    ensures
        comment_text(crate::script::writer::reference_header()),
{
    lemma_header_intro_comment();
    lemma_lines_lack_lf(crate::script::writer::REF_SCRIPT@);
    lemma_comment_lines_text(lines_of(crate::script::writer::REF_SCRIPT@));
    lemma_comment_text_concat(
        crate::script::writer::header_intro(),
        crate::script::writer::comment_lines(lines_of(crate::script::writer::REF_SCRIPT@)),
    );
}

/// An event that the writer writes as a line that reads back as that same
/// event: a typed text with no `"`, `\` or line feed, typed with a whole
/// number of milliseconds between keys; a pause of a whole number of
/// milliseconds that is written in milliseconds (under a second, or not a
/// multiple of a tenth of one); or a press, repeated at least once and with
/// no delay, of a key that [`plain_key`] admits, with any modifiers but
/// Super.
pub open spec fn reads_back(e: EventView) -> bool {
    match e {
        EventView::Type { text, delay } => plain_text(text) && delay % 1_000_000 == 0,
        EventView::Sleep(d) => d % 1_000_000 == 0 && !(millis(d) >= 1000 && millis(d) % 100 == 0),
        EventView::Key { key, action, count, delay } => action == KeyAction::Press && delay == 0 && count >= 1
            && !key.mods.super_key && plain_key(key.key),
        _ => false,
    }
}

/// The line an event is written as, without its line feed.
spec fn written_line(e: EventView) -> Seq<char> {
    match e {
        EventView::Type { text, delay } => type_line(text, delay),
        EventView::Sleep(d) => spaced(sleep_tokens(d)),
        EventView::Key { key, count, .. } => spaced(key_tokens(key, count)),
        _ => Seq::empty(),
    }
}

proof fn lemma_event_line(s: ScriptView, e: EventView)
    requires
        reads_back(e),
        s.settings.typing_speed == default_delay(),
    ensures
        event_line(e) == written_line(e) + seq!['\n'],
        one_line(written_line(e)),
        spec_apply_line(s, written_line(e)) == applied(push_event(s, e)),
{
    match e {
        EventView::Type { text, delay } => {
            lemma_type_event_line(text, delay);
            lemma_type_line_applied(s, text, delay);
        },
        EventView::Sleep(d) => {
            lemma_sleep_line(s, d);
        },
        EventView::Key { key, count, .. } => {
            lemma_key_line(s, key, count);
        },
        _ => {},
    }
}

proof fn lemma_lines_cons(l: Seq<char>, rest: Seq<char>)
    requires
        one_line(l),
    ensures
        lines_of(l + seq!['\n'] + rest) == seq![l] + lines_of(rest),
{
    let s = l + seq!['\n'] + rest;
    assert forall|k: int| 0 <= k < l.len() implies #[trigger] s[k] != '\n' by {
        assert(s[k] == l[k]);
    }
    lemma_first_index_at(s, '\n', l.len() as int);
    assert(s.take(l.len() as int) =~= l);
    assert(s.skip(l.len() as int + 1) =~= rest);
    if l.len() > 0 {
        assert(crate::script::parser::strip_cr(l) == l);
    } else {
        assert(crate::script::parser::strip_cr(l) == l);
    }
}

proof fn lemma_events_text_cons(es: Seq<EventView>)
    requires
        es.len() > 0,
    ensures
        crate::script::writer::events_text(es) == event_line(es[0]) + crate::script::writer::events_text(es.drop_first()),
    decreases es.len(),
{
    if es.len() == 1 {
        assert(es.drop_last() =~= Seq::<EventView>::empty());
        assert(es.drop_first() =~= Seq::<EventView>::empty());
        assert(event_line(es[0]) + Seq::<char>::empty() =~= event_line(es[0]));
    } else {
        let d = es.drop_last();
        lemma_events_text_cons(d);
        assert(d.drop_first() =~= es.drop_first().drop_last());
        assert(es.drop_first().last() == es.last());
        assert(d[0] == es[0]);
    }
}

/// The events a recording session is written as read back, line by line,
/// as those same events, in order, when each is one that [`reads_back`];
/// the script's typing speed is the default, as a written script leaves
/// it, and the events change nothing else of it.
#[verifier::spinoff_prover]
#[verifier::rlimit(40)]
pub proof fn lemma_written_events_read_back(s: ScriptView, es: Seq<EventView>, done: nat)
    requires
        s.settings.typing_speed == default_delay(),
        forall|i: int| 0 <= i < es.len() ==> reads_back(#[trigger] es[i]),
    ensures
        spec_parse_lines(s, lines_of(crate::script::writer::events_text(es)), done)
            == Ok::<ScriptView, ScriptErrorView>(ScriptView { events: s.events + es, ..s }),
    decreases es.len(),
{
    if es.len() == 0 {
        assert(s.events + es =~= s.events);
        assert(lines_of(Seq::<char>::empty()) == Seq::<Seq<char>>::empty());
    } else {
        let e = es[0];
        let rest = es.drop_first();
        assert(reads_back(e));
        lemma_events_text_cons(es);
        lemma_event_line(s, e);
        let l = written_line(e);
        let tail = crate::script::writer::events_text(rest);
        assert(event_line(e) + tail == l + seq!['\n'] + tail);
        lemma_lines_cons(l, tail);
        let s2 = push_event(s, e);
        assert forall|i: int| 0 <= i < rest.len() implies reads_back(#[trigger] rest[i]) by {
            assert(rest[i] == es[i + 1]);
        }
        lemma_written_events_read_back(s2, rest, done + 1);
        let ls = seq![l] + lines_of(tail);
        assert(ls[0] == l);
        assert(ls.drop_first() =~= lines_of(tail));
        assert(spec_apply_line(s, l) == Ok::<(ScriptView, OutcomeView), crate::script::parser::LineErrorView>((s2, OutcomeView::Applied)));
        assert(spec_parse_lines(s, ls, done) == spec_parse_lines(s2, lines_of(tail), done + 1));
        assert(s2.events + rest =~= s.events + es);
    }
}

// ---------------------------------------------------------------------------
// The lines before the events
// ---------------------------------------------------------------------------

/// The lengths and first letters of the `Set` keys a written script uses
/// and of those the parser tries before them.
proof fn lemma_set_words()
    ensures
        "Set"@.len() == 3 && "Output"@.len() == 6,
        "Theme"@.len() == 5 && "Theme"@[0] == 'T',
        "LetterSpacing"@.len() == 13 && "LoopOffset"@.len() == 10,
        "Shell"@.len() == 5 && "Shell"@[0] == 'S',
        "FontFamily"@.len() == 10 && "FontSize"@.len() == 8,
        "Width"@.len() == 5 && "Width"@[0] == 'W' && "Height"@.len() == 6,
        "Cols"@.len() == 4 && "Cols"@[0] == 'C' && "Columns"@.len() == 7,
        "Rows"@.len() == 4 && "Rows"@[0] == 'R',
{
    reveal_strlit("Set");
    reveal_strlit("Output");
    reveal_strlit("Theme");
    reveal_strlit("LetterSpacing");
    reveal_strlit("LoopOffset");
    reveal_strlit("Shell");
    reveal_strlit("FontFamily");
    reveal_strlit("FontSize");
    reveal_strlit("Width");
    reveal_strlit("Height");
    reveal_strlit("Cols");
    reveal_strlit("Columns");
    reveal_strlit("Rows");
}

proof fn lemma_three_spaced(a: Seq<char>, b: Seq<char>, c: Seq<char>)
    ensures
        spaced(seq![a, b, c]) == a + seq![' '] + b + seq![' '] + c,
{
    let ts = seq![a, b, c];
    assert(ts.drop_first() =~= seq![b, c]);
    assert(seq![b, c].drop_first() =~= seq![c]);
    assert(spaced(seq![c]) == c);
    assert(spaced(seq![b, c]) == b + seq![' '] + c);
}

proof fn lemma_word_bare(w: Seq<char>)
    requires
        w.len() > 0,
        letters(w),
    ensures
        bare_token(w),
{
    lemma_letters(w);
}

proof fn lemma_number_token(n: nat)
    ensures
        bare_token(nat_text(n)),
        nat_text(n)[0] != '+',
        crate::decimal::all_digits(nat_text(n)),
        nat_text(n).len() > 0,
        crate::decimal::digits_value(nat_text(n)) == n,
{
    crate::script::writer::lemma_nat_text_digits(n);
    let c = nat_text(n);
    assert forall|k: int| 0 <= k < c.len() implies bare_char(#[trigger] c[k]) by {
        assert(crate::decimal::is_digit(c[k]));
    }
    assert(crate::decimal::is_digit(c[0]));
}

/// A bare token is read as itself, unquoted.
proof fn lemma_bare_unquoted(t: Seq<char>)
    requires
        bare_token(t),
    ensures
        crate::script::parser::unquote(t) == t,
{
    assert(bare_char(t[0]));
}

proof fn lemma_two_spaced(a: Seq<char>, b: Seq<char>)
    ensures
        spaced(seq![a, b]) == a + seq![' '] + b,
{
    let ts = seq![a, b];
    assert(ts.drop_first() =~= seq![b]);
    assert(spaced(seq![b]) == b);
}

/// A line of bare tokens applies as its tokens do.
proof fn lemma_spaced_applies(s: ScriptView, ts: Seq<Seq<char>>)
    requires
        ts.len() > 0,
        forall|j: int| 0 <= j < ts.len() ==> bare_token(#[trigger] ts[j]),
    ensures
        one_line(spaced(ts)),
        spec_apply_line(s, spaced(ts)) == spec_apply_tokens(s, ts),
{
    lemma_spaced_line(ts);
}

/// A line that applies, ended by a line feed and followed by more text,
/// reads as that change and then the rest.
proof fn lemma_line_step(s: ScriptView, l: Seq<char>, rest: Seq<char>, d: nat, s1: ScriptView)
    requires
        one_line(l),
        spec_apply_line(s, l) == applied(s1),
    ensures
        spec_parse_lines(s, lines_of(l + seq!['\n'] + rest), d) == spec_parse_lines(s1, lines_of(rest), d + 1),
{
    lemma_parse_one_line(s, l, s1, d);
    let a = l + seq!['\n'];
    assert(a.last() == '\n');
    lemma_parse_text_concat(s, a, rest, d);
}

/// The tokens of the `Output` line of a written script.
proof fn lemma_output_tokens(s: ScriptView, out: Seq<char>)
    requires
        bare_token(out),
        s.outputs.len() == 0,
        crate::script::parser::output_extension(out) matches Some(e) && crate::script::parser::is_output_ext(e),
    ensures
        spec_apply_tokens(s, seq!["Output"@, out]) == applied(ScriptView { outputs: seq![out], ..s }),
{
    let ts = seq!["Output"@, out];
    lemma_bare_unquoted(out);
    assert(ts.skip(1) =~= seq![out]);
    assert(s.outputs.push(out) =~= seq![out]);
}

/// The text of the `Output` line of a written script.
proof fn lemma_output_text(out: Seq<char>)
    requires
        bare_token(out),
    ensures
        "Output "@ + out + "\n"@ == spaced(seq!["Output"@, out]) + seq!['\n'],
        bare_token("Output"@),
{
    reveal_strlit("Output ");
    reveal_strlit("Output");
    reveal_strlit("\n");
    assert(letters("Output"@));
    lemma_word_bare("Output"@);
    lemma_two_spaced("Output"@, out);
    assert("Output "@ + out + "\n"@ =~= "Output"@ + seq![' '] + out + seq!['\n']);
}

/// The `Output` line of a written script, and the text after it.
#[verifier::spinoff_prover]
#[verifier::rlimit(40)]
proof fn lemma_output_step(s: ScriptView, out: Seq<char>, rest: Seq<char>, d: nat)
    requires
        bare_token(out),
        s.outputs.len() == 0,
        crate::script::parser::output_extension(out) matches Some(e) && crate::script::parser::is_output_ext(e),
    ensures
        spec_parse_lines(s, lines_of("Output "@ + out + "\n"@ + rest), d)
            == spec_parse_lines(ScriptView { outputs: seq![out], ..s }, lines_of(rest), d + 1),
{
    let ts = seq!["Output"@, out];
    lemma_output_text(out);
    assert forall|j: int| 0 <= j < ts.len() implies bare_token(#[trigger] ts[j]) by {}
    lemma_spaced_applies(s, ts);
    lemma_output_tokens(s, out);
    lemma_line_step(s, spaced(ts), rest, d, ScriptView { outputs: seq![out], ..s });
}

/// The `Set` keys a written script writes.
spec fn written_key(k: Seq<char>) -> bool {
    k == "Shell"@ || k == "Cols"@ || k == "Rows"@ || k == "FontSize"@
}

proof fn lemma_written_key_letters(k: Seq<char>)
    requires
        written_key(k),
    ensures
        k.len() > 0,
        letters(k),
        k != "Theme"@ && k != "LetterSpacing"@ && k != "LoopOffset"@,
        crate::script::parser::is_scalar_key(k),
{
    lemma_set_words();
    reveal_strlit("Shell");
    reveal_strlit("Cols");
    reveal_strlit("Rows");
    reveal_strlit("FontSize");
}

/// The tokens of a `Set key value` line of a written script.
#[verifier::spinoff_prover]
#[verifier::rlimit(40)]
proof fn lemma_set_tokens(s: ScriptView, k: Seq<char>, v: Seq<char>, st: SettingsView)
    requires
        written_key(k),
        bare_token(v),
        crate::script::parser::apply_scalar(s.settings, k, v) == Ok::<SettingsView, crate::script::parser::LineErrorView>(st),
    ensures
        spec_apply_tokens(s, seq!["Set"@, k, v]) == applied(ScriptView { settings: st, ..s }),
{
    lemma_set_words();
    lemma_written_key_letters(k);
    lemma_bare_unquoted(v);
    let ts = seq!["Set"@, k, v];
    let rest = ts.skip(1);
    assert(rest =~= seq![k, v]);
    assert(crate::script::parser::set_scalar(rest) == Some(v));
    assert(crate::script::parser::spec_apply_set(s.settings, rest) == Ok::<SettingsView, crate::script::parser::LineErrorView>(st));
    assert("Set"@ != "Output"@);
}

/// A `Set key value` line of a written script, and the text after it.
#[verifier::spinoff_prover]
#[verifier::rlimit(40)]
proof fn lemma_set_step(s: ScriptView, k: Seq<char>, v: Seq<char>, st: SettingsView, rest: Seq<char>, d: nat)
    requires
        written_key(k),
        bare_token(v),
        crate::script::parser::apply_scalar(s.settings, k, v) == Ok::<SettingsView, crate::script::parser::LineErrorView>(st),
    ensures
        spec_parse_lines(s, lines_of("Set"@ + seq![' '] + k + seq![' '] + v + seq!['\n'] + rest), d)
            == spec_parse_lines(ScriptView { settings: st, ..s }, lines_of(rest), d + 1),
{
    let ts = seq!["Set"@, k, v];
    lemma_written_key_letters(k);
    assert(letters("Set"@)) by {
        reveal_strlit("Set");
    }
    lemma_set_words();
    lemma_word_bare("Set"@);
    lemma_word_bare(k);
    lemma_three_spaced("Set"@, k, v);
    assert forall|j: int| 0 <= j < ts.len() implies bare_token(#[trigger] ts[j]) by {}
    lemma_spaced_applies(s, ts);
    lemma_set_tokens(s, k, v, st);
    lemma_line_step(s, spaced(ts), rest, d, ScriptView { settings: st, ..s });
}

/// The texts of the `Set` lines a written script writes.
proof fn lemma_set_texts(sh: Seq<char>, ct: Seq<char>, rt: Seq<char>)
    ensures
        "Set Shell "@ + sh + "\n"@ == "Set"@ + seq![' '] + "Shell"@ + seq![' '] + sh + seq!['\n'],
        "Set Cols "@ + ct + "\n"@ == "Set"@ + seq![' '] + "Cols"@ + seq![' '] + ct + seq!['\n'],
        "Set Rows "@ + rt + "\n"@ == "Set"@ + seq![' '] + "Rows"@ + seq![' '] + rt + seq!['\n'],
        "Set FontSize 20\n"@ == "Set"@ + seq![' '] + "FontSize"@ + seq![' '] + "20"@ + seq!['\n'],
{
    reveal_strlit("\n");
    reveal_strlit("Set Shell ");
    reveal_strlit("Set Cols ");
    reveal_strlit("Set Rows ");
    reveal_strlit("Set FontSize 20\n");
    reveal_strlit("Set");
    reveal_strlit("Shell");
    reveal_strlit("Cols");
    reveal_strlit("Rows");
    reveal_strlit("FontSize");
    reveal_strlit("20");
    assert("Set Shell "@ + sh + "\n"@ =~= "Set"@ + seq![' '] + "Shell"@ + seq![' '] + sh + seq!['\n']);
    assert("Set Cols "@ + ct + "\n"@ =~= "Set"@ + seq![' '] + "Cols"@ + seq![' '] + ct + seq!['\n']);
    assert("Set Rows "@ + rt + "\n"@ =~= "Set"@ + seq![' '] + "Rows"@ + seq![' '] + rt + seq!['\n']);
    assert("Set FontSize 20\n"@ =~= "Set"@ + seq![' '] + "FontSize"@ + seq![' '] + "20"@ + seq!['\n']);
}

proof fn lemma_apply_shell(st: SettingsView, sh: Seq<char>)
    ensures
        crate::script::parser::apply_scalar(st, "Shell"@, sh) == Ok::<SettingsView, crate::script::parser::LineErrorView>(SettingsView { shell: Some(sh), ..st }),
{
}

proof fn lemma_apply_cols(st: SettingsView, n: u16)
    ensures
        crate::script::parser::apply_scalar(st, "Cols"@, nat_text(n as nat)) == Ok::<SettingsView, crate::script::parser::LineErrorView>(SettingsView { cols: Some(n), ..st }),
{
    lemma_set_words();
    lemma_number_token(n as nat);
    assert(crate::decimal::parse_unsigned(nat_text(n as nat), u16::MAX as nat) == Some(n as nat));
}

proof fn lemma_apply_rows(st: SettingsView, n: u16)
    ensures
        crate::script::parser::apply_scalar(st, "Rows"@, nat_text(n as nat)) == Ok::<SettingsView, crate::script::parser::LineErrorView>(SettingsView { rows: Some(n), ..st }),
{
    lemma_set_words();
    lemma_number_token(n as nat);
    assert(crate::decimal::parse_unsigned(nat_text(n as nat), u16::MAX as nat) == Some(n as nat));
}

proof fn lemma_apply_font_size(st: SettingsView)
    ensures
        crate::script::parser::apply_scalar(st, "FontSize"@, "20"@) == Ok::<SettingsView, crate::script::parser::LineErrorView>(SettingsView { font_size: "20"@, ..st }),
        bare_token("20"@),
{
    lemma_set_words();
    reveal_strlit("20");
    reveal_strlit("inf");
    reveal_strlit("infinity");
    reveal_strlit("nan");
    let l = crate::text::ascii_lower_seq(crate::decimal::strip_sign("20"@));
    assert(crate::decimal::strip_sign("20"@) == "20"@);
    assert(l =~= "20"@);
    assert(crate::decimal::all_digits("20"@));
    lemma_first_index_none_of(l, '.');
    lemma_first_index_none_of(l, 'e');
    assert(crate::decimal::is_number(l));
    assert(crate::decimal::is_float_literal("20"@));
    assert(bare_char('2') && bare_char('0'));
}

proof fn lemma_first_index_none_of(s: Seq<char>, c: char)
    requires
        crate::decimal::all_digits(s),
        !crate::decimal::is_digit(c),
    ensures
        first_index(s, c) is None,
{
    assert forall|k: int| 0 <= k < s.len() implies #[trigger] s[k] != c by {
        assert(crate::decimal::is_digit(s[k]));
    }
    lemma_first_index_none(s, c);
}

/// A blank line changes nothing.
proof fn lemma_blank_line(s: ScriptView, d: nat)
    ensures
        spec_parse_lines(s, lines_of("\n"@), d) == Ok::<ScriptView, ScriptErrorView>(s),
        lines_of("\n"@).len() == 1,
        whole_lines("\n"@),
{
    reveal_strlit("\n");
    let e = Seq::<char>::empty();
    assert("\n"@ =~= e + seq!['\n']);
    assert(comment_start(e, 0, None) == 0);
    assert(strip_comment(e) =~= e);
    assert(trim_start(e) == e && trim_end(e) == e);
    assert(spec_apply_line(s, e) == applied(s));
    lemma_parse_one_line(s, e, s, d);
}

/// The script a written tape is read as: its output, the settings it

/// writes over the defaults, and its events.
pub open spec fn written_script(
    events: Seq<EventView>,
    out_path: Seq<char>,
    shell: Option<Seq<char>>,
    cols: u16,
    rows: u16,
) -> ScriptView {
    let d = default_settings();
    ScriptView {
        outputs: seq![out_path],
        settings: SettingsView {
            shell: match shell {
                Some(sh) => Some(sh),
                None => d.shell,
            },
            cols: Some(cols),
            rows: Some(rows),
            font_size: "20"@,
            ..d
        },
        env: Seq::empty(),
        require: Seq::empty(),
        events,
    }
}

/// The `Set Shell` line a written script has when a shell was given.
spec fn shell_text(shell: Option<Seq<char>>) -> Seq<char> {
    match shell {
        Some(sh) => "Set Shell "@ + sh + "\n"@,
        None => Seq::empty(),
    }
}

/// A written tape, cut where its parts begin.
#[verifier::spinoff_prover]
#[verifier::rlimit(40)]
proof fn lemma_tape_split(
    events: Seq<EventView>,
    out_path: Seq<char>,
    shell: Option<Seq<char>>,
    cols: u16,
    rows: u16,
)
    ensures
        crate::script::writer::tape_text(events, out_path, shell, cols, rows, None)
            == crate::script::writer::reference_header() + "\n"@ + ("Output "@ + out_path + "\n"@ + (shell_text(shell)
            + ("Set Cols "@ + nat_text(cols as nat) + "\n"@ + ("Set Rows "@ + nat_text(rows as nat) + "\n"@
            + ("Set FontSize 20\n"@ + ("\n"@ + crate::script::writer::events_text(events))))))),
{
    let t = crate::script::writer::tape_text(events, out_path, shell, cols, rows, None);
    let h = crate::script::writer::reference_header();
    let o = "Output "@ + out_path + "\n"@;
    let sh = shell_text(shell);
    let c = "Set Cols "@ + nat_text(cols as nat) + "\n"@;
    let r = "Set Rows "@ + nat_text(rows as nat) + "\n"@;
    let f = "Set FontSize 20\n"@;
    let tail = "\n"@ + crate::script::writer::events_text(events);
    assert(t == h + "\n"@ + "Output "@ + out_path + "\n"@ + sh + "Set Cols "@ + nat_text(cols as nat) + "\n"@
        + "Set Rows "@ + nat_text(rows as nat) + "\n"@ + f + Seq::<char>::empty() + "\n"@
        + crate::script::writer::events_text(events));
    assert(t =~= h + "\n"@ + (o + (sh + (c + (r + (f + tail))))));
}

/// Comment lines and a blank line after them change nothing.
#[verifier::spinoff_prover]
#[verifier::rlimit(40)]
proof fn lemma_comments_then_blank(s0: ScriptView, h: Seq<char>, rest: Seq<char>) -> (d: nat)
    requires
        comment_text(h),
    ensures
        spec_parse_lines(s0, lines_of(h + "\n"@ + rest), 0) == spec_parse_lines(s0, lines_of(rest), d),
{
    let a = "\n"@ + rest;
    let d1 = lines_of(h).len();
    assert(h + "\n"@ + rest =~= h + a);
    assert(spec_parse_lines(s0, lines_of(h + a), 0) == spec_parse_lines(s0, lines_of(a), d1)) by {
        lemma_comment_text_parse(s0, h, 0);
        lemma_parse_text_concat(s0, h, a, 0);
    }
    assert(spec_parse_lines(s0, lines_of(a), d1) == spec_parse_lines(s0, lines_of(rest), d1 + 1)) by {
        lemma_blank_line(s0, d1);
        lemma_parse_text_concat(s0, "\n"@, rest, d1);
    }
    d1 + 1
}

/// The reference header and the blank line after it change nothing.
proof fn lemma_tape_opening(rest: Seq<char>) -> (d: nat)
    ensures
        spec_parse_lines(empty_script(), lines_of(crate::script::writer::reference_header() + "\n"@ + rest), 0)
            == spec_parse_lines(empty_script(), lines_of(rest), d),
{
    lemma_reference_header_comment();
    lemma_comments_then_blank(empty_script(), crate::script::writer::reference_header(), rest)
}

/// The `Set Shell` line, when there is one, and the text after it.
#[verifier::spinoff_prover]
#[verifier::rlimit(40)]
proof fn lemma_shell_step(s: ScriptView, shell: Option<Seq<char>>, rest: Seq<char>, d: nat) -> (d2: nat)
    requires
        shell matches Some(sh) ==> bare_token(sh),
    ensures
        spec_parse_lines(s, lines_of(shell_text(shell) + rest), d) == spec_parse_lines(
            ScriptView {
                settings: SettingsView {
                    shell: match shell {
                        Some(sh) => Some(sh),
                        None => s.settings.shell,
                    },
                    ..s.settings
                },
                ..s
            },
            lines_of(rest),
            d2,
        ),
{
    match shell {
        Some(sh) => {
            lemma_apply_shell(s.settings, sh);
            lemma_set_texts(sh, Seq::empty(), Seq::empty());
            lemma_set_step(s, "Shell"@, sh, SettingsView { shell: Some(sh), ..s.settings }, rest, d);
            d + 1
        },
        None => {
            assert(shell_text(shell) + rest =~= rest);
            d
        },
    }
}

#[verifier::spinoff_prover]
#[verifier::rlimit(40)]
proof fn lemma_cols_step(s: ScriptView, cols: u16, rest: Seq<char>, d: nat)
    ensures
        spec_parse_lines(s, lines_of("Set Cols "@ + nat_text(cols as nat) + "\n"@ + rest), d)
            == spec_parse_lines(ScriptView { settings: SettingsView { cols: Some(cols), ..s.settings }, ..s }, lines_of(rest), d + 1),
{
    let ct = nat_text(cols as nat);
    lemma_set_texts(Seq::empty(), ct, Seq::empty());
    lemma_number_token(cols as nat);
    lemma_apply_cols(s.settings, cols);
    lemma_set_step(s, "Cols"@, ct, SettingsView { cols: Some(cols), ..s.settings }, rest, d);
}

#[verifier::spinoff_prover]
#[verifier::rlimit(40)]
proof fn lemma_rows_step(s: ScriptView, rows: u16, rest: Seq<char>, d: nat)
    ensures
        spec_parse_lines(s, lines_of("Set Rows "@ + nat_text(rows as nat) + "\n"@ + rest), d)
            == spec_parse_lines(ScriptView { settings: SettingsView { rows: Some(rows), ..s.settings }, ..s }, lines_of(rest), d + 1),
{
    let rt = nat_text(rows as nat);
    lemma_set_texts(Seq::empty(), Seq::empty(), rt);
    lemma_number_token(rows as nat);
    lemma_apply_rows(s.settings, rows);
    lemma_set_step(s, "Rows"@, rt, SettingsView { rows: Some(rows), ..s.settings }, rest, d);
}

#[verifier::spinoff_prover]
#[verifier::rlimit(40)]
proof fn lemma_font_size_step(s: ScriptView, rest: Seq<char>, d: nat)
    ensures
        spec_parse_lines(s, lines_of("Set FontSize 20\n"@ + rest), d)
            == spec_parse_lines(ScriptView { settings: SettingsView { font_size: "20"@, ..s.settings }, ..s }, lines_of(rest), d + 1),
{
    lemma_set_texts(Seq::empty(), Seq::empty(), Seq::empty());
    lemma_apply_font_size(s.settings);
    lemma_set_step(s, "FontSize"@, "20"@, SettingsView { font_size: "20"@, ..s.settings }, rest, d);
}

/// The `Set Cols`, `Set Rows` and `Set FontSize` lines, and the text
/// after them.
#[verifier::spinoff_prover]
#[verifier::rlimit(40)]
proof fn lemma_size_steps(s: ScriptView, cols: u16, rows: u16, rest: Seq<char>, d: nat)
    ensures
        spec_parse_lines(
            s,
            lines_of("Set Cols "@ + nat_text(cols as nat) + "\n"@ + ("Set Rows "@ + nat_text(rows as nat) + "\n"@
                + ("Set FontSize 20\n"@ + rest))),
            d,
        ) == spec_parse_lines(
            ScriptView { settings: SettingsView { cols: Some(cols), rows: Some(rows), font_size: "20"@, ..s.settings }, ..s },
            lines_of(rest),
            d + 3,
        ),
{
    let s3 = ScriptView { settings: SettingsView { cols: Some(cols), ..s.settings }, ..s };
    let s4 = ScriptView { settings: SettingsView { rows: Some(rows), ..s3.settings }, ..s3 };
    lemma_cols_step(s, cols, "Set Rows "@ + nat_text(rows as nat) + "\n"@ + ("Set FontSize 20\n"@ + rest), d);
    lemma_rows_step(s3, rows, "Set FontSize 20\n"@ + rest, d + 1);
    lemma_font_size_step(s4, rest, d + 2);
    assert(ScriptView { settings: SettingsView { font_size: "20"@, ..s4.settings }, ..s4 } == ScriptView {
        settings: SettingsView { cols: Some(cols), rows: Some(rows), font_size: "20"@, ..s.settings },
        ..s
    });
}

/// The blank line before the events, and the events.
#[verifier::spinoff_prover]
#[verifier::rlimit(40)]
proof fn lemma_tape_closing(s: ScriptView, events: Seq<EventView>, d: nat)
    requires
        s.settings.typing_speed == default_delay(),
        forall|i: int| 0 <= i < events.len() ==> reads_back(#[trigger] events[i]),
    ensures
        spec_parse_lines(s, lines_of("\n"@ + crate::script::writer::events_text(events)), d)
            == Ok::<ScriptView, ScriptErrorView>(ScriptView { events: s.events + events, ..s }),
{
    lemma_blank_line(s, d);
    lemma_parse_text_concat(s, "\n"@, crate::script::writer::events_text(events), d);
    lemma_written_events_read_back(s, events, d + 1);
}

/// A whole written tape reads back as the script it describes: the
/// reference header is only comments, the output and the settings it
/// writes are read back, and so are the events, when the output path and
/// the shell are single words without quotes, white space or `#`, the
/// output has an extension a tape may write, no theme is written, and
/// every event is one that [`reads_back`].
#[verifier::spinoff_prover]
#[verifier::rlimit(40)]
pub proof fn lemma_written_tape_read_back(
    events: Seq<EventView>,
    out_path: Seq<char>,
    shell: Option<Seq<char>>,
    cols: u16,
    rows: u16,
)
    requires
        bare_token(out_path),
        crate::script::parser::output_extension(out_path) matches Some(e) && crate::script::parser::is_output_ext(e),
        shell matches Some(sh) ==> bare_token(sh),
        forall|i: int| 0 <= i < events.len() ==> reads_back(#[trigger] events[i]),
    ensures
        crate::script::parser::spec_parse(crate::script::writer::tape_text(events, out_path, shell, cols, rows, None))
            == Ok::<ScriptView, ScriptErrorView>(written_script(events, out_path, shell, cols, rows)),
{
    let s0 = empty_script();
    let sh = shell_text(shell);
    let tail = "\n"@ + crate::script::writer::events_text(events);
    let sizes = "Set Cols "@ + nat_text(cols as nat) + "\n"@ + ("Set Rows "@ + nat_text(rows as nat) + "\n"@
        + ("Set FontSize 20\n"@ + tail));
    lemma_tape_split(events, out_path, shell, cols, rows);
    let d1 = lemma_tape_opening("Output "@ + out_path + "\n"@ + (sh + sizes));
    lemma_output_step(s0, out_path, sh + sizes, d1);
    let s1 = ScriptView { outputs: seq![out_path], ..s0 };
    let d2 = lemma_shell_step(s1, shell, sizes, d1 + 1);
    let s2 = ScriptView {
        settings: SettingsView {
            shell: match shell {
                Some(x) => Some(x),
                None => s1.settings.shell,
            },
            ..s1.settings
        },
        ..s1
    };
    lemma_size_steps(s2, cols, rows, tail, d2);
    let s5 = ScriptView {
        settings: SettingsView { cols: Some(cols), rows: Some(rows), font_size: "20"@, ..s2.settings },
        ..s2
    };
    assert(s5.settings.typing_speed == default_delay());
    lemma_tape_closing(s5, events, d2 + 3);
    assert(s5.events + events =~= events);
    assert(ScriptView { events: s5.events + events, ..s5 } == written_script(events, out_path, shell, cols, rows));
}

} // verus!
