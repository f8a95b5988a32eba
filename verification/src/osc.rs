//! Tracking of the pointer shape that a program requests with OSC 22.

use vstd::prelude::*;
use crate::recording::{PointerShape, shape_named};

verus! {

/// Phase of the OSC 22 scanner.
#[derive(Debug, Clone, Copy, PartialEq, Eq, Structural)]
pub enum OscPhase {
    Ground,
    Escape,
    Osc,
    IgnoreOsc,
    IgnoreEsc,
    Osc22Value,
    EscSt,
}

/// Model of the scanner: its phase and the bytes buffered so far.
#[verifier::ext_equal]
pub struct OscView {
    pub phase: OscPhase,
    pub buffer: Seq<u8>,
}

/// Number of UTF-8 bytes the buffer takes once each byte is read as the
/// character with that code point.
pub open spec fn latin1_utf8_len(b: Seq<u8>) -> nat
    decreases b.len(),
{
    if b.len() == 0 {
        0
    } else {
        latin1_utf8_len(b.drop_last()) + if b.last() < 0x80 { 1nat } else { 2nat }
    }
}

/// The buffered bytes read as characters (each byte is one code point).
pub open spec fn latin1_chars(b: Seq<u8>) -> Seq<char> {
    b.map_values(|x: u8| x as char)
}

pub open spec fn is_ascii_digit(b: u8) -> bool {
    0x30 <= b <= 0x39
}

/// One step of the scanner on `byte`: the next state, and the pointer shape
/// completed by this byte, if any.
pub open spec fn osc_step(s: OscView, byte: u8) -> (OscView, Option<PointerShape>) {
    let keep = s.buffer;
    let empty = Seq::<u8>::empty();
    match s.phase {
        OscPhase::Ground => if byte == 0x1b {
            (OscView { phase: OscPhase::Escape, buffer: keep }, None)
        } else if byte == 0x9d {
            (OscView { phase: OscPhase::Osc, buffer: empty }, None)
        } else {
            (s, None)
        },
        OscPhase::Escape => if byte == 0x5d {
            (OscView { phase: OscPhase::Osc, buffer: empty }, None)
        } else {
            (OscView { phase: OscPhase::Ground, buffer: keep }, None)
        },
        OscPhase::Osc => if is_ascii_digit(byte) {
            (OscView { phase: OscPhase::Osc, buffer: keep.push(byte) }, None)
        } else if byte == 0x3b {
            if keep == seq![0x32u8, 0x32u8] {
                (OscView { phase: OscPhase::Osc22Value, buffer: empty }, None)
            } else {
                (OscView { phase: OscPhase::IgnoreOsc, buffer: empty }, None)
            }
        } else if byte == 0x07 {
            (OscView { phase: OscPhase::Ground, buffer: keep }, None)
        } else if byte == 0x1b {
            (OscView { phase: OscPhase::Escape, buffer: keep }, None)
        } else {
            (OscView { phase: OscPhase::IgnoreOsc, buffer: keep }, None)
        },
        OscPhase::IgnoreOsc => if byte == 0x07 {
            (OscView { phase: OscPhase::Ground, buffer: keep }, None)
        } else if byte == 0x1b {
            (OscView { phase: OscPhase::IgnoreEsc, buffer: keep }, None)
        } else {
            (s, None)
        },
        OscPhase::IgnoreEsc => if byte == 0x5c {
            (OscView { phase: OscPhase::Ground, buffer: keep }, None)
        } else {
            (OscView { phase: OscPhase::IgnoreOsc, buffer: keep }, None)
        },
        OscPhase::Osc22Value => if byte == 0x07 {
            (
                OscView { phase: OscPhase::Ground, buffer: empty },
                Some(shape_named(latin1_chars(keep))),
            )
        } else if byte == 0x1b {
            (OscView { phase: OscPhase::EscSt, buffer: keep }, None)
        } else if latin1_utf8_len(keep) < 64 {
            (OscView { phase: OscPhase::Osc22Value, buffer: keep.push(byte) }, None)
        } else {
            (s, None)
        },
        OscPhase::EscSt => if byte == 0x5c {
            (
                OscView { phase: OscPhase::Ground, buffer: empty },
                Some(shape_named(latin1_chars(keep))),
            )
        } else {
            (OscView { phase: OscPhase::Ground, buffer: keep }, None)
        },
    }
}

/// Scans the output of a program for OSC 22 pointer-shape requests
/// (`ESC ] 22 ; name BEL` or `ESC ] 22 ; name ESC \\`).
#[derive(Debug)]
pub struct Osc22Parser {
    state: OscPhase,
    buffer: Vec<u8>,
}

impl View for Osc22Parser {
    type V = OscView;

    closed spec fn view(&self) -> OscView {
        OscView { phase: self.state, buffer: self.buffer@ }
    }
}

impl Osc22Parser {
    /// The scanner's internal bookkeeping is consistent.
    pub closed spec fn wf(&self) -> bool {
        (self.state == OscPhase::Osc22Value || self.state == OscPhase::EscSt) ==> self.buffer@.len()
            <= 64
    }

    pub fn new() -> (r: Self)
        ensures
            r.wf(),
            r@.phase == OscPhase::Ground,
            r@.buffer == Seq::<u8>::empty(),
    {
        Osc22Parser { state: OscPhase::Ground, buffer: Vec::new() }
    }

    fn clear_buffer(&mut self)
        ensures
            final(self).buffer@ == Seq::<u8>::empty(),
            final(self).state == old(self).state,
    {
        self.buffer = Vec::new();
    }

    fn buffered_shape(&self) -> (r: PointerShape)
        ensures
            r == shape_named(latin1_chars(self.buffer@)),
    {
        let mut chars: Vec<char> = Vec::new();
        let mut i: usize = 0;
        while i < self.buffer.len()
            invariant
                i <= self.buffer@.len(),
                chars@ == latin1_chars(self.buffer@).take(i as int),
            decreases self.buffer@.len() - i,
        {
            chars.push(self.buffer[i] as char);
            i += 1;
            assert(chars@ =~= latin1_chars(self.buffer@).take(i as int));
        }
        assert(chars@ =~= latin1_chars(self.buffer@));
        let s = crate::text::string_from_chars(chars.as_slice());
        PointerShape::from_name(s.as_str())
    }

    /// Feeds one byte of program output; returns the pointer shape that this
    /// byte completes, if any.
    pub fn feed(&mut self, byte: u8) -> (r: Option<PointerShape>)
        requires
            old(self).wf(),
        ensures
            final(self).wf(),
            (final(self)@, r) == osc_step(old(self)@, byte),
    {
        let ghost s0 = self@;
        match self.state {
            OscPhase::Ground => {
                if byte == 0x1b {
                    self.state = OscPhase::Escape;
                } else if byte == 0x9d {
                    self.state = OscPhase::Osc;
                    self.clear_buffer();
                }
            },
            OscPhase::Escape => {
                if byte == 0x5d {
                    self.state = OscPhase::Osc;
                    self.clear_buffer();
                } else {
                    self.state = OscPhase::Ground;
                }
            },
            OscPhase::Osc => {
                if 0x30 <= byte && byte <= 0x39 {
                    self.buffer.push(byte);
                } else if byte == 0x3b {
                    let is22 = self.buffer.len() == 2 && self.buffer[0] == 0x32 && self.buffer[1]
                        == 0x32;
                    assert(is22 == (self.buffer@ == seq![0x32u8, 0x32u8])) by {
                        if self.buffer@.len() == 2 {
                            if self.buffer@[0] == 0x32 && self.buffer@[1] == 0x32 {
                                assert(self.buffer@ =~= seq![0x32u8, 0x32u8]);
                            }
                        }
                    }
                    if is22 {
                        self.state = OscPhase::Osc22Value;
                    } else {
                        self.state = OscPhase::IgnoreOsc;
                    }
                    self.clear_buffer();
                } else if byte == 0x07 {
                    self.state = OscPhase::Ground;
                } else if byte == 0x1b {
                    self.state = OscPhase::Escape;
                } else {
                    self.state = OscPhase::IgnoreOsc;
                }
            },
            OscPhase::IgnoreOsc => {
                if byte == 0x07 {
                    self.state = OscPhase::Ground;
                } else if byte == 0x1b {
                    self.state = OscPhase::IgnoreEsc;
                }
            },
            OscPhase::IgnoreEsc => {
                if byte == 0x5c {
                    self.state = OscPhase::Ground;
                } else {
                    self.state = OscPhase::IgnoreOsc;
                }
            },
            OscPhase::Osc22Value => {
                if byte == 0x07 {
                    let shape = self.buffered_shape();
                    self.state = OscPhase::Ground;
                    self.clear_buffer();
                    return Some(shape);
                } else if byte == 0x1b {
                    self.state = OscPhase::EscSt;
                } else if latin1_utf8_len_exec(&self.buffer) < 64 {
                    self.buffer.push(byte);
                    proof {
                        lemma_latin1_len_bound(old(self).buffer@);
                    }
                }
            },
            OscPhase::EscSt => {
                if byte == 0x5c {
                    let shape = self.buffered_shape();
                    self.state = OscPhase::Ground;
                    self.clear_buffer();
                    return Some(shape);
                } else {
                    self.state = OscPhase::Ground;
                }
            },
        }
        None
    }
}

proof fn lemma_latin1_len_bound(b: Seq<u8>)
    ensures
        b.len() <= latin1_utf8_len(b),
    decreases b.len(),
{
    if b.len() > 0 {
        lemma_latin1_len_bound(b.drop_last());
    }
}

/// UTF-8 length of the buffer, counted byte by byte.
fn latin1_utf8_len_exec(b: &Vec<u8>) -> (r: usize)
    requires
        b@.len() <= 64,
    ensures
        r == latin1_utf8_len(b@),
{
    let mut n: usize = 0;
    let mut i: usize = 0;
    while i < b.len()
        invariant
            i <= b@.len(),
            b@.len() <= 64,
            n == latin1_utf8_len(b@.take(i as int)),
            n <= 2 * i,
        decreases b@.len() - i,
    {
        assert(b@.take(i + 1).drop_last() =~= b@.take(i as int));
        n = n + if b[i] < 0x80 { 1 } else { 2 };
        i += 1;
    }
    assert(b@.take(i as int) =~= b@);
    n
}

/// The scanner's state after feeding `bytes` from `s`, and what the last byte
/// reported.
pub open spec fn feed_all(s: OscView, bytes: Seq<u8>) -> (OscView, Option<PointerShape>)
    decreases bytes.len(),
{
    if bytes.len() == 0 {
        (s, None)
    } else {
        osc_step(feed_all(s, bytes.drop_last()).0, bytes.last())
    }
}

proof fn lemma_feed_all_concat(s: OscView, a: Seq<u8>, b: Seq<u8>)
    ensures
        feed_all(s, a + b).0 == feed_all(feed_all(s, a).0, b).0,
        b.len() > 0 ==> feed_all(s, a + b).1 == feed_all(feed_all(s, a).0, b).1,
    decreases b.len(),
{
    if b.len() == 0 {
        assert(a + b =~= a);
    } else {
        lemma_feed_all_concat(s, a, b.drop_last());
        assert((a + b).drop_last() =~= a + b.drop_last());
    }
}

proof fn lemma_feed_name(name: Seq<u8>, k: int)
    requires
        0 <= k <= name.len(),
        latin1_utf8_len(name) <= 64,
        forall|i: int| 0 <= i < name.len() ==> name[i] != 0x07 && name[i] != 0x1b,
    ensures
        feed_all(OscView { phase: OscPhase::Osc22Value, buffer: Seq::empty() }, name.take(k)).0
            == (OscView { phase: OscPhase::Osc22Value, buffer: name.take(k) }),
    decreases k,
{
    let s0 = OscView { phase: OscPhase::Osc22Value, buffer: Seq::<u8>::empty() };
    if k == 0 {
        assert(name.take(0) =~= Seq::<u8>::empty());
    } else {
        lemma_feed_name(name, k - 1);
        assert(name.take(k).drop_last() =~= name.take(k - 1));
        lemma_latin1_prefix(name, k - 1);
        assert(name.take(k).last() == name[k - 1]);
        assert(name.take(k - 1).push(name[k - 1]) =~= name.take(k));
    }
}

proof fn lemma_latin1_prefix(b: Seq<u8>, k: int)
    requires
        0 <= k < b.len(),
    ensures
        latin1_utf8_len(b.take(k)) < latin1_utf8_len(b),
    decreases b.len(),
{
    if k < b.len() - 1 {
        lemma_latin1_prefix(b.drop_last(), k);
        assert(b.drop_last().take(k) =~= b.take(k));
    } else {
        assert(b.take(k) =~= b.drop_last());
    }
}

/// An OSC 22 request `ESC ] 22 ; name BEL`, fed to a scanner at rest, is
/// reported with the shape that `name` names on its final byte, and leaves
/// the scanner at rest with an empty buffer. (`name` must hold no BEL or ESC
/// byte and fit the 64-byte value buffer.)
pub proof fn lemma_osc22_request_reported(s: OscView, name: Seq<u8>)
    requires
        s.phase == OscPhase::Ground,
        latin1_utf8_len(name) <= 64,
        forall|i: int| 0 <= i < name.len() ==> name[i] != 0x07 && name[i] != 0x1b,
    ensures
        feed_all(s, seq![0x1bu8, 0x5du8, 0x32u8, 0x32u8, 0x3bu8] + name + seq![0x07u8]) == (
        OscView { phase: OscPhase::Ground, buffer: Seq::empty() },
        Some(shape_named(latin1_chars(name))),
        ),
{
    let head = seq![0x1bu8, 0x5du8, 0x32u8, 0x32u8, 0x3bu8];
    let e = Seq::<u8>::empty();
    let h1 = seq![0x1bu8];
    let h2 = seq![0x1bu8, 0x5du8];
    let h3 = seq![0x1bu8, 0x5du8, 0x32u8];
    let h4 = seq![0x1bu8, 0x5du8, 0x32u8, 0x32u8];
    assert(h1.drop_last() =~= e);
    assert(h2.drop_last() =~= h1);
    assert(h3.drop_last() =~= h2);
    assert(h4.drop_last() =~= h3);
    assert(head.drop_last() =~= h4);
    assert(feed_all(s, e).0 == s);
    assert(feed_all(s, h1).0.phase == OscPhase::Escape);
    assert(feed_all(s, h2).0 == (OscView { phase: OscPhase::Osc, buffer: e }));
    assert(e.push(0x32u8) =~= seq![0x32u8]);
    assert(feed_all(s, h3).0 == (OscView { phase: OscPhase::Osc, buffer: seq![0x32u8] }));
    assert(seq![0x32u8].push(0x32u8) =~= seq![0x32u8, 0x32u8]);
    assert(feed_all(s, h4).0 == (OscView { phase: OscPhase::Osc, buffer: seq![0x32u8, 0x32u8] }));
    let s_val = OscView { phase: OscPhase::Osc22Value, buffer: Seq::<u8>::empty() };
    assert(feed_all(s, head).0 == s_val);
    lemma_feed_name(name, name.len() as int);
    assert(name.take(name.len() as int) =~= name);
    lemma_feed_all_concat(s, head, name);
    lemma_feed_all_concat(s, head + name, seq![0x07u8]);
    assert(feed_all(s, head + name).0 == (OscView { phase: OscPhase::Osc22Value, buffer: name }));
    let x = OscView { phase: OscPhase::Osc22Value, buffer: name };
    assert(seq![0x07u8].drop_last() =~= Seq::<u8>::empty());
    assert(feed_all(x, Seq::<u8>::empty()).0 == x);
    assert(seq![0x07u8].len() == 1);
    assert(seq![0x07u8].last() == 0x07u8);
    assert(feed_all(x, seq![0x07u8]) == osc_step(feed_all(x, seq![0x07u8].drop_last()).0, 0x07u8));
    assert(feed_all(x, seq![0x07u8]) == osc_step(x, 0x07u8));
    let full = head + name + seq![0x07u8];
    assert(feed_all(s, full).0 =~= (OscView { phase: OscPhase::Ground, buffer: Seq::empty() }));
    assert(feed_all(s, full).1 == Some(shape_named(latin1_chars(name))));
}

/// Bytes that leave a scanner where it is: at rest, bytes that start no
/// escape or OSC; inside an ignored OSC, bytes that do not end it.
proof fn lemma_feed_keeps(s: OscView, bytes: Seq<u8>)
    requires
        (s.phase == OscPhase::Ground && forall|i: int| 0 <= i < bytes.len() ==> #[trigger] bytes[i] != 0x1b && bytes[i] != 0x9d)
        || (s.phase == OscPhase::IgnoreOsc && forall|i: int| 0 <= i < bytes.len() ==> #[trigger] bytes[i] != 0x1b && bytes[i] != 0x07),
    ensures
        feed_all(s, bytes).0 == s,
    decreases bytes.len(),
{
    if bytes.len() > 0 {
        let d = bytes.drop_last();
        assert forall|i: int| 0 <= i < d.len() implies #[trigger] d[i] == bytes[i] by {}
        lemma_feed_keeps(s, d);
        assert(bytes.last() == bytes[bytes.len() - 1]);
    }
}

/// The digits of an OSC number are gathered in the buffer.
proof fn lemma_feed_digits(b: Seq<u8>, n: Seq<u8>)
    requires
        forall|i: int| 0 <= i < n.len() ==> is_ascii_digit(#[trigger] n[i]),
    ensures
        feed_all(OscView { phase: OscPhase::Osc, buffer: b }, n).0 == (OscView { phase: OscPhase::Osc, buffer: b + n }),
    decreases n.len(),
{
    if n.len() == 0 {
        assert(b + n =~= b);
    } else {
        let d = n.drop_last();
        assert forall|i: int| 0 <= i < d.len() implies is_ascii_digit(#[trigger] d[i]) by {
            assert(d[i] == n[i]);
        }
        lemma_feed_digits(b, d);
        assert(is_ascii_digit(n[n.len() - 1]));
        assert((b + d).push(n.last()) =~= b + n);
    }
}

/// Wherever a scanner stands, a complete OSC other than 22, `ESC ] n ; t
/// BEL` with `n` digits other than `22` and `t` holding no BEL, ESC or
/// 8-bit OSC byte, leaves it at rest, its last byte reporting nothing; an
/// OSC 22 request that follows is then reported
/// ([`lemma_osc22_request_reported`]).
pub proof fn lemma_other_osc_returns_to_rest(s: OscView, n: Seq<u8>, t: Seq<u8>)
    requires
        n.len() > 0,
        forall|i: int| 0 <= i < n.len() ==> is_ascii_digit(#[trigger] n[i]),
        n != seq![0x32u8, 0x32u8],
        forall|i: int| 0 <= i < t.len() ==> #[trigger] t[i] != 0x07 && t[i] != 0x1b && t[i] != 0x9d,
    ensures
        feed_all(s, seq![0x1bu8, 0x5du8] + n + seq![0x3bu8] + t + seq![0x07u8]).0.phase == OscPhase::Ground,
        feed_all(s, seq![0x1bu8, 0x5du8] + n + seq![0x3bu8] + t + seq![0x07u8]).1 is None,
{
    let e = Seq::<u8>::empty();
    let p1 = seq![0x1bu8, 0x5du8];
    let semi = seq![0x3bu8];
    let bel = seq![0x07u8];
    assert(seq![0x1bu8].drop_last() =~= e);
    assert(p1.drop_last() =~= seq![0x1bu8]);
    assert(semi.drop_last() =~= e);
    assert(bel.drop_last() =~= e);
    assert(feed_all(s, e) == (s, Option::<PointerShape>::None));
    assert(seq![0x1bu8].last() == 0x1bu8 && p1.last() == 0x5du8);
    assert(feed_all(s, seq![0x1bu8]) == osc_step(s, 0x1bu8));
    assert(feed_all(s, p1) == osc_step(osc_step(s, 0x1bu8).0, 0x5du8));
    let s1 = feed_all(s, p1).0;
    assert(s1.phase == OscPhase::Ground || s1.phase == OscPhase::IgnoreOsc || s1 == (OscView { phase: OscPhase::Osc, buffer: e }));
    // The number.
    lemma_feed_all_concat(s, p1, n);
    let s2 = feed_all(s1, n).0;
    if s1.phase == OscPhase::Osc {
        lemma_feed_digits(e, n);
        assert(e + n =~= n);
    } else {
        assert forall|i: int| 0 <= i < n.len() implies #[trigger] n[i] != 0x1b && n[i] != 0x9d && n[i] != 0x07 by {
            assert(is_ascii_digit(n[i]));
        }
        lemma_feed_keeps(s1, n);
    }
    assert(s2.phase == OscPhase::Ground || s2.phase == OscPhase::IgnoreOsc || s2 == (OscView { phase: OscPhase::Osc, buffer: n }));
    // The separator.
    lemma_feed_all_concat(s, p1 + n, semi);
    let s3 = feed_all(s2, semi).0;
    assert(feed_all(s2, e) == (s2, Option::<PointerShape>::None));
    assert(semi.last() == 0x3bu8);
    assert(s3 == osc_step(s2, 0x3bu8).0);
    assert(s3.phase == OscPhase::Ground || s3.phase == OscPhase::IgnoreOsc);
    // The text.
    lemma_feed_all_concat(s, p1 + n + semi, t);
    lemma_feed_keeps(s3, t);
    // The BEL.
    lemma_feed_all_concat(s, p1 + n + semi + t, bel);
    assert(feed_all(s3, e) == (s3, Option::<PointerShape>::None));
    assert(bel.last() == 0x07u8);
    assert(feed_all(s3, bel) == osc_step(s3, 0x07u8));
}

} // verus!
