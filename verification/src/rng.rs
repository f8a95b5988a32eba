//! The xorshift generator the stress-test helper program draws its
//! pseudo-random screens from.

use vstd::prelude::*;
use crate::decimal::nat_text;

verus! {

/// One xorshift64 step (shifts 13, 7, 17; bits shifted out are lost).
pub open spec fn xorshift(x: u64) -> u64 {
    let a = x ^ ((x << 13u64) as u64);
    let b = a ^ (a >> 7u64);
    b ^ ((b << 17u64) as u64)
}

/// A deterministic xorshift64 generator.
#[derive(Debug, Clone, Copy, PartialEq, Eq)]
pub struct SimpleRng {
    pub state: u64,
}

impl SimpleRng {
    /// A generator seeded with `seed`; seed 0, which xorshift never leaves,
    /// becomes `0xEEA`.
    pub fn new(seed: u64) -> (r: SimpleRng)
        ensures
            r.state == if seed == 0 { 0xEEAu64 } else { seed },
    {
        let state = if seed == 0 { 0xEEA } else { seed };
        SimpleRng { state }
    }

    /// Advances the state one step and returns it.
    pub fn next_u64(&mut self) -> (r: u64)
        ensures
            r == xorshift(old(self).state),
            final(self).state == r,
    {
        let mut x = self.state;
        x = x ^ (x << 13u64);
        x = x ^ (x >> 7u64);
        x = x ^ (x << 17u64);
        self.state = x;
        x
    }

    /// A number in `min ..= max`: `min` plus the next output modulo the
    /// range's size.
    pub fn gen_range(&mut self, min: u32, max: u32) -> (r: u32)
        requires
            min <= max,
            max - min < u32::MAX,
        ensures
            final(self).state == xorshift(old(self).state),
            r == min + xorshift(old(self).state) % ((max - min + 1) as u64),
            min <= r <= max,
    {
        let range = (max - min + 1) as u64;
        let n = self.next_u64();
        let off = n % range;
        min + off as u32
    }
}

/// The state after `k` steps from `s`.
pub open spec fn iter_xs(s: u64, k: nat) -> u64
    decreases k,
{
    if k == 0 { s } else { xorshift(iter_xs(s, (k - 1) as nat)) }
}

/// Stepping `a` times and then `b` times is stepping `a + b` times.
pub proof fn lemma_iter_xs_add(s: u64, a: nat, b: nat)
    ensures
        iter_xs(iter_xs(s, a), b) == iter_xs(s, a + b),
    decreases b,
{
    if b > 0 {
        lemma_iter_xs_add(s, a, (b - 1) as nat);
    }
}

/// The `i`-th number drawn from state `s` in `lo ..= hi`.
pub open spec fn draw(s: u64, i: nat, lo: nat, hi: nat) -> nat {
    lo + (iter_xs(s, i) as nat) % ((hi - lo + 1) as nat)
}

/// `t` where `on` holds, else nothing.
pub open spec fn when_on(on: bool, t: Seq<char>) -> Seq<char> {
    if on { t } else { Seq::empty() }
}

/// The SGR parameters of the attributes that are on: bold, italic,
/// underline, inverse.
pub open spec fn attrs_text(attrs: (bool, bool, bool, bool)) -> Seq<char> {
    when_on(attrs.0, ";1"@) + when_on(attrs.1, ";3"@) + when_on(attrs.2, ";4"@) + when_on(attrs.3, ";7"@)
}

/// A colour's three components, separated by `;`.
pub open spec fn rgb_text(c: (nat, nat, nat)) -> Seq<char> {
    nat_text(c.0) + ";"@ + nat_text(c.1) + ";"@ + nat_text(c.2)
}

/// One cell of a stress screen: reset, the attributes that are on, the
/// foreground and background colours, then the character.
pub open spec fn cell_text(
    ch: nat,
    fg: (nat, nat, nat),
    bg: (nat, nat, nat),
    attrs: (bool, bool, bool, bool),
) -> Seq<char> {
    "\x1b[0"@ + attrs_text(attrs) + ";38;2;"@ + rgb_text(fg) + ";48;2;"@ + rgb_text(bg) + "m"@
        + seq![(ch as u8) as char]
}

/// The cell drawn from state `s`: eleven numbers, the character, the
/// foreground and background colours, then bold, italic, underline and
/// inverse.
pub open spec fn stress_cell(s: u64) -> Seq<char> {
    cell_text(
        draw(s, 1, 0x21, 0x7E),
        (draw(s, 2, 0, 255), draw(s, 3, 0, 255), draw(s, 4, 0, 255)),
        (draw(s, 5, 0, 255), draw(s, 6, 0, 255), draw(s, 7, 0, 255)),
        (draw(s, 8, 0, 1) == 1, draw(s, 9, 0, 1) == 1, draw(s, 10, 0, 1) == 1, draw(s, 11, 0, 1) == 1),
    )
}

/// The first `n` cells drawn from state `s`, eleven steps each.
pub open spec fn stress_cells(s: u64, n: nat) -> Seq<char>
    decreases n,
{
    if n == 0 {
        Seq::empty()
    } else {
        stress_cells(s, (n - 1) as nat) + stress_cell(iter_xs(s, 11 * (n - 1) as nat))
    }
}

/// The first `r` rows of `cols` cells each, every row led by moving the
/// cursor to its first column.
pub open spec fn stress_rows(s: u64, cols: nat, r: nat) -> Seq<char>
    decreases r,
{
    if r == 0 {
        Seq::empty()
    } else {
        stress_rows(s, cols, (r - 1) as nat) + "\x1b["@ + nat_text(r) + ";1H"@
            + stress_cells(iter_xs(s, 11 * cols * (r - 1) as nat), cols)
    }
}

/// A whole stress screen: reset, hide the cursor and go home, the rows,
/// then reset again.
pub open spec fn stress_screen(s: u64, rows: nat, cols: nat) -> Seq<char> {
    "\x1b[0m\x1b[?25l\x1b[H"@ + stress_rows(s, cols, rows) + "\x1b[0m"@
}

fn append_number(buf: &mut String, n: u32)
    ensures
        final(buf)@ == old(buf)@ + nat_text(n as nat),
{
    let t = crate::decimal::u64_text(n as u64);
    buf.append(t.as_str());
}

fn append_when(buf: &mut String, on: bool, t: &str)
    ensures
        final(buf)@ == old(buf)@ + when_on(on, t@),
{
    if on {
        buf.append(t);
    } else {
        assert(old(buf)@ + Seq::<char>::empty() =~= old(buf)@);
    }
}

fn append_attrs(buf: &mut String, attrs: (bool, bool, bool, bool))
    ensures
        final(buf)@ == old(buf)@ + attrs_text(attrs),
{
    let ghost start = buf@;
    append_when(buf, attrs.0, ";1");
    append_when(buf, attrs.1, ";3");
    append_when(buf, attrs.2, ";4");
    append_when(buf, attrs.3, ";7");
    assert(buf@ =~= start + attrs_text(attrs));
}

fn append_rgb(buf: &mut String, c: (u32, u32, u32))
    ensures
        final(buf)@ == old(buf)@ + rgb_text((c.0 as nat, c.1 as nat, c.2 as nat)),
{
    let ghost start = buf@;
    append_number(buf, c.0);
    buf.append(";");
    append_number(buf, c.1);
    buf.append(";");
    append_number(buf, c.2);
    assert(buf@ =~= start + rgb_text((c.0 as nat, c.1 as nat, c.2 as nat)));
}

/// Writes one stress cell to `buf`.
fn write_cell(buf: &mut String, ch: u32, fg: (u32, u32, u32), bg: (u32, u32, u32), attrs: (bool, bool, bool, bool))
    requires
        0x21 <= ch <= 0x7E,
    ensures
        final(buf)@ == old(buf)@ + cell_text(
            ch as nat,
            (fg.0 as nat, fg.1 as nat, fg.2 as nat),
            (bg.0 as nat, bg.1 as nat, bg.2 as nat),
            attrs,
        ),
{
    let ghost start = buf@;
    let ghost fgv = (fg.0 as nat, fg.1 as nat, fg.2 as nat);
    let ghost bgv = (bg.0 as nat, bg.1 as nat, bg.2 as nat);
    buf.append("\x1b[0");
    append_attrs(buf, attrs);
    buf.append(";38;2;");
    append_rgb(buf, fg);
    buf.append(";48;2;");
    append_rgb(buf, bg);
    buf.append("m");
    let c = (ch as u8) as char;
    let one = crate::text::string_from_chars(vec![c].as_slice());
    assert(one@ =~= seq![(ch as nat as u8) as char]);
    buf.append(one.as_str());
    assert(buf@ =~= start + cell_text(ch as nat, fgv, bgv, attrs));
}

impl SimpleRng {
    /// Draws one stress cell and writes it to `buf`.
    fn stress_cell_into(&mut self, buf: &mut String)
        ensures
            final(buf)@ == old(buf)@ + stress_cell(old(self).state),
            final(self).state == iter_xs(old(self).state, 11),
    {
        let ghost s = self.state;
        assert(iter_xs(s, 0) == s);
        let ch = self.gen_range(0x21, 0x7E);
        assert(self.state == iter_xs(s, 1));
        let fg_r = self.gen_range(0, 255);
        assert(self.state == iter_xs(s, 2));
        let fg_g = self.gen_range(0, 255);
        assert(self.state == iter_xs(s, 3));
        let fg_b = self.gen_range(0, 255);
        assert(self.state == iter_xs(s, 4));
        let bg_r = self.gen_range(0, 255);
        assert(self.state == iter_xs(s, 5));
        let bg_g = self.gen_range(0, 255);
        assert(self.state == iter_xs(s, 6));
        let bg_b = self.gen_range(0, 255);
        assert(self.state == iter_xs(s, 7));
        let bold = self.gen_range(0, 1) == 1;
        assert(self.state == iter_xs(s, 8));
        let italic = self.gen_range(0, 1) == 1;
        assert(self.state == iter_xs(s, 9));
        let underline = self.gen_range(0, 1) == 1;
        assert(self.state == iter_xs(s, 10));
        let inverse = self.gen_range(0, 1) == 1;
        assert(self.state == iter_xs(s, 11));
        write_cell(buf, ch, (fg_r, fg_g, fg_b), (bg_r, bg_g, bg_b), (bold, italic, underline, inverse));
    }

    /// Draws a stress screen of `rows` rows and `cols` columns: every cell
    /// a random printable character in random colours and attributes.
    pub fn stress_screen(&mut self, rows: usize, cols: usize) -> (r: String)
        ensures
            r@ == stress_screen(old(self).state, rows as nat, cols as nat),
            final(self).state == iter_xs(old(self).state, 11 * rows as nat * cols as nat),
    {
        let ghost s0 = self.state;
        let mut buf = "\x1b[0m\x1b[?25l\x1b[H".to_owned();
        let mut r: usize = 0;
        while r < rows
            invariant
                r <= rows,
                buf@ == "\x1b[0m\x1b[?25l\x1b[H"@ + stress_rows(s0, cols as nat, r as nat),
                self.state == iter_xs(s0, 11 * cols as nat * r as nat),
            decreases rows - r,
        {
            let ghost row_start = buf@;
            let ghost rs = self.state;
            buf.append("\x1b[");
            let rn = crate::decimal::u64_text((r + 1) as u64);
            buf.append(rn.as_str());
            buf.append(";1H");
            let ghost head = buf@;
            let mut c: usize = 0;
            while c < cols
                invariant
                    c <= cols,
                    buf@ == head + stress_cells(rs, c as nat),
                    self.state == iter_xs(rs, 11 * c as nat),
                decreases cols - c,
            {
                let ghost before = buf@;
                self.stress_cell_into(&mut buf);
                proof {
                    lemma_iter_xs_add(rs, 11 * c as nat, 11);
                    assert(buf@ =~= head + stress_cells(rs, (c + 1) as nat));
                }
                c += 1;
            }
            proof {
                lemma_iter_xs_add(s0, 11 * cols as nat * r as nat, 11 * cols as nat);
                assert(11 * cols as nat * r as nat + 11 * cols as nat == 11 * cols as nat * (r + 1) as nat)
                    by (nonlinear_arith);
                assert(buf@ =~= "\x1b[0m\x1b[?25l\x1b[H"@ + stress_rows(s0, cols as nat, (r + 1) as nat));
            }
            r += 1;
        }
        buf.append("\x1b[0m");
        proof {
            assert(11 * cols as nat * rows as nat == 11 * rows as nat * cols as nat) by (nonlinear_arith);
        }
        buf
    }
}

} // verus!
