//! Frame timing of GIF files: a scan of the block structure that reads the
//! delay of every image.

use vstd::prelude::*;

verus! {

/// One image of a GIF and the delay before the next.
#[derive(Debug, Clone, Copy, PartialEq, Eq, Structural)]
pub struct FrameInfo {
    pub index: usize,
    pub delay_ms: u32,
}

/// Why a byte string is not a GIF.
#[derive(Debug, Clone, Copy, PartialEq, Eq, Structural)]
pub enum GifError {
    TooShort,
    BadHeader,
}

impl GifError {
    pub fn message(&self) -> (r: &'static str)
        ensures
            r@ == match self {
                GifError::TooShort => "file too short to be a valid GIF"@,
                GifError::BadHeader => "invalid GIF header"@,
            },
    {
        match self {
            GifError::TooShort => "file too short to be a valid GIF",
            GifError::BadHeader => "invalid GIF header",
        }
    }
}

pub open spec fn two_pow(k: nat) -> nat
    decreases k,
{
    if k == 0 {
        1
    } else {
        2 * two_pow((k - 1) as nat)
    }
}

/// Bytes of the colour table a packed descriptor byte announces: three per
/// entry, `2^(n+1)` entries, when its high bit is set.
pub open spec fn color_table_len(packed: u8) -> int {
    if packed >= 0x80 {
        (3 * two_pow(((packed % 8) + 1) as nat)) as int
    } else {
        0
    }
}

fn color_table_len_exec(packed: u8) -> (r: usize)
    ensures
        r == color_table_len(packed),
        r <= 768,
{
    if packed < 0x80 {
        return 0;
    }
    let k = (packed % 8) + 1;
    let mut n: usize = 1;
    let mut i: u8 = 0;
    while i < k
        invariant
            i <= k <= 8,
            n == two_pow(i as nat),
            n <= 256,
        decreases k - i,
    {
        assert(two_pow((i + 1) as nat) == 2 * two_pow(i as nat));
        assert(n * 2 <= 256) by {
            assert(i < 8);
            reveal_with_fuel(two_pow, 9);
            assert(two_pow(i as nat) <= two_pow(7)) by {
                lemma_two_pow_mono(i as nat, 7);
            }
        }
        n = n * 2;
        i = i + 1;
    }
    3 * n
}

proof fn lemma_two_pow_mono(a: nat, b: nat)
    requires
        a <= b,
    ensures
        two_pow(a) <= two_pow(b),
    decreases b,
{
    if a < b {
        lemma_two_pow_mono(a, (b - 1) as nat);
        assert(two_pow(b) == 2 * two_pow((b - 1) as nat));
    }
}

/// Position after a run of data sub-blocks starting at `pos` (and its
/// zero terminator, when present).
pub open spec fn skip_sub_blocks(data: Seq<u8>, pos: int) -> int
    decreases (if 0 <= pos < data.len() { data.len() - pos } else { 0 }),
{
    if 0 <= pos < data.len() && data[pos] != 0 {
        skip_sub_blocks(data, pos + 1 + data[pos])
    } else if 0 <= pos < data.len() {
        pos + 1
    } else {
        pos
    }
}

/// One block read at `pos` (the block type is `data[pos]`): the position
/// after it, the pending delay, and the delay of the image it holds if it
/// is one. `None` at the trailer, at an unknown block or when the data ends
/// inside an extension or descriptor.
pub open spec fn gif_step(data: Seq<u8>, pos: int, delay: u32) -> Option<(int, u32, Option<u32>)> {
    let t = data[pos];
    let p = pos + 1;
    if t == 0x21 {
        if p >= data.len() {
            None
        } else if data[p] == 0xF9 {
            let q = p + 1;
            if q < data.len() {
                let size = data[q] as int;
                let r = q + 1;
                let d = if size >= 4 && r + size <= data.len() {
                    ((data[r + 2] * 256 + data[r + 1]) * 10) as u32
                } else {
                    delay
                };
                Some((skip_sub_blocks(data, r + size), d, None))
            } else {
                Some((q, delay, None))
            }
        } else {
            Some((skip_sub_blocks(data, p + 1), delay, None))
        }
    } else if t == 0x2C {
        if p + 9 > data.len() {
            None
        } else {
            let q = p + 9 + color_table_len(data[p + 8]);
            let r = if q < data.len() {
                q + 1
            } else {
                q
            };
            Some((skip_sub_blocks(data, r), 0u32, Some(delay)))
        }
    } else {
        None
    }
}

/// The image delays from the block at `pos` on.
pub open spec fn gif_delays_from(data: Seq<u8>, pos: int, delay: u32) -> Seq<u32>
    decreases (if 0 <= pos < data.len() { data.len() - pos } else { 0 }),
{
    if pos < 0 || pos >= data.len() {
        Seq::empty()
    } else {
        match gif_step(data, pos, delay) {
            None => Seq::empty(),
            Some((next, d, img)) => {
                if next > pos {
                    match img {
                        Some(x) => seq![x] + gif_delays_from(data, next, d),
                        None => gif_delays_from(data, next, d),
                    }
                } else {
                    Seq::empty()
                }
            },
        }
    }
}

/// Whether `data` starts with `GIF87a` or `GIF89a`.
pub open spec fn gif_signature(data: Seq<u8>) -> bool {
    data.len() >= 6 && data[0] == 0x47 && data[1] == 0x49 && data[2] == 0x46 && data[3] == 0x38 && (
    data[4] == 0x37 || data[4] == 0x39) && data[5] == 0x61
}

/// The delay of every image of a GIF, in milliseconds, in order.
pub open spec fn spec_gif_delays(data: Seq<u8>) -> Result<Seq<u32>, GifError> {
    if data.len() < 13 {
        Err(GifError::TooShort)
    } else if !gif_signature(data) {
        Err(GifError::BadHeader)
    } else {
        Ok(gif_delays_from(data, 13 + color_table_len(data[10]), 0))
    }
}

proof fn lemma_step_delays_tens(data: Seq<u8>, pos: int, delay: u32)
    requires
        0 <= pos < data.len(),
        delay % 10 == 0,
    ensures
        gif_step(data, pos, delay) matches Some((next, d, img)) ==> d % 10 == 0 && (img matches Some(x) ==> x % 10 == 0),
{
    let p = pos + 1;
    if data[pos] == 0x21 && p < data.len() && data[p] == 0xF9 && p + 1 < data.len() {
        let size = data[p + 1] as int;
        let r = p + 2;
        if size >= 4 && r + size <= data.len() {
            let v = data[r + 2] * 256 + data[r + 1];
            assert(v <= 65535);
            assert((v * 10) as u32 == v * 10);
            assert((v * 10) % 10 == 0) by (nonlinear_arith);
        }
    }
}

proof fn lemma_delays_from_tens(data: Seq<u8>, pos: int, delay: u32)
    requires
        delay % 10 == 0,
    ensures
        forall|i: int| 0 <= i < gif_delays_from(data, pos, delay).len() ==> #[trigger] gif_delays_from(data, pos, delay)[i] % 10 == 0,
    decreases (if 0 <= pos < data.len() { data.len() - pos } else { 0 }),
{
    if 0 <= pos < data.len() {
        lemma_step_delays_tens(data, pos, delay);
        match gif_step(data, pos, delay) {
            None => {},
            Some((next, d, img)) => {
                if next > pos {
                    lemma_delays_from_tens(data, next, d);
                    let rest = gif_delays_from(data, next, d);
                    match img {
                        Some(x) => {
                            let all = seq![x] + rest;
                            assert forall|i: int| 0 <= i < all.len() implies #[trigger] all[i] % 10 == 0 by {
                                if i > 0 {
                                    assert(all[i] == rest[i - 1]);
                                }
                            }
                        },
                        None => {},
                    }
                }
            },
        }
    }
}

/// Every frame delay read from a GIF is a whole number of hundredths of a
/// second, in milliseconds: a multiple of 10.
pub proof fn lemma_gif_delays_are_tens(data: Seq<u8>)
    ensures
        spec_gif_delays(data) matches Ok(ds) ==> forall|i: int| 0 <= i < ds.len() ==> #[trigger] ds[i] % 10 == 0,
{
    if data.len() >= 13 && gif_signature(data) {
        lemma_delays_from_tens(data, 13 + color_table_len(data[10]), 0);
    }
}

/// Frames numbered in order with the given delays.
pub open spec fn frames_of(ds: Seq<u32>) -> Seq<FrameInfo> {
    Seq::new(ds.len(), |i: int| FrameInfo { index: i as usize, delay_ms: ds[i] })
}

proof fn lemma_skip_sub_blocks_bound(data: Seq<u8>, pos: int)
    requires
        0 <= pos,
    ensures
        skip_sub_blocks(data, pos) >= pos,
        skip_sub_blocks(data, pos) <= data.len() + 256 || skip_sub_blocks(data, pos) == pos,
    decreases (if 0 <= pos < data.len() { data.len() - pos } else { 0 }),
{
    if 0 <= pos < data.len() && data[pos] != 0 {
        lemma_skip_sub_blocks_bound(data, pos + 1 + data[pos]);
    }
}

fn skip_sub_blocks_exec(data: &[u8], pos: usize) -> (r: usize)
    requires
        data@.len() <= usize::MAX / 2,
        pos <= data@.len() + 1024,
    ensures
        r == skip_sub_blocks(data@, pos as int),
        r <= data@.len() + 1024,
{
    let mut p = pos;
    while p < data.len() && data[p] != 0
        invariant
            data@.len() <= usize::MAX / 2,
            p <= data@.len() + 1024,
            skip_sub_blocks(data@, pos as int) == skip_sub_blocks(data@, p as int),
        decreases data@.len() + 1024 - p,
    {
        p = p + 1 + data[p] as usize;
    }
    if p < data.len() {
        p + 1
    } else {
        p
    }
}

/// Reads the frame delays of a GIF by walking its blocks: graphic control
/// extensions set the delay of the next image, each image descriptor adds a
/// frame. The walk stops at the trailer, at an unknown block, or at the end
/// of the data.
pub fn parse_gif_frames(data: &[u8]) -> (r: Result<Vec<FrameInfo>, GifError>)
    requires
        data@.len() <= usize::MAX / 2,
    ensures
        match r {
            Ok(v) => spec_gif_delays(data@) matches Ok(ds) && v@ == frames_of(ds),
            Err(e) => spec_gif_delays(data@) == Err::<Seq<u32>, GifError>(e),
        },
{
    let n = data.len();
    if n < 13 {
        return Err(GifError::TooShort);
    }
    if !(data[0] == 0x47 && data[1] == 0x49 && data[2] == 0x46 && data[3] == 0x38 && (data[4] == 0x37
        || data[4] == 0x39) && data[5] == 0x61) {
        return Err(GifError::BadHeader);
    }
    let mut pos: usize = 13 + color_table_len_exec(data[10]);
    let mut delay: u32 = 0;
    let mut frames: Vec<FrameInfo> = Vec::new();
    let ghost all = gif_delays_from(data@, pos as int, 0);
    loop
        invariant
            n == data@.len(),
            n <= usize::MAX / 2,
            n >= 13,
            gif_signature(data@),
            pos <= n + 1024,
            all == gif_delays_from(data@, 13 + color_table_len(data@[10]), 0),
            frames@ == frames_of(all.take(frames@.len() as int)),
            frames@.len() <= all.len(),
            all.skip(frames@.len() as int) == gif_delays_from(data@, pos as int, delay),
        ensures
            all == gif_delays_from(data@, 13 + color_table_len(data@[10]), 0),
            frames@ == frames_of(all),
            n >= 13,
            gif_signature(data@),
        decreases n + 1024 - pos,
    {
        let ghost fv = frames@;
        let ghost rest = gif_delays_from(data@, pos as int, delay);
        if pos >= n {
            proof {
                assert(rest == Seq::<u32>::empty());
                assert(all.take(fv.len() as int) =~= all);
            }
            break;
        }
        let t = data[pos];
        let p = pos + 1;
        let step: Option<(usize, u32, bool)> = if t == 0x21 {
            if p >= n {
                None
            } else if data[p] == 0xF9 {
                let q = p + 1;
                if q < n {
                    let size = data[q] as usize;
                    let r = q + 1;
                    let d = if size >= 4 && r + size <= n {
                        let lo = data[r + 1] as u32;
                        let hi = data[r + 2] as u32;
                        (hi * 256 + lo) * 10
                    } else {
                        delay
                    };
                    proof {
                        lemma_skip_sub_blocks_bound(data@, (r + size) as int);
                    }
                    Some((skip_sub_blocks_exec(data, r + size), d, false))
                } else {
                    Some((q, delay, false))
                }
            } else {
                proof {
                    lemma_skip_sub_blocks_bound(data@, p + 1);
                }
                Some((skip_sub_blocks_exec(data, p + 1), delay, false))
            }
        } else if t == 0x2C {
            if p + 9 > n {
                None
            } else {
                let q = p + 9 + color_table_len_exec(data[p + 8]);
                let r = if q < n { q + 1 } else { q };
                proof {
                    lemma_skip_sub_blocks_bound(data@, r as int);
                }
                Some((skip_sub_blocks_exec(data, r), 0u32, true))
            }
        } else {
            None
        };
        match step {
            None => {
                proof {
                    assert(gif_step(data@, pos as int, delay) is None);
                    assert(rest == Seq::<u32>::empty());
                    assert(all.take(fv.len() as int) =~= all);
                }
                break;
            },
            Some((next, d, img)) => {
                assert(gif_step(data@, pos as int, delay) == Some(
                    (next as int, d, if img { Some(delay) } else { None::<u32> }),
                ));
                assert(next > pos);
                if img {
                    let index = frames.len();
                    frames.push(FrameInfo { index, delay_ms: delay });
                    proof {
                        assert(rest == seq![delay] + gif_delays_from(data@, next as int, d));
                        assert(all.skip(fv.len() as int)[0] == delay);
                        assert(all.take(frames@.len() as int) =~= all.take(fv.len() as int).push(delay));
                        assert(frames@ =~= frames_of(all.take(frames@.len() as int)));
                        assert(all.skip(frames@.len() as int) =~= all.skip(fv.len() as int).drop_first());
                    }
                }
                pos = next;
                delay = d;
            },
        }
    }
    Ok(frames)
}

} // verus!
