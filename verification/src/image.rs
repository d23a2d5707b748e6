//! Frame dumps as binary portable pixmaps.

use vstd::prelude::*;
use vstd::string::StringExecFns;

use crate::single::Single;
use crate::text;

verus! {

/// The bytes of an ASCII text.
pub open spec fn ascii(s: Seq<char>) -> Seq<u8> {
    s.map_values(|c: char| c as u8)
}

/// The header of a pixmap with 255 levels.
pub open spec fn header(w: u32, h: u32) -> Seq<char> {
    "P6\n"@ + text::decimal(w as nat) + " "@ + text::decimal(h as nat) + "\n255\n"@
}

/// The colour bytes of a pixmap: `px` holds RGBA rows from the bottom up, the
/// pixmap holds RGB rows from the top down.
pub open spec fn body(px: Seq<u8>, w: nat, h: nat) -> Seq<u8> {
    Seq::new(
        h * w * 3,
        |i: int|
            {
                let (p, c) = (i / 3, i % 3);
                let (y, x) = (p / w as int, p % w as int);
                px[((h - 1 - y) * w + x) * 4 + c]
            },
    )
}

/// A pixmap.
pub open spec fn pixmap(px: Seq<u8>, w: u32, h: u32) -> Seq<u8> {
    ascii(header(w, h)) + body(px, w as nat, h as nat)
}

/// Where the byte of row `row`, column `x` and channel `c` goes.
proof fn lemma_body_at(px: Seq<u8>, w: nat, h: nat, row: int, x: int, c: int)
    requires
        0 <= row < h,
        0 <= x < w,
        0 <= c < 3,
    ensures
        0 <= (row * w + x) * 3 + c < body(px, w, h).len(),
        body(px, w, h)[(row * w + x) * 3 + c] == px[((h - 1 - row) * w + x) * 4 + c],
{
    let p = row * w + x;
    let i = p * 3 + c;
    assert(row * w + x < h * w) by (nonlinear_arith)
        requires
            row + 1 <= h,
            x < w,
    ;
    assert(row * w >= 0) by (nonlinear_arith)
        requires
            row >= 0,
    ;
    assert(h * w * 3 == 3 * (h * w));
    vstd::arithmetic::div_mod::lemma_fundamental_div_mod_converse(i, 3, p, c);
    vstd::arithmetic::div_mod::lemma_fundamental_div_mod_converse(p, w as int, row, x);
}

/// A pixel of the source lies within it.
proof fn lemma_pixel_in_range(w: nat, h: nat, y: int, x: int)
    requires
        0 <= y < h,
        0 <= x < w,
    ensures
        0 <= y * w,
        y * w + x < w * h,
{
    assert(0 <= y * w && y * w + x < w * h) by (nonlinear_arith)
        requires
            0 <= y,
            y + 1 <= h,
            0 <= x < w,
    ;
}

/// Encodes a read-back frame: `px` holds `h` rows of `w` RGBA pixels, from
/// the bottom up.
pub fn ppm(px: &Vec<u8>, w: u32, h: u32) -> (r: Vec<u8>)
    requires
        px@.len() == w * h * 4,
    ensures
        r@ == pixmap(px@, w, h),
{
    let mut text = String::new();
    text.append("P6\n");
    text::push_decimal(&mut text, w as u64);
    text.append(" ");
    text::push_decimal(&mut text, h as u64);
    text.append("\n255\n");
    assert(text@ =~= header(w, h));
    let cs = text::chars_of(text.as_str());
    let mut out: Vec<u8> = Vec::new();
    for i in 0..cs.len()
        invariant
            cs@ == header(w, h),
            out@ == ascii(cs@).take(i as int),
    {
        out.push(cs[i] as u8);
        assert(out@ =~= ascii(cs@).take(i + 1));
    }
    let ghost head = ascii(header(w, h));
    assert(out@ =~= head);
    let ghost full = body(px@, w as nat, h as nat);
    let wide: usize = w as usize;
    let high: usize = h as usize;
    let size: usize = px.len();
    assert((0 * w) * 3 == 0);
    assert(out@ =~= head + full.take((0 * w) * 3));
    for row in 0..high
        invariant
            wide == w,
            high == h,
            size == px@.len(),
            size == w * h * 4,
            full == body(px@, w as nat, h as nat),
            out@ == head + full.take((row * w) * 3),
    {
        let y: usize = high - 1 - row;
        assert((row * w + 0) * 3 == (row * w) * 3);
        for x in 0..wide
            invariant
                wide == w,
                high == h,
                row < high,
                y == h - 1 - row,
                size == px@.len(),
                size == w * h * 4,
                full == body(px@, w as nat, h as nat),
                out@ == head + full.take((row * w + x) * 3),
        {
            proof {
                lemma_pixel_in_range(w as nat, h as nat, y as int, x as int);
                assert(y * wide == y * w);
                assert((y * w + x) * 4 + 4 <= size);
            }
            let at: usize = (y * wide + x) * 4;
            for c in 0usize..3
                invariant
                    wide == w,
                    high == h,
                    row < high,
                    x < wide,
                    y == h - 1 - row,
                    at == (y * w + x) * 4,
                    at + 4 <= px@.len(),
                    full == body(px@, w as nat, h as nat),
                    out@ == head + full.take((row * w + x) * 3 + c),
            {
                proof {
                    lemma_body_at(px@, w as nat, h as nat, row as int, x as int, c as int);
                }
                let ghost n = (row * w + x) * 3 + c;
                assert(full.take(n + 1) =~= full.take(n).push(full[n]));
                out.push(px[at + c]);
                assert(out@ =~= head + full.take(n + 1));
            }
            assert((row * w + x) * 3 + 3 == (row * w + (x + 1)) * 3);
        }
        assert((row * w + w) * 3 == ((row + 1) * w) * 3) by (nonlinear_arith);
    }
    assert(h * w * 3 == (h * w) * 3);
    assert(full.take((high * w) * 3) =~= full);
    out
}

/// The pattern that four bytes spell, the lowest first.
pub open spec fn pattern_at(px: Seq<u8>, at: int) -> int {
    px[at] + 0x100 * px[at + 1] + 0x1_0000 * px[at + 2] + 0x100_0000 * px[at + 3]
}

/// A channel of a read-back pixel of four single-precision channels: four
/// bytes each, the lowest first.
pub fn channel(px: &[u8; 16], c: usize) -> (r: Single)
    requires
        c < 4,
    ensures
        r.bits == pattern_at(px@, 4 * c),
        r.bits == px@[4 * c] + 0x100 * px@[4 * c + 1] + 0x1_0000 * px@[4 * c + 2] + 0x100_0000
            * px@[4 * c + 3],
{
    let at: usize = 4 * c;
    Single {
        bits: px[at] as u32 + 0x100 * px[at + 1] as u32 + 0x1_0000 * px[at + 2] as u32 + 0x100_0000
            * px[at + 3] as u32,
    }
}

/// The name of the file for the frame before sharpening.
pub open spec fn pre_name(path: Seq<char>) -> Seq<char> {
    text::replace(path, ".ppm"@, "_pre.ppm"@)
}

/// The file for the frame before sharpening, named after that of the frame.
pub fn pre_path(path: &str) -> (r: String)
    ensures
        r@ == text::replace(path@, ".ppm"@, "_pre.ppm"@),
        r@ == pre_name(path@),
{
    proof {
        reveal_strlit(".ppm");
    }
    text::replace_all(path, ".ppm", "_pre.ppm")
}

/// Channel `c` of the pixel at row `row` and column `x` of the pixmap, counted
/// from the top left, comes from the pixel that lies as far from the bottom.
pub proof fn rows_are_turned_over(px: Seq<u8>, w: u32, h: u32, row: int, x: int, c: int)
    requires
        px.len() == w * h * 4,
        0 <= row < h,
        0 <= x < w,
        0 <= c < 3,
    ensures
        pixmap(px, w, h).len() == header(w, h).len() + w * h * 3,
        pixmap(px, w, h)[header(w, h).len() + (row * w + x) * 3 + c] == px[((h - 1 - row) * w + x)
            * 4 + c],
{
    lemma_body_at(px, w as nat, h as nat, row, x, c);
    assert(h * w * 3 == w * h * 3) by (nonlinear_arith);
}

} // verus!
