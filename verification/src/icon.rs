//! The icon of the server in the task bar, drawn in memory: a white arrow on blue.
use vstd::prelude::*;

verus! {

/// The width and the height of the icon.
pub const ICON_SIZE: usize = 16;

/// Is the pixel part of the arrow? Rows count from the top. The head spreads out from the middle
/// over five rows, the shaft below it is four pixels wide.
pub open spec fn arrow(x: int, y: int) -> bool {
    (3 <= y <= 7 && 8 - (y - 2) <= x <= 7 + (y - 2)) || (8 <= y <= 12 && 6 <= x <= 9)
}

/// Is the pixel part of the arrow?
pub fn is_arrow_pixel(x: usize, y: usize) -> (r: bool)
    ensures
        r == arrow(x as int, y as int),
{
    if 3 <= y && y <= 7 {
        let spread: usize = y - 2;
        return x >= 8 - spread && x <= 7 + spread;
    }
    if 8 <= y && y <= 12 {
        return 6 <= x && x <= 9;
    }
    false
}

/// Is the pixel a corner?
pub open spec fn corner(x: int, y: int) -> bool {
    (x == 0 || x == 15) && (y == 0 || y == 15)
}

/// The colour of a pixel: blue, green, red and opacity. The corners are transparent, the arrow is
/// white, the rest is blue.
pub open spec fn pixel(x: int, y: int) -> Seq<u8> {
    if corner(x, y) {
        seq![0u8, 0u8, 0u8, 0u8]
    } else if arrow(x, y) {
        seq![0xFFu8, 0xFFu8, 0xFFu8, 0xFFu8]
    } else {
        seq![0xE9u8, 0x7Du8, 0x2Bu8, 0xFFu8]
    }
}

/// The header of the file: one icon of 16 by 16 pixels with 32 bits, 1128 bytes at offset 22; then
/// the header of the bitmap, whose height counts the mask too.
pub open spec fn icon_header() -> Seq<u8> {
    seq![
        0u8, 0, 1, 0, 1, 0, 16, 16, 0, 0, 1, 0, 32, 0, 0x68, 0x04, 0, 0, 22, 0, 0, 0, 40, 0, 0, 0,
        16, 0, 0, 0, 32, 0, 0, 0, 1, 0, 32, 0, 0, 0, 0, 0, 0, 0, 0, 0, 0, 0, 0, 0, 0, 0, 0, 0, 0,
        0, 0, 0, 0, 0, 0, 0,
    ]
}

/// The first `n` pixels in the order of the file: rows from the bottom up, each from the left.
pub open spec fn pixels(n: nat) -> Seq<u8>
    decreases n,
{
    if n == 0 {
        Seq::<u8>::empty()
    } else {
        pixels((n - 1) as nat) + pixel((n - 1) as int % 16, 15 - (n - 1) as int / 16)
    }
}

/// The icon file: the headers, the pixels, and a mask of 64 bytes that hides nothing.
pub open spec fn icon_file() -> Seq<u8> {
    icon_header() + pixels(256) + Seq::new(64, |i: int| 0u8)
}

/// The bytes of the icon file.
pub fn generate_icon_bytes() -> (r: Vec<u8>)
    ensures
        r@ == icon_file(),
{
    let mut v: Vec<u8> = vec![
        0, 0, 1, 0, 1, 0, 16, 16, 0, 0, 1, 0, 32, 0, 0x68, 0x04, 0, 0, 22, 0, 0, 0, 40, 0, 0, 0, 16,
        0, 0, 0, 32, 0, 0, 0, 1, 0, 32, 0, 0, 0, 0, 0, 0, 0, 0, 0, 0, 0, 0, 0, 0, 0, 0, 0, 0, 0, 0,
        0, 0, 0, 0, 0,
    ];
    proof {
        assert(v@ =~= icon_header());
        assert(v@ + pixels(0) =~= v@);
    }
    let mut n: usize = 0;
    while n < 256
        invariant
            n <= 256,
            v@ == icon_header() + pixels(n as nat),
        decreases 256 - n,
    {
        let x: usize = n % 16;
        let y: usize = 15 - n / 16;
        let ghost before = v@;
        let edge = (x == 0 || x == 15) && (y == 0 || y == 15);
        let light = is_arrow_pixel(x, y);
        v.push(if edge { 0 } else if light { 0xFF } else { 0xE9 });
        v.push(if edge { 0 } else if light { 0xFF } else { 0x7D });
        v.push(if edge { 0 } else if light { 0xFF } else { 0x2B });
        v.push(if edge { 0 } else { 0xFF });
        proof {
            assert(v@ =~= before + pixel(x as int, y as int));
            assert(v@ =~= icon_header() + pixels((n + 1) as nat));
        }
        n = n + 1;
    }
    let ghost drawn = v@;
    let mut k: usize = 0;
    while k < 64
        invariant
            k <= 64,
            v@ == drawn + Seq::new(k as nat, |i: int| 0u8),
        decreases 64 - k,
    {
        v.push(0);
        proof {
            assert(v@ =~= drawn + Seq::new((k + 1) as nat, |i: int| 0u8));
        }
        k = k + 1;
    }
    v
}

proof fn lemma_pixels_len(n: nat)
    ensures
        pixels(n).len() == 4 * n,
    decreases n,
{
    if n > 0 {
        lemma_pixels_len((n - 1) as nat);
    }
}

/// The file is as long as its headers say: 22 bytes and 1128 behind them.
pub proof fn law_icon_length()
    ensures
        icon_file().len() == 1150,
        icon_file().len() == 22 + 1128,
{
    lemma_pixels_len(256);
}

/// The icon is the same from left to right and from right to left.
pub proof fn law_icon_is_symmetric(x: int, y: int)
    requires
        0 <= x < 16,
        0 <= y < 16,
    ensures
        pixel(x, y) == pixel(15 - x, y),
{
}

/// The corners of the icon are clear, its arrow is white, and the rest is blue; every point has four
/// bytes, in rows from the bottom up.
pub proof fn law_points_of_the_icon(n: nat, x: int, y: int)
    requires
        0 <= x < 16,
        0 <= y < 16,
        16 * (15 - y) + x < n <= 256,
    ensures
        pixels(n).len() == 4 * n,
        pixels(n).subrange(4 * (16 * (15 - y) + x), 4 * (16 * (15 - y) + x) + 4) == pixel(x, y),
        (x == 0 || x == 15) && (y == 0 || y == 15) ==> pixel(x, y)[3] == 0,
        !((x == 0 || x == 15) && (y == 0 || y == 15)) ==> pixel(x, y)[3] == 0xFF,
        8 <= y <= 12 && 6 <= x <= 9 ==> pixel(x, y) == seq![0xFFu8, 0xFFu8, 0xFFu8, 0xFFu8],
    decreases n,
{
    let k = 16 * (15 - y) + x;
    let front = pixels((n - 1) as nat);
    let last = pixel((n - 1) as int % 16, 15 - (n - 1) as int / 16);
    lemma_points_len((n - 1) as nat);
    if k == n - 1 {
        assert((n - 1) as int % 16 == x && (n - 1) as int / 16 == 15 - y);
        assert(pixels(n).subrange(4 * k, 4 * k + 4) =~= last);
    } else {
        law_points_of_the_icon((n - 1) as nat, x, y);
        assert(pixels(n).subrange(4 * k, 4 * k + 4) =~= front.subrange(4 * k, 4 * k + 4));
    }
}

proof fn lemma_points_len(n: nat)
    ensures
        pixels(n).len() == 4 * n,
    decreases n,
{
    if n > 0 {
        lemma_points_len((n - 1) as nat);
    }
}

} // verus!
