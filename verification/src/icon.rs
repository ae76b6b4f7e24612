//! The tray icon, drawn as ARGB32 in network byte order (alpha first,
//! then R, G, B), the StatusNotifier pixmap format: pale yellow paper,
//! ruled lines, and a cut top-right corner with a curled flap.

use vstd::prelude::*;

verus! {

/// A square pixmap: `width * height` pixels of 4 bytes each, row by row.
#[derive(Debug, Clone, PartialEq, Eq)]
pub struct IconPixmap {
    pub width: i32,
    pub height: i32,
    pub data: Vec<u8>,
}

pub open spec fn paper() -> (u8, u8, u8, u8) {
    (255, 255, 249, 196)
}

pub open spec fn outline() -> (u8, u8, u8, u8) {
    (255, 214, 200, 110)
}

pub open spec fn flap() -> (u8, u8, u8, u8) {
    (255, 255, 232, 111)
}

pub open spec fn rule() -> (u8, u8, u8, u8) {
    (255, 227, 217, 141)
}

pub open spec fn clear() -> (u8, u8, u8, u8) {
    (0, 0, 0, 0)
}

pub open spec fn max2(a: int, b: int) -> int {
    if a >= b {
        a
    } else {
        b
    }
}

/// The pixel at column `x`, row `y` of the icon of side `s`.
pub open spec fn icon_pixel(s: int, x: int, y: int) -> (u8, u8, u8, u8) {
    let edge = max2(s as int / 24, 2);
    let fold = s / 4;
    let flap_w = max2(s as int / 16, 3);
    let line_th = max2(s as int / 16, 2);
    let l1 = s * 3 / 8;
    let l2 = s * 2 / 4;
    let l3 = s * 5 / 8;
    let line_x0 = s / 6;
    let line_x1 = s - s / 6;
    let line_x1_short = s / 2;
    // distance from the right edge and from the top edge
    let dx = s - 1 - x;
    let dy = y;
    let on_paper = !(dx + dy < fold - 1) && !(dx + dy < fold - 1 + flap_w) && !(x < edge || y
        < edge || x >= s - edge || y >= s - edge);
    let base = if dx + dy < fold - 1 {
        clear()
    } else if dx + dy < fold - 1 + flap_w {
        flap()
    } else if x < edge || y < edge || x >= s - edge || y >= s - edge {
        outline()
    } else {
        paper()
    };
    let in_line = on_paper && ((y >= l1 && y < l1 + line_th) || (y >= l2 && y < l2 + line_th) || (y
        >= l3 && y < l3 + line_th && x < line_x1_short)) && x >= line_x0 && x < line_x1;
    if in_line {
        rule()
    } else {
        base
    }
}

pub open spec fn pixel_bytes(p: (u8, u8, u8, u8)) -> Seq<u8> {
    seq![p.0, p.1, p.2, p.3]
}

/// The bytes of the first `n` pixels of the icon of side `s`, row by row.
pub open spec fn icon_bytes(s: int, n: nat) -> Seq<u8>
    decreases n,
{
    if n == 0 {
        seq![]
    } else {
        icon_bytes(s, (n - 1) as nat) + pixel_bytes(icon_pixel(s, (n - 1) % s, (n - 1) / s))
    }
}

fn max_usize(a: usize, b: usize) -> (m: usize)
    ensures
        m == max2(a as int, b as int),
{
    if a >= b {
        a
    } else {
        b
    }
}

/// The tray icon, `size` pixels square.
pub fn sticky_icon(size: i32) -> (icon: IconPixmap)
    requires
        size == 0 || size >= 4,
        size * size * 4 <= isize::MAX,
    ensures
        icon.width == size,
        icon.height == size,
        icon.data@ == icon_bytes(size as int, (size * size) as nat),
        icon.data@.len() == size * size * 4,
{
    let s = size as usize;
    proof {
        assert(s * s * 4 <= isize::MAX);
        assert(s <= s * s) by (nonlinear_arith)
            requires
                s >= 0,
        ;
    }
    let edge = max_usize(s / 24, 2);
    let fold = s / 4;
    let flap_w = max_usize(s / 16, 3);
    let line_th = max_usize(s / 16, 2);
    let l1 = s * 3 / 8;
    let l2 = s * 2 / 4;
    let l3 = s * 5 / 8;
    let line_x0 = s / 6;
    let line_x1 = s - s / 6;
    let line_x1_short = s / 2;

    let mut data: Vec<u8> = Vec::new();
    let mut p: usize = 0;
    let mut y: usize = 0;
    while y < s
        invariant
            s == size,
            s == 0 || s >= 4,
            s * s * 4 <= isize::MAX,
            y <= s,
            p == y * s,
            data@ == icon_bytes(s as int, p as nat),
            edge == max2(s as int / 24, 2),
            fold == s / 4,
            flap_w == max2(s as int / 16, 3),
            line_th == max2(s as int / 16, 2),
            l1 == s * 3 / 8,
            l2 == s * 2 / 4,
            l3 == s * 5 / 8,
            line_x0 == s / 6,
            line_x1 == s - s / 6,
            line_x1_short == s / 2,
        decreases s - y,
    {
        proof {
            assert((y + 1) * s <= s * s) by (nonlinear_arith)
                requires
                    y < s,
            ;
        }
        let mut x: usize = 0;
        while x < s
            invariant
                s == size,
                s >= 4,
                s * s * 4 <= isize::MAX,
                y < s,
                x <= s,
                p == y * s + x,
                (y + 1) * s <= s * s,
                data@ == icon_bytes(s as int, p as nat),
                edge == max2(s as int / 24, 2),
                fold == s / 4,
                flap_w == max2(s as int / 16, 3),
                line_th == max2(s as int / 16, 2),
                l1 == s * 3 / 8,
                l2 == s * 2 / 4,
                l3 == s * 5 / 8,
                line_x0 == s / 6,
                line_x1 == s - s / 6,
                line_x1_short == s / 2,
            decreases s - x,
        {
            proof {
                assert((y + 1) * s == y * s + s) by (nonlinear_arith);
            }
            let dx = s - 1 - x;
            let dy = y;
            let (px, on_line): ((u8, u8, u8, u8), bool) = if dx + dy < fold - 1 {
                ((0, 0, 0, 0), false)
            } else if dx + dy < fold - 1 + flap_w {
                ((255, 255, 232, 111), false)
            } else if x < edge || y < edge || x >= s - edge || y >= s - edge {
                ((255, 214, 200, 110), false)
            } else {
                ((255, 255, 249, 196), true)
            };
            let in_line = on_line && ((y >= l1 && y < l1 + line_th) || (y >= l2 && y < l2 + line_th)
                || (y >= l3 && y < l3 + line_th && x < line_x1_short)) && x >= line_x0 && x
                < line_x1;
            let px = if in_line {
                (255u8, 227u8, 217u8, 141u8)
            } else {
                px
            };
            proof {
                vstd::arithmetic::div_mod::lemma_fundamental_div_mod_converse(
                    p as int,
                    s as int,
                    y as int,
                    x as int,
                );
                assert(px == icon_pixel(s as int, p as int % s as int, p as int / s as int));
            }
            data.push(px.0);
            data.push(px.1);
            data.push(px.2);
            data.push(px.3);
            assert(data@ =~= icon_bytes(s as int, (p + 1) as nat));
            p = p + 1;
            x = x + 1;
        }
        proof {
            assert((y + 1) * s == y * s + s) by (nonlinear_arith);
        }
        y = y + 1;
    }
    proof {
        assert(data@.len() == p * 4) by {
            lemma_icon_bytes_len(s as int, p as nat);
        }
    }
    IconPixmap { width: size, height: size, data }
}

proof fn lemma_icon_bytes_at(s: int, n: nat, i: int)
    requires
        0 <= i < n,
    ensures
        icon_bytes(s, n).len() == n * 4,
        icon_bytes(s, n).subrange(4 * i, 4 * i + 4) == pixel_bytes(icon_pixel(s, i % s, i / s)),
    decreases n,
{
    lemma_icon_bytes_len(s, n);
    lemma_icon_bytes_len(s, (n - 1) as nat);
    let prev = icon_bytes(s, (n - 1) as nat);
    let last = pixel_bytes(icon_pixel(s, (n - 1) % s, (n - 1) / s));
    assert(icon_bytes(s, n) == prev + last);
    if i < n - 1 {
        lemma_icon_bytes_at(s, (n - 1) as nat, i);
        assert(icon_bytes(s, n).subrange(4 * i, 4 * i + 4) =~= prev.subrange(4 * i, 4 * i + 4));
    } else {
        assert(icon_bytes(s, n).subrange(4 * i, 4 * i + 4) =~= last);
    }
}

/// Law: what the icon of side `s` (at least 4) shows at column `x`, row
/// `y`, as the 4 bytes (alpha, red, green, blue) of that pixel in the
/// icon's data. The top-right corner beyond the fold is transparent; a
/// band along the fold is the flap; the border is the outline; the rest
/// is paper, which carries three ruled lines: at rows 3s/8 and s/2 from
/// s/6 to s - s/6, and at row 5s/8 up to the middle (each line
/// max(s/16, 2) rows thick).
pub proof fn lemma_icon_pixels(s: int, x: int, y: int)
    requires
        s >= 4,
        0 <= x < s,
        0 <= y < s,
    ensures
        ({
            let data = icon_bytes(s, (s * s) as nat);
            let at = data.subrange(4 * (y * s + x), 4 * (y * s + x) + 4);
            let corner = (s - 1 - x) + y;
            let fold = s / 4 - 1;
            let flap_w = if s / 16 > 3 {
                s / 16
            } else {
                3
            };
            let edge = if s / 24 > 2 {
                s / 24
            } else {
                2
            };
            let th = if s / 16 > 2 {
                s / 16
            } else {
                2
            };
            let border = x < edge || y < edge || x >= s - edge || y >= s - edge;
            let on_paper = corner >= fold + flap_w && !border;
            let ruled = s / 6 <= x < s - s / 6 && (s * 3 / 8 <= y < s * 3 / 8 + th || s / 2 <= y < s
                / 2 + th || (s * 5 / 8 <= y < s * 5 / 8 + th && x < s / 2));
            &&& data.len() == 4 * s * s
            &&& 4 * (y * s + x) + 4 <= data.len()
            &&& corner < fold ==> at == seq![0u8, 0, 0, 0]
            &&& fold <= corner < fold + flap_w ==> at == seq![255u8, 255, 232, 111]
            &&& corner >= fold + flap_w && border ==> at == seq![255u8, 214, 200, 110]
            &&& on_paper && ruled ==> at == seq![255u8, 227, 217, 141]
            &&& on_paper && !ruled ==> at == seq![255u8, 255, 249, 196]
        }),
{
    let i = y * s + x;
    assert(0 <= i < s * s) by (nonlinear_arith)
        requires
            0 <= x < s,
            0 <= y < s,
            i == y * s + x,
    ;
    assert(4 * (s * s) == 4 * s * s) by (nonlinear_arith);
    lemma_icon_bytes_at(s, (s * s) as nat, i);
    vstd::arithmetic::div_mod::lemma_fundamental_div_mod_converse(i, s, y, x);
    assert(s * 2 / 4 == s / 2);
}

proof fn lemma_icon_bytes_len(s: int, n: nat)
    ensures
        icon_bytes(s, n).len() == n * 4,
    decreases n,
{
    if n > 0 {
        lemma_icon_bytes_len(s, (n - 1) as nat);
    }
}

} // verus!
