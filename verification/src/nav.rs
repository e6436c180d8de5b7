//! Index arithmetic shared by list navigation, tab cycling and hit-testing.

use vstd::prelude::*;
use vstd::arithmetic::div_mod::{lemma_fundamental_div_mod, lemma_fundamental_div_mod_converse};

verus! {

/// `cur + delta` clamped into `[0, len - 1]`; 0 for an empty list.
pub open spec fn moved_index(cur: int, delta: int, len: int) -> int {
    if len <= 0 {
        0
    } else if cur + delta < 0 {
        0
    } else if cur + delta > len - 1 {
        len - 1
    } else {
        cur + delta
    }
}

/// Moves a list selection by `delta`, clamping at both ends.
pub fn move_index(cur: usize, delta: isize, len: usize) -> (r: usize)
    ensures
        r == moved_index(cur as int, delta as int, len as int),
{
    if len == 0 {
        return 0;
    }
    let v: i128 = cur as i128 + delta as i128;
    if v < 0 {
        0
    } else if v > (len - 1) as i128 {
        len - 1
    } else {
        v as usize
    }
}

/// `i + delta` wrapped into `[0, n)` (Euclidean remainder, like `rem_euclid`).
pub fn wrap_index(i: usize, delta: isize, n: usize) -> (r: usize)
    requires
        n > 0,
    ensures
        r == (i + delta) % (n as int),
        r < n,
{
    let x: i128 = i as i128 + delta as i128;
    if x >= 0 {
        let r = ((x as u128) % (n as u128)) as usize;
        r
    } else {
        let y = ((-x) as u128) % (n as u128);
        proof {
            let a = -(x as int);
            let ni = n as int;
            lemma_fundamental_div_mod(a, ni);
            let q = a / ni;
            assert(a == ni * q + y);
            assert(0 <= y < ni);
            if y > 0 {
                assert(x as int == (-q - 1) * ni + (ni - y)) by (nonlinear_arith)
                    requires
                        a == ni * q + y,
                        x as int == -a,
                ;
                lemma_fundamental_div_mod_converse(x as int, ni, -q - 1, ni - y);
            } else {
                assert(x as int == (-q) * ni + 0) by (nonlinear_arith)
                    requires
                        a == ni * q + y,
                        y == 0,
                        x as int == -a,
                ;
                lemma_fundamental_div_mod_converse(x as int, ni, -q, 0);
            }
        }
        if y == 0 {
            0
        } else {
            (n as u128 - y) as usize
        }
    }
}

/// A screen rectangle in terminal cells.
#[derive(Clone, Copy, Debug, PartialEq, Eq, Structural, Default)]
pub struct Rect {
    pub x: u16,
    pub y: u16,
    pub width: u16,
    pub height: u16,
}

/// Whether cell (`x`, `y`) lies inside `r`.
pub fn rect_contains(r: Rect, x: u16, y: u16) -> (b: bool)
    ensures
        b == (r.x <= x < r.x + r.width && r.y <= y < r.y + r.height),
{
    x >= r.x && (x as u32) < r.x as u32 + r.width as u32 && y >= r.y && (y as u32) < r.y as u32
        + r.height as u32
}

} // verus!
