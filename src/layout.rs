use vstd::prelude::*;
use crate::error::WindowSystemError;
use crate::workspace::Window;

verus! {

/// Width and height of the primary output, in pixels, as the display reports them.
#[derive(Clone, Copy, Debug, PartialEq, Eq, Structural)]
pub struct Screen {
    pub width: i16,
    pub height: i16,
}

/// A target placement on the screen.
#[derive(Clone, Copy, Debug, PartialEq, Eq, Structural)]
pub struct Rect {
    pub x: i32,
    pub y: i32,
    pub width: u32,
    pub height: u32,
}

/// Where one window goes.
#[derive(Clone, Copy, Debug, PartialEq, Eq, Structural)]
pub struct Placement {
    pub window: Window,
    pub rect: Rect,
}

/// The primary output among the outputs that the display reports, as
/// (width, height) pairs: the first one.
pub open spec fn primary_screen_of(heads: Seq<(i16, i16)>) -> Result<Screen, WindowSystemError> {
    if heads.len() > 0 {
        Ok(Screen { width: heads[0].0, height: heads[0].1 })
    } else {
        Err(WindowSystemError::ScreenNotFound)
    }
}

/// Picks the primary output's geometry, or fails with `ScreenNotFound`.
pub fn primary_screen(heads: &Vec<(i16, i16)>) -> (r: Result<Screen, WindowSystemError>)
    ensures
        r == primary_screen_of(heads@),
{
    if heads.len() > 0 {
        Ok(Screen { width: heads[0].0, height: heads[0].1 })
    } else {
        Err(WindowSystemError::ScreenNotFound)
    }
}

/// Width of each of `n` columns: the screen width divided by `n`, rounded
/// toward zero. The remainder pixels stay unused at the right edge.
pub open spec fn column_width(n: nat, width: int) -> int {
    if n == 0 {
        0
    } else if width >= 0 {
        width / (n as int)
    } else {
        -((-width) / (n as int))
    }
}

/// The column of the `k`-th window: full height, `column_width` wide.
/// Sizes are handed to the display as unsigned numbers, as they come.
pub open spec fn placement_at(windows: Seq<Window>, k: int, screen: Screen) -> Placement {
    let col = column_width(windows.len(), screen.width as int);
    Placement {
        window: windows[k],
        rect: Rect { x: (k * col) as i32, y: 0, width: col as u32, height: screen.height as u32 },
    }
}

/// The layout pass: one equal-width column per window, left to right in the
/// order of `windows`.
pub open spec fn tiling(windows: Seq<Window>, screen: Screen) -> Seq<Placement> {
    Seq::new(windows.len(), |k: int| placement_at(windows, k, screen))
}

/// Two rectangles share at least one pixel.
pub open spec fn overlap(a: Rect, b: Rect) -> bool {
    &&& a.x < b.x + b.width
    &&& b.x < a.x + a.width
    &&& a.y < b.y + b.height
    &&& b.y < a.y + a.height
}

/// The summed width of a sequence of placements.
pub open spec fn total_width(p: Seq<Placement>) -> int
    decreases p.len(),
{
    if p.len() == 0 {
        0
    } else {
        total_width(p.drop_last()) + p.last().rect.width
    }
}

proof fn lemma_column_fits(n: int, width: int, i: int)
    requires
        0 < n,
        0 <= width,
        0 <= i <= n,
    ensures
        0 <= i * (width / n) <= n * (width / n) <= width,
{
    assert(0 <= width / n);
    assert(i * (width / n) <= n * (width / n)) by (nonlinear_arith)
        requires
            0 <= width / n,
            i <= n,
    ;
    assert(0 <= i * (width / n)) by (nonlinear_arith)
        requires
            0 <= width / n,
            0 <= i,
    ;
    vstd::arithmetic::div_mod::lemma_fundamental_div_mod(width, n);
}

/// Every multiple `i * col` with `i <= n` stays within the screen width in size.
proof fn lemma_offsets_fit(n: int, width: int, i: int)
    requires
        0 < n,
        -32768 <= width <= 32767,
        0 <= i <= n,
    ensures
        -32768 <= i * column_width(n as nat, width) <= 32767,
{
    if width >= 0 {
        lemma_column_fits(n, width, i);
    } else {
        lemma_column_fits(n, -width, i);
        assert(i * column_width(n as nat, width) == -(i * ((-width) / n))) by (nonlinear_arith)
            requires
                column_width(n as nat, width) == -((-width) / n),
        ;
    }
}

proof fn lemma_equal_widths(p: Seq<Placement>, c: int)
    requires
        forall|k: int| 0 <= k < p.len() ==> p[k].rect.width == c,
    ensures
        total_width(p) == p.len() * c,
    decreases p.len(),
{
    if p.len() > 0 {
        lemma_equal_widths(p.drop_last(), c);
        assert(p.len() * c == (p.len() - 1) * c + c) by (nonlinear_arith);
    }
}

/// Computes the layout pass for `windows` on `screen`.
pub fn tile(windows: &Vec<Window>, screen: Screen) -> (r: Vec<Placement>)
    ensures
        r@ == tiling(windows@, screen),
{
    let n = windows.len();
    let mut r: Vec<Placement> = Vec::new();
    if n == 0 {
        assert(r@ =~= tiling(windows@, screen));
        return r;
    }
    let ghost c = column_width(n as nat, screen.width as int);
    let width: i32 = screen.width as i32;
    let magnitude: u32 = if width >= 0 { width as u32 } else { (-width) as u32 };
    let quotient: u32 = if n > 65536 { 0 } else { magnitude / (n as u32) };
    proof {
        if n > 65536 {
            assert(magnitude as int / n as int == 0) by (nonlinear_arith)
                requires
                    0 <= magnitude <= 32768,
                    n > 65536,
            ;
        }
    }
    let col: i32 = if width >= 0 { quotient as i32 } else { -(quotient as i32) };
    assert(col == c);
    let mut start: i32 = 0;
    let mut i: usize = 0;
    while i < n
        invariant
            n == windows@.len(),
            0 < n,
            col == c,
            c == column_width(n as nat, screen.width as int),
            i <= n,
            start == i * c,
            r@ == tiling(windows@, screen).subrange(0, i as int),
        decreases n - i,
    {
        proof {
            lemma_offsets_fit(n as int, screen.width as int, i as int + 1);
            assert((i + 1) * c == i * c + c) by (nonlinear_arith);
        }
        let p = Placement {
            window: windows[i],
            rect: Rect { x: start, y: 0, width: col as u32, height: screen.height as u32 },
        };
        r.push(p);
        start = start + col;
        i = i + 1;
        proof {
            assert(r@ =~= tiling(windows@, screen).subrange(0, i as int));
        }
    }
    assert(r@ =~= tiling(windows@, screen));
    r
}

/// On a screen of non-negative width, a layout pass never places two windows
/// on a common pixel; every column lies on the screen, at the top, full
/// height and equally wide; and together the columns cover
/// `floor(width / n) * n` pixels of width, never more than the screen width.
pub proof fn lemma_tiling_disjoint(windows: Seq<Window>, screen: Screen)
    requires
        screen.width >= 0,
    ensures
        tiling(windows, screen).len() == windows.len(),
        forall|i: int, j: int|
            0 <= i < windows.len() && 0 <= j < windows.len() && i != j ==> !overlap(
                #[trigger] tiling(windows, screen)[i].rect,
                #[trigger] tiling(windows, screen)[j].rect,
            ),
        forall|k: int|
            0 <= k < windows.len() ==> {
                &&& 0 <= (#[trigger] tiling(windows, screen)[k]).rect.x
                &&& tiling(windows, screen)[k].rect.x == k * column_width(
                    windows.len(),
                    screen.width as int,
                )
                &&& tiling(windows, screen)[k].rect.x + tiling(windows, screen)[k].rect.width
                    <= screen.width
                &&& tiling(windows, screen)[k].rect.y == 0
                &&& tiling(windows, screen)[k].rect.width == column_width(
                    windows.len(),
                    screen.width as int,
                )
                &&& tiling(windows, screen)[k].rect.height == screen.height as u32
            },
        total_width(tiling(windows, screen)) == column_width(windows.len(), screen.width as int)
            * windows.len(),
        column_width(windows.len(), screen.width as int) * windows.len() <= screen.width,
{
    let t = tiling(windows, screen);
    let n = windows.len() as int;
    let c = column_width(windows.len(), screen.width as int);
    if n > 0 {
        lemma_column_fits(n, screen.width as int, n);
        assert forall|k: int| 0 <= k < n implies t[k].rect.x == k * c && t[k].rect.width == c
            && 0 <= k * c && k * c + c <= n * c by {
            lemma_column_fits(n, screen.width as int, k);
            lemma_column_fits(n, screen.width as int, k + 1);
            assert((k + 1) * c == k * c + c) by (nonlinear_arith);
        }
        assert forall|k: int| 0 <= k < n implies 0 <= (#[trigger] t[k]).rect.x && t[k].rect.x
            + t[k].rect.width <= screen.width by {
            assert(t[k].rect.x == k * c && t[k].rect.width == c && 0 <= k * c && k * c + c <= n * c);
        }
        assert(forall|k: int| 0 <= k < n ==> (#[trigger] t[k]).rect.x == k * c);
        assert forall|i: int, j: int|
            0 <= i < n && 0 <= j < n && i != j implies !overlap(#[trigger] t[i].rect, #[trigger] t[j].rect) by {
            if i < j {
                assert(i * c + c <= j * c) by (nonlinear_arith)
                    requires
                        i < j,
                        0 <= c,
                ;
            } else {
                assert(j * c + c <= i * c) by (nonlinear_arith)
                    requires
                        j < i,
                        0 <= c,
                ;
            }
        }
        lemma_equal_widths(t, c);
        assert(c == screen.width as int / n);
        assert(n * c == c * n) by (nonlinear_arith);
    } else {
        lemma_equal_widths(t, 0);
    }
}

} // verus!
