//! Level-of-detail picker for timeline queries: given a time range and a pixel
//! width, choose the tile width at which about one bucket maps to one pixel.

use vstd::prelude::*;

verus! {

/// Tile pyramid resolutions. Each level is eight times as coarse as the one
/// before, three bits of zoom.
pub const TILE_WIDTHS_NS: [u64; 8] = [
    1_000,
    8_000,
    64_000,
    512_000,
    4_096_000,
    32_768_000,
    262_144_000,
    2_097_152_000,
];

/// The finest of the first `n` tiles that is at least `target` wide, if any is.
pub open spec fn finest_at_least(target: int, n: int) -> Option<u64>
    decreases n,
{
    if n <= 0 {
        None
    } else {
        match finest_at_least(target, n - 1) {
            Some(w) => Some(w),
            None => if TILE_WIDTHS_NS[n - 1] >= target {
                Some(TILE_WIDTHS_NS[n - 1])
            } else {
                None
            },
        }
    }
}

/// The tile width for a range drawn over that many pixels: the finest tile when
/// there are no pixels, else the finest one at least a pixel wide, else the
/// coarsest.
pub open spec fn tile_for(range_ns: int, pixels: int) -> u64 {
    if pixels == 0 {
        TILE_WIDTHS_NS[0]
    } else {
        match finest_at_least(range_ns / pixels, 8) {
            Some(w) => w,
            None => TILE_WIDTHS_NS[7],
        }
    }
}

/// Picks the tile width for a range drawn over `pixels` pixels.
pub fn choose_tile(range_ns: u64, pixels: u32) -> (tile: Option<u64>)
    ensures
        tile == Some(tile_for(range_ns as int, pixels as int)),
{
    if pixels == 0 {
        return Some(TILE_WIDTHS_NS[0]);
    }
    let target: u64 = range_ns / (pixels as u64);
    let mut i: usize = 0;
    while i < 8
        invariant
            0 <= i <= 8,
            pixels > 0,
            target == range_ns as int / pixels as int,
            finest_at_least(target as int, i as int) is None,
        decreases 8 - i,
    {
        let w: u64 = TILE_WIDTHS_NS[i];
        if w >= target {
            proof {
                lemma_finest_stays(target as int, i + 1, 8);
            }
            return Some(w);
        }
        i = i + 1;
    }
    Some(TILE_WIDTHS_NS[7])
}

proof fn lemma_finest_stays(target: int, n: int, m: int)
    requires
        0 <= n <= m,
        finest_at_least(target, n) is Some,
    ensures
        finest_at_least(target, m) == finest_at_least(target, n),
    decreases m,
{
    if n < m {
        lemma_finest_stays(target, n, m - 1);
    }
}

/// The table that holds tiles of metrics or of activity. One table holds every
/// width.
pub fn tile_table_name(_bucket_width_ns: u64, metric: bool) -> (name: &'static str)
    ensures
        name@ == if metric {
            "tiles_metric"@
        } else {
            "tiles_activity"@
        },
{
    if metric {
        "tiles_metric"
    } else {
        "tiles_activity"
    }
}

/// Whether a range is so narrow that raw events are served: a pixel covers less
/// than the finest tile.
pub fn should_serve_raw(range_ns: u64, pixels: u32) -> (raw: bool)
    ensures
        raw <==> range_ns < TILE_WIDTHS_NS[0] * pixels,
{
    if pixels == 0 {
        return false;
    }
    let per_pixel: u64 = range_ns / (pixels as u64);
    proof {
        let (r, p, q) = (range_ns as int, pixels as int, per_pixel as int);
        assert(q < 1000 <==> r < 1000 * p) by (nonlinear_arith)
            requires
                p > 0,
                q == r / p,
        ;
    }
    per_pixel < TILE_WIDTHS_NS[0]
}

/// `w` is the width of some tile.
pub open spec fn is_tile(w: u64) -> bool {
    exists|i: int| 0 <= i < 8 && #[trigger] TILE_WIDTHS_NS[i] == w
}

/// Each level of the pyramid is eight times as wide as the one below.
pub proof fn tile_widths_are_a_factor_of_eight_apart(i: int)
    requires
        0 <= i < 7,
    ensures
        TILE_WIDTHS_NS[i + 1] == 8 * TILE_WIDTHS_NS[i],
{
}

proof fn lemma_widths_ascend(i: int, j: int)
    requires
        0 <= i < j < 8,
    ensures
        TILE_WIDTHS_NS[i] < TILE_WIDTHS_NS[j],
    decreases j - i,
{
    tile_widths_are_a_factor_of_eight_apart(j - 1);
    if i < j - 1 {
        lemma_widths_ascend(i, j - 1);
    }
    assert(TILE_WIDTHS_NS[j - 1] >= 1000);
}

proof fn lemma_finest(target: int, n: int)
    requires
        0 <= n <= 8,
    ensures
        finest_at_least(target, n) is None <==> forall|i: int|
            0 <= i < n ==> #[trigger] TILE_WIDTHS_NS[i] < target,
        finest_at_least(target, n) matches Some(w) ==> {
            &&& is_tile(w)
            &&& w >= target
            &&& forall|i: int|
                0 <= i < 8 && #[trigger] TILE_WIDTHS_NS[i] >= target ==> w <= TILE_WIDTHS_NS[i]
        },
    decreases n,
{
    if n > 0 {
        lemma_finest(target, n - 1);
        if finest_at_least(target, n - 1) is None && TILE_WIDTHS_NS[n - 1] >= target {
            assert forall|i: int| 0 <= i < 8 && #[trigger] TILE_WIDTHS_NS[i] >= target implies (
            TILE_WIDTHS_NS[n - 1] <= TILE_WIDTHS_NS[i]) by {
                if n - 1 < i {
                    lemma_widths_ascend(n - 1, i);
                }
            }
            assert(is_tile(TILE_WIDTHS_NS[n - 1]));
        }
    }
}

/// The chosen width is a tile. It covers a pixel whenever any tile does, and
/// then no finer tile covers one; if none does it is the coarsest.
pub proof fn chosen_tile_is_the_finest_that_covers_a_pixel(range_ns: int, pixels: int)
    requires
        range_ns >= 0,
        pixels > 0,
    ensures
        is_tile(tile_for(range_ns, pixels)),
        range_ns / pixels <= TILE_WIDTHS_NS[7] ==> tile_for(range_ns, pixels) >= range_ns / pixels,
        range_ns / pixels > TILE_WIDTHS_NS[7] ==> tile_for(range_ns, pixels) == TILE_WIDTHS_NS[7],
        forall|i: int|
            0 <= i < 8 && #[trigger] TILE_WIDTHS_NS[i] < tile_for(range_ns, pixels)
                ==> TILE_WIDTHS_NS[i] < range_ns / pixels,
{
    let target = range_ns / pixels;
    lemma_finest(target, 8);
    if target > TILE_WIDTHS_NS[7] {
        assert forall|i: int| 0 <= i < 8 implies #[trigger] TILE_WIDTHS_NS[i] < target by {
            if i < 7 {
                lemma_widths_ascend(i, 7);
            }
        }
    }
    assert(is_tile(TILE_WIDTHS_NS[7]));
}

/// Zooming out, or drawing on fewer pixels, never picks a finer tile.
pub proof fn wider_pixels_never_pick_a_finer_tile(
    range_ns: int,
    pixels: int,
    wider_ns: int,
    fewer: int,
)
    requires
        0 <= range_ns <= wider_ns,
        0 < fewer <= pixels,
    ensures
        tile_for(range_ns, pixels) <= tile_for(wider_ns, fewer),
{
    let (a, b) = (range_ns / pixels, wider_ns / fewer);
    assert(a <= b) by {
        vstd::arithmetic::div_mod::lemma_div_is_ordered(range_ns, wider_ns, pixels);
        vstd::arithmetic::div_mod::lemma_div_is_ordered_by_denominator(wider_ns, fewer, pixels);
    }
    lemma_finest(a, 8);
    lemma_finest(b, 8);
    if finest_at_least(b, 8) is None {
        if let Some(w) = finest_at_least(a, 8) {
            let i = choose|i: int| 0 <= i < 8 && #[trigger] TILE_WIDTHS_NS[i] == w;
            if i < 7 {
                lemma_widths_ascend(i, 7);
            }
        }
    } else {
        let w = finest_at_least(b, 8)->0;
        let i = choose|i: int| 0 <= i < 8 && #[trigger] TILE_WIDTHS_NS[i] == w;
        assert(TILE_WIDTHS_NS[i] >= a);
    }
}

/// The finest tile is a microsecond wide and the coarsest a little over two
/// seconds. A range drawn so that a pixel covers no more than a microsecond gets the
/// finest, and one drawn so that it covers more than the coarsest gets that.
pub proof fn tiles_span_microseconds_to_seconds(range_ns: int, pixels: int)
    requires
        range_ns >= 0,
        pixels > 0,
    ensures
        TILE_WIDTHS_NS[0] == 1_000,
        TILE_WIDTHS_NS[7] == 2_097_152_000,
        range_ns / pixels <= 1_000 ==> tile_for(range_ns, pixels) == 1_000,
        1_000 < range_ns / pixels <= 8_000 ==> tile_for(range_ns, pixels) == 8_000,
        8_000 < range_ns / pixels <= 64_000 ==> tile_for(range_ns, pixels) == 64_000,
        64_000 < range_ns / pixels <= 512_000 ==> tile_for(range_ns, pixels) == 512_000,
        512_000 < range_ns / pixels <= 4_096_000 ==> tile_for(range_ns, pixels) == 4_096_000,
        4_096_000 < range_ns / pixels <= 32_768_000 ==> tile_for(range_ns, pixels) == 32_768_000,
        32_768_000 < range_ns / pixels <= 262_144_000 ==> tile_for(range_ns, pixels)
            == 262_144_000,
        range_ns / pixels > 262_144_000 ==> tile_for(range_ns, pixels) == 2_097_152_000,
        tile_for(range_ns, 0) == 1_000,
{
    reveal_with_fuel(finest_at_least, 9);
}

} // verus!
