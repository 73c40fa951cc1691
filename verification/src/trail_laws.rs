//! What holds of the trail map over whole maps and over several steps.

use vstd::prelude::*;

use crate::color::{blue_of, green_of, red_of, rgb};
use crate::config::SIM_SIZE;
use crate::trail_map::{
    all_on_grid, apply_op, blur_count, blurred_map, initial_state, run_ops, MapOp, channel_of, columns_from, columns_to, deposited,
    evaporation_amount, faded_average, mark_index, neighborhood_size, neighborhood_total,
    on_grid, row_total, rows_from, rows_to, window_total, TrailMark, GRID_HEIGHT, GRID_WIDTH,
};

verus! {

// ---------------------------------------------------------------------------
// Deposits
// ---------------------------------------------------------------------------

/// A deposit changes no pixel but those at the cells of its marks, and keeps
/// the length of the map.
pub proof fn lemma_deposit_frame(pixels: Seq<u32>, marks: Seq<TrailMark>, index: int)
    requires
        pixels.len() == SIM_SIZE,
        0 <= index < SIM_SIZE,
        forall|j: int| 0 <= j < marks.len() && on_grid(marks[j]) ==> mark_index(#[trigger] marks[j]) != index,
    ensures
        deposited(pixels, marks).len() == pixels.len(),
        deposited(pixels, marks)[index] == pixels[index],
    decreases marks.len(),
{
    if marks.len() > 0 && on_grid(marks[0]) {
        lemma_mark_index_in_map(marks[0]);
        let next = pixels.update(mark_index(marks[0]), marks[0].color);
        let rest = marks.drop_first();
        assert forall|j: int| 0 <= j < rest.len() && on_grid(rest[j]) implies mark_index(
            #[trigger] rest[j],
        ) != index by {
            assert(rest[j] == marks[j + 1]);
        }
        lemma_deposit_frame(next, rest, index);
    }
}

/// The cell that a mark on the grid names lies in the map.
pub proof fn lemma_mark_index_in_map(mark: TrailMark)
    requires
        on_grid(mark),
    ensures
        0 <= mark_index(mark) < SIM_SIZE,
{
}

/// After a deposit in which every mark is on the grid, the pixel at the
/// cell of a mark that no later mark names holds that mark's colour: later
/// blobs overwrite earlier ones.
pub proof fn lemma_deposit_last_mark_wins(pixels: Seq<u32>, marks: Seq<TrailMark>, j: int)
    requires
        pixels.len() == SIM_SIZE,
        all_on_grid(marks),
        0 <= j < marks.len(),
        forall|m: int| j < m < marks.len() ==> mark_index(#[trigger] marks[m]) != mark_index(marks[j]),
    ensures
        deposited(pixels, marks)[mark_index(marks[j])] == marks[j].color,
    decreases marks.len(),
{
    assert(on_grid(marks[0]));
    assert(on_grid(marks[j]));
    lemma_mark_index_in_map(marks[0]);
    lemma_mark_index_in_map(marks[j]);
    let next = pixels.update(mark_index(marks[0]), marks[0].color);
    let rest = marks.drop_first();
    assert forall|m: int| 0 <= m < rest.len() implies #[trigger] on_grid(rest[m]) by {
        assert(rest[m] == marks[m + 1]);
    }
    if j == 0 {
        assert forall|m: int| 0 <= m < rest.len() && on_grid(rest[m]) implies mark_index(
            #[trigger] rest[m],
        ) != mark_index(marks[0]) by {
            assert(rest[m] == marks[m + 1]);
        }
        lemma_deposit_frame(next, rest, mark_index(marks[0]));
    } else {
        assert forall|m: int| j - 1 < m < rest.len() implies mark_index(#[trigger] rest[m])
            != mark_index(rest[j - 1]) by {
            assert(rest[m] == marks[m + 1]);
        }
        lemma_deposit_last_mark_wins(next, rest, j - 1);
    }
}

/// A deposit that stops at an off-grid mark leaves the map as the marks
/// before it, all on the grid, wrote it: the colours written for preceding
/// blobs remain.
pub proof fn lemma_deposit_stops_at_first_off_grid(pixels: Seq<u32>, marks: Seq<TrailMark>, k: int)
    requires
        0 <= k < marks.len(),
        !on_grid(marks[k]),
        forall|j: int| 0 <= j < k ==> #[trigger] on_grid(marks[j]),
    ensures
        all_on_grid(marks.take(k)),
        deposited(pixels, marks) == deposited(pixels, marks.take(k)),
    decreases marks.len(),
{
    if k == 0 {
        assert(marks.take(0) =~= Seq::<TrailMark>::empty());
    } else {
        let next = pixels.update(mark_index(marks[0]), marks[0].color);
        let rest = marks.drop_first();
        assert forall|j: int| 0 <= j < k - 1 implies #[trigger] on_grid(rest[j]) by {
            assert(rest[j] == marks[j + 1]);
        }
        lemma_deposit_stops_at_first_off_grid(next, rest, k - 1);
        assert(marks.take(k).drop_first() =~= rest.take(k - 1));
        assert(marks.take(k)[0] == marks[0]);
    }
}

/// A mark names the cell `(x, y)` of the grid, at index `y * 2560 + x`,
/// exactly when its cell is `(x, y)` with `x < 2560` and `y < 1440`.
pub proof fn lemma_mark_cells(mark: TrailMark)
    ensures
        on_grid(mark) <==> (mark.cell matches Some((x, y)) && x < 2560 && y < 1440),
        mark.cell matches Some((x, y)) ==> mark_index(mark) == y * 2560 + x,
{
}

/// Depositing a single mark writes its colour at index `y * 2560 + x` of
/// its cell `(x, y)` when that cell is on the grid, and changes nothing
/// otherwise.
pub proof fn lemma_single_mark_deposit(pixels: Seq<u32>, mark: TrailMark)
    ensures
        deposited(pixels, seq![mark]) == match mark.cell {
            Some((x, y)) => if x < 2560 && y < 1440 {
                pixels.update(y * 2560 + x, mark.color)
            } else {
                pixels
            },
            None => pixels,
        },
{
    let one = seq![mark];
    assert(one.drop_first() =~= Seq::<TrailMark>::empty());
    assert(one[0] == mark);
    if on_grid(mark) {
        let written = pixels.update(mark_index(mark), mark.color);
        assert(deposited(written, one.drop_first()) == written);
        assert(deposited(pixels, one) == written);
    } else {
        assert(deposited(pixels, one) == pixels);
    }
}

/// Each channel of a pixel is its byte in big-endian order: channel 0 is
/// red, the third byte from the bottom; 1 is green; 2 is blue, the lowest.
pub proof fn lemma_channel_bytes(pixel: u32)
    ensures
        channel_of(pixel, 0) == (pixel as int / 65536) % 256,
        channel_of(pixel, 1) == (pixel as int / 256) % 256,
        channel_of(pixel, 2) == pixel as int % 256,
{
}

/// A deposit keeps the length of the map.
pub proof fn lemma_deposit_len(pixels: Seq<u32>, marks: Seq<TrailMark>)
    requires
        pixels.len() == SIM_SIZE,
    ensures
        deposited(pixels, marks).len() == pixels.len(),
    decreases marks.len(),
{
    if marks.len() > 0 && on_grid(marks[0]) {
        lemma_mark_index_in_map(marks[0]);
        lemma_deposit_len(pixels.update(mark_index(marks[0]), marks[0].color), marks.drop_first());
    }
}

/// Depositing `a` and then `b` is depositing `a + b`: when every mark of
/// `a` is on the grid, the two deposits write the same map as the one, and
/// the one succeeds exactly when both do; when `a` has an off-grid mark, the
/// one deposit stops inside `a`, where the first of the two stops.
pub proof fn lemma_deposit_composes(pixels: Seq<u32>, a: Seq<TrailMark>, b: Seq<TrailMark>)
    ensures
        all_on_grid(a) ==> deposited(pixels, a + b) == deposited(deposited(pixels, a), b),
        !all_on_grid(a) ==> deposited(pixels, a + b) == deposited(pixels, a),
        all_on_grid(a + b) <==> all_on_grid(a) && all_on_grid(b),
    decreases a.len(),
{
    assert forall|j: int| 0 <= j < b.len() implies (a + b)[a.len() + j] == b[j] by {}
    assert forall|j: int| 0 <= j < a.len() implies (a + b)[j] == a[j] by {}
    if a.len() == 0 {
        assert(a + b =~= b);
    } else {
        let rest = a.drop_first();
        assert((a + b)[0] == a[0]);
        assert((a + b).drop_first() =~= rest + b);
        if on_grid(a[0]) {
            let next = pixels.update(mark_index(a[0]), a[0].color);
            lemma_deposit_composes(next, rest, b);
            if all_on_grid(a) {
                assert forall|j: int| 0 <= j < rest.len() implies #[trigger] on_grid(rest[j]) by {
                    assert(rest[j] == a[j + 1]);
                }
            }
            if all_on_grid(rest) {
                assert forall|j: int| 0 <= j < a.len() implies #[trigger] on_grid(a[j]) by {
                    if j > 0 {
                        assert(a[j] == rest[j - 1]);
                    }
                }
            }
            if all_on_grid(a + b) {
                assert forall|j: int| 0 <= j < (rest + b).len() implies #[trigger] on_grid(
                    (rest + b)[j],
                ) by {
                    assert((rest + b)[j] == (a + b)[j + 1]);
                }
            }
            if all_on_grid(rest + b) {
                assert forall|j: int| 0 <= j < (a + b).len() implies #[trigger] on_grid(
                    (a + b)[j],
                ) by {
                    if j > 0 {
                        assert((a + b)[j] == (rest + b)[j - 1]);
                    }
                }
            }
        } else {
            assert(!on_grid((a + b)[0]));
        }
    }
}

/// The index of the last mark that names cell index `index`, or -1 when no
/// mark does.
pub open spec fn last_mark_at(marks: Seq<TrailMark>, index: int) -> int
    decreases marks.len(),
{
    if marks.len() == 0 {
        -1
    } else if mark_index(marks.last()) == index {
        marks.len() - 1
    } else {
        last_mark_at(marks.drop_last(), index)
    }
}

/// After a deposit whose marks are all on the grid, each pixel holds the
/// colour of the last mark on its cell, or its old value where no mark is.
pub proof fn lemma_deposit_pointwise(pixels: Seq<u32>, marks: Seq<TrailMark>, index: int)
    requires
        all_on_grid(marks),
        pixels.len() == SIM_SIZE,
        0 <= index < SIM_SIZE,
    ensures
        -1 <= last_mark_at(marks, index) < marks.len(),
        last_mark_at(marks, index) >= 0 ==> mark_index(marks[last_mark_at(marks, index)]) == index,
        deposited(pixels, marks)[index] == if last_mark_at(marks, index) >= 0 {
            marks[last_mark_at(marks, index)].color
        } else {
            pixels[index]
        },
    decreases marks.len(),
{
    if marks.len() > 0 {
        let front = marks.drop_last();
        let last = marks.last();
        assert(on_grid(marks[marks.len() - 1]));
        assert forall|j: int| 0 <= j < front.len() implies #[trigger] on_grid(front[j]) by {
            assert(front[j] == marks[j]);
        }
        lemma_deposit_pointwise(pixels, front, index);
        assert(front + seq![last] =~= marks);
        lemma_deposit_composes(pixels, front, seq![last]);
        let middle = deposited(pixels, front);
        lemma_deposit_len(pixels, front);
        let tail = seq![last];
        lemma_mark_index_in_map(last);
        assert(tail.drop_first() =~= Seq::<TrailMark>::empty());
        assert(deposited(middle, tail) == deposited(
            middle.update(mark_index(last), last.color),
            tail.drop_first(),
        ));
        if last_mark_at(front, index) >= 0 {
            assert(front[last_mark_at(front, index)] == marks[last_mark_at(front, index)]);
        }
    }
}

/// Depositing the same marks twice, all on the grid, changes nothing the
/// first deposit did not: the second deposit succeeds and leaves the map as
/// it was.
pub proof fn lemma_deposit_idempotent(pixels: Seq<u32>, marks: Seq<TrailMark>)
    requires
        pixels.len() == SIM_SIZE,
        all_on_grid(marks),
    ensures
        deposited(deposited(pixels, marks), marks) == deposited(pixels, marks),
{
    let once = deposited(pixels, marks);
    let twice = deposited(once, marks);
    lemma_deposit_len(pixels, marks);
    lemma_deposit_len(once, marks);
    assert forall|index: int| 0 <= index < twice.len() implies twice[index] == once[index] by {
        lemma_deposit_pointwise(pixels, marks, index);
        lemma_deposit_pointwise(once, marks, index);
    }
    assert(twice =~= once);
}

// ---------------------------------------------------------------------------
// Evaporation
// ---------------------------------------------------------------------------

/// Every map reached from a new one by any sequence of deposits (whether
/// they succeed or not) and blurs has one pixel per cell of the grid, and
/// its next blur evaporates exactly when an even number of blurs came
/// before: deposits never change the evaporation phase.
pub proof fn lemma_reachable_maps(ops: Seq<MapOp>)
    ensures
        run_ops(initial_state(), ops).pixels.len() == SIM_SIZE,
        run_ops(initial_state(), ops).evaporates == (blur_count(ops) % 2 == 0),
    decreases ops.len(),
{
    if ops.len() > 0 {
        lemma_reachable_maps(ops.drop_last());
        let before = run_ops(initial_state(), ops.drop_last());
        match ops.last() {
            MapOp::Deposit(marks) => {
                lemma_deposit_len(before.pixels, marks);
            },
            MapOp::Blur => {},
        }
    }
}

/// The `k`-th blur from a new map, counting from one, takes `k % 2` units
/// off each channel: the odd-numbered blurs evaporate and the even-numbered
/// ones do not, whatever deposits come between them.
pub proof fn lemma_kth_blur_evaporation(ops: Seq<MapOp>)
    requires
        ops.len() > 0,
        ops.last() is Blur,
    ensures
        blur_count(ops) >= 1,
        run_ops(initial_state(), ops).pixels == blurred_map(
            run_ops(initial_state(), ops.drop_last()).pixels,
            (blur_count(ops) % 2) as int,
        ),
{
    lemma_reachable_maps(ops.drop_last());
}

/// Whether the map evaporates after `steps` blur steps, starting from a map
/// whose next step evaporates when `first` holds.
pub open spec fn evaporates_after(first: bool, steps: nat) -> bool
    decreases steps,
{
    if steps == 0 {
        first
    } else {
        !evaporates_after(first, (steps - 1) as nat)
    }
}

/// Starting from a new map, the blur steps evaporate one unit every other
/// step, beginning with the first: step `k` (counting from zero) evaporates
/// exactly when `k` is even.
pub proof fn lemma_evaporation_alternates(steps: nat)
    ensures
        evaporates_after(true, steps) == (steps % 2 == 0),
        evaporation_amount(evaporates_after(true, steps)) + evaporation_amount(
            evaporates_after(true, steps + 1),
        ) == 1,
    decreases steps,
{
    if steps > 0 {
        lemma_evaporation_alternates((steps - 1) as nat);
    }
}

// ---------------------------------------------------------------------------
// The blur
// ---------------------------------------------------------------------------

/// Each channel of a pixel is a byte.
pub proof fn lemma_channel_is_byte(pixel: u32, k: int)
    ensures
        0 <= channel_of(pixel, k) < 256,
{
}

/// A row sum of a channel lies between 0 and 255 per cell.
pub proof fn lemma_row_total_bounds(pixels: Seq<u32>, k: int, row: int, c_lo: int, c_hi: int)
    requires
        c_lo <= c_hi + 1,
    ensures
        0 <= row_total(pixels, k, row, c_lo, c_hi) <= 255 * (c_hi - c_lo + 1),
    decreases c_hi - c_lo + 1,
{
    if c_hi >= c_lo {
        lemma_row_total_bounds(pixels, k, row, c_lo, c_hi - 1);
        lemma_channel_is_byte(pixels[row * GRID_WIDTH + c_hi], k);
    }
}

/// A window sum of a channel lies between 0 and 255 per cell.
pub proof fn lemma_window_total_bounds(
    pixels: Seq<u32>,
    k: int,
    r_lo: int,
    r_hi: int,
    c_lo: int,
    c_hi: int,
)
    requires
        r_lo <= r_hi + 1,
        c_lo <= c_hi + 1,
    ensures
        0 <= window_total(pixels, k, r_lo, r_hi, c_lo, c_hi) <= 255 * ((r_hi - r_lo + 1) * (c_hi
            - c_lo + 1)),
    decreases r_hi - r_lo + 1,
{
    if r_hi >= r_lo {
        lemma_window_total_bounds(pixels, k, r_lo, r_hi - 1, c_lo, c_hi);
        lemma_row_total_bounds(pixels, k, r_hi, c_lo, c_hi);
        let w = c_hi - c_lo + 1;
        assert((r_hi - r_lo) * w + w == (r_hi - r_lo + 1) * w) by (nonlinear_arith);
    }
}

/// The neighbourhood of a cell of the grid is a non-empty rectangle of at
/// most 3 by 3 cells inside the grid.
pub proof fn lemma_neighborhood_in_grid(i: int)
    requires
        0 <= i < SIM_SIZE,
    ensures
        0 <= rows_from(i) <= rows_to(i) < GRID_HEIGHT,
        0 <= columns_from(i) <= columns_to(i) < GRID_WIDTH,
        rows_to(i) - rows_from(i) <= 2,
        columns_to(i) - columns_from(i) <= 2,
        1 <= neighborhood_size(i) <= 9,
{
    let rows = rows_to(i) - rows_from(i) + 1;
    let columns = columns_to(i) - columns_from(i) + 1;
    assert(1 <= rows * columns <= 9) by (nonlinear_arith)
        requires 1 <= rows <= 3, 1 <= columns <= 3;
}

/// A channel average of a neighbourhood is a byte, so no pixel that the blur
/// writes sets the top byte: the blurred map holds colours only.
pub proof fn lemma_blurred_map_holds_colors(pixels: Seq<u32>, evaporation: int, i: int)
    requires
        pixels.len() == SIM_SIZE,
        0 <= i < SIM_SIZE,
        evaporation >= 0,
    ensures
        0 <= blurred_map(pixels, evaporation)[i] < 0x100_0000,
        red_of(blurred_map(pixels, evaporation)[i]) == faded_average(
            neighborhood_total(pixels, 0, i),
            neighborhood_size(i),
            evaporation,
        ),
        green_of(blurred_map(pixels, evaporation)[i]) == faded_average(
            neighborhood_total(pixels, 1, i),
            neighborhood_size(i),
            evaporation,
        ),
        blue_of(blurred_map(pixels, evaporation)[i]) == faded_average(
            neighborhood_total(pixels, 2, i),
            neighborhood_size(i),
            evaporation,
        ),
{
    lemma_neighborhood_in_grid(i);
    let n = neighborhood_size(i);
    let (rl, rh, cl, ch) = (rows_from(i), rows_to(i), columns_from(i), columns_to(i));
    lemma_window_total_bounds(pixels, 0, rl, rh, cl, ch);
    lemma_window_total_bounds(pixels, 1, rl, rh, cl, ch);
    lemma_window_total_bounds(pixels, 2, rl, rh, cl, ch);
    let r = neighborhood_total(pixels, 0, i);
    let g = neighborhood_total(pixels, 1, i);
    let b = neighborhood_total(pixels, 2, i);
    assert(0 <= r / n <= 255 && 0 <= g / n <= 255 && 0 <= b / n <= 255) by (nonlinear_arith)
        requires 0 <= r <= 255 * n, 0 <= g <= 255 * n, 0 <= b <= 255 * n, n >= 1;
    let fr = faded_average(r, n, evaporation);
    let fg = faded_average(g, n, evaporation);
    let fb = faded_average(b, n, evaporation);
    crate::color::lemma_channels_of_rgb(fr as u8, fg as u8, fb as u8);
}

/// The sum of a channel along a stretch of a row of a uniform map is the
/// channel of its colour times the length of the stretch.
pub proof fn lemma_row_total_uniform(
    pixels: Seq<u32>,
    color: u32,
    k: int,
    row: int,
    c_lo: int,
    c_hi: int,
)
    requires
        pixels.len() == SIM_SIZE,
        forall|j: int| 0 <= j < pixels.len() ==> #[trigger] pixels[j] == color,
        0 <= row < GRID_HEIGHT,
        0 <= c_lo <= c_hi + 1,
        c_hi < GRID_WIDTH,
    ensures
        row_total(pixels, k, row, c_lo, c_hi) == (c_hi - c_lo + 1) * channel_of(color, k),
    decreases c_hi - c_lo + 1,
{
    if c_hi >= c_lo {
        lemma_row_total_uniform(pixels, color, k, row, c_lo, c_hi - 1);
        assert(0 <= row * GRID_WIDTH + c_hi < SIM_SIZE);
        assert(pixels[row * GRID_WIDTH + c_hi] == color);
        let c = channel_of(color, k);
        assert((c_hi - c_lo) * c + c == (c_hi - c_lo + 1) * c) by (nonlinear_arith);
        assert(row_total(pixels, k, row, c_lo, c_hi) == row_total(pixels, k, row, c_lo, c_hi - 1)
            + c);
    } else {
        let c = channel_of(color, k);
        assert((c_hi - c_lo + 1) * c == 0) by (nonlinear_arith)
            requires c_hi - c_lo + 1 == 0;
    }
}

/// The sum of a channel over a rectangle of a uniform map is the channel of
/// its colour times the area of the rectangle.
pub proof fn lemma_window_total_uniform(
    pixels: Seq<u32>,
    color: u32,
    k: int,
    r_lo: int,
    r_hi: int,
    c_lo: int,
    c_hi: int,
)
    requires
        pixels.len() == SIM_SIZE,
        forall|j: int| 0 <= j < pixels.len() ==> #[trigger] pixels[j] == color,
        0 <= r_lo <= r_hi + 1,
        r_hi < GRID_HEIGHT,
        0 <= c_lo <= c_hi + 1,
        c_hi < GRID_WIDTH,
    ensures
        window_total(pixels, k, r_lo, r_hi, c_lo, c_hi) == ((r_hi - r_lo + 1) * (c_hi - c_lo + 1))
            * channel_of(color, k),
    decreases r_hi - r_lo + 1,
{
    if r_hi >= r_lo {
        lemma_window_total_uniform(pixels, color, k, r_lo, r_hi - 1, c_lo, c_hi);
        lemma_row_total_uniform(pixels, color, k, r_hi, c_lo, c_hi);
        let c = channel_of(color, k);
        let w = c_hi - c_lo + 1;
        let h = r_hi - r_lo;
        assert((h * w) * c + w * c == ((h + 1) * w) * c) by (nonlinear_arith);
    } else {
        let c = channel_of(color, k);
        let w = c_hi - c_lo + 1;
        assert(((r_hi - r_lo + 1) * w) * c == 0) by (nonlinear_arith)
            requires r_hi - r_lo + 1 == 0;
    }
}

/// Evaporation only darkens: a channel average faded by more evaporation is
/// never brighter.
pub proof fn lemma_evaporation_only_darkens(total: int, count: int, less: int, more: int)
    requires
        0 <= less <= more,
    ensures
        faded_average(total, count, more) <= faded_average(total, count, less),
        faded_average(total, count, more) >= 0,
{
}

/// One channel of a colour less the evaporation, no lower than zero.
pub open spec fn faded(channel: int, evaporation: int) -> int {
    if channel > evaporation {
        channel - evaporation
    } else {
        0
    }
}

/// Blurring a map of one colour leaves it of that colour, less the
/// evaporation in each channel: with no evaporation a uniform map is a fixed
/// point of the blur, and an evaporating step takes exactly one unit off each
/// channel that is not already zero.
pub proof fn lemma_uniform_map_blur(pixels: Seq<u32>, color: u32, evaporation: int)
    requires
        pixels.len() == SIM_SIZE,
        forall|j: int| 0 <= j < pixels.len() ==> #[trigger] pixels[j] == color,
        evaporation >= 0,
    ensures
        blurred_map(pixels, evaporation) == Seq::new(
            SIM_SIZE as nat,
            |i: int|
                rgb(
                    faded(red_of(color), evaporation),
                    faded(green_of(color), evaporation),
                    faded(blue_of(color), evaporation),
                ) as u32,
        ),
{
    let expected = Seq::new(
        SIM_SIZE as nat,
        |i: int|
            rgb(
                faded(red_of(color), evaporation),
                faded(green_of(color), evaporation),
                faded(blue_of(color), evaporation),
            ) as u32,
    );
    assert forall|i: int| 0 <= i < SIM_SIZE implies #[trigger] blurred_map(pixels, evaporation)[i]
        == expected[i] by {
        lemma_neighborhood_in_grid(i);
        let n = neighborhood_size(i);
        let (rl, rh, cl, ch) = (rows_from(i), rows_to(i), columns_from(i), columns_to(i));
        lemma_window_total_uniform(pixels, color, 0, rl, rh, cl, ch);
        lemma_window_total_uniform(pixels, color, 1, rl, rh, cl, ch);
        lemma_window_total_uniform(pixels, color, 2, rl, rh, cl, ch);
        let r = red_of(color);
        let g = green_of(color);
        let b = blue_of(color);
        assert((n * r) / n == r && (n * g) / n == g && (n * b) / n == b) by (nonlinear_arith)
            requires n >= 1;
        assert(neighborhood_total(pixels, 0, i) == n * r);
        assert(neighborhood_total(pixels, 1, i) == n * g);
        assert(neighborhood_total(pixels, 2, i) == n * b);
    }
    assert(blurred_map(pixels, evaporation) =~= expected);
}

// ---------------------------------------------------------------------------
// Monotonicity of the blur
// ---------------------------------------------------------------------------

/// Every channel of every pixel of `darker` is at most that of `brighter`.
pub open spec fn channels_at_most(darker: Seq<u32>, brighter: Seq<u32>) -> bool {
    &&& darker.len() == brighter.len()
    &&& forall|j: int, k: int|
        0 <= j < darker.len() && 0 <= k < 3 ==> #[trigger] channel_of(darker[j], k) <= channel_of(
            brighter[j],
            k,
        )
}

/// Row sums of a darker map are no larger.
pub proof fn lemma_row_total_monotone(
    darker: Seq<u32>,
    brighter: Seq<u32>,
    k: int,
    row: int,
    c_lo: int,
    c_hi: int,
)
    requires
        darker.len() == SIM_SIZE,
        channels_at_most(darker, brighter),
        0 <= k < 3,
        0 <= row < GRID_HEIGHT,
        0 <= c_lo <= c_hi + 1,
        c_hi < GRID_WIDTH,
    ensures
        row_total(darker, k, row, c_lo, c_hi) <= row_total(brighter, k, row, c_lo, c_hi),
    decreases c_hi - c_lo + 1,
{
    if c_hi >= c_lo {
        lemma_row_total_monotone(darker, brighter, k, row, c_lo, c_hi - 1);
        let j = row * GRID_WIDTH + c_hi;
        assert(0 <= j < SIM_SIZE);
        assert(channel_of(darker[j], k) <= channel_of(brighter[j], k));
    }
}

/// Window sums of a darker map are no larger.
pub proof fn lemma_window_total_monotone(
    darker: Seq<u32>,
    brighter: Seq<u32>,
    k: int,
    r_lo: int,
    r_hi: int,
    c_lo: int,
    c_hi: int,
)
    requires
        darker.len() == SIM_SIZE,
        channels_at_most(darker, brighter),
        0 <= k < 3,
        0 <= r_lo <= r_hi + 1,
        r_hi < GRID_HEIGHT,
        0 <= c_lo <= c_hi + 1,
        c_hi < GRID_WIDTH,
    ensures
        window_total(darker, k, r_lo, r_hi, c_lo, c_hi) <= window_total(
            brighter,
            k,
            r_lo,
            r_hi,
            c_lo,
            c_hi,
        ),
    decreases r_hi - r_lo + 1,
{
    if r_hi >= r_lo {
        lemma_window_total_monotone(darker, brighter, k, r_lo, r_hi - 1, c_lo, c_hi);
        lemma_row_total_monotone(darker, brighter, k, r_hi, c_lo, c_hi);
    }
}

/// The blur is monotone: a map whose channels are everywhere no brighter,
/// blurred with at least as much evaporation, gives no brighter channel at
/// any cell.
pub proof fn lemma_blur_monotone(
    darker: Seq<u32>,
    brighter: Seq<u32>,
    more: int,
    less: int,
    i: int,
    k: int,
)
    requires
        darker.len() == SIM_SIZE,
        channels_at_most(darker, brighter),
        0 <= less <= more,
        0 <= i < SIM_SIZE,
        0 <= k < 3,
    ensures
        channel_of(blurred_map(darker, more)[i], k) <= channel_of(blurred_map(brighter, less)[i], k),
{
    lemma_neighborhood_in_grid(i);
    lemma_blurred_map_holds_colors(darker, more, i);
    lemma_blurred_map_holds_colors(brighter, less, i);
    lemma_window_total_monotone(
        darker,
        brighter,
        k,
        rows_from(i),
        rows_to(i),
        columns_from(i),
        columns_to(i),
    );
    let n = neighborhood_size(i);
    let dark_total = neighborhood_total(darker, k, i);
    let bright_total = neighborhood_total(brighter, k, i);
    vstd::arithmetic::div_mod::lemma_div_is_ordered(dark_total, bright_total, n);
}

// ---------------------------------------------------------------------------
// Left-right symmetry of the blur
// ---------------------------------------------------------------------------

/// `flipped` is `pixels` with every row reversed.
pub open spec fn mirrored_rows(pixels: Seq<u32>, flipped: Seq<u32>) -> bool {
    &&& pixels.len() == SIM_SIZE
    &&& flipped.len() == SIM_SIZE
    &&& forall|r: int, c: int|
        0 <= r < GRID_HEIGHT && 0 <= c < GRID_WIDTH ==> #[trigger] flipped[r * GRID_WIDTH + c]
            == pixels[r * GRID_WIDTH + (GRID_WIDTH - 1 - c)]
}

/// A row sum can be taken from its first cell on.
pub proof fn lemma_row_total_front(pixels: Seq<u32>, k: int, row: int, c_lo: int, c_hi: int)
    requires
        c_lo <= c_hi,
    ensures
        row_total(pixels, k, row, c_lo, c_hi) == channel_of(pixels[row * GRID_WIDTH + c_lo], k)
            + row_total(pixels, k, row, c_lo + 1, c_hi),
    decreases c_hi - c_lo,
{
    if c_hi > c_lo {
        lemma_row_total_front(pixels, k, row, c_lo, c_hi - 1);
        assert(row_total(pixels, k, row, c_lo + 1, c_hi) == row_total(
            pixels,
            k,
            row,
            c_lo + 1,
            c_hi - 1,
        ) + channel_of(pixels[row * GRID_WIDTH + c_hi], k));
    } else {
        assert(row_total(pixels, k, row, c_lo, c_hi - 1) == 0);
        assert(row_total(pixels, k, row, c_lo + 1, c_hi) == 0);
    }
}

/// The sum over a stretch of a reversed row is the sum over the mirrored
/// stretch of the row.
pub proof fn lemma_row_total_mirror(
    pixels: Seq<u32>,
    flipped: Seq<u32>,
    k: int,
    row: int,
    c_lo: int,
    c_hi: int,
)
    requires
        mirrored_rows(pixels, flipped),
        0 <= row < GRID_HEIGHT,
        0 <= c_lo <= c_hi + 1,
        c_hi < GRID_WIDTH,
    ensures
        row_total(flipped, k, row, c_lo, c_hi) == row_total(
            pixels,
            k,
            row,
            GRID_WIDTH - 1 - c_hi,
            GRID_WIDTH - 1 - c_lo,
        ),
    decreases c_hi - c_lo + 1,
{
    if c_hi >= c_lo {
        lemma_row_total_mirror(pixels, flipped, k, row, c_lo, c_hi - 1);
        assert(flipped[row * GRID_WIDTH + c_hi] == pixels[row * GRID_WIDTH + (GRID_WIDTH - 1
            - c_hi)]);
        lemma_row_total_front(pixels, k, row, GRID_WIDTH - 1 - c_hi, GRID_WIDTH - 1 - c_lo);
    }
}

/// The sum over a rectangle of the row-reversed map is the sum over the
/// mirrored rectangle.
pub proof fn lemma_window_total_mirror(
    pixels: Seq<u32>,
    flipped: Seq<u32>,
    k: int,
    r_lo: int,
    r_hi: int,
    c_lo: int,
    c_hi: int,
)
    requires
        mirrored_rows(pixels, flipped),
        0 <= r_lo <= r_hi + 1,
        r_hi < GRID_HEIGHT,
        0 <= c_lo <= c_hi + 1,
        c_hi < GRID_WIDTH,
    ensures
        window_total(flipped, k, r_lo, r_hi, c_lo, c_hi) == window_total(
            pixels,
            k,
            r_lo,
            r_hi,
            GRID_WIDTH - 1 - c_hi,
            GRID_WIDTH - 1 - c_lo,
        ),
    decreases r_hi - r_lo + 1,
{
    if r_hi >= r_lo {
        lemma_window_total_mirror(pixels, flipped, k, r_lo, r_hi - 1, c_lo, c_hi);
        lemma_row_total_mirror(pixels, flipped, k, r_hi, c_lo, c_hi);
    }
}

/// The blur treats the left and right borders alike: blurring a map with
/// every row reversed gives the blurred map with every row reversed.
pub proof fn lemma_blur_mirror(pixels: Seq<u32>, flipped: Seq<u32>, evaporation: int, x: int, y: int)
    requires
        mirrored_rows(pixels, flipped),
        0 <= x < GRID_WIDTH,
        0 <= y < GRID_HEIGHT,
    ensures
        blurred_map(flipped, evaporation)[y * GRID_WIDTH + (GRID_WIDTH - 1 - x)] == blurred_map(
            pixels,
            evaporation,
        )[y * GRID_WIDTH + x],
{
    let w = GRID_WIDTH as int;
    let i = y * w + x;
    let m = y * w + (w - 1 - x);
    vstd::arithmetic::div_mod::lemma_fundamental_div_mod_converse(i, w, y, x);
    vstd::arithmetic::div_mod::lemma_fundamental_div_mod_converse(m, w, y, w - 1 - x);
    assert(0 <= i < SIM_SIZE && 0 <= m < SIM_SIZE);
    lemma_neighborhood_in_grid(i);
    lemma_neighborhood_in_grid(m);
    assert(rows_from(m) == rows_from(i) && rows_to(m) == rows_to(i));
    assert(columns_from(m) == w - 1 - columns_to(i));
    assert(columns_to(m) == w - 1 - columns_from(i));
    assert(neighborhood_size(m) == neighborhood_size(i));
    lemma_window_total_mirror(pixels, flipped, 0, rows_from(m), rows_to(m), columns_from(m), columns_to(m));
    lemma_window_total_mirror(pixels, flipped, 1, rows_from(m), rows_to(m), columns_from(m), columns_to(m));
    lemma_window_total_mirror(pixels, flipped, 2, rows_from(m), rows_to(m), columns_from(m), columns_to(m));
}

// ---------------------------------------------------------------------------
// The neighbourhood, cell by cell
// ---------------------------------------------------------------------------

/// The neighbourhood of the cell `(x, y)` of the grid is rows
/// `max(y - 1, 0) ..= min(y + 1, 1439)` and columns
/// `max(x - 1, 0) ..= min(x + 1, 2559)`: a cell of the grid is in it exactly
/// when it is at most one row and one column away.
pub proof fn lemma_neighborhood_cells(x: int, y: int, r: int, c: int)
    requires
        0 <= x < 2560,
        0 <= y < 1440,
    ensures
        rows_from(y * 2560 + x) == if y >= 1 {
            y - 1
        } else {
            0
        },
        rows_to(y * 2560 + x) == if y + 1 <= 1439 {
            y + 1
        } else {
            1439
        },
        columns_from(y * 2560 + x) == if x >= 1 {
            x - 1
        } else {
            0
        },
        columns_to(y * 2560 + x) == if x + 1 <= 2559 {
            x + 1
        } else {
            2559
        },
        0 <= r < 1440 && 0 <= c < 2560 ==> ((rows_from(y * 2560 + x) <= r <= rows_to(y * 2560 + x)
            && columns_from(y * 2560 + x) <= c <= columns_to(y * 2560 + x)) <==> (y - 1 <= r <= y
            + 1 && x - 1 <= c <= x + 1)),
{
    vstd::arithmetic::div_mod::lemma_fundamental_div_mod_converse(y * 2560 + x, 2560, y, x);
}

// ---------------------------------------------------------------------------
// Top-bottom symmetry of the blur
// ---------------------------------------------------------------------------

/// `flipped` is `pixels` upside down: row `r` of one is row `1439 - r` of
/// the other.
pub open spec fn mirrored_columns(pixels: Seq<u32>, flipped: Seq<u32>) -> bool {
    &&& pixels.len() == SIM_SIZE
    &&& flipped.len() == SIM_SIZE
    &&& forall|r: int, c: int|
        0 <= r < GRID_HEIGHT && 0 <= c < GRID_WIDTH ==> #[trigger] flipped[r * GRID_WIDTH + c]
            == pixels[(GRID_HEIGHT - 1 - r) * GRID_WIDTH + c]
}

/// A row of the upside-down map sums as the mirrored row of the map.
pub proof fn lemma_row_total_upside_down(
    pixels: Seq<u32>,
    flipped: Seq<u32>,
    k: int,
    row: int,
    c_lo: int,
    c_hi: int,
)
    requires
        mirrored_columns(pixels, flipped),
        0 <= row < GRID_HEIGHT,
        0 <= c_lo <= c_hi + 1,
        c_hi < GRID_WIDTH,
    ensures
        row_total(flipped, k, row, c_lo, c_hi) == row_total(
            pixels,
            k,
            GRID_HEIGHT - 1 - row,
            c_lo,
            c_hi,
        ),
    decreases c_hi - c_lo + 1,
{
    if c_hi >= c_lo {
        lemma_row_total_upside_down(pixels, flipped, k, row, c_lo, c_hi - 1);
        assert(flipped[row * GRID_WIDTH + c_hi] == pixels[(GRID_HEIGHT - 1 - row) * GRID_WIDTH
            + c_hi]);
    }
}

/// A window sum can be taken from its first row on.
pub proof fn lemma_window_total_front(
    pixels: Seq<u32>,
    k: int,
    r_lo: int,
    r_hi: int,
    c_lo: int,
    c_hi: int,
)
    requires
        r_lo <= r_hi,
    ensures
        window_total(pixels, k, r_lo, r_hi, c_lo, c_hi) == row_total(pixels, k, r_lo, c_lo, c_hi)
            + window_total(pixels, k, r_lo + 1, r_hi, c_lo, c_hi),
    decreases r_hi - r_lo,
{
    if r_hi > r_lo {
        lemma_window_total_front(pixels, k, r_lo, r_hi - 1, c_lo, c_hi);
        assert(window_total(pixels, k, r_lo + 1, r_hi, c_lo, c_hi) == window_total(
            pixels,
            k,
            r_lo + 1,
            r_hi - 1,
            c_lo,
            c_hi,
        ) + row_total(pixels, k, r_hi, c_lo, c_hi));
    } else {
        assert(window_total(pixels, k, r_lo, r_hi - 1, c_lo, c_hi) == 0);
        assert(window_total(pixels, k, r_lo + 1, r_hi, c_lo, c_hi) == 0);
    }
}

/// A rectangle of the upside-down map sums as the mirrored rectangle.
pub proof fn lemma_window_total_upside_down(
    pixels: Seq<u32>,
    flipped: Seq<u32>,
    k: int,
    r_lo: int,
    r_hi: int,
    c_lo: int,
    c_hi: int,
)
    requires
        mirrored_columns(pixels, flipped),
        0 <= r_lo <= r_hi + 1,
        r_hi < GRID_HEIGHT,
        0 <= c_lo <= c_hi + 1,
        c_hi < GRID_WIDTH,
    ensures
        window_total(flipped, k, r_lo, r_hi, c_lo, c_hi) == window_total(
            pixels,
            k,
            GRID_HEIGHT - 1 - r_hi,
            GRID_HEIGHT - 1 - r_lo,
            c_lo,
            c_hi,
        ),
    decreases r_hi - r_lo + 1,
{
    if r_hi >= r_lo {
        lemma_window_total_upside_down(pixels, flipped, k, r_lo, r_hi - 1, c_lo, c_hi);
        lemma_row_total_upside_down(pixels, flipped, k, r_hi, c_lo, c_hi);
        lemma_window_total_front(
            pixels,
            k,
            GRID_HEIGHT - 1 - r_hi,
            GRID_HEIGHT - 1 - r_lo,
            c_lo,
            c_hi,
        );
    }
}

/// The blur treats the top and bottom borders alike: blurring the map upside
/// down gives the blurred map upside down.
pub proof fn lemma_blur_upside_down(
    pixels: Seq<u32>,
    flipped: Seq<u32>,
    evaporation: int,
    x: int,
    y: int,
)
    requires
        mirrored_columns(pixels, flipped),
        0 <= x < GRID_WIDTH,
        0 <= y < GRID_HEIGHT,
    ensures
        blurred_map(flipped, evaporation)[(GRID_HEIGHT - 1 - y) * GRID_WIDTH + x] == blurred_map(
            pixels,
            evaporation,
        )[y * GRID_WIDTH + x],
{
    let w = GRID_WIDTH as int;
    let i = y * w + x;
    let m = (GRID_HEIGHT - 1 - y) * w + x;
    vstd::arithmetic::div_mod::lemma_fundamental_div_mod_converse(i, w, y, x);
    vstd::arithmetic::div_mod::lemma_fundamental_div_mod_converse(m, w, GRID_HEIGHT - 1 - y, x);
    assert(0 <= i < SIM_SIZE && 0 <= m < SIM_SIZE);
    lemma_neighborhood_in_grid(i);
    lemma_neighborhood_in_grid(m);
    assert(columns_from(m) == columns_from(i) && columns_to(m) == columns_to(i));
    assert(rows_from(m) == GRID_HEIGHT - 1 - rows_to(i));
    assert(rows_to(m) == GRID_HEIGHT - 1 - rows_from(i));
    assert(neighborhood_size(m) == neighborhood_size(i));
    lemma_window_total_upside_down(pixels, flipped, 0, rows_from(m), rows_to(m), columns_from(m), columns_to(m));
    lemma_window_total_upside_down(pixels, flipped, 1, rows_from(m), rows_to(m), columns_from(m), columns_to(m));
    lemma_window_total_upside_down(pixels, flipped, 2, rows_from(m), rows_to(m), columns_from(m), columns_to(m));
}

// ---------------------------------------------------------------------------
// The blur of a single lit cell
// ---------------------------------------------------------------------------

/// The map is black but for the cell with index `q`, which holds `color`.
pub open spec fn single_lit_cell(pixels: Seq<u32>, q: int, color: u32) -> bool {
    &&& pixels.len() == SIM_SIZE
    &&& 0 <= q < SIM_SIZE
    &&& pixels[q] == color
    &&& forall|j: int| 0 <= j < SIM_SIZE && j != q ==> #[trigger] pixels[j] == 0
}

/// A stretch of a row of a map with a single lit cell sums to that cell's
/// channel when it holds the cell, and to zero otherwise.
pub proof fn lemma_row_total_single(
    pixels: Seq<u32>,
    qx: int,
    qy: int,
    color: u32,
    k: int,
    row: int,
    c_lo: int,
    c_hi: int,
)
    requires
        0 <= qx < GRID_WIDTH,
        0 <= qy < GRID_HEIGHT,
        single_lit_cell(pixels, qy * GRID_WIDTH + qx, color),
        0 <= row < GRID_HEIGHT,
        0 <= c_lo <= c_hi + 1,
        c_hi < GRID_WIDTH,
    ensures
        row_total(pixels, k, row, c_lo, c_hi) == if row == qy && c_lo <= qx <= c_hi {
            channel_of(color, k)
        } else {
            0
        },
    decreases c_hi - c_lo + 1,
{
    if c_hi >= c_lo {
        lemma_row_total_single(pixels, qx, qy, color, k, row, c_lo, c_hi - 1);
        let j = row * GRID_WIDTH + c_hi;
        assert(0 <= j < SIM_SIZE);
        if row == qy && c_hi == qx {
            assert(pixels[j] == color);
        } else {
            assert(j != qy * GRID_WIDTH + qx);
            assert(pixels[j] == 0);
            assert(channel_of(0u32, k) == 0);
        }
    }
}

/// A rectangle of a map with a single lit cell sums to that cell's channel
/// when it holds the cell, and to zero otherwise.
pub proof fn lemma_window_total_single(
    pixels: Seq<u32>,
    qx: int,
    qy: int,
    color: u32,
    k: int,
    r_lo: int,
    r_hi: int,
    c_lo: int,
    c_hi: int,
)
    requires
        0 <= qx < GRID_WIDTH,
        0 <= qy < GRID_HEIGHT,
        single_lit_cell(pixels, qy * GRID_WIDTH + qx, color),
        0 <= r_lo <= r_hi + 1,
        r_hi < GRID_HEIGHT,
        0 <= c_lo <= c_hi + 1,
        c_hi < GRID_WIDTH,
    ensures
        window_total(pixels, k, r_lo, r_hi, c_lo, c_hi) == if r_lo <= qy <= r_hi && c_lo <= qx
            <= c_hi {
            channel_of(color, k)
        } else {
            0
        },
    decreases r_hi - r_lo + 1,
{
    if r_hi >= r_lo {
        lemma_window_total_single(pixels, qx, qy, color, k, r_lo, r_hi - 1, c_lo, c_hi);
        lemma_row_total_single(pixels, qx, qy, color, k, r_hi, c_lo, c_hi);
    }
}

/// Blurring a map black but for one cell `(qx, qy)`: each channel of the
/// cell `(x, y)` is the lit cell's channel when it lies at most one row and
/// one column away (zero otherwise), divided by the number of grid cells at
/// most one row and one column from `(x, y)`, rounded down, less the
/// evaporation and no lower than zero.
pub proof fn lemma_blur_of_single_cell(
    pixels: Seq<u32>,
    qx: int,
    qy: int,
    color: u32,
    x: int,
    y: int,
    evaporation: int,
    k: int,
)
    requires
        0 <= qx < 2560,
        0 <= qy < 1440,
        single_lit_cell(pixels, qy * 2560 + qx, color),
        0 <= x < 2560,
        0 <= y < 1440,
        evaporation >= 0,
        0 <= k < 3,
    ensures
        ({
            let rows = (if y + 1 <= 1439 {
                y + 1
            } else {
                1439
            }) - (if y >= 1 {
                y - 1
            } else {
                0
            }) + 1;
            let columns = (if x + 1 <= 2559 {
                x + 1
            } else {
                2559
            }) - (if x >= 1 {
                x - 1
            } else {
                0
            }) + 1;
            let seen = if y - 1 <= qy <= y + 1 && x - 1 <= qx <= x + 1 {
                channel_of(color, k)
            } else {
                0
            };
            channel_of(blurred_map(pixels, evaporation)[y * 2560 + x], k) == if seen / (rows
                * columns) > evaporation {
                seen / (rows * columns) - evaporation
            } else {
                0
            }
        }),
{
    let i = y * 2560 + x;
    lemma_neighborhood_cells(x, y, qy, qx);
    lemma_neighborhood_in_grid(i);
    lemma_blurred_map_holds_colors(pixels, evaporation, i);
    lemma_window_total_single(
        pixels,
        qx,
        qy,
        color,
        k,
        rows_from(i),
        rows_to(i),
        columns_from(i),
        columns_to(i),
    );
}

} // verus!
