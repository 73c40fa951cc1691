//! The trail map: one pixel per simulation cell, written by the blobs and
//! blurred and evaporated once per frame.

use vstd::prelude::*;

use crate::color::{blue_of, color_channels, displayed_color, green_of, red_of, rgb};
use crate::config::{SIM_HEIGHT, SIM_SIZE, SIM_WIDTH};

verus! {

/// Number of columns of the grid, as a `usize`.
pub const GRID_WIDTH: usize = 2560;

/// Number of rows of the grid, as a `usize`.
pub const GRID_HEIGHT: usize = 1440;

/// The grid dimensions as `usize` agree with the configured ones.
pub proof fn lemma_grid_constants()
    ensures
        GRID_WIDTH == SIM_WIDTH,
        GRID_HEIGHT == SIM_HEIGHT,
        SIM_SIZE == GRID_WIDTH * GRID_HEIGHT,
{
}

// ---------------------------------------------------------------------------
// The blur, as mathematics
// ---------------------------------------------------------------------------

/// Channel `k` of a pixel: 0 is red, 1 is green, 2 is blue.
pub open spec fn channel_of(pixel: u32, k: int) -> int {
    if k == 0 {
        red_of(pixel)
    } else if k == 1 {
        green_of(pixel)
    } else {
        blue_of(pixel)
    }
}

/// The sum of channel `k` over the columns `c_lo ..= c_hi` of row `row`.
pub open spec fn row_total(pixels: Seq<u32>, k: int, row: int, c_lo: int, c_hi: int) -> int
    decreases c_hi - c_lo + 1,
{
    if c_hi < c_lo {
        0
    } else {
        row_total(pixels, k, row, c_lo, c_hi - 1) + channel_of(
            pixels[row * GRID_WIDTH + c_hi],
            k,
        )
    }
}

/// The sum of channel `k` over the rectangle of rows `r_lo ..= r_hi` and
/// columns `c_lo ..= c_hi`.
pub open spec fn window_total(
    pixels: Seq<u32>,
    k: int,
    r_lo: int,
    r_hi: int,
    c_lo: int,
    c_hi: int,
) -> int
    decreases r_hi - r_lo + 1,
{
    if r_hi < r_lo {
        0
    } else {
        window_total(pixels, k, r_lo, r_hi - 1, c_lo, c_hi) + row_total(
            pixels,
            k,
            r_hi,
            c_lo,
            c_hi,
        )
    }
}

/// The first row of the neighbourhood of the cell with index `i`.
pub open spec fn rows_from(i: int) -> int {
    let y = i / (GRID_WIDTH as int);
    if y == 0 {
        0
    } else {
        y - 1
    }
}

/// The last row of the neighbourhood of the cell with index `i`, clipped to the grid.
pub open spec fn rows_to(i: int) -> int {
    let y = i / (GRID_WIDTH as int);
    if y + 1 < GRID_HEIGHT - 1 {
        y + 1
    } else {
        GRID_HEIGHT - 1
    }
}

/// The first column of the neighbourhood of the cell with index `i`.
pub open spec fn columns_from(i: int) -> int {
    let x = i % (GRID_WIDTH as int);
    if x == 0 {
        0
    } else {
        x - 1
    }
}

/// The last column of the neighbourhood of the cell with index `i`, clipped
/// to the grid, so that a neighbourhood never wraps into another row.
pub open spec fn columns_to(i: int) -> int {
    let x = i % (GRID_WIDTH as int);
    if x + 1 < GRID_WIDTH - 1 {
        x + 1
    } else {
        GRID_WIDTH - 1
    }
}

/// The number of cells in the neighbourhood of the cell with index `i`.
pub open spec fn neighborhood_size(i: int) -> int {
    (rows_to(i) - rows_from(i) + 1) * (columns_to(i) - columns_from(i) + 1)
}

/// The sum of channel `k` over the neighbourhood of the cell with index `i`.
pub open spec fn neighborhood_total(pixels: Seq<u32>, k: int, i: int) -> int {
    window_total(pixels, k, rows_from(i), rows_to(i), columns_from(i), columns_to(i))
}

/// The floor of the average `total / count`, less `evaporation`, and no
/// lower than zero.
pub open spec fn faded_average(total: int, count: int, evaporation: int) -> int {
    if total / count > evaporation {
        total / count - evaporation
    } else {
        0
    }
}

/// The amount that a blur step takes off each channel: one unit when the
/// map evaporates on this step, none otherwise.
pub open spec fn evaporation_amount(evaporates: bool) -> int {
    if evaporates {
        1
    } else {
        0
    }
}

/// The pixel that the blur writes for the cell with index `i`: each channel
/// is the average of that channel over the cell's 3x3 neighbourhood (clipped
/// at the edges of the grid), rounded down, less `evaporation`, at least 0.
pub open spec fn blurred_pixel(pixels: Seq<u32>, i: int, evaporation: int) -> int {
    let n = neighborhood_size(i);
    rgb(
        faded_average(neighborhood_total(pixels, 0, i), n, evaporation),
        faded_average(neighborhood_total(pixels, 1, i), n, evaporation),
        faded_average(neighborhood_total(pixels, 2, i), n, evaporation),
    )
}

/// The whole map after one blur step with the given evaporation.
pub open spec fn blurred_map(pixels: Seq<u32>, evaporation: int) -> Seq<u32> {
    Seq::new(pixels.len(), |i: int| blurred_pixel(pixels, i, evaporation) as u32)
}

// ---------------------------------------------------------------------------
// Deposits, as mathematics
// ---------------------------------------------------------------------------

/// Where a blob stands on the grid and the colour it leaves there. `cell` is
/// the `(column, row)` that the blob's position falls in, or `None` when the
/// position is not a finite point of the simulation area.
#[derive(Clone, Copy, Debug)]
pub struct TrailMark {
    pub cell: Option<(usize, usize)>,
    pub color: u32,
}

/// The mark names a cell of the grid.
pub open spec fn on_grid(mark: TrailMark) -> bool {
    match mark.cell {
        Some((x, y)) => x < GRID_WIDTH && y < GRID_HEIGHT,
        None => false,
    }
}

/// The index in the trail map of the cell that the mark names.
pub open spec fn mark_index(mark: TrailMark) -> int {
    match mark.cell {
        Some((x, y)) => y * GRID_WIDTH + x,
        None => 0,
    }
}

/// Every mark names a cell of the grid.
pub open spec fn all_on_grid(marks: Seq<TrailMark>) -> bool {
    forall|j: int| 0 <= j < marks.len() ==> #[trigger] on_grid(marks[j])
}

/// The map after writing the colour of each mark at its cell, in order,
/// stopping at the first mark that is off the grid.
pub open spec fn deposited(pixels: Seq<u32>, marks: Seq<TrailMark>) -> Seq<u32>
    decreases marks.len(),
{
    if marks.len() == 0 || !on_grid(marks[0]) {
        pixels
    } else {
        deposited(pixels.update(mark_index(marks[0]), marks[0].color), marks.drop_first())
    }
}

// ---------------------------------------------------------------------------
// Sequences of steps, as mathematics
// ---------------------------------------------------------------------------

/// A trail map as mathematics: its pixels, and whether its next blur step
/// evaporates.
pub struct MapState {
    pub pixels: Seq<u32>,
    pub evaporates: bool,
}

/// A step applied to a trail map: a deposit of some marks, or a blur.
pub enum MapOp {
    Deposit(Seq<TrailMark>),
    Blur,
}

/// A new map: all black, and its first blur step evaporates.
pub open spec fn initial_state() -> MapState {
    MapState { pixels: Seq::new(SIM_SIZE as nat, |i: int| 0u32), evaporates: true }
}

/// The map after one step. A deposit, whether it succeeds or stops at an
/// off-grid mark, keeps the evaporation phase; a blur flips it.
pub open spec fn apply_op(state: MapState, op: MapOp) -> MapState {
    match op {
        MapOp::Deposit(marks) => MapState {
            pixels: deposited(state.pixels, marks),
            evaporates: state.evaporates,
        },
        MapOp::Blur => MapState {
            pixels: blurred_map(state.pixels, evaporation_amount(state.evaporates)),
            evaporates: !state.evaporates,
        },
    }
}

/// The map after a sequence of steps, applied in order.
pub open spec fn run_ops(state: MapState, ops: Seq<MapOp>) -> MapState
    decreases ops.len(),
{
    if ops.len() == 0 {
        state
    } else {
        apply_op(run_ops(state, ops.drop_last()), ops.last())
    }
}

/// The number of blur steps in a sequence of steps.
pub open spec fn blur_count(ops: Seq<MapOp>) -> nat
    decreases ops.len(),
{
    if ops.len() == 0 {
        0
    } else {
        blur_count(ops.drop_last()) + if ops.last() is Blur {
            1nat
        } else {
            0nat
        }
    }
}

// ---------------------------------------------------------------------------
// The trail map
// ---------------------------------------------------------------------------

/// The average `total / count` of a channel, less `evaporation` and no lower
/// than zero, truncated to a byte.
pub fn averaged_channel(total: u16, count: u16, evaporation: u16) -> (channel: u8)
    requires
        count > 0,
    ensures
        channel == faded_average(total as int, count as int, evaporation as int) % 256,
        channel == (if total / count > evaporation {
            total / count - evaporation
        } else {
            0
        }) % 256,
{
    let faded: u16 = (total / count).saturating_sub(evaporation);
    let channel: u8 = faded as u8;
    assert(channel == faded % 256) by (bit_vector)
        requires
            channel == faded as u8,
    ;
    channel
}

/// A deposit met a blob whose position is outside the simulation bounds.
#[derive(Clone, Copy, Debug, PartialEq, Eq)]
pub struct BlobOutsideSimulationError;

/// The trail map: one pixel per cell of the grid, row by row, and whether the
/// next blur step evaporates.
pub struct TrailMap {
    buffer: Vec<u32>,
    evaporate_next: bool,
}

impl View for TrailMap {
    type V = Seq<u32>;

    closed spec fn view(&self) -> Seq<u32> {
        self.buffer@
    }
}

/// `num_traits::MulAdd::mul_add` on `usize`, which computes
/// `(self * a) + b`: here the index `row * width + column` of a cell.
#[verifier::external_body]
fn index_mul_add(row: usize, width: usize, column: usize) -> (index: usize)
    requires
        row * width + column <= usize::MAX,
    ensures
        index == row * width + column,
{
    num_traits::MulAdd::mul_add(row, width, column)
}

impl TrailMap {
    /// The map holds one pixel per cell of the grid.
    pub open spec fn wf(&self) -> bool {
        self@.len() == SIM_SIZE
    }

    /// Whether the next blur step evaporates.
    pub closed spec fn will_evaporate(&self) -> bool {
        self.evaporate_next
    }

    /// The map as mathematics: its pixels and whether its next blur evaporates.
    pub open spec fn state(&self) -> MapState {
        MapState { pixels: self@, evaporates: self.will_evaporate() }
    }

    /// An all-black map whose first blur step evaporates.
    pub fn new() -> (map: Self)
        ensures
            map.wf(),
            map@ == Seq::new(SIM_SIZE as nat, |i: int| 0u32),
            map.will_evaporate(),
            map.state() == initial_state(),
    {
        let buffer: Vec<u32> = vec![0u32; SIM_SIZE];
        let map = TrailMap { buffer, evaporate_next: true };
        assert(map@ =~= Seq::new(SIM_SIZE as nat, |i: int| 0u32));
        map
    }

    /// The pixels of the map, row by row.
    pub fn pixels(&self) -> (pixels: &[u32])
        ensures
            pixels@ == self@,
    {
        self.buffer.as_slice()
    }

    /// Writes each mark's colour at its cell, in order.
    ///
    /// Returns an error at the first mark that is off the grid; the colours
    /// written for the marks before it remain in the map.
    pub fn deposit(&mut self, marks: &[TrailMark]) -> (result: Result<(), BlobOutsideSimulationError>)
        requires
            old(self).wf(),
        ensures
            final(self).wf(),
            final(self)@ == deposited(old(self)@, marks@),
            final(self).will_evaporate() == old(self).will_evaporate(),
            result is Ok <==> all_on_grid(marks@),
            final(self).state() == apply_op(old(self).state(), MapOp::Deposit(marks@)),
    {
        let ghost start = self@;
        let n = marks.len();
        let mut i: usize = 0;
        assert(marks@.skip(0) =~= marks@);
        while i < n
            invariant
                n == marks@.len(),
                i <= n,
                self.wf(),
                start == old(self)@,
                self.will_evaporate() == old(self).will_evaporate(),
                deposited(start, marks@) == deposited(self@, marks@.skip(i as int)),
                forall|j: int| 0 <= j < i ==> #[trigger] on_grid(marks@[j]),
            decreases n - i,
        {
            let mark = marks[i];
            assert(marks@.skip(i as int)[0] == mark);
            let (x, y) = match mark.cell {
                Some(cell) => cell,
                None => {
                    assert(deposited(self@, marks@.skip(i as int)) == self@);
                    return Err(BlobOutsideSimulationError);
                },
            };
            if x >= GRID_WIDTH || y >= GRID_HEIGHT {
                assert(deposited(self@, marks@.skip(i as int)) == self@);
                return Err(BlobOutsideSimulationError);
            }
            let index = index_mul_add(y, GRID_WIDTH, x);
            if index >= self.buffer.len() {
                return Err(BlobOutsideSimulationError);
            }
            self.buffer.set(index, mark.color);
            assert(marks@.skip(i as int).drop_first() =~= marks@.skip(i + 1));
            i += 1;
        }
        assert(marks@.skip(n as int) =~= Seq::<TrailMark>::empty());
        Ok(())
    }

    /// The pixel that a blur step writes for the cell with index `i`: the
    /// average of each channel over the cell's 3x3 neighbourhood, clipped at
    /// the edges of the grid, less `evaporation`.
    ///
    /// The neighbourhood is empty, and the average undefined, for an index at
    /// or beyond the end of the row past the last one.
    pub fn blurred_and_evaporated_pixel(&self, i: usize, evaporation: u16) -> (pixel: u32)
        requires
            self.wf(),
            i < (GRID_HEIGHT + 1) * GRID_WIDTH,
        ensures
            pixel == blurred_pixel(self@, i as int, evaporation as int),
            pixel < 0x100_0000,
    {
        let x = i % GRID_WIDTH;
        let y = i / GRID_WIDTH;
        // Clip the neighbourhood in two dimensions so that it never crosses a row boundary.
        let c_lo: usize = x.saturating_sub(1);
        let c_hi: usize = if x + 1 < GRID_WIDTH - 1 { x + 1 } else { GRID_WIDTH - 1 };
        let r_lo: usize = y.saturating_sub(1);
        let r_hi: usize = if y + 1 < GRID_HEIGHT - 1 { y + 1 } else { GRID_HEIGHT - 1 };
        assert(c_lo == columns_from(i as int) && c_hi == columns_to(i as int));
        assert(r_lo == rows_from(i as int) && r_hi == rows_to(i as int));
        let ghost columns: int = c_hi - c_lo + 1;

        let mut count: u16 = 0;
        let mut red: u16 = 0;
        let mut green: u16 = 0;
        let mut blue: u16 = 0;
        let mut row: usize = r_lo;
        while row <= r_hi
            invariant
                self.wf(),
                r_lo <= row <= r_hi + 1,
                r_hi < GRID_HEIGHT,
                r_hi <= r_lo + 2,
                c_lo <= c_hi < GRID_WIDTH,
                c_hi <= c_lo + 2,
                columns == c_hi - c_lo + 1,
                count == (row - r_lo) * columns,
                count <= 3 * (row - r_lo),
                red == window_total(self@, 0, r_lo as int, row - 1, c_lo as int, c_hi as int),
                green == window_total(self@, 1, r_lo as int, row - 1, c_lo as int, c_hi as int),
                blue == window_total(self@, 2, r_lo as int, row - 1, c_lo as int, c_hi as int),
                red <= 255 * count,
                green <= 255 * count,
                blue <= 255 * count,
            decreases r_hi + 1 - row,
        {
            let mut column: usize = c_lo;
            while column <= c_hi
                invariant
                    self.wf(),
                    r_lo <= row <= r_hi,
                    r_hi < GRID_HEIGHT,
                    r_hi <= r_lo + 2,
                    c_lo <= column <= c_hi + 1,
                    c_hi < GRID_WIDTH,
                    c_hi <= c_lo + 2,
                    columns == c_hi - c_lo + 1,
                    count == (row - r_lo) * columns + (column - c_lo),
                    count <= 3 * (row - r_lo) + (column - c_lo),
                    red == window_total(self@, 0, r_lo as int, row - 1, c_lo as int, c_hi as int)
                        + row_total(self@, 0, row as int, c_lo as int, column - 1),
                    green == window_total(self@, 1, r_lo as int, row - 1, c_lo as int, c_hi as int)
                        + row_total(self@, 1, row as int, c_lo as int, column - 1),
                    blue == window_total(self@, 2, r_lo as int, row - 1, c_lo as int, c_hi as int)
                        + row_total(self@, 2, row as int, c_lo as int, column - 1),
                    red <= 255 * count,
                    green <= 255 * count,
                    blue <= 255 * count,
                decreases c_hi + 1 - column,
            {
                let index = index_mul_add(row, GRID_WIDTH, column);
                let (r, g, b) = color_channels(self.buffer[index]);
                count = count + 1;
                red = red + r as u16;
                green = green + g as u16;
                blue = blue + b as u16;
                column += 1;
            }
            assert((row - r_lo) * columns + columns == (row + 1 - r_lo) * columns)
                by (nonlinear_arith);
            row += 1;
        }
        assert(count == neighborhood_size(i as int));
        assert(count > 0) by (nonlinear_arith)
            requires count == (r_hi - r_lo + 1) * columns, r_lo <= r_hi, columns >= 1;
        assert(red / count <= 255 && green / count <= 255 && blue / count <= 255)
            by (nonlinear_arith)
            requires red <= 255 * count, green <= 255 * count, blue <= 255 * count, count > 0;
        let faded_red = averaged_channel(red, count, evaporation);
        let faded_green = averaged_channel(green, count, evaporation);
        let faded_blue = averaged_channel(blue, count, evaporation);
        displayed_color([faded_red, faded_green, faded_blue])
    }

    /// Blurs and evaporates the trail map into `destination`, and keeps the
    /// result as the new map.
    ///
    /// Evaporation removes one unit per channel every other call, starting
    /// with the first call.
    pub fn blur_and_evaporate_into(&mut self, destination: &mut [u32])
        requires
            old(self).wf(),
            old(destination)@.len() == old(self)@.len(),
        ensures
            final(self).wf(),
            final(destination)@ == blurred_map(
                old(self)@,
                evaporation_amount(old(self).will_evaporate()),
            ),
            final(self)@ == final(destination)@,
            final(self).will_evaporate() == !old(self).will_evaporate(),
            final(self).state() == apply_op(old(self).state(), MapOp::Blur),
    {
        let evaporation: u16 = if self.evaporate_next { 1 } else { 0 };
        let ghost target = blurred_map(self@, evaporation as int);
        let n = destination.len();
        let mut i: usize = 0;
        while i < n
            invariant
                self.wf(),
                *self == *old(self),
                n == SIM_SIZE,
                destination@.len() == n,
                target == blurred_map(self@, evaporation as int),
                i <= n,
                forall|j: int| 0 <= j < i ==> #[trigger] destination@[j] == target[j],
            decreases n - i,
        {
            destination[i] = self.blurred_and_evaporated_pixel(i, evaporation);
            i += 1;
        }
        assert(destination@ =~= target);
        let mut k: usize = 0;
        while k < n
            invariant
                self.buffer@.len() == n,
                n == SIM_SIZE,
                destination@ == target,
                destination@.len() == n,
                self.evaporate_next == old(self).evaporate_next,
                k <= n,
                forall|j: int| 0 <= j < k ==> #[trigger] self.buffer@[j] == destination@[j],
            decreases n - k,
        {
            self.buffer.set(k, destination[k]);
            k += 1;
        }
        assert(self.buffer@ =~= destination@);
        self.evaporate_next = !self.evaporate_next;
    }
}

impl Default for TrailMap {
    /// An all-black map whose first blur step evaporates.
    fn default() -> (map: Self)
        ensures
            map.wf(),
            map@ == Seq::new(SIM_SIZE as nat, |i: int| 0u32),
            map.will_evaporate(),
            map.state() == initial_state(),
    {
        TrailMap::new()
    }
}

} // verus!
