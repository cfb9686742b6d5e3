//! Backlight: a key matrix with an LED under some of its keys.
//!
//! The LEDs form one chain, wired in an order of its own. A
//! [`CoordinateMap`] says for each cell of the matrix where in the chain its
//! LED sits, if it has one. The chain has as many places as the matrix has
//! cells. The size of the matrix is part of the map's type, so that a buffer
//! of another shape cannot be written at all.
use super::color::{colors_of, Color};
use super::frame::Frame;
use super::gamma::{gamma, gamma8, gamma_corrected};
use super::signal::{bits_read, bytes_of};
use super::Ws2812;
use vstd::prelude::*;

verus! {

/// Why a backlight cannot be set up.
#[derive(Clone, Copy, Debug, PartialEq, Eq, Structural)]
pub enum DriverError {
    /// The matrix has more cells than can be counted.
    ChainTooLong,
    /// A cell is mapped to a place beyond the end of the chain.
    OffsetOutOfRange,
}

/// A keyboard whose backlight is a chain of WS2812 LEDs under its key matrix.
pub trait WS2812BitbangBacklightDriver {
    /// The place in the chain of the LED under the key in column `x` of row
    /// `y`, if there is one.
    fn get_led_from_matrix_coordinates(x: u8, y: u8) -> Option<u8>;
}

/// What a cell of a buffer can hold: something that stands for a color.
pub trait Shade: Copy {
    /// The color it stands for.
    spec fn shade(self) -> Color;

    /// The color it stands for.
    fn color(self) -> (color: Color)
        ensures
            color == self.shade(),
    ;
}

/// A brightness stands for the gray of that brightness.
impl Shade for u8 {
    open spec fn shade(self) -> Color {
        Color::gray(self)
    }

    fn color(self) -> (color: Color) {
        Color::gray(self)
    }
}

/// A color stands for itself.
impl Shade for Color {
    open spec fn shade(self) -> Color {
        self
    }

    fn color(self) -> (color: Color) {
        self
    }
}

/// The rows of a buffer as sequences.
pub open spec fn grid_of<T, const COLS: usize>(rows: Seq<[T; COLS]>) -> Seq<Seq<T>> {
    Seq::new(rows.len(), |y: int| rows[y]@)
}

/// The grid with every cell turned into the color it stands for.
pub open spec fn shaded<T: Shade>(grid: Seq<Seq<T>>) -> Seq<Seq<Color>> {
    Seq::new(grid.len(), |y: int| Seq::new(grid[y].len(), |x: int| grid[y][x].shade()))
}

/// The length of the first row; zero when there is no row.
pub open spec fn width<T>(grid: Seq<Seq<T>>) -> nat {
    if grid.len() == 0 {
        0
    } else {
        grid[0].len()
    }
}

/// Every row of `grid` has `cols` entries.
pub open spec fn rectangular<T>(grid: Seq<Seq<T>>, cols: nat) -> bool {
    forall|y: int| 0 <= y < grid.len() ==> (#[trigger] grid[y]).len() == cols
}

/// Places in the chain of a matrix: one for each cell.
pub open spec fn chain_places<T>(table: Seq<Seq<T>>) -> nat {
    table.len() * width(table)
}

/// Every place that `table` names lies on a chain of `len` LEDs.
pub open spec fn places_on_chain(table: Seq<Seq<Option<u8>>>, len: nat) -> bool {
    forall|y: int, x: int|
        0 <= y < table.len() && 0 <= x < table[y].len() ==> match #[trigger] table[y][x] {
            Some(place) => place < len,
            None => true,
        }
}

/// What is wrong with a table of places, if anything is.
pub open spec fn table_error(table: Seq<Seq<Option<u8>>>) -> Option<DriverError> {
    if chain_places(table) > usize::MAX {
        Some(DriverError::ChainTooLong)
    } else if !places_on_chain(table, chain_places(table)) {
        Some(DriverError::OffsetOutOfRange)
    } else {
        None
    }
}

/// `table` has `ROWS` rows of `COLS` entries, and each entry is what `K`
/// gives as the LED of the cell in that column of that row, when asked with
/// the low eight bits of the two coordinates.
pub open spec fn table_of<K: WS2812BitbangBacklightDriver, const COLS: usize, const ROWS: usize>(
    table: Seq<Seq<Option<u8>>>,
) -> bool {
    &&& table.len() == ROWS
    &&& rectangular(table, COLS as nat)
    &&& forall|y: int, x: int|
        0 <= y < ROWS && 0 <= x < COLS ==> call_ensures(
            K::get_led_from_matrix_coordinates,
            (x as u8, y as u8),
            #[trigger] table[y][x],
        )
}

/// The cells of a matrix row after row, each with the place of its LED and
/// with its color in `grid`.
pub open spec fn matrix_cells(table: Seq<Seq<Option<u8>>>, grid: Seq<Seq<Color>>) -> Seq<
    (Option<u8>, Color),
> {
    let cols = width(table) as int;
    Seq::new(
        chain_places(table),
        |i: int| (table[i / cols][i % cols], grid[i / cols][i % cols]),
    )
}

/// The color that the last of `cells` mapped to place `k` carries; black when
/// none is mapped there.
pub open spec fn color_at(cells: Seq<(Option<u8>, Color)>, k: int) -> Color
    decreases cells.len(),
{
    if cells.len() == 0 {
        Color::black()
    } else if 0 <= k < 256 && cells.last().0 == Some(k as u8) {
        cells.last().1
    } else {
        color_at(cells.drop_last(), k)
    }
}

/// The chain of `len` LEDs after the cells' colors are placed on it.
pub open spec fn placed(len: nat, cells: Seq<(Option<u8>, Color)>) -> Seq<Color> {
    Seq::new(len, |k: int| color_at(cells, k))
}

/// The chain that shows `grid` on the matrix of `table`: each cell's color at
/// the place the cell is mapped to, a later cell over an earlier one, black
/// where no cell is mapped to.
pub open spec fn chain_of(table: Seq<Seq<Option<u8>>>, grid: Seq<Seq<Color>>) -> Seq<Color> {
    placed(chain_places(table), matrix_cells(table, grid))
}

/// The chain with every LED at the gray of `brightness`.
pub open spec fn uniform_chain(len: nat, brightness: u8) -> Seq<Color> {
    Seq::new(len, |k: int| Color::gray(brightness))
}

/// A place to which none of `cells` is mapped stays black.
pub proof fn lemma_unmapped_place_is_black(cells: Seq<(Option<u8>, Color)>, k: int)
    requires
        forall|i: int| 0 <= i < cells.len() ==> (#[trigger] cells[i]).0 != Some(k as u8),
    ensures
        color_at(cells, k) == Color::black(),
    decreases cells.len(),
{
    if cells.len() > 0 {
        assert(cells.last() == cells[cells.len() - 1]);
        let rest = cells.drop_last();
        assert forall|i: int| 0 <= i < rest.len() implies (#[trigger] rest[i]).0 != Some(
            k as u8,
        ) by {
            assert(rest[i] == cells[i]);
        }
        lemma_unmapped_place_is_black(rest, k);
    }
}

/// A place takes the color of the cell mapped to it, where no later cell is
/// mapped to the same place.
pub proof fn lemma_mapped_place_has_cell_color(cells: Seq<(Option<u8>, Color)>, i: int, place: u8)
    requires
        0 <= i < cells.len(),
        cells[i].0 == Some(place),
        forall|j: int| i < j < cells.len() ==> (#[trigger] cells[j]).0 != Some(place),
    ensures
        color_at(cells, place as int) == cells[i].1,
    decreases cells.len(),
{
    assert(cells.last() == cells[cells.len() - 1]);
    if i < cells.len() - 1 {
        let rest = cells.drop_last();
        assert(rest[i] == cells[i]);
        assert forall|j: int| i < j < rest.len() implies (#[trigger] rest[j]).0 != Some(place) by {
            assert(rest[j] == cells[j]);
        }
        lemma_mapped_place_has_cell_color(rest, i, place);
    }
}

/// A cell of the matrix is the cell with index `y * cols + x` in row-major
/// order, and every index below the number of cells is that of one cell.
pub proof fn lemma_cell_index(rows: int, cols: int, i: int)
    requires
        0 <= i < rows * cols,
        0 < cols,
    ensures
        0 <= i / cols < rows,
        0 <= i % cols < cols,
        i == (i / cols) * cols + i % cols,
{
    vstd::arithmetic::div_mod::lemma_fundamental_div_mod(i, cols);
    vstd::arithmetic::div_mod::lemma_mod_bound(i, cols);
    assert(i < cols * rows) by (nonlinear_arith)
        requires
            i < rows * cols,
    ;
    vstd::arithmetic::div_mod::lemma_multiply_divide_lt(i, cols, rows);
    assert(0 <= i / cols) by (nonlinear_arith)
        requires
            0 <= i,
            0 < cols,
    ;
    assert(cols * (i / cols) == (i / cols) * cols) by (nonlinear_arith);
}

/// An LED to which no cell of the matrix is mapped stays black.
pub proof fn lemma_unmapped_led_is_black(
    table: Seq<Seq<Option<u8>>>,
    grid: Seq<Seq<Color>>,
    k: int,
)
    requires
        rectangular(table, width(table)),
        0 <= k < chain_places(table),
        forall|y: int, x: int|
            0 <= y < table.len() && 0 <= x < width(table) ==> #[trigger] table[y][x] != Some(
                k as u8,
            ),
    ensures
        chain_of(table, grid)[k] == Color::black(),
{
    let cells = matrix_cells(table, grid);
    let cols = width(table) as int;
    assert forall|i: int| 0 <= i < cells.len() implies (#[trigger] cells[i]).0 != Some(k as u8) by {
        lemma_cell_index(table.len() as int, cols, i);
        assert(table[i / cols][i % cols] != Some(k as u8));
    }
    lemma_unmapped_place_is_black(cells, k);
}

/// An LED to which one cell of the matrix is mapped, and no other, shows the
/// color of that cell.
pub proof fn lemma_mapped_led_shows_its_cell(
    table: Seq<Seq<Option<u8>>>,
    grid: Seq<Seq<Color>>,
    x: int,
    y: int,
    place: u8,
)
    requires
        rectangular(table, width(table)),
        0 <= y < table.len(),
        0 <= x < width(table),
        place < chain_places(table),
        table[y][x] == Some(place),
        forall|r: int, c: int|
            0 <= r < table.len() && 0 <= c < width(table) && (r != y || c != x)
                ==> #[trigger] table[r][c] != Some(place),
    ensures
        chain_of(table, grid)[place as int] == grid[y][x],
{
    let cells = matrix_cells(table, grid);
    let rows = table.len() as int;
    let cols = width(table) as int;
    let i = y * cols + x;
    assert(0 <= i < rows * cols) by (nonlinear_arith)
        requires
            i == y * cols + x,
            0 <= y < rows,
            0 <= x < cols,
    ;
    vstd::arithmetic::div_mod::lemma_fundamental_div_mod_converse(i, cols, y, x);
    assert forall|j: int| i < j < cells.len() implies (#[trigger] cells[j]).0 != Some(place) by {
        lemma_cell_index(rows, cols, j);
        assert(table[j / cols][j % cols] != Some(place));
    }
    lemma_mapped_place_has_cell_color(cells, i, place);
}

/// The rows of the stored table as sequences.
spec fn rows_of(leds: Seq<Vec<Option<u8>>>) -> Seq<Seq<Option<u8>>> {
    Seq::new(leds.len(), |y: int| leds[y]@)
}

/// For each cell of a key matrix of `COLS` columns and `ROWS` rows, the place
/// of its LED in the chain.
#[derive(Debug)]
pub struct CoordinateMap<const COLS: usize, const ROWS: usize> {
    leds: Vec<Vec<Option<u8>>>,
    chain_len: usize,
}

impl<const COLS: usize, const ROWS: usize> CoordinateMap<COLS, ROWS> {
    /// The table has the rows and columns of the matrix, the chain has one
    /// place for each cell, and every place named lies on the chain.
    #[verifier::type_invariant]
    pub closed spec fn wf(&self) -> bool {
        &&& self.leds@.len() == ROWS
        &&& rectangular(rows_of(self.leds@), COLS as nat)
        &&& self.chain_len == ROWS * COLS
        &&& places_on_chain(rows_of(self.leds@), self.chain_len as nat)
    }

    /// The table of places: one row for each row of the matrix.
    pub closed spec fn view(&self) -> Seq<Seq<Option<u8>>> {
        rows_of(self.leds@)
    }

    /// The table of a map has the rows and columns of the matrix, the chain
    /// has one place for each cell, and nothing is wrong with the table.
    pub proof fn lemma_table(&self)
        requires
            self.wf(),
        ensures
            self@.len() == ROWS,
            rectangular(self@, COLS as nat),
            chain_places(self@) == ROWS * COLS,
            table_error(self@) is None,
    {
        lemma_chain_places(self@, ROWS as nat, COLS as nat);
    }

    /// Makes a map of a table of places, one row for each row of the matrix.
    /// Every place must lie on the chain.
    pub fn new(leds: &[[Option<u8>; COLS]; ROWS]) -> (map: Result<
        CoordinateMap<COLS, ROWS>,
        DriverError,
    >)
        ensures
            match map {
                Ok(m) => table_error(grid_of(leds@)) is None && m.wf() && m@ == grid_of(leds@),
                Err(e) => table_error(grid_of(leds@)) == Some(e),
            },
    {
        let mut table: Vec<Vec<Option<u8>>> = Vec::new();
        let mut y: usize = 0;
        while y < ROWS
            invariant
                y <= ROWS,
                table@.len() == y,
                forall|r: int| 0 <= r < y ==> (#[trigger] table@[r])@ == leds@[r]@,
            decreases ROWS - y,
        {
            let mut row: Vec<Option<u8>> = Vec::new();
            let mut x: usize = 0;
            while x < COLS
                invariant
                    y < ROWS,
                    x <= COLS,
                    row@.len() == x,
                    forall|c: int| 0 <= c < x ==> #[trigger] row@[c] == leds@[y as int]@[c],
                decreases COLS - x,
            {
                row.push(leds[y][x]);
                x = x + 1;
            }
            assert(row@ =~= leds@[y as int]@);
            table.push(row);
            y = y + 1;
        }
        assert(rows_of(table@) =~= grid_of(leds@));
        Self::checked(table)
    }

    /// Makes the map of a keyboard: unless the matrix has more cells than can
    /// be counted, asks the keyboard for the LED of every cell, row after row;
    /// then checks the answers as [`CoordinateMap::new`] checks a table.
    pub fn from_driver<K: WS2812BitbangBacklightDriver>() -> (map: Result<
        CoordinateMap<COLS, ROWS>,
        DriverError,
    >)
        ensures
            match map {
                Ok(m) => m.wf() && table_of::<K, COLS, ROWS>(m@) && table_error(m@) is None,
                Err(e) => if ROWS * COLS > usize::MAX {
                    e == DriverError::ChainTooLong
                } else {
                    exists|table: Seq<Seq<Option<u8>>>|
                        #![trigger table_of::<K, COLS, ROWS>(table)]
                        table_of::<K, COLS, ROWS>(table) && table_error(table) == Some(e)
                },
            },
    {
        if ROWS.checked_mul(COLS).is_none() {
            return Err(DriverError::ChainTooLong);
        }
        let mut leds: Vec<Vec<Option<u8>>> = Vec::new();
        let mut y: usize = 0;
        while y < ROWS
            invariant
                y <= ROWS,
                leds@.len() == y,
                rectangular(rows_of(leds@), COLS as nat),
                forall|r: int, c: int|
                    0 <= r < y && 0 <= c < COLS ==> call_ensures(
                        K::get_led_from_matrix_coordinates,
                        (c as u8, r as u8),
                        #[trigger] rows_of(leds@)[r][c],
                    ),
            decreases ROWS - y,
        {
            let mut row: Vec<Option<u8>> = Vec::new();
            let mut x: usize = 0;
            while x < COLS
                invariant
                    x <= COLS,
                    row@.len() == x,
                    forall|c: int|
                        0 <= c < x ==> call_ensures(
                            K::get_led_from_matrix_coordinates,
                            (c as u8, y as u8),
                            #[trigger] row@[c],
                        ),
                decreases COLS - x,
            {
                row.push(
                    K::get_led_from_matrix_coordinates(
                        #[verifier::truncate]
                        (x as u8),
                        #[verifier::truncate]
                        (y as u8),
                    ),
                );
                x = x + 1;
            }
            let ghost before = rows_of(leds@);
            leds.push(row);
            proof {
                let after = rows_of(leds@);
                assert forall|r: int| 0 <= r < y implies after[r] == before[r] by {}
                assert(after[y as int] == row@);
            }
            y = y + 1;
        }
        let ghost table = rows_of(leds@);
        assert(table_of::<K, COLS, ROWS>(table));
        Self::checked(leds)
    }

    /// Makes a map of a table that has the rows and columns of the matrix, if
    /// nothing is wrong with the table.
    fn checked(leds: Vec<Vec<Option<u8>>>) -> (map: Result<CoordinateMap<COLS, ROWS>, DriverError>)
        requires
            leds@.len() == ROWS,
            rectangular(rows_of(leds@), COLS as nat),
        ensures
            match map {
                Ok(m) => table_error(rows_of(leds@)) is None && m.wf() && m@ == rows_of(leds@),
                Err(e) => table_error(rows_of(leds@)) == Some(e),
            },
    {
        let ghost table = rows_of(leds@);
        proof {
            lemma_chain_places(table, ROWS as nat, COLS as nat);
        }
        let chain_len = match ROWS.checked_mul(COLS) {
            Some(len) => len,
            None => { return Err(DriverError::ChainTooLong); },
        };
        let mut y: usize = 0;
        while y < ROWS
            invariant
                leds@.len() == ROWS,
                table == rows_of(leds@),
                rectangular(table, COLS as nat),
                chain_len == chain_places(table),
                chain_len == ROWS * COLS,
                y <= ROWS,
                forall|r: int, c: int|
                    0 <= r < y && 0 <= c < COLS ==> match #[trigger] table[r][c] {
                        Some(place) => place < chain_len,
                        None => true,
                    },
            decreases ROWS - y,
        {
            let row = &leds[y];
            assert(row@ == table[y as int]);
            let mut x: usize = 0;
            while x < COLS
                invariant
                    leds@.len() == ROWS,
                    table == rows_of(leds@),
                    rectangular(table, COLS as nat),
                    chain_len == chain_places(table),
                    y < ROWS,
                    row@ == table[y as int],
                    row@.len() == COLS,
                    x <= COLS,
                    forall|c: int|
                        0 <= c < x ==> match #[trigger] table[y as int][c] {
                            Some(place) => place < chain_len,
                            None => true,
                        },
                decreases COLS - x,
            {
                match row[x] {
                    Some(place) => {
                        if place as usize >= chain_len {
                            assert(table[y as int][x as int] == Some(place));
                            return Err(DriverError::OffsetOutOfRange);
                        }
                    },
                    None => {},
                }
                x = x + 1;
            }
            y = y + 1;
        }
        Ok(CoordinateMap { leds, chain_len })
    }

    /// Places in the chain: one for each cell of the matrix.
    pub fn chain_len(&self) -> (len: usize)
        ensures
            len == ROWS * COLS,
            len == chain_places(self@),
    {
        proof {
            use_type_invariant(self);
            lemma_chain_places(self@, ROWS as nat, COLS as nat);
        }
        self.chain_len
    }

    /// The place in the chain of the LED under the key in column `x` of row
    /// `y`; none for a key without LED, and none outside the matrix.
    pub fn get_led_from_matrix_coordinates(&self, x: u8, y: u8) -> (led: Option<u8>)
        ensures
            led == if y < ROWS && x < COLS {
                self@[y as int][x as int]
            } else {
                None
            },
            led matches Some(place) ==> place < ROWS * COLS,
    {
        proof {
            use_type_invariant(self);
        }
        if (y as usize) < ROWS && (x as usize) < COLS {
            assert(self@[y as int] == self.leds@[y as int]@);
            self.leds[y as usize][x as usize]
        } else {
            None
        }
    }

    /// Places the colors that the cells of `buf` stand for on a fresh chain:
    /// each cell's color at the place the cell is mapped to, a later cell over
    /// an earlier one, black where no cell is mapped to.
    pub fn chain<T: Shade>(&self, buf: &[[T; COLS]; ROWS]) -> (chain: Vec<Color>)
        ensures
            chain@ == chain_of(self@, shaded(grid_of(buf@))),
    {
        proof {
            use_type_invariant(self);
            lemma_chain_places(self@, ROWS as nat, COLS as nat);
        }
        let ghost table = self@;
        let ghost colors = shaded(grid_of(buf@));
        let ghost cells = matrix_cells(table, colors);
        let len = self.chain_len;
        let mut chain: Vec<Color> = Vec::new();
        let mut k: usize = 0;
        while k < len
            invariant
                k <= len,
                chain@.len() == k,
                forall|j: int| 0 <= j < k ==> chain@[j] == Color::black(),
            decreases len - k,
        {
            chain.push(Color::default());
            k = k + 1;
        }
        assert(chain@ =~= placed(len as nat, cells.take(0)));
        let mut y: usize = 0;
        while y < ROWS
            invariant
                self.wf(),
                table == self@,
                colors == shaded(grid_of(buf@)),
                cells == matrix_cells(table, colors),
                cells.len() == ROWS * COLS,
                len == ROWS * COLS,
                y <= ROWS,
                chain@ == placed(len as nat, cells.take(y * COLS)),
            decreases ROWS - y,
        {
            let leds = &self.leds[y];
            assert(leds@ == table[y as int]);
            assert(y * COLS + COLS == (y + 1) * COLS <= ROWS * COLS) by (nonlinear_arith)
                requires
                    y < ROWS,
            ;
            let mut x: usize = 0;
            while x < COLS
                invariant
                    self.wf(),
                    table == self@,
                    colors == shaded(grid_of(buf@)),
                    cells == matrix_cells(table, colors),
                    cells.len() == ROWS * COLS,
                    len == ROWS * COLS,
                    y < ROWS,
                    leds@ == table[y as int],
                    leds@.len() == COLS,
                    y * COLS + COLS <= ROWS * COLS,
                    x <= COLS,
                    chain@ == placed(len as nat, cells.take(y * COLS + x)),
                decreases COLS - x,
            {
                let ghost i = y * COLS + x;
                let ghost next = cells.take(i + 1);
                let color = buf[y][x].color();
                proof {
                    vstd::arithmetic::div_mod::lemma_fundamental_div_mod_converse(
                        i as int,
                        COLS as int,
                        y as int,
                        x as int,
                    );
                    assert(next.drop_last() =~= cells.take(i as int));
                    assert(next.last() == (leds@[x as int], color));
                }
                match leds[x] {
                    Some(place) => {
                        assert(table[y as int][x as int] == Some(place));
                        chain.set(place as usize, color);
                    },
                    None => {},
                }
                assert(chain@ =~= placed(len as nat, next));
                x = x + 1;
            }
            y = y + 1;
        }
        assert(cells.take(y * COLS) =~= cells);
        chain
    }
}

/// A table of `rows` rows of `cols` entries has `rows * cols` cells.
proof fn lemma_chain_places<T>(table: Seq<Seq<T>>, rows: nat, cols: nat)
    requires
        table.len() == rows,
        rectangular(table, cols),
    ensures
        chain_places(table) == rows * cols,
{
    if rows == 0 {
        assert(rows * cols == 0) by (nonlinear_arith)
            requires
                rows == 0,
        ;
    } else {
        assert(table[0].len() == cols);
    }
}

impl Ws2812 {
    /// A receiver reads from the frame for one brightness the same gray on
    /// every LED: the brightness after gamma correction.
    pub proof fn lemma_uniform_frame_reads_back(self, len: nat, brightness: u8)
        requires
            self.wf(),
        ensures
            colors_of(
                bytes_of(
                    bits_read(self.frame(gamma_corrected(uniform_chain(len, brightness))).0),
                ),
            ) == uniform_chain(len, gamma8(brightness)),
    {
        let chain = gamma_corrected(uniform_chain(len, brightness));
        self.lemma_frame_reads_back(chain);
        assert(chain =~= uniform_chain(len, gamma8(brightness)));
    }

    /// The frame that lights every LED of the backlight at one brightness,
    /// gamma-corrected.
    pub fn write_uniform<const COLS: usize, const ROWS: usize>(
        &self,
        map: &CoordinateMap<COLS, ROWS>,
        brightness: u8,
    ) -> (frame: Frame)
        ensures
            frame@ == self.frame(gamma_corrected(uniform_chain(chain_places(map@), brightness))),
    {
        let len = map.chain_len();
        let mut chain: Vec<Color> = Vec::new();
        let mut k: usize = 0;
        while k < len
            invariant
                k <= len,
                chain@ == uniform_chain(k as nat, brightness),
            decreases len - k,
        {
            chain.push(Color::gray(brightness));
            assert(chain@ =~= uniform_chain((k + 1) as nat, brightness));
            k = k + 1;
        }
        let corrected = gamma(&chain);
        self.write_colors(&corrected)
    }

    /// The frame that shows a grid of brightnesses on the backlight,
    /// gamma-corrected: each cell's gray on the LED that the cell is mapped
    /// to, black on LEDs that no cell is mapped to.
    pub fn write_grayscale_matrix<const COLS: usize, const ROWS: usize>(
        &self,
        map: &CoordinateMap<COLS, ROWS>,
        buf: &[[u8; COLS]; ROWS],
    ) -> (frame: Frame)
        ensures
            frame@ == self.frame(gamma_corrected(chain_of(map@, shaded(grid_of(buf@))))),
    {
        let chain = map.chain(buf);
        let corrected = gamma(&chain);
        self.write_colors(&corrected)
    }

    /// The frame that shows a grid of colors on the backlight,
    /// gamma-corrected: each cell's color on the LED that the cell is mapped
    /// to, black on LEDs that no cell is mapped to.
    pub fn write_rgb_matrix<const COLS: usize, const ROWS: usize>(
        &self,
        map: &CoordinateMap<COLS, ROWS>,
        buf: &[[Color; COLS]; ROWS],
    ) -> (frame: Frame)
        ensures
            frame@ == self.frame(gamma_corrected(chain_of(map@, shaded(grid_of(buf@))))),
    {
        let chain = map.chain(buf);
        let corrected = gamma(&chain);
        self.write_colors(&corrected)
    }
}

} // verus!
