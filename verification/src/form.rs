//! A square grid of cells held in sixteen bits.
//!
//! A grid of side `size` (2, 3 or 4) keeps the cell in column `x` of row `y`
//! in bit `y * size + 3 - x`. With side 4 every row is one nibble, and the
//! leftmost column is the nibble's highest bit.
//!
//! A quarter turn clockwise takes the cell (`x`, `y`) to
//! (`size - 1 - y`, `x`), and a quarter turn counterclockwise takes it to
//! (`y`, `size - 1 - x`): the names are those of the turns as they look with
//! row 0 drawn at the top. Where the highest row is drawn at the top, as in
//! the text of a piece, the two look the other way round. Both keep every
//! cell in the grid, so a turn leaves as many cells occupied as it found.
use crate::bits::{
    bit16, lemma_bit_or, lemma_bit_single, lemma_bit_zero, lemma_pattern_bit, lemma_same_bits, pattern,
};
use vstd::prelude::*;
use vstd::set_lib::{lemma_int_range, lemma_len_subset, lemma_map_size, set_int_range};

verus! {

/// Whether (`x`, `y`) names a cell of the grid of side `size`.
pub open spec fn in_grid(size: int, x: int, y: int) -> bool {
    0 <= x < size && 0 <= y < size
}

/// The bit that holds the cell in column `x` of row `y`.
pub open spec fn cell_bit(size: int, x: int, y: int) -> int {
    y * size + 3 - x
}

/// Whether bit `i` holds a cell of the grid of side `size`. The cells fill
/// the `size * size` bits from bit `4 - size` upwards.
pub open spec fn grid_bit(size: int, i: int) -> bool {
    4 - size <= i < 4 - size + size * size
}

/// The column of the cell that bit `i` holds.
pub open spec fn bit_column(size: int, i: int) -> int {
    size - 1 - (i - (4 - size)) % size
}

/// The row of the cell that bit `i` holds.
pub open spec fn bit_row(size: int, i: int) -> int {
    (i - (4 - size)) / size
}

/// Whether the cell (`x2`, `y2`) comes at or after the cell (`x`, `y`) when
/// the grid is read row by row, each row from column 0.
pub open spec fn at_or_after(x: int, y: int, x2: int, y2: int) -> bool {
    y2 > y || (y2 == y && x2 >= x)
}

/// A bit that holds a cell gives back that cell's column and row.
pub proof fn lemma_cell_of_bit(size: int, i: int)
    requires
        2 <= size <= 4,
    ensures
        grid_bit(size, i) ==> in_grid(size, bit_column(size, i), bit_row(size, i)) && cell_bit(
            size,
            bit_column(size, i),
            bit_row(size, i),
        ) == i && 0 <= i < 16,
{
    if size == 2 {
        assert(grid_bit(2, i) ==> in_grid(2, bit_column(2, i), bit_row(2, i)) && cell_bit(
            2,
            bit_column(2, i),
            bit_row(2, i),
        ) == i && 0 <= i < 16);
    } else if size == 3 {
        assert(grid_bit(3, i) ==> in_grid(3, bit_column(3, i), bit_row(3, i)) && cell_bit(
            3,
            bit_column(3, i),
            bit_row(3, i),
        ) == i && 0 <= i < 16);
    } else {
        assert(grid_bit(4, i) ==> in_grid(4, bit_column(4, i), bit_row(4, i)) && cell_bit(
            4,
            bit_column(4, i),
            bit_row(4, i),
        ) == i && 0 <= i < 16);
    }
}

/// A cell's bit holds a cell, and gives back the cell's column and row.
pub proof fn lemma_bit_of_cell(size: int, x: int, y: int)
    requires
        2 <= size <= 4,
        in_grid(size, x, y),
    ensures
        grid_bit(size, cell_bit(size, x, y)),
        0 <= cell_bit(size, x, y) < 16,
        bit_column(size, cell_bit(size, x, y)) == x,
        bit_row(size, cell_bit(size, x, y)) == y,
{
    if size == 2 {
        assert(in_grid(2, x, y) ==> grid_bit(2, cell_bit(2, x, y)) && 0 <= cell_bit(2, x, y) < 16
            && bit_column(2, cell_bit(2, x, y)) == x && bit_row(2, cell_bit(2, x, y)) == y);
    } else if size == 3 {
        assert(in_grid(3, x, y) ==> grid_bit(3, cell_bit(3, x, y)) && 0 <= cell_bit(3, x, y) < 16
            && bit_column(3, cell_bit(3, x, y)) == x && bit_row(3, cell_bit(3, x, y)) == y);
    } else {
        assert(in_grid(4, x, y) ==> grid_bit(4, cell_bit(4, x, y)) && 0 <= cell_bit(4, x, y) < 16
            && bit_column(4, cell_bit(4, x, y)) == x && bit_row(4, cell_bit(4, x, y)) == y);
    }
}

/// The bit on which the cell (`x`, `y`) lands after a quarter turn
/// clockwise, which takes it to (`size - 1 - y`, `x`).
pub open spec fn clockwise_target(size: int, x: int, y: int) -> int {
    cell_bit(size, size - 1 - y, x)
}

/// The bit on which the cell (`x`, `y`) lands after a quarter turn
/// counterclockwise, which takes it to (`y`, `size - 1 - x`).
pub open spec fn counterclockwise_target(size: int, x: int, y: int) -> int {
    cell_bit(size, y, size - 1 - x)
}

/// The clockwise target of a cell is a bit of the grid, and the only bit
/// that takes its cell from (`x`, `y`).
pub proof fn lemma_clockwise_target(size: int, x: int, y: int, i: int)
    requires
        2 <= size <= 4,
        in_grid(size, x, y),
    ensures
        0 <= clockwise_target(size, x, y) < 16,
        grid_bit(size, clockwise_target(size, x, y)),
        grid_bit(size, i) ==> ((i == clockwise_target(size, x, y)) <==> (bit_row(size, i) == x
            && size - 1 - bit_column(size, i) == y)),
{
    lemma_bit_of_cell(size, size - 1 - y, x);
    lemma_cell_of_bit(size, i);
}

/// The counterclockwise target of a cell is a bit of the grid, and the only
/// bit that takes its cell from (`x`, `y`).
pub proof fn lemma_counterclockwise_target(size: int, x: int, y: int, i: int)
    requires
        2 <= size <= 4,
        in_grid(size, x, y),
    ensures
        0 <= counterclockwise_target(size, x, y) < 16,
        grid_bit(size, counterclockwise_target(size, x, y)),
        grid_bit(size, i) ==> ((i == counterclockwise_target(size, x, y)) <==> (size - 1
            - bit_row(size, i) == x && bit_column(size, i) == y)),
{
    lemma_bit_of_cell(size, y, size - 1 - x);
    lemma_cell_of_bit(size, i);
}

/// The bit to which a quarter turn clockwise takes the cell of bit `i`.
pub open spec fn clockwise_move(size: int, i: int) -> int {
    clockwise_target(size, bit_column(size, i), bit_row(size, i))
}

/// The bit to which a quarter turn counterclockwise takes the cell of bit `i`.
pub open spec fn counterclockwise_move(size: int, i: int) -> int {
    counterclockwise_target(size, bit_column(size, i), bit_row(size, i))
}

/// Both turns take the bits of the grid to bits of the grid, and each undoes
/// the other.
pub proof fn lemma_moves(size: int, i: int)
    requires
        2 <= size <= 4,
        grid_bit(size, i),
    ensures
        grid_bit(size, clockwise_move(size, i)),
        grid_bit(size, counterclockwise_move(size, i)),
        counterclockwise_move(size, clockwise_move(size, i)) == i,
        clockwise_move(size, counterclockwise_move(size, i)) == i,
        0 <= i < 16,
{
    let x = bit_column(size, i);
    let y = bit_row(size, i);
    lemma_cell_of_bit(size, i);
    lemma_bit_of_cell(size, size - 1 - y, x);
    lemma_bit_of_cell(size, y, size - 1 - x);
}

/// A square grid of occupied and empty cells, one bit for each cell.
#[derive(Clone, Copy, Debug, PartialEq, Eq, Structural)]
pub struct Form(pub u16);

impl Form {
    /// Whether bit `i` of the pattern is set.
    pub open spec fn bit(self, i: int) -> bool {
        bit16(self.0, i)
    }

    /// Whether the cell in column `x` of row `y` is occupied.
    pub open spec fn cell(self, size: int, x: int, y: int) -> bool {
        self.bit(cell_bit(size, x, y))
    }

    /// Whether every set bit of the pattern holds a cell of the grid.
    pub open spec fn within(self, size: int) -> bool {
        forall|i: int| #[trigger] self.bit(i) ==> grid_bit(size, i)
    }

    /// Bit `i` of the grid after a quarter turn clockwise: the cell
    /// (`x`, `y`) moves to (`size - 1 - y`, `x`), so bit `i` takes the cell
    /// that lands on it.
    pub open spec fn clockwised_bit(self, size: int, i: int) -> bool {
        grid_bit(size, i) && self.cell(size, bit_row(size, i), size - 1 - bit_column(size, i))
    }

    /// Bit `i` of the grid after a quarter turn counterclockwise: the cell
    /// (`x`, `y`) moves to (`y`, `size - 1 - x`).
    pub open spec fn counterclockwised_bit(self, size: int, i: int) -> bool {
        grid_bit(size, i) && self.cell(size, size - 1 - bit_row(size, i), bit_column(size, i))
    }

    /// Bit `i` of the clockwise turn of the cells at or after (`x`, `y`).
    pub open spec fn clockwised_from(self, size: int, x: int, y: int, i: int) -> bool {
        self.clockwised_bit(size, i) && at_or_after(
            x,
            y,
            bit_row(size, i),
            size - 1 - bit_column(size, i),
        )
    }

    /// Bit `i` of the counterclockwise turn of the cells at or after (`x`, `y`).
    pub open spec fn counterclockwised_from(self, size: int, x: int, y: int, i: int) -> bool {
        self.counterclockwised_bit(size, i) && at_or_after(
            x,
            y,
            size - 1 - bit_row(size, i),
            bit_column(size, i),
        )
    }

    /// The bits of the clockwise turn, as a predicate on bit numbers.
    pub open spec fn clockwised_bits(self, size: int) -> spec_fn(int) -> bool {
        |i: int| self.clockwised_bit(size, i)
    }

    /// The bits of the counterclockwise turn, as a predicate on bit numbers.
    pub open spec fn counterclockwised_bits(self, size: int) -> spec_fn(int) -> bool {
        |i: int| self.counterclockwised_bit(size, i)
    }

    /// The grid turned a quarter turn clockwise.
    pub open spec fn spec_clockwised(self, size: int) -> Form {
        Form(pattern(self.clockwised_bits(size), 16))
    }

    /// The grid turned a quarter turn counterclockwise.
    pub open spec fn spec_counterclockwised(self, size: int) -> Form {
        Form(pattern(self.counterclockwised_bits(size), 16))
    }

    /// Whether the cell in column `x` of row `y` is occupied.
    pub fn check_block_exists(form: &Form, size: u8, x: u8, y: u8) -> (exists: bool)
        requires
            2 <= size <= 4,
            x < size,
            y < size,
        ensures
            exists == form.cell(size as int, x as int, y as int),
    {
        assert(y * size <= 12) by (nonlinear_arith)
            requires
                y <= 3,
                size <= 4,
        ;
        let bits: u16 = form.0;
        let down: u16 = (y * size) as u16;
        let left: u16 = x as u16;
        assert((((bits >> down) << left) & 0b1000 == 0b1000) == ((bits >> ((down + 3 - left) as u16))
            & 1 == 1)) by (bit_vector)
            requires
                down <= 12,
                left <= 3,
        ;
        ((bits >> down) << left) & 0b1000 == 0b1000
    }

    /// The clockwise turn of the cells at or after (`x`, `y`): reads the
    /// grid row by row from that cell to the last one, and sets the bit on
    /// which each occupied cell lands.
    pub fn get_clockwised_block(from: &Form, size: u8, x: u8, y: u8) -> (block: u16)
        requires
            2 <= size <= 4,
            x < size,
            y < size,
        ensures
            forall|i: int|
                bit16(block, i) == from.clockwised_from(size as int, x as int, y as int, i),
        decreases size - y, size - x,
    {
        let exist = Form::check_block_exists(from, size, x, y);
        let mut clockwised: u16 = 0u16;
        proof {
            lemma_clockwise_target(size as int, x as int, y as int, 0);
        }
        assert(x * size <= 12) by (nonlinear_arith)
            requires
                x <= 3,
                size <= 4,
        ;
        let target: u16 = (x * size + (4 - size) + y) as u16;
        assert(target == clockwise_target(size as int, x as int, y as int));
        if exist {
            clockwised = clockwised | (1u16 << target);
        }
        let rest: u16 = if x == size - 1 {
            if y == size - 1 {
                0u16
            } else {
                Form::get_clockwised_block(from, size, 0, y + 1)
            }
        } else {
            Form::get_clockwised_block(from, size, x + 1, y)
        };
        proof {
            assert forall|i: int|
                bit16(clockwised | rest, i) == from.clockwised_from(
                    size as int,
                    x as int,
                    y as int,
                    i,
                ) by {
                lemma_bit_or(clockwised, rest, i);
                lemma_bit_or(0u16, 1u16 << target, i);
                lemma_bit_single(target as int, i);
                lemma_bit_zero(i);
                lemma_cell_of_bit(size as int, i);
                lemma_clockwise_target(size as int, x as int, y as int, i);
            }
        }
        clockwised | rest
    }

    /// The counterclockwise turn of the cells at or after (`x`, `y`): reads
    /// the grid row by row from that cell to the last one, and sets the bit
    /// on which each occupied cell lands.
    pub fn get_counterclockwised_block(from: &Form, size: u8, x: u8, y: u8) -> (block: u16)
        requires
            2 <= size <= 4,
            x < size,
            y < size,
        ensures
            forall|i: int|
                bit16(block, i) == from.counterclockwised_from(size as int, x as int, y as int, i),
        decreases size - y, size - x,
    {
        let exist = Form::check_block_exists(from, size, x, y);
        let mut counterclockwised: u16 = 0u16;
        proof {
            lemma_counterclockwise_target(size as int, x as int, y as int, 0);
        }
        assert((size - 1 - x) * size <= 12) by (nonlinear_arith)
            requires
                0 <= size - 1 - x <= 3,
                size <= 4,
        ;
        let target: u16 = ((size - 1 - x) * size + 3 - y) as u16;
        assert(target == counterclockwise_target(size as int, x as int, y as int));
        if exist {
            counterclockwised = counterclockwised | (1u16 << target);
        }
        let rest: u16 = if x == size - 1 {
            if y == size - 1 {
                0u16
            } else {
                Form::get_counterclockwised_block(from, size, 0, y + 1)
            }
        } else {
            Form::get_counterclockwised_block(from, size, x + 1, y)
        };
        proof {
            assert forall|i: int|
                bit16(counterclockwised | rest, i) == from.counterclockwised_from(
                    size as int,
                    x as int,
                    y as int,
                    i,
                ) by {
                lemma_bit_or(counterclockwised, rest, i);
                lemma_bit_or(0u16, 1u16 << target, i);
                lemma_bit_single(target as int, i);
                lemma_bit_zero(i);
                lemma_cell_of_bit(size as int, i);
                lemma_counterclockwise_target(size as int, x as int, y as int, i);
            }
        }
        counterclockwised | rest
    }

    /// The grid turned a quarter turn clockwise: the cell (`x`, `y`) moves
    /// to (`size - 1 - y`, `x`), so that the cell (`x`, `y`) of the turned
    /// grid is the cell (`y`, `size - 1 - x`) of this one. No bit outside
    /// the grid is set, and as many cells are occupied as before.
    pub fn clockwised(&self, size: u8) -> (turned: Form)
        requires
            2 <= size <= 4,
        ensures
            turned == self.spec_clockwised(size as int),
            turned.within(size as int),
            forall|x: int, y: int|
                in_grid(size as int, x, y) ==> #[trigger] turned.cell(size as int, x, y)
                    == self.cell(size as int, y, size - 1 - x),
            turned.count(size as int) == self.count(size as int),
    {
        let mut form = Form(0);
        form.0 = Form::get_clockwised_block(self, size, 0, 0);
        proof {
            self.lemma_clockwised(size as int);
            self.lemma_clockwised_count(size as int);
            assert forall|i: int| 0 <= i < 16 implies bit16(form.0, i) == bit16(
                self.spec_clockwised(size as int).0,
                i,
            ) by {
                lemma_cell_of_bit(size as int, i);
                assert(self.spec_clockwised(size as int).bit(i) == self.clockwised_bit(size as int, i));
            }
            lemma_same_bits(form.0, self.spec_clockwised(size as int).0);
        }
        form
    }

    /// The grid turned a quarter turn counterclockwise: the cell (`x`, `y`)
    /// moves to (`y`, `size - 1 - x`), so that the cell (`x`, `y`) of the
    /// turned grid is the cell (`size - 1 - y`, `x`) of this one. No bit
    /// outside the grid is set, and as many cells are occupied as before.
    pub fn counterclockwised(&self, size: u8) -> (turned: Form)
        requires
            2 <= size <= 4,
        ensures
            turned == self.spec_counterclockwised(size as int),
            turned.within(size as int),
            forall|x: int, y: int|
                in_grid(size as int, x, y) ==> #[trigger] turned.cell(size as int, x, y)
                    == self.cell(size as int, size - 1 - y, x),
            turned.count(size as int) == self.count(size as int),
    {
        let mut form = Form(0);
        form.0 = Form::get_counterclockwised_block(self, size, 0, 0);
        proof {
            self.lemma_counterclockwised(size as int);
            self.lemma_counterclockwised_count(size as int);
            assert forall|i: int| 0 <= i < 16 implies bit16(form.0, i) == bit16(
                self.spec_counterclockwised(size as int).0,
                i,
            ) by {
                lemma_cell_of_bit(size as int, i);
                assert(self.spec_counterclockwised(size as int).bit(i) == self.counterclockwised_bit(size as int, i));
            }
            lemma_same_bits(form.0, self.spec_counterclockwised(size as int).0);
        }
        form
    }

    /// What the clockwise turn is, bit by bit and cell by cell.
    pub proof fn lemma_clockwised(self, size: int)
        requires
            2 <= size <= 4,
        ensures
            forall|i: int| #[trigger]
                self.spec_clockwised(size).bit(i) == self.clockwised_bit(size, i),
            self.spec_clockwised(size).within(size),
            forall|x: int, y: int|
                in_grid(size, x, y) ==> #[trigger] self.spec_clockwised(size).cell(size, x, y)
                    == self.cell(size, y, size - 1 - x),
    {
        let turned = self.spec_clockwised(size);
        assert forall|i: int| #[trigger] turned.bit(i) == self.clockwised_bit(size, i) by {
            lemma_pattern_bit(self.clockwised_bits(size), 16, i);
            lemma_cell_of_bit(size, i);
        }
        assert forall|x: int, y: int| in_grid(size, x, y) implies #[trigger] turned.cell(
            size,
            x,
            y,
        ) == self.cell(size, y, size - 1 - x) by {
            lemma_bit_of_cell(size, x, y);
        }
    }

    /// What the counterclockwise turn is, bit by bit and cell by cell.
    pub proof fn lemma_counterclockwised(self, size: int)
        requires
            2 <= size <= 4,
        ensures
            forall|i: int| #[trigger]
                self.spec_counterclockwised(size).bit(i) == self.counterclockwised_bit(size, i),
            self.spec_counterclockwised(size).within(size),
            forall|x: int, y: int|
                in_grid(size, x, y) ==> #[trigger] self.spec_counterclockwised(size).cell(
                    size,
                    x,
                    y,
                ) == self.cell(size, size - 1 - y, x),
    {
        let turned = self.spec_counterclockwised(size);
        assert forall|i: int| #[trigger]
            turned.bit(i) == self.counterclockwised_bit(size, i) by {
            lemma_pattern_bit(self.counterclockwised_bits(size), 16, i);
            lemma_cell_of_bit(size, i);
        }
        assert forall|x: int, y: int| in_grid(size, x, y) implies #[trigger] turned.cell(
            size,
            x,
            y,
        ) == self.cell(size, size - 1 - y, x) by {
            lemma_bit_of_cell(size, x, y);
        }
    }

    /// The bits of the grid that are set: one for each occupied cell.
    pub open spec fn occupied(self, size: int) -> Set<int> {
        Set::new(|i: int| grid_bit(size, i) && self.bit(i))
    }

    /// The number of occupied cells.
    pub open spec fn count(self, size: int) -> nat {
        self.occupied(size).len()
    }

    /// The bits that are set, in the grid or outside it.
    pub open spec fn set_bits(self) -> Set<int> {
        Set::new(|i: int| self.bit(i))
    }

    /// The number of bits that are set.
    pub open spec fn ones(self) -> nat {
        self.set_bits().len()
    }

    /// A pattern has at most sixteen bits set, and a grid at most sixteen
    /// cells occupied.
    pub proof fn lemma_finite(self, size: int)
        ensures
            self.occupied(size).finite(),
            self.set_bits().finite(),
            self.count(size) <= self.ones() <= 16,
    {
        lemma_int_range(0, 16);
        assert(self.set_bits().subset_of(set_int_range(0, 16)));
        lemma_len_subset(self.set_bits(), set_int_range(0, 16));
        assert(self.occupied(size).subset_of(self.set_bits()));
        lemma_len_subset(self.occupied(size), self.set_bits());
    }

    /// In a grid of side 4 every bit holds a cell: the occupied cells are
    /// the bits that are set.
    pub proof fn lemma_count_of_four(self)
        ensures
            self.count(4) == self.ones(),
    {
        assert(self.occupied(4) =~= self.set_bits());
    }

    /// In a grid with no bit set outside its cells, the occupied cells are
    /// the bits that are set.
    pub proof fn lemma_count_within(self, size: int)
        requires
            self.within(size),
        ensures
            self.count(size) == self.ones(),
    {
        assert(self.occupied(size) =~= self.set_bits());
    }

    /// A turn clockwise takes each bit from where a turn counterclockwise
    /// would send it, and the other way round.
    pub proof fn lemma_turned_bits(self, size: int, i: int)
        requires
            2 <= size <= 4,
        ensures
            self.spec_clockwised(size).bit(i) == (grid_bit(size, i) && self.bit(
                counterclockwise_move(size, i),
            )),
            self.spec_counterclockwised(size).bit(i) == (grid_bit(size, i) && self.bit(
                clockwise_move(size, i),
            )),
    {
        self.lemma_clockwised(size);
        self.lemma_counterclockwised(size);
    }

    /// A quarter turn clockwise keeps the number of occupied cells.
    pub proof fn lemma_clockwised_count(self, size: int)
        requires
            2 <= size <= 4,
        ensures
            self.spec_clockwised(size).count(size) == self.count(size),
    {
        let turned = self.spec_clockwised(size).occupied(size);
        let back = |i: int| counterclockwise_move(size, i);
        self.spec_clockwised(size).lemma_finite(size);
        assert forall|a: int, b: int|
            turned.contains(a) && turned.contains(b) && #[trigger] back(a) == #[trigger] back(
                b,
            ) implies a == b by {
            lemma_moves(size, a);
            lemma_moves(size, b);
        }
        assert forall|b: int| turned.map(back).contains(b) == self.occupied(size).contains(b) by {
            if turned.map(back).contains(b) {
                let a = choose|a: int| turned.contains(a) && b == back(a);
                lemma_moves(size, a);
                self.lemma_turned_bits(size, a);
            }
            if self.occupied(size).contains(b) {
                let a = clockwise_move(size, b);
                lemma_moves(size, b);
                self.lemma_turned_bits(size, a);
                assert(turned.contains(a) && b == back(a));
            }
        }
        assert(turned.map(back) =~= self.occupied(size));
        lemma_map_size(turned, self.occupied(size), back);
    }

    /// A quarter turn counterclockwise keeps the number of occupied cells.
    pub proof fn lemma_counterclockwised_count(self, size: int)
        requires
            2 <= size <= 4,
        ensures
            self.spec_counterclockwised(size).count(size) == self.count(size),
    {
        let turned = self.spec_counterclockwised(size).occupied(size);
        let back = |i: int| clockwise_move(size, i);
        self.spec_counterclockwised(size).lemma_finite(size);
        assert forall|a: int, b: int|
            turned.contains(a) && turned.contains(b) && #[trigger] back(a) == #[trigger] back(
                b,
            ) implies a == b by {
            lemma_moves(size, a);
            lemma_moves(size, b);
        }
        assert forall|b: int| turned.map(back).contains(b) == self.occupied(size).contains(b) by {
            if turned.map(back).contains(b) {
                let a = choose|a: int| turned.contains(a) && b == back(a);
                lemma_moves(size, a);
                self.lemma_turned_bits(size, a);
            }
            if self.occupied(size).contains(b) {
                let a = counterclockwise_move(size, b);
                lemma_moves(size, b);
                self.lemma_turned_bits(size, a);
                assert(turned.contains(a) && b == back(a));
            }
        }
        assert(turned.map(back) =~= self.occupied(size));
        lemma_map_size(turned, self.occupied(size), back);
    }

    /// Each quarter turn undoes the other, on a grid with no bit set outside
    /// its cells.
    pub proof fn lemma_turn_back(self, size: int)
        requires
            2 <= size <= 4,
            self.within(size),
        ensures
            self.spec_clockwised(size).spec_counterclockwised(size) == self,
            self.spec_counterclockwised(size).spec_clockwised(size) == self,
    {
        let there = self.spec_clockwised(size);
        let other = self.spec_counterclockwised(size);
        assert forall|i: int| 0 <= i < 16 implies bit16(there.spec_counterclockwised(size).0, i)
            == bit16(self.0, i) && bit16(other.spec_clockwised(size).0, i) == bit16(self.0, i) by {
            there.lemma_turned_bits(size, i);
            other.lemma_turned_bits(size, i);
            assert(self.bit(i) ==> grid_bit(size, i));
            if grid_bit(size, i) {
                lemma_moves(size, i);
                self.lemma_turned_bits(size, clockwise_move(size, i));
                self.lemma_turned_bits(size, counterclockwise_move(size, i));
            }
        }
        lemma_same_bits(there.spec_counterclockwised(size).0, self.0);
        lemma_same_bits(other.spec_clockwised(size).0, self.0);
    }

    /// Four quarter turns the same way bring back a grid with no bit set
    /// outside its cells.
    pub proof fn lemma_full_turn(self, size: int)
        requires
            2 <= size <= 4,
            self.within(size),
        ensures
            self.spec_clockwised(size).spec_clockwised(size).spec_clockwised(size).spec_clockwised(
                size,
            ) == self,
            self.spec_counterclockwised(size).spec_counterclockwised(size).spec_counterclockwised(
                size,
            ).spec_counterclockwised(size) == self,
    {
        let a = self.spec_clockwised(size);
        let b = a.spec_clockwised(size);
        let c = b.spec_clockwised(size);
        let d = c.spec_clockwised(size);
        let p = self.spec_counterclockwised(size);
        let q = p.spec_counterclockwised(size);
        let r = q.spec_counterclockwised(size);
        let t = r.spec_counterclockwised(size);
        assert forall|i: int| 0 <= i < 16 implies bit16(d.0, i) == bit16(self.0, i) && bit16(t.0, i)
            == bit16(self.0, i) by {
            assert(self.bit(i) ==> grid_bit(size, i));
            if grid_bit(size, i) {
                let x = bit_column(size, i);
                let y = bit_row(size, i);
                lemma_cell_of_bit(size, i);
                lemma_bit_of_cell(size, x, y);
                lemma_bit_of_cell(size, y, size - 1 - x);
                lemma_bit_of_cell(size, size - 1 - x, size - 1 - y);
                lemma_bit_of_cell(size, size - 1 - y, x);
                self.lemma_clockwised(size);
                a.lemma_clockwised(size);
                b.lemma_clockwised(size);
                c.lemma_clockwised(size);
                self.lemma_counterclockwised(size);
                p.lemma_counterclockwised(size);
                q.lemma_counterclockwised(size);
                r.lemma_counterclockwised(size);
                assert(d.cell(size, x, y) == c.cell(size, y, size - 1 - x));
                assert(c.cell(size, y, size - 1 - x) == b.cell(size, size - 1 - x, size - 1 - y));
                assert(b.cell(size, size - 1 - x, size - 1 - y) == a.cell(size, size - 1 - y, x));
                assert(a.cell(size, size - 1 - y, x) == self.cell(size, x, y));
                assert(t.cell(size, x, y) == r.cell(size, size - 1 - y, x));
                assert(r.cell(size, size - 1 - y, x) == q.cell(size, size - 1 - x, size - 1 - y));
                assert(q.cell(size, size - 1 - x, size - 1 - y) == p.cell(size, y, size - 1 - x));
                assert(p.cell(size, y, size - 1 - x) == self.cell(size, x, y));
            } else {
                d.lemma_turned_bits(size, i);
                c.lemma_turned_bits(size, i);
                r.lemma_turned_bits(size, i);
            }
        }
        lemma_same_bits(d.0, self.0);
        lemma_same_bits(t.0, self.0);
    }
}

} // verus!
