//! A piece of four cells with its four orientations packed into one word.
//!
//! A piece is built from a grid, its seed: the word holds the seed and its
//! first, second and third quarter turn, `size * size` bits apart, the seed
//! lowest. A query reads the cell (`x`, `y`) of the current orientation at
//! bit `y * size + 3 - x` of the word. A turn recomputes nothing: it moves
//! the word by `size * 4` bits one way or the other, and puts the sixteen
//! bits from the end that the word moves towards back in, `size * 12` bits
//! nearer to the other end.
//!
//! The two distances agree for side 4 only, where both are sixteen bits. A
//! piece of side 4 therefore turns through its four planes and comes back
//! after four turns. A piece of side 2 or 3 shows its seed as built, and a
//! turn moves its planes to where no query reads them.
//!
//! A turn clockwise brings the highest plane to the front. The text draws
//! the highest row first, so there the piece is seen to turn clockwise.
use crate::bits::{bit64, low_bits};
use crate::form::{cell_bit, in_grid, Form};
use crate::rendering::{lemma_text, occurrences, text_at};
use crate::turning::{
    lemma_built_shows_seed, lemma_clockwise_of_four, lemma_clockwise_planes, lemma_counterclockwise_planes,
    lemma_line_stands_in_column_one, lemma_named_of_four, lemma_named_shows_four,
    lemma_square_as_built, lemma_t_as_built, lemma_turn_and_back, lemma_turn_keeps_four,
};
use vstd::arithmetic::div_mod::lemma_fundamental_div_mod_converse;
use vstd::prelude::*;

verus! {

/// The sixteen bits at the top of the word, which a clockwise turn moves.
pub open spec fn top_sixteen() -> u64 {
    0xffff_0000_0000_0000
}

/// Four planes in one word, each `stride` bits above the one before.
pub open spec fn pack(first: u16, second: u16, third: u16, fourth: u16, stride: int) -> u64 {
    (first as u64) | ((second as u64) << (stride as u64)) | ((third as u64) << ((stride
        * 2) as u64)) | ((fourth as u64) << ((stride * 3) as u64))
}

/// What a piece is: the side of its square and the word of its planes.
pub struct Packed {
    pub size: int,
    pub value: u64,
}

impl Packed {
    /// The side is 2, 3 or 4.
    pub open spec fn wf(self) -> bool {
        2 <= self.size <= 4
    }

    /// Whether the cell in column `x` of row `y` is occupied in the current
    /// orientation.
    pub open spec fn cell(self, x: int, y: int) -> bool {
        bit64(self.value, cell_bit(self.size, x, y))
    }

    /// The answer to a query for the cell in column `x` of row `y`: whether
    /// the cell is occupied, and no answer where the piece has no such cell.
    pub open spec fn query(self, x: int, y: int) -> Option<bool> {
        if in_grid(self.size, x, y) {
            Some(self.cell(x, y))
        } else {
            None
        }
    }

    /// The current orientation as a grid: the low sixteen bits of the word.
    pub open spec fn current(self) -> Form {
        Form((self.value & 0xffff) as u16)
    }

    /// The number of cells that are occupied in the current orientation.
    pub open spec fn count(self) -> nat {
        self.current().count(self.size)
    }

    /// The distance between two planes of the word: `size * size` bits.
    pub open spec fn stride(self) -> int {
        self.size * self.size
    }

    /// Plane `k` of the word: the `size * size` bits from bit
    /// `k * size * size` upwards.
    pub open spec fn plane(self, k: int) -> Form {
        Form(((self.value >> ((k * self.stride()) as u64)) & low_bits(self.stride())) as u16)
    }

    /// Whether each of the four planes has exactly four bits set.
    pub open spec fn four_in_each_plane(self) -> bool {
        forall|k: int| 0 <= k < 4 ==> (#[trigger] self.plane(k)).ones() == 4
    }

    /// The piece after `n` turns clockwise.
    pub open spec fn clockwise_times(self, n: nat) -> Packed
        decreases n,
    {
        if n == 0 {
            self
        } else {
            self.clockwise_times((n - 1) as nat).clockwise()
        }
    }

    /// The piece built from `seed`: the seed, and its first, second and
    /// third clockwise turn, packed `size * size` bits apart.
    pub open spec fn of(seed: Form, size: int) -> Packed {
        let first = seed.spec_clockwised(size);
        let second = first.spec_clockwised(size);
        let third = second.spec_clockwised(size);
        Packed { size, value: pack(seed.0, first.0, second.0, third.0, size * size) }
    }

    /// The word moved up by sixteen bits, its top sixteen bits coming back
    /// in at the bottom.
    pub open spec fn rolled_up(self) -> u64 {
        (self.value << 16) | (self.value >> 48)
    }

    /// The word moved down by sixteen bits, its low sixteen bits coming back
    /// in at the top.
    pub open spec fn rolled_down(self) -> u64 {
        (self.value >> 16) | (self.value << 48)
    }

    /// The piece after one turn clockwise: the word moves up by `size * 4`
    /// bits, and its top sixteen bits, moved down by `size * 12`, are added.
    pub open spec fn clockwise(self) -> Packed {
        Packed {
            size: self.size,
            value: (self.value << ((self.size * 4) as u64)).wrapping_add(
                (self.value & top_sixteen()) >> ((self.size * 12) as u64),
            ),
        }
    }

    /// The piece after one turn counterclockwise: the word moves down by
    /// `size * 4` bits, and its low sixteen bits, moved up by `size * 12`,
    /// are set.
    pub open spec fn counterclockwise(self) -> Packed {
        Packed {
            size: self.size,
            value: (self.value >> ((self.size * 4) as u64)) | ((self.value & 0xffff) << ((self.size
                * 12) as u64)),
        }
    }

    /// The line.
    pub open spec fn i() -> Packed {
        Packed::of(Form(0x4444), 4)
    }

    /// The square.
    pub open spec fn o() -> Packed {
        Packed::of(Form(0xFFFF), 2)
    }

    /// The step that starts at the upper left.
    pub open spec fn z() -> Packed {
        Packed::of(Form(0xC600), 4)
    }

    /// The step that starts at the upper right.
    pub open spec fn s() -> Packed {
        Packed::of(Form(0x3600), 4)
    }

    /// The hook that opens to the left.
    pub open spec fn j() -> Packed {
        Packed::of(Form(0x2260), 4)
    }

    /// The hook that opens to the right.
    pub open spec fn l() -> Packed {
        Packed::of(Form(0x4460), 4)
    }

    /// The T: a row of three with one cell above its middle.
    pub open spec fn t() -> Packed {
        Packed::of(Form(0x0170), 3)
    }

    /// Character `k` of the text: the rows stand one after the other, the
    /// highest first, each followed by a line break; a row holds `'1'` for
    /// an occupied cell and `'0'` for an empty one, from column 0.
    pub open spec fn text_char(self, k: int) -> char {
        let row = k / (self.size + 1);
        let column = k % (self.size + 1);
        if column == self.size {
            '\n'
        } else if self.cell(column, self.size - 1 - row) {
            '1'
        } else {
            '0'
        }
    }

    /// The text of the current orientation: `size` rows of `size`
    /// characters, with a line break between two rows and none at the end.
    pub open spec fn text(self) -> Seq<char> {
        Seq::new((self.size * (self.size + 1) - 1) as nat, |k: int| self.text_char(k))
    }

    /// Whether the piece is one of the seven named pieces, as built.
    pub open spec fn named(self) -> bool {
        self == Packed::i() || self == Packed::o() || self == Packed::z() || self == Packed::s()
            || self == Packed::j() || self == Packed::l() || self == Packed::t()
    }
}

/// A piece of four cells: the side of its square, and its four orientations
/// in one word, the current one lowest.
#[derive(Clone, Copy, Debug, PartialEq, Eq, Structural)]
pub struct Tetromino {
    value: u64,
    size: u8,
}

impl View for Tetromino {
    type V = Packed;

    closed spec fn view(&self) -> Packed {
        Packed { size: self.size as int, value: self.value }
    }
}

impl Tetromino {
    #[verifier::type_invariant]
    spec fn inv(&self) -> bool {
        2 <= self.size <= 4
    }

    /// Whether the cell in column `x` of row `y` is occupied in the current
    /// orientation. The piece has no cell in column `size` or beyond, nor in
    /// row `size` or beyond: no such query is admitted.
    pub fn check(&self, x: u8, y: u8) -> (occupied: bool)
        requires
            x < self@.size,
            y < self@.size,
        ensures
            occupied == self@.cell(x as int, y as int),
            self@.query(x as int, y as int) == Some(occupied),
    {
        proof {
            use_type_invariant(self);
        }
        assert(y * self.size <= 12) by (nonlinear_arith)
            requires
                y <= 3,
                self.size <= 4,
        ;
        let bits: u64 = self.value;
        let left: u64 = x as u64;
        let down: u64 = (y * self.size) as u64;
        assert((((bits << left) >> down) & 0b1000 == 0b1000) == ((bits >> ((down + 3 - left) as u64))
            & 1 == 1)) by (bit_vector)
            requires
                down <= 12,
                left <= 3,
        ;
        ((bits << left) >> down) & 0b1000 == 0b1000
    }

    /// Whether the cell in column `x` of row `y` is occupied in the current
    /// orientation, or `None` where the piece has no such cell.
    pub fn try_check(&self, x: u8, y: u8) -> (occupied: Option<bool>)
        ensures
            occupied == self@.query(x as int, y as int),
            occupied is None <==> x >= self@.size || y >= self@.size,
            x == self@.size || y == self@.size ==> occupied is None,
    {
        if x >= self.size || y >= self.size {
            None
        } else {
            Some(self.check(x, y))
        }
    }

    /// The piece built from `form`: the form, and its first, second and
    /// third clockwise turn, packed `size * size` bits apart.
    pub fn from_form(form: Form, size: u8) -> (piece: Tetromino)
        requires
            2 <= size <= 4,
        ensures
            piece@ == Packed::of(form, size as int),
            forall|x: int, y: int|
                in_grid(size as int, x, y) ==> #[trigger] piece@.cell(x, y) == form.cell(
                    size as int,
                    x,
                    y,
                ),
            piece@.count() == form.count(size as int),
    {
        proof {
            lemma_built_shows_seed(form, size as int);
        }
        assert(size * size <= 16) by (nonlinear_arith)
            requires
                size <= 4,
        ;
        let stride: u64 = (size * size) as u64;
        let first = form.clockwised(size);
        let second = first.clockwised(size);
        let third = second.clockwised(size);
        let value: u64 = (form.0 as u64) | ((first.0 as u64) << stride) | ((second.0 as u64) << (stride
            * 2)) | ((third.0 as u64) << (stride * 3));
        Tetromino { size, value }
    }

    /// Turns the piece clockwise: moves the word up by `size * 4` bits and
    /// adds, wrapping, what were its top sixteen bits, moved down by
    /// `size * 12`. With side 4 the word goes round by one plane: what was
    /// the highest plane becomes the current orientation, no bit is lost
    /// and none is carried.
    pub fn turn_clockwise(&mut self)
        ensures
            final(self)@ == old(self)@.clockwise(),
            old(self)@.size == 4 ==> final(self)@.value == old(self)@.rolled_up(),
            old(self)@.size == 4 ==> final(self)@.plane(0) == old(self)@.plane(3),
            old(self)@.size == 4 ==> final(self)@.plane(1) == old(self)@.plane(0),
            old(self)@.size == 4 ==> final(self)@.plane(2) == old(self)@.plane(1),
            old(self)@.size == 4 ==> final(self)@.plane(3) == old(self)@.plane(2),
            old(self)@.size == 4 ==> final(self)@.counterclockwise() == old(self)@,
            old(self)@.size == 4 && old(self)@.four_in_each_plane()
                ==> final(self)@.four_in_each_plane() && final(self)@.count() == 4,
    {
        proof {
            use_type_invariant(&*self);
            if self@.size == 4 {
                lemma_turn_and_back(self@);
                lemma_clockwise_of_four(self@);
                lemma_clockwise_planes(self@);
                lemma_counterclockwise_planes(self@);
                if self@.four_in_each_plane() {
                    lemma_turn_keeps_four(self@);
                }
            }
        }
        let next: u64 = (self.value & 0xffff_0000_0000_0000) >> ((self.size * 12) as u64);
        let moved: u64 = self.value << ((self.size * 4) as u64);
        self.value = moved.wrapping_add(next);
    }

    /// Turns the piece counterclockwise: moves the word down by `size * 4`
    /// bits and sets what were its low sixteen bits, moved up by
    /// `size * 12`. With side 4 the word goes round by one plane: the
    /// current orientation becomes the highest plane.
    pub fn turn_counterclockwise(&mut self)
        ensures
            final(self)@ == old(self)@.counterclockwise(),
            old(self)@.size == 4 ==> final(self)@.value == old(self)@.rolled_down(),
            old(self)@.size == 4 ==> final(self)@.plane(0) == old(self)@.plane(1),
            old(self)@.size == 4 ==> final(self)@.plane(1) == old(self)@.plane(2),
            old(self)@.size == 4 ==> final(self)@.plane(2) == old(self)@.plane(3),
            old(self)@.size == 4 ==> final(self)@.plane(3) == old(self)@.plane(0),
            old(self)@.size == 4 ==> final(self)@.clockwise() == old(self)@,
            old(self)@.size == 4 && old(self)@.four_in_each_plane()
                ==> final(self)@.four_in_each_plane() && final(self)@.count() == 4,
    {
        proof {
            use_type_invariant(&*self);
            if self@.size == 4 {
                lemma_turn_and_back(self@);
                lemma_clockwise_of_four(self@);
                lemma_clockwise_planes(self@);
                lemma_counterclockwise_planes(self@);
                if self@.four_in_each_plane() {
                    lemma_turn_keeps_four(self@);
                }
            }
        }
        let current: u64 = self.value & 0xffff;
        let moved: u64 = self.value >> ((self.size * 4) as u64);
        self.value = moved | (current << ((self.size * 12) as u64));
    }

    /// The text of the current orientation: `size` rows of `size`
    /// characters, `'1'` for an occupied cell and `'0'` for an empty one, the
    /// highest row first, with a line break between two rows and none at the
    /// end.
    pub fn to_string(&self) -> (text: String)
        ensures
            text@ == self@.text(),
            text@.len() == self@.size * (self@.size + 1) - 1,
            forall|row: int, column: int|
                0 <= row < self@.size && 0 <= column < self@.size ==> #[trigger] text_at(
                    self@,
                    row,
                    column,
                ) == (if self@.cell(column, self@.size - 1 - row) {
                    '1'
                } else {
                    '0'
                }),
            forall|row: int|
                0 <= row < self@.size - 1 ==> #[trigger] text_at(self@, row, self@.size) == '\n',
            occurrences(text@, '\n') == self@.size - 1,
            occurrences(text@, '1') == self@.count(),
            occurrences(text@, '0') == self@.size * self@.size - self@.count(),
    {
        proof {
            use_type_invariant(self);
            lemma_text(self@);
        }
        let size: u8 = self.size;
        let ghost width: int = size + 1;
        let mut text = String::new();
        let mut row: u8 = 0;
        while row < size
            invariant
                size == self@.size,
                2 <= size <= 4,
                width == size + 1,
                row <= size,
                text@.len() == (if row == size {
                    row * width - 1
                } else {
                    row * width
                }),
                forall|k: int| 0 <= k < text@.len() ==> text@[k] == self@.text_char(k),
            decreases size - row,
        {
            let y: u8 = size - 1 - row;
            let ghost start: int = row * width;
            let mut x: u8 = 0;
            while x < size
                invariant
                    size == self@.size,
                    2 <= size <= 4,
                    width == size + 1,
                    row < size,
                    y == size - 1 - row,
                    x <= size,
                    start == row * width,
                    text@.len() == start + x,
                    forall|k: int| 0 <= k < text@.len() ==> text@[k] == self@.text_char(k),
                decreases size - x,
            {
                proof {
                    lemma_fundamental_div_mod_converse(start + x, width, row as int, x as int);
                    reveal_strlit("1");
                    reveal_strlit("0");
                }
                if self.check(x, y) {
                    text.append("1");
                } else {
                    text.append("0");
                }
                x += 1;
            }
            if y != 0 {
                proof {
                    lemma_fundamental_div_mod_converse(
                        start + size,
                        width,
                        row as int,
                        size as int,
                    );
                    reveal_strlit("\n");
                }
                text.append("\n");
            }
            row += 1;
            assert(row * width == start + width) by (nonlinear_arith)
                requires
                    start == (row - 1) * width,
            ;
        }
        assert(text@.len() == size * (size + 1) - 1);
        assert(text@ =~= self@.text());
        text
    }

    /// The side of the piece's square.
    pub fn size(&self) -> (size: u8)
        ensures
            size == self@.size,
            2 <= size <= 4,
    {
        proof {
            use_type_invariant(self);
        }
        self.size
    }

    /// The word that packs the four orientations.
    pub fn value(&self) -> (value: u64)
        ensures
            value == self@.value,
    {
        self.value
    }

    /// The line.
    pub fn i() -> (piece: Tetromino)
        ensures
            piece@ == Packed::i(),
            piece@.count() == 4,
            piece@.four_in_each_plane(),
            forall|x: int, y: int| in_grid(4, x, y) ==> #[trigger] piece@.cell(x, y) == (x == 1),
    {
        proof {
            lemma_named_shows_four(Packed::i());
            lemma_named_of_four(Packed::i());
            lemma_line_stands_in_column_one();
        }
        Tetromino::from_form(Form(0x4444), 4)
    }

    /// The square.
    pub fn o() -> (piece: Tetromino)
        ensures
            piece@ == Packed::o(),
            piece@.count() == 4,
            piece@.four_in_each_plane(),
    {
        proof {
            lemma_named_shows_four(Packed::o());
            lemma_square_as_built();
        }
        Tetromino::from_form(Form(0xFFFF), 2)
    }

    /// The step that starts at the upper left.
    pub fn z() -> (piece: Tetromino)
        ensures
            piece@ == Packed::z(),
            piece@.count() == 4,
            piece@.four_in_each_plane(),
    {
        proof {
            lemma_named_shows_four(Packed::z());
            lemma_named_of_four(Packed::z());
        }
        Tetromino::from_form(Form(0xC600), 4)
    }

    /// The step that starts at the upper right.
    pub fn s() -> (piece: Tetromino)
        ensures
            piece@ == Packed::s(),
            piece@.count() == 4,
            piece@.four_in_each_plane(),
    {
        proof {
            lemma_named_shows_four(Packed::s());
            lemma_named_of_four(Packed::s());
        }
        Tetromino::from_form(Form(0x3600), 4)
    }

    /// The hook that opens to the left.
    pub fn j() -> (piece: Tetromino)
        ensures
            piece@ == Packed::j(),
            piece@.count() == 4,
            piece@.four_in_each_plane(),
    {
        proof {
            lemma_named_shows_four(Packed::j());
            lemma_named_of_four(Packed::j());
        }
        Tetromino::from_form(Form(0x2260), 4)
    }

    /// The hook that opens to the right.
    pub fn l() -> (piece: Tetromino)
        ensures
            piece@ == Packed::l(),
            piece@.count() == 4,
            piece@.four_in_each_plane(),
    {
        proof {
            lemma_named_shows_four(Packed::l());
            lemma_named_of_four(Packed::l());
        }
        Tetromino::from_form(Form(0x4460), 4)
    }

    /// The T: a row of three with one cell above its middle, in a square of
    /// side 3.
    pub fn t() -> (piece: Tetromino)
        ensures
            piece@ == Packed::t(),
            piece@.count() == 4,
            piece@.four_in_each_plane(),
            forall|x: int, y: int|
                in_grid(3, x, y) ==> #[trigger] piece@.cell(x, y) == (y == 1 || (x == 1 && y
                    == 2)),
    {
        proof {
            lemma_named_shows_four(Packed::t());
            lemma_t_as_built();
        }
        Tetromino::from_form(Form(0x0170), 3)
    }
}

} // verus!
