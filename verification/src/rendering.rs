//! What holds of the text of a piece.
use crate::bits::lemma_bit_low;
use crate::form::{
    bit_column, bit_row, cell_bit, grid_bit, in_grid, lemma_bit_of_cell, lemma_cell_of_bit,
};
use crate::tetromino::Packed;
use crate::turning::{lemma_four_cells_in_each_plane, lemma_named_shows_four};
use vstd::arithmetic::div_mod::{lemma_fundamental_div_mod, lemma_fundamental_div_mod_converse};
use vstd::prelude::*;

verus! {

/// How often `c` occurs in `text`.
pub open spec fn occurrences(text: Seq<char>, c: char) -> nat
    decreases text.len(),
{
    if text.len() == 0 {
        0
    } else {
        occurrences(text.drop_last(), c) + if text.last() == c {
            1nat
        } else {
            0nat
        }
    }
}

/// Where the text holds the cell of bit `i`: the rows stand highest first,
/// each `size + 1` characters after the one before.
pub open spec fn position(size: int, i: int) -> int {
    (size - 1 - bit_row(size, i)) * (size + 1) + bit_column(size, i)
}

/// The occupied cells that stand among the first `n` characters of the text.
pub open spec fn written(piece: Packed, n: int) -> Set<int> {
    Set::new(
        |i: int|
            grid_bit(piece.size, i) && piece.current().bit(i) && position(piece.size, i) < n,
    )
}

/// Every cell has its place in the text, in the row and column that the
/// place gives back.
pub proof fn lemma_position(size: int, i: int)
    requires
        2 <= size <= 4,
        grid_bit(size, i),
    ensures
        0 <= position(size, i) < size * (size + 1) - 1,
        position(size, i) % (size + 1) == bit_column(size, i),
        position(size, i) / (size + 1) == size - 1 - bit_row(size, i),
{
    let row = size - 1 - bit_row(size, i);
    let column = bit_column(size, i);
    lemma_cell_of_bit(size, i);
    lemma_fundamental_div_mod_converse(position(size, i), size + 1, row, column);
    assert(0 <= row * (size + 1) <= (size - 1) * (size + 1)) by (nonlinear_arith)
        requires
            0 <= row <= size - 1,
            size >= 2,
    ;
    assert((size - 1) * (size + 1) + size - 1 == size * (size + 1) - 2) by (nonlinear_arith);
}

/// A place of the text that is no line break holds one cell, and no other
/// cell stands there; a line break holds none.
pub proof fn lemma_place(size: int, k: int, i: int)
    requires
        2 <= size <= 4,
        0 <= k < size * (size + 1) - 1,
        grid_bit(size, i),
    ensures
        0 <= k / (size + 1) < size,
        0 <= k % (size + 1) <= size,
        k % (size + 1) < size ==> (position(size, i) == k <==> i == cell_bit(
            size,
            k % (size + 1),
            size - 1 - k / (size + 1),
        )),
        k % (size + 1) == size ==> position(size, i) != k,
{
    let row = k / (size + 1);
    let column = k % (size + 1);
    lemma_fundamental_div_mod(k, size + 1);
    assert(0 <= row < size) by (nonlinear_arith)
        requires
            k == (size + 1) * row + column,
            0 <= column < size + 1,
            0 <= k < size * (size + 1) - 1,
            size >= 2,
    ;
    lemma_position(size, i);
    lemma_cell_of_bit(size, i);
    if column < size {
        lemma_bit_of_cell(size, column, size - 1 - row);
        let b = cell_bit(size, column, size - 1 - row);
        lemma_position(size, b);
        assert(position(size, b) == row * (size + 1) + column);
        assert(row * (size + 1) == (size + 1) * row) by (nonlinear_arith);
    }
}

/// In the first `n` characters of the text, `'1'` stands once for each
/// occupied cell among them, and a line break after every full row.
pub proof fn lemma_written(piece: Packed, n: int)
    requires
        piece.wf(),
        0 <= n <= piece.text().len(),
    ensures
        written(piece, n).finite(),
        occurrences(piece.text().take(n), '1') == written(piece, n).len(),
        occurrences(piece.text().take(n), '\n') == n / (piece.size + 1),
        occurrences(piece.text().take(n), '0') + occurrences(piece.text().take(n), '1')
            + occurrences(piece.text().take(n), '\n') == n,
    decreases n,
{
    let size = piece.size;
    let text = piece.text();
    assert(size * (size + 1) - 1 >= 0) by (nonlinear_arith)
        requires
            size >= 2,
    ;
    if n == 0 {
        assert(written(piece, 0) =~= Set::<int>::empty()) by {
            assert forall|i: int| !written(piece, 0).contains(i) by {
                if grid_bit(size, i) {
                    lemma_position(size, i);
                }
            }
        }
        assert(text.take(0).len() == 0);
    } else {
        let k = n - 1;
        lemma_written(piece, k);
        assert(text.take(n).drop_last() =~= text.take(k));
        assert(text.take(n).last() == piece.text_char(k));
        let row = k / (size + 1);
        let column = k % (size + 1);
        lemma_fundamental_div_mod(k, size + 1);
        assert(0 <= row < size) by (nonlinear_arith)
            requires
                k == (size + 1) * row + column,
                0 <= column < size + 1,
                0 <= k < size * (size + 1) - 1,
                size >= 2,
        ;
        assert((size + 1) * row == row * (size + 1) && (row + 1) * (size + 1) == row * (size + 1)
            + size + 1) by (nonlinear_arith);
        if column == size {
            lemma_fundamental_div_mod_converse(n, size + 1, row + 1, 0);
            assert(written(piece, n) =~= written(piece, k)) by {
                assert forall|i: int| written(piece, n).contains(i) == written(piece, k).contains(
                    i,
                ) by {
                    if grid_bit(size, i) {
                        lemma_place(size, k, i);
                    }
                }
            }
        } else {
            lemma_fundamental_div_mod_converse(n, size + 1, row, column + 1);
            let b = cell_bit(size, column, size - 1 - row);
            lemma_bit_of_cell(size, column, size - 1 - row);
            lemma_bit_low(piece.value, b);
            assert(piece.cell(column, size - 1 - row) == piece.current().bit(b));
            lemma_place(size, k, b);
            assert(!written(piece, k).contains(b));
            if piece.current().bit(b) {
                assert(written(piece, n) =~= written(piece, k).insert(b)) by {
                    assert forall|i: int| written(piece, n).contains(i) == written(
                        piece,
                        k,
                    ).insert(b).contains(i) by {
                        if grid_bit(size, i) {
                            lemma_place(size, k, i);
                        }
                    }
                }
            } else {
                assert(written(piece, n) =~= written(piece, k)) by {
                    assert forall|i: int| written(piece, n).contains(i) == written(
                        piece,
                        k,
                    ).contains(i) by {
                        if grid_bit(size, i) {
                            lemma_place(size, k, i);
                        }
                    }
                }
            }
        }
    }
}

/// The character in place `column` of row `row` of the text, the highest
/// row being row 0. Place `size` of a row is the line break behind it.
pub open spec fn text_at(piece: Packed, row: int, column: int) -> char {
    piece.text()[row * (piece.size + 1) + column]
}

/// The place `column` of row `row` is a place of the text, but for the line
/// break behind the last row, and gives back its row and column.
pub proof fn lemma_row_column(size: int, row: int, column: int)
    requires
        2 <= size <= 4,
        0 <= row < size,
        0 <= column <= size,
    ensures
        0 <= row * (size + 1) + column <= size * (size + 1) - 1,
        row < size - 1 || column < size ==> row * (size + 1) + column < size * (size + 1) - 1,
        (row * (size + 1) + column) / (size + 1) == row,
        (row * (size + 1) + column) % (size + 1) == column,
{
    lemma_fundamental_div_mod_converse(row * (size + 1) + column, size + 1, row, column);
    assert(0 <= row * (size + 1) <= (size - 1) * (size + 1)) by (nonlinear_arith)
        requires
            0 <= row <= size - 1,
            size >= 2,
    ;
    assert((size - 1) * (size + 1) + size == size * (size + 1) - 1) by (nonlinear_arith);
    if row < size - 1 {
        assert(row * (size + 1) <= (size - 2) * (size + 1)) by (nonlinear_arith)
            requires
                0 <= row <= size - 2,
                size >= 2,
        ;
        assert((size - 2) * (size + 1) + size < size * (size + 1) - 1) by (nonlinear_arith)
            requires
                size >= 2,
        ;
    }
}

/// The text of a piece has `size` rows of `size` characters, each `'0'` or
/// `'1'`, with a line break between two rows and none at the end; `'1'`
/// stands once for each occupied cell of the current orientation.
pub proof fn lemma_text(piece: Packed)
    requires
        piece.wf(),
    ensures
        piece.text().len() == piece.size * (piece.size + 1) - 1,
        forall|row: int, column: int|
            0 <= row < piece.size && 0 <= column < piece.size ==> #[trigger] text_at(
                piece,
                row,
                column,
            ) == (if piece.cell(column, piece.size - 1 - row) {
                '1'
            } else {
                '0'
            }),
        forall|row: int|
            0 <= row < piece.size - 1 ==> #[trigger] text_at(piece, row, piece.size) == '\n',
        occurrences(piece.text(), '\n') == piece.size - 1,
        occurrences(piece.text(), '1') == piece.count(),
        occurrences(piece.text(), '0') == piece.size * piece.size - piece.count(),
{
    let size = piece.size;
    let text = piece.text();
    assert(size * (size + 1) - 1 >= 0) by (nonlinear_arith)
        requires
            size >= 2,
    ;
    let n = text.len() as int;
    assert forall|row: int, column: int| 0 <= row < size && 0 <= column < size implies #[trigger] text_at(
        piece,
        row,
        column,
    ) == (if piece.cell(column, size - 1 - row) {
        '1'
    } else {
        '0'
    }) by {
        lemma_row_column(size, row, column);
    }
    assert forall|row: int| 0 <= row < size - 1 implies #[trigger] text_at(piece, row, size)
        == '\n' by {
        lemma_row_column(size, row, size);
    }
    lemma_written(piece, n);
    assert(text.take(n) =~= text);
    assert(n == (size - 1) * (size + 1) + size) by (nonlinear_arith)
        requires
            n == size * (size + 1) - 1,
    ;
    lemma_fundamental_div_mod_converse(n, size + 1, size - 1, size);
    assert(written(piece, n) =~= piece.current().occupied(size)) by {
        assert forall|i: int| written(piece, n).contains(i) == piece.current().occupied(
            size,
        ).contains(i) by {
            if grid_bit(size, i) {
                lemma_position(size, i);
            }
        }
    }
    assert(n - (size - 1) == size * size) by (nonlinear_arith)
        requires
            n == size * (size + 1) - 1,
    ;
}

/// The text of a named piece holds `'1'` exactly four times, in `size` rows
/// of `size` characters: as the piece is built and, for a piece of side 4,
/// after any number of turns clockwise.
pub proof fn lemma_text_of_named(piece: Packed, n: nat)
    requires
        piece.named(),
        n == 0 || piece.size == 4,
    ensures
        piece.clockwise_times(n).size == piece.size,
        piece.clockwise_times(n).text().len() == piece.size * (piece.size + 1) - 1,
        occurrences(piece.clockwise_times(n).text(), '\n') == piece.size - 1,
        occurrences(piece.clockwise_times(n).text(), '1') == 4,
        occurrences(piece.clockwise_times(n).text(), '0') == piece.size * piece.size - 4,
{
    if n == 0 {
        lemma_named_shows_four(piece);
    } else {
        lemma_four_cells_in_each_plane(piece, n);
    }
    lemma_text(piece.clockwise_times(n));
}

} // verus!
