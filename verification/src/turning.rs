//! What holds of pieces when they are built and turned.
use crate::bits::{
    bit16, bit64, lemma_bit_or, lemma_bit_single, lemma_bit64_or, lemma_bit64_shl, lemma_bit64_shr, lemma_bit64_wide,
    lemma_bit_low, lemma_bit_window, lemma_same_bits,
};
use crate::form::{
    cell_bit, counterclockwise_move, grid_bit, in_grid, lemma_bit_of_cell, lemma_cell_of_bit, Form,
};
use crate::tetromino::{pack, Packed};
use vstd::prelude::*;

verus! {

/// The bits of four packed planes: bit `i` of the word is set where one of
/// the planes has the bit that lands there.
pub proof fn lemma_pack_bit(first: u16, second: u16, third: u16, fourth: u16, stride: int, i: int)
    requires
        0 <= stride <= 16,
    ensures
        bit64(pack(first, second, third, fourth, stride), i) == (bit16(first, i) || bit16(
            second,
            i - stride,
        ) || bit16(third, i - stride * 2) || bit16(fourth, i - stride * 3)),
{
    let a: u64 = first as u64;
    let b: u64 = (second as u64) << (stride as u64);
    let c: u64 = (third as u64) << ((stride * 2) as u64);
    let d: u64 = (fourth as u64) << ((stride * 3) as u64);
    lemma_bit64_or(a | b | c, d, i);
    lemma_bit64_or(a | b, c, i);
    lemma_bit64_or(a, b, i);
    lemma_bit64_wide(first, i);
    lemma_bit64_shl(second as u64, stride, i);
    lemma_bit64_wide(second, i - stride);
    lemma_bit64_shl(third as u64, stride * 2, i);
    lemma_bit64_wide(third, i - stride * 2);
    lemma_bit64_shl(fourth as u64, stride * 3, i);
    lemma_bit64_wide(fourth, i - stride * 3);
}

/// A piece as built shows its seed: the cells of its current orientation are
/// the cells of the seed, and as many are occupied.
pub proof fn lemma_built_shows_seed(seed: Form, size: int)
    requires
        2 <= size <= 4,
    ensures
        forall|x: int, y: int|
            in_grid(size, x, y) ==> #[trigger] Packed::of(seed, size).cell(x, y) == seed.cell(
                size,
                x,
                y,
            ),
        Packed::of(seed, size).count() == seed.count(size),
{
    let first = seed.spec_clockwised(size);
    let second = first.spec_clockwised(size);
    let third = second.spec_clockwised(size);
    let piece = Packed::of(seed, size);
    seed.lemma_clockwised(size);
    first.lemma_clockwised(size);
    second.lemma_clockwised(size);
    assert(size * size >= 4 && size * size <= 16) by (nonlinear_arith)
        requires
            2 <= size <= 4,
    ;
    assert forall|i: int| grid_bit(size, i) implies bit64(piece.value, i) == bit16(seed.0, i) by {
        lemma_pack_bit(seed.0, first.0, second.0, third.0, size * size, i);
        assert(first.bit(i - size * size) ==> grid_bit(size, i - size * size));
        assert(second.bit(i - size * size * 2) ==> grid_bit(size, i - size * size * 2));
        assert(third.bit(i - size * size * 3) ==> grid_bit(size, i - size * size * 3));
    }
    assert forall|x: int, y: int| in_grid(size, x, y) implies #[trigger] piece.cell(x, y)
        == seed.cell(size, x, y) by {
        lemma_bit_of_cell(size, x, y);
    }
    assert forall|i: int|
        piece.current().occupied(size).contains(i) == seed.occupied(size).contains(i) by {
        lemma_bit_low(piece.value, i);
        lemma_cell_of_bit(size, i);
    }
    assert(piece.current().occupied(size) =~= seed.occupied(size));
}

/// A pattern of four single bits has those four bits set and no other, so
/// it has four bits set; where the four are bits of the grid, four cells are
/// occupied and no bit is set outside the grid.
pub proof fn lemma_four_bits(form: Form, size: int, a: int, b: int, c: int, d: int)
    requires
        0 <= a < b < c < d < 16,
        form.0 == (1u16 << (a as u16)) | (1u16 << (b as u16)) | (1u16 << (c as u16)) | (1u16 << (
        d as u16)),
    ensures
        forall|i: int| #[trigger] form.bit(i) == (i == a || i == b || i == c || i == d),
        form.ones() == 4,
        grid_bit(size, a) && grid_bit(size, b) && grid_bit(size, c) && grid_bit(size, d)
            ==> form.count(size) == 4 && form.within(size),
{
    let ab: u16 = (1u16 << (a as u16)) | (1u16 << (b as u16));
    let abc: u16 = ab | (1u16 << (c as u16));
    assert forall|i: int| #[trigger] form.bit(i) == (i == a || i == b || i == c || i == d) by {
        lemma_bit_or(abc, 1u16 << (d as u16), i);
        lemma_bit_or(ab, 1u16 << (c as u16), i);
        lemma_bit_or(1u16 << (a as u16), 1u16 << (b as u16), i);
        lemma_bit_single(a, i);
        lemma_bit_single(b, i);
        lemma_bit_single(c, i);
        lemma_bit_single(d, i);
    }
    let four = Set::<int>::empty().insert(a).insert(b).insert(c).insert(d);
    assert(form.set_bits() =~= four);
    if grid_bit(size, a) && grid_bit(size, b) && grid_bit(size, c) && grid_bit(size, d) {
        assert(form.occupied(size) =~= four);
    }
}

/// The seed of the line has four cells.
pub proof fn lemma_seed_i()
    ensures
        Form(0x4444).ones() == 4,
        forall|i: int| #[trigger] Form(0x4444).bit(i) == (i == 2 || i == 6 || i == 10 || i == 14),
{
    assert(0x4444u16 == (1u16 << 2) | (1u16 << 6) | (1u16 << 10) | (1u16 << 14)) by (bit_vector);
    lemma_four_bits(Form(0x4444), 4, 2, 6, 10, 14);
}

/// The seed of the step that starts at the upper left has four cells.
pub proof fn lemma_seed_z()
    ensures
        Form(0xC600).ones() == 4,
{
    assert(0xC600u16 == (1u16 << 9) | (1u16 << 10) | (1u16 << 14) | (1u16 << 15)) by (bit_vector);
    lemma_four_bits(Form(0xC600), 4, 9, 10, 14, 15);
}

/// The seed of the step that starts at the upper right has four cells.
pub proof fn lemma_seed_s()
    ensures
        Form(0x3600).ones() == 4,
{
    assert(0x3600u16 == (1u16 << 9) | (1u16 << 10) | (1u16 << 12) | (1u16 << 13)) by (bit_vector);
    lemma_four_bits(Form(0x3600), 4, 9, 10, 12, 13);
}

/// The seed of the hook that opens to the left has four cells.
pub proof fn lemma_seed_j()
    ensures
        Form(0x2260).ones() == 4,
{
    assert(0x2260u16 == (1u16 << 5) | (1u16 << 6) | (1u16 << 9) | (1u16 << 13)) by (bit_vector);
    lemma_four_bits(Form(0x2260), 4, 5, 6, 9, 13);
}

/// The seed of the hook that opens to the right has four cells.
pub proof fn lemma_seed_l()
    ensures
        Form(0x4460).ones() == 4,
{
    assert(0x4460u16 == (1u16 << 5) | (1u16 << 6) | (1u16 << 10) | (1u16 << 14)) by (bit_vector);
    lemma_four_bits(Form(0x4460), 4, 5, 6, 10, 14);
}

/// The seed of the T has four cells: the middle row and the cell above its
/// middle. None of them is a corner of the grid.
pub proof fn lemma_seed_t()
    ensures
        Form(0x0170).count(3) == 4,
        Form(0x0170).within(3),
        forall|i: int| #[trigger] Form(0x0170).bit(i) == (i == 4 || i == 5 || i == 6 || i == 8),
{
    assert(0x0170u16 == (1u16 << 4) | (1u16 << 5) | (1u16 << 6) | (1u16 << 8)) by (bit_vector);
    lemma_four_bits(Form(0x0170), 3, 4, 5, 6, 8);
}

/// The seed of the square has every bit set, and so the four cells of its
/// grid.
pub proof fn lemma_seed_o()
    ensures
        Form(0xFFFF).count(2) == 4,
        forall|i: int| 0 <= i < 16 ==> #[trigger] Form(0xFFFF).bit(i),
{
    assert forall|i: int| 0 <= i < 16 implies #[trigger] Form(0xFFFF).bit(i) by {
        let k: u16 = i as u16;
        assert((0xFFFFu16 >> k) & 1 == 1) by (bit_vector)
            requires
                k < 16,
        ;
    }
    let four = Set::<int>::empty().insert(2).insert(3).insert(4).insert(5);
    assert(Form(0xFFFF).occupied(2) =~= four);
}

/// The planes of a piece of side 4 as built are its seed and the seed's
/// first, second and third turn clockwise.
pub proof fn lemma_built_planes(seed: Form)
    ensures
        Packed::of(seed, 4).plane(0) == seed,
        Packed::of(seed, 4).plane(1) == seed.spec_clockwised(4),
        Packed::of(seed, 4).plane(2) == seed.spec_clockwised(4).spec_clockwised(4),
        Packed::of(seed, 4).plane(3) == seed.spec_clockwised(4).spec_clockwised(
            4,
        ).spec_clockwised(4),
{
    let first = seed.spec_clockwised(4);
    let second = first.spec_clockwised(4);
    let third = second.spec_clockwised(4);
    let piece = Packed::of(seed, 4);
    assert forall|i: int| 0 <= i < 16 implies bit16(piece.plane(0).0, i) == bit16(seed.0, i)
        && bit16(piece.plane(1).0, i) == bit16(first.0, i) && bit16(piece.plane(2).0, i) == bit16(
        second.0,
        i,
    ) && bit16(piece.plane(3).0, i) == bit16(third.0, i) by {
        lemma_bit_window(piece.value, 0, 16, i);
        lemma_bit_window(piece.value, 16, 16, i);
        lemma_bit_window(piece.value, 32, 16, i);
        lemma_bit_window(piece.value, 48, 16, i);
        lemma_pack_bit(seed.0, first.0, second.0, third.0, 16, i);
        lemma_pack_bit(seed.0, first.0, second.0, third.0, 16, i + 16);
        lemma_pack_bit(seed.0, first.0, second.0, third.0, 16, i + 32);
        lemma_pack_bit(seed.0, first.0, second.0, third.0, 16, i + 48);
    }
    lemma_same_bits(piece.plane(0).0, seed.0);
    lemma_same_bits(piece.plane(1).0, first.0);
    lemma_same_bits(piece.plane(2).0, second.0);
    lemma_same_bits(piece.plane(3).0, third.0);
}

/// A turn clockwise of a piece of side 4 moves the word round by sixteen
/// bits: nothing is lost, and nothing is carried.
pub proof fn lemma_clockwise_of_four(piece: Packed)
    requires
        piece.size == 4,
    ensures
        piece.clockwise().value == (piece.value << 16) | (piece.value >> 48),
        piece.counterclockwise().value == (piece.value >> 16) | (piece.value << 48),
{
    let v: u64 = piece.value;
    assert((v << 16) + ((v & 0xffff_0000_0000_0000) >> 48) == ((v << 16) | (v >> 48)))
        by (bit_vector);
    assert((v & 0xffff) << 48 == v << 48) by (bit_vector);
}

/// A turn clockwise of a piece of side 4 moves each plane up by one place,
/// and the highest to the lowest.
pub proof fn lemma_clockwise_planes(piece: Packed)
    requires
        piece.size == 4,
    ensures
        piece.clockwise().plane(0) == piece.plane(3),
        piece.clockwise().plane(1) == piece.plane(0),
        piece.clockwise().plane(2) == piece.plane(1),
        piece.clockwise().plane(3) == piece.plane(2),
{
    let v: u64 = piece.value;
    let turned = piece.clockwise();
    lemma_clockwise_of_four(piece);
    assert forall|i: int| 0 <= i < 16 implies bit16(turned.plane(0).0, i) == bit16(
        piece.plane(3).0,
        i,
    ) && bit16(turned.plane(1).0, i) == bit16(piece.plane(0).0, i) && bit16(turned.plane(2).0, i)
        == bit16(piece.plane(1).0, i) && bit16(turned.plane(3).0, i) == bit16(
        piece.plane(2).0,
        i,
    ) by {
        lemma_bit_window(v, 0, 16, i);
        lemma_bit_window(v, 16, 16, i);
        lemma_bit_window(v, 32, 16, i);
        lemma_bit_window(v, 48, 16, i);
        lemma_bit_window(turned.value, 0, 16, i);
        lemma_bit_window(turned.value, 16, 16, i);
        lemma_bit_window(turned.value, 32, 16, i);
        lemma_bit_window(turned.value, 48, 16, i);
        lemma_bit64_or(v << 16, v >> 48, i);
        lemma_bit64_or(v << 16, v >> 48, i + 16);
        lemma_bit64_or(v << 16, v >> 48, i + 32);
        lemma_bit64_or(v << 16, v >> 48, i + 48);
        lemma_bit64_shl(v, 16, i);
        lemma_bit64_shl(v, 16, i + 16);
        lemma_bit64_shl(v, 16, i + 32);
        lemma_bit64_shl(v, 16, i + 48);
        lemma_bit64_shr(v, 48, i);
        lemma_bit64_shr(v, 48, i + 16);
        lemma_bit64_shr(v, 48, i + 32);
        lemma_bit64_shr(v, 48, i + 48);
    }
    lemma_same_bits(turned.plane(0).0, piece.plane(3).0);
    lemma_same_bits(turned.plane(1).0, piece.plane(0).0);
    lemma_same_bits(turned.plane(2).0, piece.plane(1).0);
    lemma_same_bits(turned.plane(3).0, piece.plane(2).0);
}

/// Each turn undoes the other: a piece of side 4 that is turned clockwise
/// and then counterclockwise, or the other way round, is the piece it was.
pub proof fn lemma_turn_and_back(piece: Packed)
    requires
        piece.size == 4,
    ensures
        piece.clockwise().counterclockwise() == piece,
        piece.counterclockwise().clockwise() == piece,
{
    let v: u64 = piece.value;
    lemma_clockwise_of_four(piece);
    lemma_clockwise_of_four(piece.clockwise());
    lemma_clockwise_of_four(piece.counterclockwise());
    let there: u64 = (v << 16) | (v >> 48);
    let back: u64 = (v >> 16) | (v << 48);
    assert((there >> 16) | (there << 48) == v) by (bit_vector)
        requires
            there == (v << 16) | (v >> 48),
    ;
    assert((back << 16) | (back >> 48) == v) by (bit_vector)
        requires
            back == (v >> 16) | (v << 48),
    ;
}

/// Four turns clockwise bring a piece of side 4 back: the word is the one it
/// was, and so is every cell.
pub proof fn lemma_four_turns(piece: Packed)
    requires
        piece.size == 4,
    ensures
        piece.clockwise_times(4) == piece,
        forall|x: int, y: int| piece.clockwise_times(4).cell(x, y) == piece.cell(x, y),
{
    let v: u64 = piece.value;
    let once = piece.clockwise();
    let twice = once.clockwise();
    let thrice = twice.clockwise();
    reveal_with_fuel(Packed::clockwise_times, 5);
    assert(piece.clockwise_times(4) == thrice.clockwise());
    lemma_clockwise_of_four(piece);
    lemma_clockwise_of_four(once);
    lemma_clockwise_of_four(twice);
    lemma_clockwise_of_four(thrice);
    let a: u64 = once.value;
    let b: u64 = twice.value;
    let c: u64 = thrice.value;
    assert((c << 16) | (c >> 48) == v) by (bit_vector)
        requires
            a == (v << 16) | (v >> 48),
            b == (a << 16) | (a >> 48),
            c == (b << 16) | (b >> 48),
    ;
}

/// The current orientation of a piece of side 4 is its lowest plane.
pub proof fn lemma_current_plane(piece: Packed)
    requires
        piece.size == 4,
    ensures
        piece.current() == piece.plane(0),
        piece.count() == piece.plane(0).ones(),
{
    assert forall|i: int| 0 <= i < 16 implies bit16(piece.current().0, i) == bit16(
        piece.plane(0).0,
        i,
    ) by {
        lemma_bit_low(piece.value, i);
        lemma_bit_window(piece.value, 0, 16, i);
    }
    lemma_same_bits(piece.current().0, piece.plane(0).0);
    piece.plane(0).lemma_count_of_four();
}

/// A piece of side 4 built from a seed of four cells has four bits set in
/// each plane.
pub proof fn lemma_built_with_four(seed: Form)
    requires
        seed.ones() == 4,
    ensures
        Packed::of(seed, 4).four_in_each_plane(),
{
    let first = seed.spec_clockwised(4);
    let second = first.spec_clockwised(4);
    let third = second.spec_clockwised(4);
    let piece = Packed::of(seed, 4);
    lemma_built_planes(seed);
    seed.lemma_count_of_four();
    first.lemma_count_of_four();
    second.lemma_count_of_four();
    third.lemma_count_of_four();
    seed.lemma_clockwised_count(4);
    first.lemma_clockwised_count(4);
    second.lemma_clockwised_count(4);
    assert forall|k: int| 0 <= k < 4 implies (#[trigger] piece.plane(k)).ones() == 4 by {
        if k == 0 {
        } else if k == 1 {
        } else if k == 2 {
        } else {
        }
    }
}

/// A turn counterclockwise of a piece of side 4 moves each plane down by one
/// place, and the lowest to the highest.
pub proof fn lemma_counterclockwise_planes(piece: Packed)
    requires
        piece.size == 4,
    ensures
        piece.counterclockwise().plane(0) == piece.plane(1),
        piece.counterclockwise().plane(1) == piece.plane(2),
        piece.counterclockwise().plane(2) == piece.plane(3),
        piece.counterclockwise().plane(3) == piece.plane(0),
{
    let turned = piece.counterclockwise();
    lemma_turn_and_back(piece);
    lemma_clockwise_planes(turned);
}

/// A turn of a piece of side 4, either way, keeps four bits in each plane
/// and the number of cells that the piece shows.
pub proof fn lemma_turn_keeps_four(piece: Packed)
    requires
        piece.size == 4,
        piece.four_in_each_plane(),
    ensures
        piece.clockwise().four_in_each_plane(),
        piece.counterclockwise().four_in_each_plane(),
        piece.clockwise().count() == 4,
        piece.counterclockwise().count() == 4,
{
    lemma_clockwise_planes(piece);
    lemma_counterclockwise_planes(piece);
    lemma_current_plane(piece.clockwise());
    lemma_current_plane(piece.counterclockwise());
    let turned = piece.clockwise();
    let other = piece.counterclockwise();
    assert(piece.plane(0).ones() == 4);
    assert(piece.plane(1).ones() == 4);
    assert(piece.plane(2).ones() == 4);
    assert(piece.plane(3).ones() == 4);
    assert forall|k: int| 0 <= k < 4 implies (#[trigger] turned.plane(k)).ones() == 4 by {
        if k == 0 {
        } else if k == 1 {
        } else if k == 2 {
        } else {
        }
    }
    assert forall|k: int| 0 <= k < 4 implies (#[trigger] other.plane(k)).ones() == 4 by {
        if k == 0 {
        } else if k == 1 {
        } else if k == 2 {
        } else {
        }
    }
}

/// Each of the five named pieces of side 4 is built from a seed of four
/// cells.
pub proof fn lemma_named_of_four(piece: Packed)
    requires
        piece.named(),
        piece.size == 4,
    ensures
        piece.four_in_each_plane(),
{
    lemma_seed_i();
    lemma_seed_z();
    lemma_seed_s();
    lemma_seed_j();
    lemma_seed_l();
    if piece == Packed::i() {
        lemma_built_with_four(Form(0x4444));
    } else if piece == Packed::z() {
        lemma_built_with_four(Form(0xC600));
    } else if piece == Packed::s() {
        lemma_built_with_four(Form(0x3600));
    } else if piece == Packed::j() {
        lemma_built_with_four(Form(0x2260));
    } else if piece == Packed::l() {
        lemma_built_with_four(Form(0x4460));
    }
}

/// Every named piece of side 4 has exactly four bits set in each of its four
/// planes, as built and after any number of turns clockwise, and shows four
/// occupied cells.
pub proof fn lemma_four_cells_in_each_plane(piece: Packed, n: nat)
    requires
        piece.named(),
        piece.size == 4,
    ensures
        piece.clockwise_times(n).size == 4,
        piece.clockwise_times(n).four_in_each_plane(),
        piece.clockwise_times(n).count() == 4,
    decreases n,
{
    if n == 0 {
        lemma_named_of_four(piece);
    } else {
        lemma_four_cells_in_each_plane(piece, (n - 1) as nat);
        lemma_turn_keeps_four(piece.clockwise_times((n - 1) as nat));
    }
    lemma_current_plane(piece.clockwise_times(n));
}

/// The square as built has exactly four bits set in each of its four planes.
pub proof fn lemma_square_as_built()
    ensures
        Packed::o().four_in_each_plane(),
{
    let seed = Form(0xFFFF);
    let first = seed.spec_clockwised(2);
    let second = first.spec_clockwised(2);
    let third = second.spec_clockwised(2);
    let piece = Packed::o();
    lemma_seed_o();
    let four = Set::<int>::empty().insert(0).insert(1).insert(2).insert(3);
    assert forall|k: int| 0 <= k < 4 implies (#[trigger] piece.plane(k)).ones() == 4 by {
        assert forall|i: int| piece.plane(k).bit(i) == (0 <= i < 4) by {
            lemma_bit_window(piece.value, k * 4, 4, i);
            lemma_pack_bit(seed.0, first.0, second.0, third.0, 4, k * 4 + i);
            if 0 <= i < 4 {
                assert(seed.bit(k * 4 + i));
            }
        }
        assert(piece.plane(k).set_bits() =~= four);
    }
}

/// Every named piece as built shows four occupied cells.
pub proof fn lemma_named_shows_four(piece: Packed)
    requires
        piece.named(),
    ensures
        piece.count() == 4,
{
    lemma_seed_i();
    lemma_seed_z();
    lemma_seed_s();
    lemma_seed_j();
    lemma_seed_l();
    lemma_seed_t();
    lemma_seed_o();
    Form(0x4444).lemma_count_of_four();
    Form(0xC600).lemma_count_of_four();
    Form(0x3600).lemma_count_of_four();
    Form(0x2260).lemma_count_of_four();
    Form(0x4460).lemma_count_of_four();
    lemma_built_shows_seed(Form(0x4444), 4);
    lemma_built_shows_seed(Form(0xC600), 4);
    lemma_built_shows_seed(Form(0x3600), 4);
    lemma_built_shows_seed(Form(0x2260), 4);
    lemma_built_shows_seed(Form(0x4460), 4);
    lemma_built_shows_seed(Form(0x0170), 3);
    lemma_built_shows_seed(Form(0xFFFF), 2);
}

/// The line as built stands in column 1: the cell (`x`, `y`) of its grid is
/// occupied exactly where `x` is 1.
pub proof fn lemma_line_stands_in_column_one()
    ensures
        forall|x: int, y: int| in_grid(4, x, y) ==> #[trigger] Packed::i().cell(x, y) == (x == 1),
{
    lemma_seed_i();
    lemma_built_shows_seed(Form(0x4444), 4);
    assert forall|x: int, y: int| in_grid(4, x, y) implies #[trigger] Packed::i().cell(x, y) == (x
        == 1) by {
        assert(Packed::i().cell(x, y) == Form(0x4444).cell(4, x, y));
        assert(Form(0x4444).cell(4, x, y) == Form(0x4444).bit(cell_bit(4, x, y)));
    }
}

/// A grid of side 3 with no bit set outside its cells is a pattern below
/// `0x400`.
pub proof fn lemma_within_three(form: Form)
    requires
        form.within(3),
    ensures
        form.0 < 0x400,
{
    let p: u16 = form.0;
    assert(!form.bit(10) && !form.bit(11) && !form.bit(12) && !form.bit(13) && !form.bit(14)
        && !form.bit(15));
    assert(p < 0x400) by (bit_vector)
        requires
            (p >> 10) & 1 != 1,
            (p >> 11) & 1 != 1,
            (p >> 12) & 1 != 1,
            (p >> 13) & 1 != 1,
            (p >> 14) & 1 != 1,
            (p >> 15) & 1 != 1,
    ;
}

/// The T as built, turned clockwise and then counterclockwise, is the piece
/// it was.
pub proof fn lemma_t_turn_and_back()
    ensures
        Packed::t().clockwise().counterclockwise() == Packed::t(),
{
    let seed = Form(0x0170);
    let first = seed.spec_clockwised(3);
    let second = first.spec_clockwised(3);
    let third = second.spec_clockwised(3);
    seed.lemma_clockwised(3);
    first.lemma_clockwised(3);
    second.lemma_clockwised(3);
    lemma_within_three(first);
    lemma_within_three(second);
    lemma_within_three(third);
    let a: u16 = first.0;
    let b: u16 = second.0;
    let c: u16 = third.0;
    let v: u64 = Packed::t().value;
    assert(v == pack(0x0170, a, b, c, 9));
    assert(v & 0xffff_0000_0000_0000 == 0 && (v << 12) >> 12 == v && (v << 12) & 0xffff == 0)
        by (bit_vector)
        requires
            v == (0x0170u16 as u64) | ((a as u64) << 9) | ((b as u64) << 18) | ((c as u64) << 27),
            a < 0x400,
            b < 0x400,
            c < 0x400,
    ;
    assert(0u64 >> 36 == 0 && 0u64 << 36 == 0 && forall|w: u64| #[trigger] (w | 0) == w)
        by (bit_vector);
}

/// A quarter turn clockwise of a grid of side 3 takes each corner to the
/// next: a grid with no corner occupied turns to one with none.
pub proof fn lemma_corners_of_three(form: Form)
    ensures
        form.spec_clockwised(3).bit(9) == form.bit(7),
        form.spec_clockwised(3).bit(7) == form.bit(1),
        form.spec_clockwised(3).bit(1) == form.bit(3),
        form.spec_clockwised(3).bit(3) == form.bit(9),
{
    form.lemma_turned_bits(3, 9);
    form.lemma_turned_bits(3, 7);
    form.lemma_turned_bits(3, 1);
    form.lemma_turned_bits(3, 3);
    assert(counterclockwise_move(3, 9) == 7);
    assert(counterclockwise_move(3, 7) == 1);
    assert(counterclockwise_move(3, 1) == 3);
    assert(counterclockwise_move(3, 3) == 9);
}

/// The planes of a piece of side 3 built from a seed with no corner occupied
/// and no bit set outside its grid are the seed and its first, second and
/// third turn clockwise: no turn reaches into the window of the next plane.
pub proof fn lemma_built_planes_of_three(seed: Form)
    requires
        seed.within(3),
        !seed.bit(1) && !seed.bit(3) && !seed.bit(7) && !seed.bit(9),
    ensures
        Packed::of(seed, 3).plane(0) == seed,
        Packed::of(seed, 3).plane(1) == seed.spec_clockwised(3),
        Packed::of(seed, 3).plane(2) == seed.spec_clockwised(3).spec_clockwised(3),
        Packed::of(seed, 3).plane(3) == seed.spec_clockwised(3).spec_clockwised(
            3,
        ).spec_clockwised(3),
{
    let first = seed.spec_clockwised(3);
    let second = first.spec_clockwised(3);
    let third = second.spec_clockwised(3);
    let piece = Packed::of(seed, 3);
    seed.lemma_clockwised(3);
    first.lemma_clockwised(3);
    second.lemma_clockwised(3);
    lemma_corners_of_three(seed);
    lemma_corners_of_three(first);
    lemma_corners_of_three(second);
    assert forall|i: int| 0 <= i < 16 implies bit16(piece.plane(0).0, i) == bit16(seed.0, i)
        && bit16(piece.plane(1).0, i) == bit16(first.0, i) && bit16(piece.plane(2).0, i) == bit16(
        second.0,
        i,
    ) && bit16(piece.plane(3).0, i) == bit16(third.0, i) by {
        lemma_bit_window(piece.value, 0, 9, i);
        lemma_bit_window(piece.value, 9, 9, i);
        lemma_bit_window(piece.value, 18, 9, i);
        lemma_bit_window(piece.value, 27, 9, i);
        lemma_pack_bit(seed.0, first.0, second.0, third.0, 9, i);
        lemma_pack_bit(seed.0, first.0, second.0, third.0, 9, i + 9);
        lemma_pack_bit(seed.0, first.0, second.0, third.0, 9, i + 18);
        lemma_pack_bit(seed.0, first.0, second.0, third.0, 9, i + 27);
        assert(seed.bit(i) ==> grid_bit(3, i));
        assert(first.bit(i) ==> grid_bit(3, i));
        assert(second.bit(i) ==> grid_bit(3, i));
        assert(third.bit(i) ==> grid_bit(3, i));
        assert(seed.bit(i + 9) ==> grid_bit(3, i + 9));
        assert(first.bit(i + 9) ==> grid_bit(3, i + 9));
        assert(second.bit(i + 9) ==> grid_bit(3, i + 9));
        assert(first.bit(i - 9) ==> grid_bit(3, i - 9));
        assert(second.bit(i - 9) ==> grid_bit(3, i - 9));
        assert(third.bit(i - 9) ==> grid_bit(3, i - 9));
    }
    lemma_same_bits(piece.plane(0).0, seed.0);
    lemma_same_bits(piece.plane(1).0, first.0);
    lemma_same_bits(piece.plane(2).0, second.0);
    lemma_same_bits(piece.plane(3).0, third.0);
}

/// The T as built has exactly four bits set in each of its four planes, and
/// shows the middle row and the cell above its middle.
pub proof fn lemma_t_as_built()
    ensures
        Packed::t().four_in_each_plane(),
        forall|x: int, y: int|
            in_grid(3, x, y) ==> #[trigger] Packed::t().cell(x, y) == (y == 1 || (x == 1 && y
                == 2)),
{
    let seed = Form(0x0170);
    let first = seed.spec_clockwised(3);
    let second = first.spec_clockwised(3);
    let third = second.spec_clockwised(3);
    let piece = Packed::t();
    lemma_seed_t();
    lemma_built_planes_of_three(seed);
    seed.lemma_clockwised(3);
    first.lemma_clockwised(3);
    second.lemma_clockwised(3);
    seed.lemma_clockwised_count(3);
    first.lemma_clockwised_count(3);
    second.lemma_clockwised_count(3);
    seed.lemma_count_within(3);
    first.lemma_count_within(3);
    second.lemma_count_within(3);
    third.lemma_count_within(3);
    assert forall|k: int| 0 <= k < 4 implies (#[trigger] piece.plane(k)).ones() == 4 by {
        if k == 0 {
        } else if k == 1 {
        } else if k == 2 {
        } else {
        }
    }
    lemma_built_shows_seed(seed, 3);
    assert forall|x: int, y: int| in_grid(3, x, y) implies #[trigger] piece.cell(x, y) == (y == 1
        || (x == 1 && y == 2)) by {
        assert(piece.cell(x, y) == seed.cell(3, x, y));
        assert(seed.cell(3, x, y) == seed.bit(cell_bit(3, x, y)));
    }
}

/// A piece has no cell in column `size` and none in row `size`: a query
/// there is answered for no piece, whatever its side and however it was
/// turned.
pub proof fn lemma_no_cell_outside(piece: Packed)
    requires
        piece.wf(),
    ensures
        piece.query(piece.size, 0) is None,
        piece.query(0, piece.size) is None,
        piece.clockwise().query(piece.size, 0) is None,
        piece.clockwise().query(0, piece.size) is None,
        piece.counterclockwise().query(piece.size, 0) is None,
        piece.counterclockwise().query(0, piece.size) is None,
        forall|x: int, y: int| piece.query(x, y) is Some <==> in_grid(piece.size, x, y),
{
}

} // verus!
