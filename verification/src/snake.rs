//! The rules of the snake game: a head that moves over a small field, a tail
//! that follows it, and an apple that goes to a free cell when it is eaten.
use rand::seq::SliceRandom;
use vstd::prelude::*;

verus! {

/// The number of columns of the field.
pub const FIELD_WIDTH: u32 = 6;

/// The number of rows of the field.
pub const FIELD_HEIGHT: u32 = 6;

/// The way the head moves.
#[derive(Debug, PartialEq, Eq, Clone, Copy, Structural)]
pub enum Direction {
    Up,
    Down,
    Left,
    Right,
}

/// A cell of the field, or a place beside it.
#[derive(Debug, Clone, Copy, PartialEq, Eq, Structural)]
pub struct Position {
    pub x: i16,
    pub y: i16,
}

/// Where a part of the snake was before the last step.
#[derive(Debug, Clone, Copy, PartialEq, Eq, Structural)]
pub struct LastPosition(pub Position);

impl Direction {
    /// The step that the head takes in this direction.
    pub open spec fn spec_delta(self) -> Position {
        match self {
            Direction::Up => Position { x: 0, y: 1 },
            Direction::Down => Position { x: 0, y: -1i16 },
            Direction::Left => Position { x: -1i16, y: 0 },
            Direction::Right => Position { x: 1, y: 0 },
        }
    }

    /// The direction that leads back.
    pub open spec fn spec_opposite(self) -> Direction {
        match self {
            Direction::Up => Direction::Down,
            Direction::Down => Direction::Up,
            Direction::Left => Direction::Right,
            Direction::Right => Direction::Left,
        }
    }

    /// The step that the head takes in this direction: one cell, up being
    /// the way in which `y` grows.
    pub fn delta(&self) -> (step: Position)
        ensures
            step == self.spec_delta(),
    {
        match self {
            Direction::Up => Position { x: 0, y: 1 },
            Direction::Down => Position { x: 0, y: -1 },
            Direction::Left => Position { x: -1, y: 0 },
            Direction::Right => Position { x: 1, y: 0 },
        }
    }

    /// The direction that leads back.
    pub fn opposite(&self) -> (back: Direction)
        ensures
            back == self.spec_opposite(),
    {
        match self {
            Direction::Up => Direction::Down,
            Direction::Down => Direction::Up,
            Direction::Left => Direction::Right,
            Direction::Right => Direction::Left,
        }
    }
}

impl Position {
    /// Whether the position is a cell of the field.
    pub open spec fn spec_in_field(self) -> bool {
        0 <= self.x < FIELD_WIDTH && 0 <= self.y < FIELD_HEIGHT
    }

    /// The position moved by `step`.
    pub open spec fn spec_moved(self, step: Position) -> Position {
        Position { x: (self.x + step.x) as i16, y: (self.y + step.y) as i16 }
    }

    /// Whether the position can be moved by `step` within sixteen bits.
    pub open spec fn can_move(self, step: Position) -> bool {
        i16::MIN <= self.x + step.x <= i16::MAX && i16::MIN <= self.y + step.y <= i16::MAX
    }

    /// Whether the position is a cell of the field.
    pub fn in_field(&self) -> (inside: bool)
        ensures
            inside == self.spec_in_field(),
    {
        0 <= self.x && self.x < FIELD_WIDTH as i16 && 0 <= self.y && self.y < FIELD_HEIGHT as i16
    }

    /// Whether the position is one of `others`.
    pub fn is_among(&self, others: &Vec<Position>) -> (found: bool)
        ensures
            found == others@.contains(*self),
    {
        let mut i: usize = 0;
        while i < others.len()
            invariant
                i <= others.len(),
                forall|k: int| 0 <= k < i ==> others@[k] != *self,
            decreases others.len() - i,
        {
            if others[i].x == self.x && others[i].y == self.y {
                return true;
            }
            i += 1;
        }
        false
    }
}

impl core::ops::Add<Position> for Position {
    type Output = Position;

    /// The position moved by `rhs`, where the sum stays within sixteen
    /// bits.
    fn add(self, rhs: Position) -> (sum: Position) {
        Position { x: self.x + rhs.x, y: self.y + rhs.y }
    }
}

impl vstd::std_specs::ops::AddSpecImpl<Position> for Position {
    open spec fn obeys_add_spec() -> bool {
        true
    }

    open spec fn add_req(self, rhs: Position) -> bool {
        self.can_move(rhs)
    }

    open spec fn add_spec(self, rhs: Position) -> Position {
        self.spec_moved(rhs)
    }
}

impl core::ops::AddAssign<Position> for Position {
    /// Moves the position by `rhs`, where the sum stays within sixteen bits.
    fn add_assign(&mut self, rhs: Position)
        requires
            old(self).can_move(rhs),
        ensures
            *final(self) == old(self).spec_moved(rhs),
    {
        self.x = self.x + rhs.x;
        self.y = self.y + rhs.y;
    }
}

impl From<&LastPosition> for Position {
    /// Where the part was before the last step, as a position.
    fn from(last_position: &LastPosition) -> (position: Position) {
        Position { x: last_position.0.x, y: last_position.0.y }
    }
}

impl vstd::std_specs::convert::FromSpecImpl<&LastPosition> for Position {
    open spec fn obeys_from_spec() -> bool {
        true
    }

    open spec fn from_spec(last_position: &LastPosition) -> Position {
        last_position.0
    }
}

impl From<&Position> for LastPosition {
    /// The position, kept as the place before the next step.
    fn from(pos: &Position) -> (last_position: LastPosition) {
        LastPosition(*pos)
    }
}

impl vstd::std_specs::convert::FromSpecImpl<&Position> for LastPosition {
    open spec fn obeys_from_spec() -> bool {
        true
    }

    open spec fn from_spec(pos: &Position) -> LastPosition {
        LastPosition(*pos)
    }
}

/// Whether a head at `head` ends the game: it has left the field, or it
/// stands on a part of the tail.
pub open spec fn collides(head: Position, tails: Seq<Position>) -> bool {
    !head.spec_in_field() || tails.contains(head)
}

/// Cell `k` of the field, the cells being counted column by column, each
/// column from row 0.
pub open spec fn field_cell(k: int) -> Position {
    Position { x: (k / (FIELD_HEIGHT as int)) as i16, y: (k % (FIELD_HEIGHT as int)) as i16 }
}

/// Whether the apple can go to `cell`: neither the head nor a part of the
/// tail stands there.
pub open spec fn is_free(cell: Position, head: Position, tails: Seq<Position>) -> bool {
    cell != head && !tails.contains(cell)
}

/// The free cells among the first `n` cells of the field, in their order.
pub open spec fn free_cells(head: Position, tails: Seq<Position>, n: nat) -> Seq<Position>
    decreases n,
{
    if n == 0 {
        Seq::empty()
    } else if is_free(field_cell(n - 1), head, tails) {
        free_cells(head, tails, (n - 1) as nat).push(field_cell(n - 1))
    } else {
        free_cells(head, tails, (n - 1) as nat)
    }
}

/// The number of cells of the field.
pub open spec fn field_size() -> nat {
    (FIELD_WIDTH * FIELD_HEIGHT) as nat
}

/// The free cells are the cells of the field on which neither the head nor
/// a part of the tail stands.
pub proof fn lemma_free_cells(head: Position, tails: Seq<Position>, n: nat, cell: Position)
    requires
        n <= field_size(),
    ensures
        free_cells(head, tails, n).contains(cell) <==> is_free(cell, head, tails) && exists|k: int|
            0 <= k < n && cell == field_cell(k),
        n == field_size() ==> (free_cells(head, tails, n).contains(cell) <==> is_free(
            cell,
            head,
            tails,
        ) && cell.spec_in_field()),
    decreases n,
{
    if n > 0 {
        let rest = free_cells(head, tails, (n - 1) as nat);
        lemma_free_cells(head, tails, (n - 1) as nat, cell);
        let last = field_cell(n - 1);
        if is_free(last, head, tails) {
            assert(rest.push(last).last() == last);
            assert forall|j: int| 0 <= j < rest.len() implies rest.push(last)[j] == rest[j] by {}
            if rest.push(last).contains(cell) {
                let j = choose|j: int| 0 <= j < rest.push(last).len() && rest.push(last)[j] == cell;
                if j < rest.len() {
                    assert(rest[j] == cell);
                }
            }
            if rest.contains(cell) {
                let j = choose|j: int| 0 <= j < rest.len() && rest[j] == cell;
                assert(rest.push(last)[j] == cell);
            }
            if cell == last {
                assert(rest.push(last)[rest.len() as int] == cell);
            }
        }
    }
    if n == field_size() {
        if cell.spec_in_field() {
            let k = cell.x * 6 + cell.y;
            assert(field_cell(k) == cell);
        }
    }
}

/// The direction of the head after a key: the key's direction, but that a
/// snake with a tail keeps its direction where the key asks for the way it
/// went last, or for the way back.
pub fn steer(direction: Direction, last: Direction, length: i32, input: Direction) -> (next:
    Direction)
    ensures
        next == if length != 0 && (input == last || input == last.spec_opposite()) {
            direction
        } else {
            input
        },
{
    if length != 0 && (input == last || input == last.opposite()) {
        direction
    } else {
        input
    }
}

/// Whether the game ends now: it has not ended before, and one of the heads
/// has left the field or stands on a part of the tail.
pub open spec fn ends_now(gameover: bool, heads: Seq<Position>, tails: Seq<Position>) -> bool {
    !gameover && exists|i: int| 0 <= i < heads.len() && collides(#[trigger] heads[i], tails)
}

/// Where the parts are.
pub open spec fn places(parts: Seq<(Position, LastPosition)>) -> Seq<Position> {
    Seq::new(parts.len(), |i: int| parts[i].0)
}

/// Where the parts were before the last step.
pub open spec fn last_places(parts: Seq<(Position, LastPosition)>) -> Seq<Position> {
    Seq::new(parts.len(), |i: int| parts[i].1.0)
}

/// The game after it was looked at: whether it has ended, and where the
/// heads and the parts of the tail are.
pub struct Checked {
    pub gameover: bool,
    pub heads: Vec<Position>,
    pub tails: Vec<Position>,
}

/// Whether the game ends now: it has not ended before, and one of the heads
/// has left the field or stands on a part of the tail.
pub fn game_ends(gameover: bool, heads: &Vec<Position>, tails: &Vec<Position>) -> (ends: bool)
    ensures
        ends == ends_now(gameover, heads@, tails@),
{
    if gameover {
        return false;
    }
    let mut i: usize = 0;
    while i < heads.len()
        invariant
            !gameover,
            i <= heads.len(),
            forall|k: int| 0 <= k < i ==> !collides(#[trigger] heads@[k], tails@),
        decreases heads.len() - i,
    {
        if !heads[i].in_field() || heads[i].is_among(tails) {
            assert(collides(heads@[i as int], tails@));
            return true;
        }
        i += 1;
    }
    false
}

/// Where the parts are, each in its place.
pub fn positions(parts: &Vec<(Position, LastPosition)>) -> (now: Vec<Position>)
    ensures
        now@ == places(parts@),
{
    let mut now: Vec<Position> = Vec::with_capacity(parts.len());
    let mut i: usize = 0;
    while i < parts.len()
        invariant
            i <= parts.len(),
            now@.len() == i,
            forall|k: int| 0 <= k < i ==> now@[k] == parts@[k].0,
        decreases parts.len() - i,
    {
        now.push(parts[i].0);
        i += 1;
    }
    assert(now@ =~= places(parts@));
    now
}

/// The parts gone back: each where it was before the last step.
pub fn rolled_back(parts: &Vec<(Position, LastPosition)>) -> (back: Vec<Position>)
    ensures
        back@ == last_places(parts@),
        back@.len() == parts@.len(),
        forall|i: int| 0 <= i < parts@.len() ==> back@[i] == parts@[i].1.0,
{
    let mut back: Vec<Position> = Vec::with_capacity(parts.len());
    let mut i: usize = 0;
    while i < parts.len()
        invariant
            i <= parts.len(),
            back@.len() == i,
            forall|k: int| 0 <= k < i ==> back@[k] == parts@[k].1.0,
        decreases parts.len() - i,
    {
        back.push(Position::from(&parts[i].1));
        i += 1;
    }
    assert(back@ =~= last_places(parts@));
    back
}

/// Looks at the game. It ends now where it has not ended before and one of
/// the heads has left the field or stands on a part of the tail: then every
/// head and every part of the tail goes back to where it was before the last
/// step. Else every part stays where it is. A game that has ended stays
/// ended.
pub fn check_gameover(
    gameover: bool,
    heads: &Vec<(Position, LastPosition)>,
    tails: &Vec<(Position, LastPosition)>,
) -> (after: Checked)
    ensures
        after.gameover == (gameover || ends_now(gameover, places(heads@), places(tails@))),
        ends_now(gameover, places(heads@), places(tails@)) ==> after.heads@ == last_places(heads@)
            && after.tails@ == last_places(tails@),
        !ends_now(gameover, places(heads@), places(tails@)) ==> after.heads@ == places(heads@)
            && after.tails@ == places(tails@),
{
    let head_positions = positions(heads);
    let tail_positions = positions(tails);
    if game_ends(gameover, &head_positions, &tail_positions) {
        Checked { gameover: true, heads: rolled_back(heads), tails: rolled_back(tails) }
    } else {
        Checked { gameover, heads: head_positions, tails: tail_positions }
    }
}

/// The cells to which the apple can go: the cells of the field on which
/// neither the head nor a part of the tail stands, column by column.
pub fn possible_positions(head_position: &Position, tail_positions: &Vec<Position>) -> (free: Vec<
    Position,
>)
    ensures
        free@ == free_cells(*head_position, tail_positions@, field_size()),
{
    let mut possible_positions: Vec<Position> = Vec::with_capacity(
        (FIELD_WIDTH * FIELD_HEIGHT) as usize,
    );
    let mut x: i16 = 0;
    while x < FIELD_WIDTH as i16
        invariant
            0 <= x <= FIELD_WIDTH,
            possible_positions@ == free_cells(
                *head_position,
                tail_positions@,
                (x * FIELD_HEIGHT) as nat,
            ),
        decreases FIELD_WIDTH - x,
    {
        let mut y: i16 = 0;
        while y < FIELD_HEIGHT as i16
            invariant
                0 <= x < FIELD_WIDTH,
                0 <= y <= FIELD_HEIGHT,
                possible_positions@ == free_cells(
                    *head_position,
                    tail_positions@,
                    (x * FIELD_HEIGHT + y) as nat,
                ),
            decreases FIELD_HEIGHT - y,
        {
            let cell = Position { x, y };
            assert(cell == field_cell(x * FIELD_HEIGHT + y));
            let taken = (x == head_position.x && y == head_position.y) || cell.is_among(
                tail_positions,
            );
            if !taken {
                possible_positions.push(cell);
            }
            y += 1;
        }
        x += 1;
    }
    possible_positions
}

/// One of the candidates, whichever the generator picks, or `None` where
/// there is none. This is `choose` of rand's `SliceRandom`, on the generator
/// that `thread_rng` hands out. It is taken on trust that `choose` gives
/// `None` for no candidates and else one of them; nothing is claimed of
/// which one comes. `thread_rng` panics where the system has no random
/// numbers to start the generator with.
#[verifier::external_body]
fn pick(candidates: &Vec<Position>) -> (chosen: Option<Position>)
    ensures
        candidates@.len() == 0 ==> chosen is None,
        candidates@.len() > 0 ==> chosen is Some && candidates@.contains(chosen->0),
{
    candidates.choose(&mut rand::thread_rng()).copied()
}

/// Moves the apple to a free cell of the field, whichever the generator
/// picks: a cell on which neither the head nor a part of the tail stands.
pub fn move_apple_randomly(
    apple_position: &mut Position,
    head_position: &Position,
    tail_positions: &Vec<Position>,
)
    requires
        free_cells(*head_position, tail_positions@, field_size()).len() > 0,
    ensures
        final(apple_position).spec_in_field(),
        *final(apple_position) != *head_position,
        !tail_positions@.contains(*final(apple_position)),
{
    let possible_positions = possible_positions(head_position, tail_positions);
    let chosen = pick(&possible_positions);
    match chosen {
        Some(position) => {
            proof {
                lemma_free_cells(*head_position, tail_positions@, field_size(), position);
            }
            *apple_position = position;
        },
        None => {},
    }
}

/// Moves the apple to a free cell of the field where there is one, and says
/// whether there was; with no free cell the apple stays where it is.
pub fn try_move_apple_randomly(
    apple_position: &mut Position,
    head_position: &Position,
    tail_positions: &Vec<Position>,
) -> (moved: bool)
    ensures
        moved == (free_cells(*head_position, tail_positions@, field_size()).len() > 0),
        moved ==> final(apple_position).spec_in_field() && *final(apple_position) != *head_position
            && !tail_positions@.contains(*final(apple_position)),
        !moved ==> *final(apple_position) == *old(apple_position),
{
    if possible_positions(head_position, tail_positions).len() > 0 {
        move_apple_randomly(apple_position, head_position, tail_positions);
        true
    } else {
        false
    }
}

} // verus!
