//! The simulation engine: ball movement, paddle and wall bounces, the
//! loss condition and paddle moves.
use vstd::prelude::*;

verus! {

/// Board width, in board units.
pub const MAP_WIDTH: i64 = 80;

/// Board height, in board units.
pub const MAP_HEIGHT: i64 = 40;

/// Fixed-point scale: positions and directions count thousandths of a unit.
pub const UNIT: i64 = 1000;

/// Ball coordinates saturate at this magnitude (thousandths), far off the board.
pub const BALL_LIMIT: i64 = 1_000_000_000_000_000;

/// Bound on the ball's vertical direction component (thousandths).
pub const SPIN_LIMIT: i64 = 1500;

/// Bound on the ball's horizontal direction component (thousandths).
pub const DIR_LIMIT: i64 = 1500;

/// Horizontal speed: board units per second along a unit direction.
pub const SPEED_X: i64 = 20;

/// Vertical speed: board units per second along a unit direction.
pub const SPEED_Y: i64 = 10;

/// The ball meets the left paddle at or left of this column (board units).
pub const LEFT_REACH: i64 = 2;

/// The ball meets the right paddle at or right of this column (board units).
pub const RIGHT_REACH: i64 = MAP_WIDTH - 3;

/// Half-extent of a new paddle, in board units.
pub const PADDLE_SIZE: usize = 3;

/// Step (thousandths) by which the computer paddle follows the ball each tick.
pub const BOT_STEP: i64 = 250;

/// Whether the rally is still running. `Lost` is terminal.
#[derive(PartialEq, Eq, Structural, Clone, Copy, Debug)]
pub enum GameState {
    Playing,
    Lost,
}

/// One paddle. `position` is its vertical center in thousandths; `range`
/// is the band of board rows it covered when last recomputed.
#[derive(Clone, Copy, Debug)]
pub struct PlayerData {
    pub position: i64,
    pub size: usize,
    pub score: u32,
    pub range: (usize, usize),
}

/// The whole game: two paddles, the ball and the phase. `last_update` is
/// the clock reading (milliseconds) of the last update.
#[derive(Clone, Copy, Debug)]
pub struct GameData {
    pub state: GameState,
    pub ball: (i64, i64),
    pub ball_direction: (i64, i64),
    pub player1: PlayerData,
    pub player2: PlayerData,
    pub last_update: u64,
}

pub open spec fn clamp(v: int, lo: int, hi: int) -> int {
    if v < lo {
        lo
    } else if v > hi {
        hi
    } else {
        v
    }
}

/// Division rounding toward zero, as for a positive divisor.
pub open spec fn trunc_div(n: int, d: int) -> int {
    if n >= 0 {
        n / d
    } else {
        -((-n) / d)
    }
}

/// The board row that a vertical coordinate falls in (negative ones in row 0).
pub open spec fn cell_of(v: int) -> int {
    if v <= 0 {
        0
    } else {
        v / (UNIT as int)
    }
}

/// A coordinate after `ms` milliseconds along direction `d` at `speed` units per second.
pub open spec fn travel(p: int, d: int, speed: int, ms: int) -> int {
    clamp(p + trunc_div(d * speed * ms, 1000), -(BALL_LIMIT as int), BALL_LIMIT as int)
}

impl PlayerData {
    /// Half-extent in thousandths.
    pub open spec fn extent(&self) -> int {
        self.size as int * UNIT as int
    }

    /// Lowest center position that keeps the paddle on the board.
    pub open spec fn min_position(&self) -> int {
        self.extent()
    }

    /// Highest center position that keeps the paddle on the board.
    pub open spec fn max_position(&self) -> int {
        MAP_HEIGHT * UNIT - self.extent()
    }

    /// The paddle lies on the board and its stored range does too.
    pub open spec fn wf(&self) -> bool {
        &&& 1 <= self.size
        &&& self.min_position() <= self.position <= self.max_position()
        &&& self.range.0 <= self.range.1 <= MAP_HEIGHT
    }

    /// The rows covered by the paddle at its present position.
    pub open spec fn derived_range(&self) -> (usize, usize) {
        (
            (cell_of(self.position as int) - self.size) as usize,
            (cell_of(self.position as int) + self.size) as usize,
        )
    }

    pub open spec fn covers(&self, row: int) -> bool {
        self.range.0 <= row <= self.range.1
    }

    /// A new paddle: centered vertically, half-extent three, score zero.
    pub fn new() -> (r: PlayerData)
        ensures
            r.position == MAP_HEIGHT * UNIT / 2,
            r.size == PADDLE_SIZE,
            r.score == 0,
            r.range == r.derived_range(),
            r.wf(),
    {
        let position: i64 = MAP_HEIGHT * UNIT / 2;
        let row: usize = (position / UNIT) as usize;
        PlayerData {
            position,
            size: PADDLE_SIZE,
            score: 0,
            range: (row - PADDLE_SIZE, row + PADDLE_SIZE),
        }
    }

    /// Whether the stored range holds `row`.
    pub fn contains(&self, row: usize) -> (r: bool)
        ensures
            r == self.covers(row as int),
    {
        self.range.0 <= row && row <= self.range.1
    }
}

/// A coordinate moved for `ms` milliseconds along `d` (thousandths) at `speed`.
fn travel_by(p: i64, d: i64, speed: i64, ms: u64) -> (r: i64)
    requires
        -BALL_LIMIT <= p <= BALL_LIMIT,
        -DIR_LIMIT <= d <= DIR_LIMIT,
        0 <= speed <= SPEED_X,
    ensures
        r == travel(p as int, d as int, speed as int, ms as int),
{
    let a: i128 = d as i128;
    let b: i128 = speed as i128;
    let c: i128 = ms as i128;
    assert(-30000 <= a * b <= 30000) by (nonlinear_arith)
        requires
            -1500 <= a <= 1500,
            0 <= b <= 20,
    ;
    let ab: i128 = a * b;
    assert(-30000 * 0x1_0000_0000_0000_0000 <= ab * c <= 30000 * 0x1_0000_0000_0000_0000) by (nonlinear_arith)
        requires
            -30000 <= ab <= 30000,
            0 <= c < 0x1_0000_0000_0000_0000,
    ;
    let n: i128 = ab * c;
    let q: i128 = if n >= 0 {
        n / 1000
    } else {
        -((-n) / 1000)
    };
    let s: i128 = p as i128 + q;
    if s < -(BALL_LIMIT as i128) {
        -BALL_LIMIT
    } else if s > BALL_LIMIT as i128 {
        BALL_LIMIT
    } else {
        s as i64
    }
}

/// The row of a vertical coordinate, as a paddle range counts rows.
fn row_of(v: i64) -> (r: u64)
    ensures
        r == cell_of(v as int),
{
    if v <= 0 {
        0
    } else {
        (v / UNIT) as u64
    }
}

/// The spin that a hit at vertical offset `offset` from a paddle of half-extent `size` adds.
fn spin_of(offset: i64, size: usize) -> (r: i64)
    requires
        1 <= size <= MAP_HEIGHT,
        -2 * BALL_LIMIT <= offset <= 2 * BALL_LIMIT,
    ensures
        r == trunc_div(offset as int, size as int),
{
    let d: i64 = size as i64;
    if offset >= 0 {
        offset / d
    } else {
        -((-offset) / d)
    }
}

/// The direction after the ball, now at row-coordinate `by`, meets paddle `p` (if it covers that row).
pub open spec fn paddle_bounce(dir: (int, int), p: PlayerData, by: int) -> (int, int) {
    if p.covers(cell_of(by)) {
        (-dir.0, dir.1 + trunc_div(by - p.position, p.size as int))
    } else {
        dir
    }
}

/// The direction after both paddles are tried against the ball at `(bx, by)`.
pub open spec fn after_paddles(g: GameData, bx: int, by: int) -> (int, int) {
    let d0 = (g.ball_direction.0 as int, g.ball_direction.1 as int);
    let d1 = if bx <= LEFT_REACH * UNIT {
        paddle_bounce(d0, g.player1, by)
    } else {
        d0
    };
    if bx >= RIGHT_REACH * UNIT {
        paddle_bounce(d1, g.player2, by)
    } else {
        d1
    }
}

/// The direction after the top and bottom walls, with the vertical part bounded.
pub open spec fn after_walls(dir: (int, int), by: int) -> (int, int) {
    let dy = if by <= 0 || by >= MAP_HEIGHT * UNIT {
        -dir.1
    } else {
        dir.1
    };
    (dir.0, clamp(dy, -SPIN_LIMIT, SPIN_LIMIT as int))
}

/// Whether a horizontal coordinate has left the board.
pub open spec fn off_board(bx: int) -> bool {
    bx < 0 || bx > MAP_WIDTH * UNIT
}

/// The game after `ms` milliseconds: nothing changes once the game is lost.
pub open spec fn advanced(g: GameData, ms: int) -> GameData {
    if g.state == GameState::Lost {
        g
    } else {
        let bx = travel(g.ball.0 as int, g.ball_direction.0 as int, SPEED_X as int, ms);
        let by = travel(g.ball.1 as int, g.ball_direction.1 as int, SPEED_Y as int, ms);
        let dir = after_walls(after_paddles(g, bx, by), by);
        GameData {
            state: if off_board(bx) {
                GameState::Lost
            } else {
                GameState::Playing
            },
            ball: (bx as i64, clamp(by, 0, MAP_HEIGHT * UNIT) as i64),
            ball_direction: (dir.0 as i64, dir.1 as i64),
            player1: PlayerData { range: g.player1.derived_range(), ..g.player1 },
            player2: PlayerData { range: g.player2.derived_range(), ..g.player2 },
            last_update: g.last_update,
        }
    }
}

/// The game brought to clock reading `now_ms`: advanced by the time since
/// the last update (none for an earlier reading), which becomes `now_ms`.
/// A lost game stays as it is.
pub open spec fn updated(g: GameData, now_ms: u64) -> GameData {
    if g.state == GameState::Lost {
        g
    } else if now_ms >= g.last_update {
        GameData { last_update: now_ms, ..advanced(g, now_ms - g.last_update) }
    } else {
        advanced(g, 0)
    }
}

/// One step of the simulation loop: the update, then, while in play, the
/// second paddle following the ball by `BOT_STEP`.
pub open spec fn ticked(g: GameData, now_ms: u64) -> GameData {
    let u = updated(g, now_ms);
    if u.state == GameState::Playing {
        follow(u, 2, BOT_STEP as int)
    } else {
        u
    }
}

/// A paddle after an attempted move by `delta`: unchanged where it would leave the board.
pub open spec fn moved(p: PlayerData, delta: int) -> PlayerData {
    if p.position - p.extent() + delta < 0 || p.position + p.extent() + delta > MAP_HEIGHT
        * UNIT {
        p
    } else {
        PlayerData { position: (p.position + delta) as i64, ..p }
    }
}

/// A paddle placed at `pos`, pulled back onto the board where it would leave it.
pub open spec fn placed(p: PlayerData, pos: int) -> PlayerData {
    PlayerData { position: clamp(pos, p.min_position(), p.max_position()) as i64, ..p }
}

/// The rows that paddle `p` covers at its position.
fn range_of(p: &PlayerData) -> (r: (usize, usize))
    requires
        p.wf(),
    ensures
        r == p.derived_range(),
        r.0 <= r.1 <= MAP_HEIGHT,
{
    let row: i64 = p.position / UNIT;
    assert(row >= p.size && row + p.size <= MAP_HEIGHT) by {
        assert(p.size as int * 1000 <= p.position <= 40000 - p.size as int * 1000);
    }
    let lo: usize = (row as usize) - p.size;
    let hi: usize = (row as usize) + p.size;
    (lo, hi)
}

/// Paddle `p` after an attempted move by `delta`.
fn moved_by(p: &PlayerData, delta: i64) -> (r: PlayerData)
    ensures
        r == moved(*p, delta as int),
        p.wf() ==> r.wf(),
{
    let size: i128 = p.size as i128;
    assert(0 <= size * 1000 <= 0x1_0000_0000_0000_0000 * 1000) by (nonlinear_arith)
        requires
            0 <= size < 0x1_0000_0000_0000_0000,
    ;
    let extent: i128 = size * UNIT as i128;
    let pos: i128 = p.position as i128;
    let d: i128 = delta as i128;
    if pos - extent + d < 0 || pos + extent + d > (MAP_HEIGHT * UNIT) as i128 {
        *p
    } else {
        PlayerData { position: (pos + d) as i64, ..*p }
    }
}

/// The game after paddle `player` takes one step of `step` toward the ball's height.
pub open spec fn follow(g: GameData, player: int, step: int) -> GameData {
    let p = g.player(player);
    if p.position < g.ball.1 {
        moved_in(g, player, step)
    } else if p.position > g.ball.1 {
        moved_in(g, player, -step)
    } else {
        g
    }
}

/// The game after paddle `player` (1 or 2) attempts a move by `delta`.
pub open spec fn moved_in(g: GameData, player: int, delta: int) -> GameData {
    if player == 1 {
        GameData { player1: moved(g.player1, delta), ..g }
    } else if player == 2 {
        GameData { player2: moved(g.player2, delta), ..g }
    } else {
        g
    }
}

/// The character at column `x`, row `y` of the board.
pub open spec fn drawn(g: GameData, x: int, y: int) -> char {
    if x == 1 && g.player1.covers(y) {
        '#'
    } else if x == MAP_WIDTH - 2 && g.player2.covers(y) {
        '@'
    } else if x == cell_of(g.ball.0 as int) && y == cell_of(g.ball.1 as int) {
        'O'
    } else {
        ' '
    }
}

/// Paddle `p` placed at `pos`, pulled back onto the board.
fn placed_at(p: &PlayerData, pos: i64) -> (r: PlayerData)
    requires
        p.wf(),
    ensures
        r == placed(*p, pos as int),
        r.wf(),
{
    let extent: i64 = p.size as i64 * UNIT;
    let lo: i64 = extent;
    let hi: i64 = MAP_HEIGHT * UNIT - extent;
    let position: i64 = if pos < lo {
        lo
    } else if pos > hi {
        hi
    } else {
        pos
    };
    PlayerData { position, ..*p }
}

impl GameData {
    /// Both paddles lie on the board, the ball's coordinates are within
    /// their saturation bound and its direction components are bounded.
    pub open spec fn wf(&self) -> bool {
        &&& self.player1.wf()
        &&& self.player2.wf()
        &&& -BALL_LIMIT <= self.ball.0 <= BALL_LIMIT
        &&& -BALL_LIMIT <= self.ball.1 <= BALL_LIMIT
        &&& -DIR_LIMIT <= self.ball_direction.0 <= DIR_LIMIT
        &&& -SPIN_LIMIT <= self.ball_direction.1 <= SPIN_LIMIT
    }

    /// The paddle with number `player` (1 or 2).
    pub open spec fn player(&self, player: int) -> PlayerData {
        if player == 1 {
            self.player1
        } else {
            self.player2
        }
    }

    /// A game in play: ball at (20, 10) heading right and up, paddles centered.
    pub fn new() -> (r: GameData)
        ensures
            r.wf(),
            r.state == GameState::Playing,
            r.ball.0 == 20 * UNIT && r.ball.1 == 10 * UNIT,
            r.ball_direction.0 == UNIT && r.ball_direction.1 == -UNIT / 2,
            r.player1 == r.player2,
            r.player1.position == MAP_HEIGHT * UNIT / 2,
            r.player1.size == PADDLE_SIZE,
            r.player1.score == 0,
            r.player1.range == r.player1.derived_range(),
            r.last_update == 0,
    {
        GameData {
            state: GameState::Playing,
            ball: (20 * UNIT, 10 * UNIT),
            ball_direction: (UNIT, -UNIT / 2),
            player1: PlayerData::new(),
            player2: PlayerData::new(),
            last_update: 0,
        }
    }

    /// Reverses the ball off each paddle it meets, adding spin by where it hit.
    fn calc_pallet_bounce(&mut self, bx: i64, by: i64)
        requires
            old(self).wf(),
            -BALL_LIMIT <= by <= BALL_LIMIT,
        ensures
            (final(self).ball_direction.0 as int, final(self).ball_direction.1 as int)
                == after_paddles(*old(self), bx as int, by as int),
            -DIR_LIMIT <= final(self).ball_direction.0 <= DIR_LIMIT,
            -SPIN_LIMIT - 2 * (BALL_LIMIT + MAP_HEIGHT * UNIT) <= final(self).ball_direction.1
                <= SPIN_LIMIT + 2 * (BALL_LIMIT + MAP_HEIGHT * UNIT),
            final(self).ball == old(self).ball,
            final(self).state == old(self).state,
            final(self).player1 == old(self).player1,
            final(self).player2 == old(self).player2,
            final(self).last_update == old(self).last_update,
    {
        let row: u64 = row_of(by);
        if bx <= LEFT_REACH * UNIT && (row as u128) <= (usize::MAX as u128)
            && self.player1.contains(row as usize) {
            self.ball_direction.0 = -self.ball_direction.0;
            self.ball_direction.1 = self.ball_direction.1 + spin_of(
                by - self.player1.position,
                self.player1.size,
            );
        }
        if bx >= RIGHT_REACH * UNIT && (row as u128) <= (usize::MAX as u128)
            && self.player2.contains(row as usize) {
            self.ball_direction.0 = -self.ball_direction.0;
            self.ball_direction.1 = self.ball_direction.1 + spin_of(
                by - self.player2.position,
                self.player2.size,
            );
        }
    }

    /// Applies paddle bounces, then the top and bottom walls: the vertical
    /// direction flips at a wall, is bounded, and the ball is put back on the wall.
    fn calc_bounce(&mut self)
        requires
            old(self).wf(),
        ensures
            final(self).ball_direction.0 as int == after_walls(
                after_paddles(*old(self), old(self).ball.0 as int, old(self).ball.1 as int),
                old(self).ball.1 as int,
            ).0,
            final(self).ball_direction.1 as int == after_walls(
                after_paddles(*old(self), old(self).ball.0 as int, old(self).ball.1 as int),
                old(self).ball.1 as int,
            ).1,
            final(self).ball.0 == old(self).ball.0,
            final(self).ball.1 as int == clamp(old(self).ball.1 as int, 0, MAP_HEIGHT * UNIT),
            final(self).state == old(self).state,
            final(self).player1 == old(self).player1,
            final(self).player2 == old(self).player2,
            final(self).last_update == old(self).last_update,
            final(self).wf(),
    {
        let bx: i64 = self.ball.0;
        let by: i64 = self.ball.1;
        self.calc_pallet_bounce(bx, by);
        if by <= 0 || by >= MAP_HEIGHT * UNIT {
            self.ball_direction.1 = -self.ball_direction.1;
        }
        if self.ball_direction.1 > SPIN_LIMIT {
            self.ball_direction.1 = SPIN_LIMIT;
        } else if self.ball_direction.1 < -SPIN_LIMIT {
            self.ball_direction.1 = -SPIN_LIMIT;
        }
        if by <= 0 {
            self.ball.1 = 0;
        } else if by >= MAP_HEIGHT * UNIT {
            self.ball.1 = MAP_HEIGHT * UNIT;
        }
    }

    /// Marks the game lost once the ball has left the board sideways.
    fn check_state(&mut self)
        ensures
            final(self).state == (if off_board(old(self).ball.0 as int) {
                GameState::Lost
            } else {
                old(self).state
            }),
            final(self).ball == old(self).ball,
            final(self).ball_direction == old(self).ball_direction,
            final(self).player1 == old(self).player1,
            final(self).player2 == old(self).player2,
            final(self).last_update == old(self).last_update,
    {
        let bx: i64 = self.ball.0;
        if bx < 0 || bx > MAP_WIDTH * UNIT {
            self.state = GameState::Lost;
        }
    }

    /// Recomputes each paddle's range from its position and size.
    fn calc_player_range(&mut self)
        requires
            old(self).wf(),
        ensures
            final(self).player1 == (PlayerData { range: old(self).player1.derived_range(), ..old(self).player1 }),
            final(self).player2 == (PlayerData { range: old(self).player2.derived_range(), ..old(self).player2 }),
            final(self).state == old(self).state,
            final(self).ball == old(self).ball,
            final(self).ball_direction == old(self).ball_direction,
            final(self).last_update == old(self).last_update,
            final(self).wf(),
    {
        self.player1.range = range_of(&self.player1);
        self.player2.range = range_of(&self.player2);
    }

    /// Moves the ball for `elapsed_ms` milliseconds and applies bounces, the
    /// loss check and the paddle ranges. A lost game is left as it is.
    pub fn advance(&mut self, elapsed_ms: u64)
        requires
            old(self).wf(),
        ensures
            *final(self) == advanced(*old(self), elapsed_ms as int),
            final(self).wf(),
    {
        if self.state == GameState::Lost {
            return;
        }
        self.ball.0 = travel_by(self.ball.0, self.ball_direction.0, SPEED_X, elapsed_ms);
        self.ball.1 = travel_by(self.ball.1, self.ball_direction.1, SPEED_Y, elapsed_ms);
        self.calc_bounce();
        self.check_state();
        self.calc_player_range();
    }

    /// Advances the game to clock reading `now_ms`, by the time passed since
    /// the last update; a reading earlier than the last counts as no time.
    /// A lost game is left as it is.
    pub fn update(&mut self, now_ms: u64)
        requires
            old(self).wf(),
        ensures
            final(self).wf(),
            *final(self) == updated(*old(self), now_ms),
    {
        if self.state == GameState::Lost {
            return;
        }
        let elapsed: u64 = if now_ms >= self.last_update {
            now_ms - self.last_update
        } else {
            0
        };
        self.advance(elapsed);
        if now_ms >= self.last_update {
            self.last_update = now_ms;
        }
    }

    /// Shifts paddle `player` (1 or 2) by `direction` thousandths, unless the
    /// paddle would then leave the board; any other player number changes nothing.
    pub fn move_player(&mut self, player: usize, direction: i64)
        ensures
            player == 1 ==> final(self).player1 == moved(old(self).player1, direction as int)
                && final(self).player2 == old(self).player2,
            player == 2 ==> final(self).player2 == moved(old(self).player2, direction as int)
                && final(self).player1 == old(self).player1,
            player != 1 && player != 2 ==> *final(self) == *old(self),
            final(self).state == old(self).state,
            final(self).ball == old(self).ball,
            final(self).ball_direction == old(self).ball_direction,
            final(self).last_update == old(self).last_update,
            old(self).wf() ==> final(self).wf(),
    {
        if player == 1 {
            self.player1 = moved_by(&self.player1, direction);
        } else if player == 2 {
            self.player2 = moved_by(&self.player2, direction);
        }
    }

    /// Puts paddle `player` (1 or 2) at `position` thousandths, pulled back
    /// onto the board where it would leave it; any other player number changes nothing.
    pub fn place_player(&mut self, player: usize, position: i64)
        requires
            old(self).wf(),
        ensures
            player == 1 ==> final(self).player1 == placed(old(self).player1, position as int)
                && final(self).player2 == old(self).player2,
            player == 2 ==> final(self).player2 == placed(old(self).player2, position as int)
                && final(self).player1 == old(self).player1,
            player != 1 && player != 2 ==> *final(self) == *old(self),
            final(self).state == old(self).state,
            final(self).ball == old(self).ball,
            final(self).ball_direction == old(self).ball_direction,
            final(self).last_update == old(self).last_update,
            final(self).wf(),
    {
        if player == 1 {
            self.player1 = placed_at(&self.player1, position);
        } else if player == 2 {
            self.player2 = placed_at(&self.player2, position);
        }
    }

    /// Moves paddle `player` by `step` toward the ball's height, or leaves
    /// it where it is level with the ball.
    pub fn follow_ball(&mut self, player: usize, step: i64)
        requires
            old(self).wf(),
            0 <= step <= UNIT,
        ensures
            final(self).wf(),
            *final(self) == follow(*old(self), player as int, step as int),
    {
        let p: PlayerData = if player == 1 {
            self.player1
        } else {
            self.player2
        };
        if p.position < self.ball.1 {
            self.move_player(player, step);
        } else if p.position > self.ball.1 {
            self.move_player(player, -step);
        }
    }

    /// One step of the simulation loop: an update to clock reading `now_ms`,
    /// then, while the game is still in play, the computer paddle (the
    /// second) follows the ball by `BOT_STEP`. Returns the phase after it.
    pub fn tick(&mut self, now_ms: u64) -> (r: GameState)
        requires
            old(self).wf(),
        ensures
            final(self).wf(),
            r == final(self).state,
            *final(self) == ticked(*old(self), now_ms),
    {
        self.update(now_ms);
        if self.state == GameState::Playing {
            self.follow_ball(2, BOT_STEP);
        }
        self.state
    }

    /// The character shown at column `x`, row `y` of the board: `#` for the
    /// left paddle, `@` for the right one, `O` for the ball, else a blank.
    pub fn draw(&self, x: usize, y: usize) -> (r: char)
        ensures
            r == drawn(*self, x as int, y as int),
    {
        if x == 1 && self.player1.contains(y) {
            return '#';
        }
        if x as u64 == (MAP_WIDTH - 2) as u64 && self.player2.contains(y) {
            return '@';
        }
        if x as u64 == row_of(self.ball.0) && y as u64 == row_of(self.ball.1) {
            return 'O';
        }
        ' '
    }

    /// Row `y` of the board as shown: a border, a character per column, a border.
    pub fn render_row(&self, y: usize) -> (r: Vec<char>)
        ensures
            r@.len() == MAP_WIDTH + 2,
            r@[0] == '|',
            r@[MAP_WIDTH + 1] == '|',
            forall|x: int| 0 <= x < MAP_WIDTH ==> r@[x + 1] == drawn(*self, x, y as int),
    {
        let mut row: Vec<char> = Vec::new();
        row.push('|');
        let mut x: usize = 0;
        while x < MAP_WIDTH as usize
            invariant
                x <= MAP_WIDTH,
                row@.len() == x + 1,
                row@[0] == '|',
                forall|k: int| 0 <= k < x ==> row@[k + 1] == drawn(*self, k, y as int),
            decreases MAP_WIDTH - x,
        {
            let c: char = self.draw(x, y);
            row.push(c);
            x = x + 1;
        }
        row.push('|');
        row
    }
}

/// However long a step of a game in play lasts, both paddles stay on the
/// board afterwards: each covers a band of rows within `[0, MAP_HEIGHT]`,
/// and its position keeps its whole extent on the board.
pub proof fn lemma_advance_keeps_paddles_on_board(g: GameData, ms: int)
    requires
        g.wf(),
        g.state == GameState::Playing,
        ms >= 0,
    ensures
        0 <= advanced(g, ms).player1.range.0 <= advanced(g, ms).player1.range.1 <= MAP_HEIGHT,
        0 <= advanced(g, ms).player2.range.0 <= advanced(g, ms).player2.range.1 <= MAP_HEIGHT,
        advanced(g, ms).player1.wf(),
        advanced(g, ms).player2.wf(),
{
    lemma_derived_range_on_board(g.player1);
    lemma_derived_range_on_board(g.player2);
}

/// The rows that a paddle on the board covers lie on the board.
proof fn lemma_derived_range_on_board(p: PlayerData)
    requires
        p.wf(),
    ensures
        cell_of(p.position as int) - p.size >= 0,
        cell_of(p.position as int) + p.size <= MAP_HEIGHT,
{
    assert(p.size as int * 1000 <= p.position <= 40000 - p.size as int * 1000);
}

/// A ball that meets a paddle level with its center reverses horizontally
/// and keeps its vertical direction.
pub proof fn lemma_center_hit(dir: (int, int), p: PlayerData)
    requires
        p.wf(),
        p.covers(cell_of(p.position as int)),
    ensures
        paddle_bounce(dir, p, p.position as int) == (-dir.0, dir.1),
{
}

/// A ball that meets a paddle at the end of its extent (offset `+size`)
/// reverses horizontally and gains one full unit of vertical direction, the
/// most that any hit within the paddle's extent adds; away from the walls the
/// result is then bounded by `SPIN_LIMIT`.
pub proof fn lemma_edge_hit(dir: (int, int), p: PlayerData, offset: int)
    requires
        p.wf(),
        p.covers(cell_of(p.position + p.extent())),
        -p.extent() <= offset <= p.extent(),
    ensures
        paddle_bounce(dir, p, p.position + p.extent()) == (-dir.0, dir.1 + UNIT),
        trunc_div(offset, p.size as int) <= UNIT,
        0 < p.position + p.extent() < MAP_HEIGHT * UNIT ==> after_walls(
            paddle_bounce(dir, p, p.position + p.extent()),
            p.position + p.extent(),
        ).1 == clamp(dir.1 + UNIT, -SPIN_LIMIT, SPIN_LIMIT as int),
{
    let s = p.size as int;
    assert((s * 1000) / s == 1000) by (nonlinear_arith)
        requires
            s >= 1,
    ;
    if offset >= 0 {
        assert(offset / s <= 1000) by (nonlinear_arith)
            requires
                s >= 1,
                0 <= offset <= s * 1000,
        ;
    } else {
        assert((-offset) / s >= 0) by (nonlinear_arith)
            requires
                s >= 1,
                -offset > 0,
        ;
    }
}

/// Once a game is lost, advancing it any number of times changes nothing.
pub proof fn lemma_lost_is_terminal(g: GameData, a: int, b: int)
    requires
        g.state == GameState::Lost,
    ensures
        advanced(g, a) == g,
        advanced(advanced(g, a), b) == g,
{
}

} // verus!
