//! The snake face's game: a self-playing game of Snake that is a pure
//! function of the wall clock. The current 15-minute window seeds the run,
//! and every frame replays it from tick zero up to "now".
//!
//! The body is a deque of cells with the head at the front. The set of
//! occupied cells is exactly the set of body cells (the body never holds a
//! cell twice), so occupancy is answered from the body itself.

use vstd::prelude::*;
use crate::color::Color;
use crate::config::Config;
use crate::render::{Line, line, blank, push_cell, line_cells, line_view, merged};
use crate::time::LocalTime;
use crate::faces::digital::{time_text, clock_text, am_pm};
use crate::text::{push_char, push_str};

verus! {

/// A board cell, `(x, y)`.
pub type Point = (i32, i32);

/// Milliseconds per snake step.
pub const TICK_MS: i64 = 130;

/// The run restarts every 15 minutes.
pub const WINDOW_MS: i64 = 900_000;

/// Salt mixed into the window start to seed the generator.
pub const SEED_SALT: u64 = 0x2545_F491_4F6C_DD1D;

/// How many random cells are tried before falling back to a scan.
pub const FOOD_TRIES: usize = 200;

pub const GOLDEN_GAMMA: u64 = 0x9E37_79B9_7F4A_7C15;
pub const MIX_A: u64 = 0xBF58_476D_1CE4_E5B9;
pub const MIX_B: u64 = 0x94D0_49BB_1331_11EB;

// ---------------------------------------------------------------------------
// The generator (SplitMix64)
// ---------------------------------------------------------------------------

/// The SplitMix64 state after one draw.
pub open spec fn rng_advance(state: u64) -> u64 {
    state.wrapping_add(GOLDEN_GAMMA)
}

/// The SplitMix64 output for an already advanced state.
#[verifier::opaque]
pub open spec fn rng_mix(z: u64) -> u64 {
    let z1 = (z ^ (z >> 30u64)).wrapping_mul(MIX_A);
    let z2 = (z1 ^ (z1 >> 27u64)).wrapping_mul(MIX_B);
    z2 ^ (z2 >> 31u64)
}

/// The number drawn from `state`.
pub open spec fn rng_output(state: u64) -> u64 {
    rng_mix(rng_advance(state))
}

/// A draw below `n` from `state`.
pub open spec fn rng_below(state: u64, n: int) -> int {
    (rng_output(state) as int) % n
}

/// A tiny deterministic generator, replayable byte-for-byte from its seed.
pub struct Rng(pub u64);

impl Rng {
    pub fn new(seed: u64) -> (r: Rng)
        ensures
            r.0 == seed,
    {
        Rng(seed)
    }

    pub fn next_u64(&mut self) -> (out: u64)
        ensures
            final(self).0 == rng_advance(old(self).0),
            out == rng_output(old(self).0),
    {
        proof {
            reveal(rng_mix);
        }
        self.0 = self.0.wrapping_add(GOLDEN_GAMMA);
        let mut z = self.0;
        z = (z ^ (z >> 30u64)).wrapping_mul(MIX_A);
        z = (z ^ (z >> 27u64)).wrapping_mul(MIX_B);
        z ^ (z >> 31u64)
    }

    pub fn below(&mut self, n: usize) -> (out: usize)
        requires
            n > 0,
        ensures
            final(self).0 == rng_advance(old(self).0),
            out == rng_below(old(self).0, n as int),
            out < n,
    {
        let v = self.next_u64();
        (v % (n as u64)) as usize
    }
}

// ---------------------------------------------------------------------------
// Board geometry
// ---------------------------------------------------------------------------

pub open spec fn in_bounds(cols: int, rows: int, p: Point) -> bool {
    0 <= p.0 < cols && 0 <= p.1 < rows
}

/// Two cells that share an edge.
pub open spec fn adjacent(a: Point, b: Point) -> bool {
    (a.0 == b.0 && (a.1 - b.1 == 1 || b.1 - a.1 == 1)) || (a.1 == b.1 && (a.0 - b.0 == 1 || b.0
        - a.0 == 1))
}

/// The cell at row-major index `k`.
pub open spec fn cell_at(cols: int, k: int) -> Point {
    ((k % cols) as i32, (k / cols) as i32)
}

/// The first cell, in row-major order from index `k` on, that the body does
/// not cover; `(0, 0)` when there is none.
pub open spec fn free_from(cols: int, rows: int, body: Seq<Point>, k: int) -> Point
    decreases cols * rows - k,
{
    if k < 0 || k >= cols * rows {
        (0, 0)
    } else if !body.contains(cell_at(cols, k)) {
        cell_at(cols, k)
    } else {
        free_from(cols, rows, body, k + 1)
    }
}

/// Up to `tries` random draws of a cell, stopping at the first free one.
/// Returns the cell (if found) and the generator state afterwards.
pub open spec fn food_search(cols: int, rows: int, body: Seq<Point>, state: u64, tries: nat) -> (
    Option<Point>,
    u64,
)
    decreases tries,
{
    if tries == 0 {
        (None, state)
    } else {
        let x = rng_below(state, cols);
        let s1 = rng_advance(state);
        let y = rng_below(s1, rows);
        let s2 = rng_advance(s1);
        let p = (x as i32, y as i32);
        if !body.contains(p) {
            (Some(p), s2)
        } else {
            food_search(cols, rows, body, s2, (tries - 1) as nat)
        }
    }
}

/// Where the next food goes: a random free cell, else the first free cell
/// in row-major order.
pub open spec fn food_spot(cols: int, rows: int, body: Seq<Point>, state: u64) -> (Point, u64) {
    let (found, s) = food_search(cols, rows, body, state, FOOD_TRIES as nat);
    match found {
        Some(p) => (p, s),
        None => (free_from(cols, rows, body, 0), s),
    }
}

/// The starting snake: three cells in the middle of the board, heading right.
pub open spec fn start_body(cols: int, rows: int) -> Seq<Point> {
    let cx = cols / 2;
    let cy = rows / 2;
    seq![(cx as i32, cy as i32), ((cx - 1) as i32, cy as i32), ((cx - 2) as i32, cy as i32)]
}

/// A fresh run: the starting snake and a food cell placed off it.
pub open spec fn fresh_run(cols: int, rows: int, state: u64) -> (Seq<Point>, Point, u64) {
    let body = start_body(cols, rows);
    let (food, s) = food_spot(cols, rows, body, state);
    (body, food, s)
}

pub open spec fn sign(v: int) -> int {
    if v > 0 {
        1
    } else if v < 0 {
        -1
    } else {
        0
    }
}

pub open spec fn abs(v: int) -> int {
    if v < 0 {
        -v
    } else {
        v
    }
}

pub open spec fn opt_seq(o: Option<Point>) -> Seq<Point> {
    match o {
        Some(p) => seq![p],
        None => Seq::empty(),
    }
}

pub open spec fn with_dir(s: Seq<Point>, d: Point) -> Seq<Point> {
    if s.contains(d) {
        s
    } else {
        s.push(d)
    }
}

/// The order in which the snake tries directions when the food is `(dx, dy)`
/// away: first along the axis with the bigger gap, then the other axis, then
/// the remaining directions right, left, down, up.
pub open spec fn preference_order(dx: int, dy: int) -> Seq<Point> {
    let horiz = if dx != 0 {
        Some((sign(dx) as i32, 0i32))
    } else {
        None
    };
    let vert = if dy != 0 {
        Some((0i32, sign(dy) as i32))
    } else {
        None
    };
    let s0 = if abs(dx) >= abs(dy) {
        opt_seq(horiz) + opt_seq(vert)
    } else {
        opt_seq(vert) + opt_seq(horiz)
    };
    with_dir(with_dir(with_dir(with_dir(s0, (1i32, 0i32)), (-1i32, 0i32)), (0i32, 1i32)), (0i32, -1i32))
}

pub open spec fn moved(p: Point, d: Point) -> Point {
    ((p.0 + d.0) as i32, (p.1 + d.1) as i32)
}

/// The head may move in direction `d`: the cell is on the board and not body.
pub open spec fn safe_move(cols: int, rows: int, body: Seq<Point>, head: Point, d: Point) -> bool {
    let n = (head.0 + d.0, head.1 + d.1);
    0 <= n.0 < cols && 0 <= n.1 < rows && !body.contains(((n.0) as i32, (n.1) as i32))
}

/// The first direction of `prefs` that is safe.
pub open spec fn first_safe(cols: int, rows: int, body: Seq<Point>, head: Point, prefs: Seq<Point>) -> Option<Point>
    decreases prefs.len(),
{
    if prefs.len() == 0 {
        None
    } else if safe_move(cols, rows, body, head, prefs[0]) {
        Some(prefs[0])
    } else {
        first_safe(cols, rows, body, head, prefs.drop_first())
    }
}

/// One step of the game: the body, the food and the generator state after it.
pub open spec fn game_step(cols: int, rows: int, body: Seq<Point>, food: Point, state: u64, max_len: int) -> (
    Seq<Point>,
    Point,
    u64,
) {
    let head = body[0];
    let prefs = preference_order(food.0 - head.0, food.1 - head.1);
    match first_safe(cols, rows, body, head, prefs) {
        None => fresh_run(cols, rows, state),
        Some(d) => {
            let next = moved(head, d);
            let grown = seq![next] + body;
            if next == food {
                if grown.len() > max_len {
                    fresh_run(cols, rows, state)
                } else {
                    let (f, s) = food_spot(cols, rows, grown, state);
                    (grown, f, s)
                }
            } else {
                (grown.drop_last(), food, state)
            }
        },
    }
}

/// `n` steps of the game from `start`.
pub open spec fn game_run(cols: int, rows: int, max_len: int, start: (Seq<Point>, Point, u64), n: nat) -> (
    Seq<Point>,
    Point,
    u64,
)
    decreases n,
{
    if n == 0 {
        start
    } else {
        let (b, f, s) = game_run(cols, rows, max_len, start, (n - 1) as nat);
        game_step(cols, rows, b, f, s, max_len)
    }
}

/// The longest the snake may grow on a board of `cols` by `rows`.
pub open spec fn max_length(cols: int, rows: int) -> int {
    let third = cols * rows / 3;
    let c = if third < 8 {
        8
    } else if third > 60 {
        60
    } else {
        third
    };
    if c < cols * rows - 4 {
        c
    } else {
        cols * rows - 4
    }
}

/// The start of the 15-minute window that holds `now_ms`.
pub open spec fn window_start(now_ms: int) -> int {
    now_ms / (WINDOW_MS as int) * (WINDOW_MS as int)
}

/// The game as it stands at `now_ms`: the window's run replayed up to the
/// current tick.
pub open spec fn board_at(now_ms: int, cols: int, rows: int) -> (Seq<Point>, Point) {
    let anchor = window_start(now_ms);
    let ticks = (now_ms - anchor) / (TICK_MS as int);
    let seed = (anchor as u64) ^ SEED_SALT;
    let (b, f, _s) = game_run(cols, rows, max_length(cols, rows), fresh_run(cols, rows, seed), ticks as nat);
    (b, f)
}

/// A board of at least one cell, every coordinate inside `i32`.
pub open spec fn grid_ok(cols: int, rows: int) -> bool {
    &&& 1 <= cols <= i32::MAX
    &&& 1 <= rows <= i32::MAX
    &&& cols * rows <= usize::MAX
}

/// The board limits that keep every coordinate inside `i32`.
pub open spec fn board_ok(cols: int, rows: int) -> bool {
    &&& 4 <= cols <= i32::MAX
    &&& 1 <= rows <= i32::MAX
    &&& cols * rows <= usize::MAX
}

/// The game's invariant: a snake of at least one cell and at most the
/// length cap, all on the board, no cell twice, each cell next to the one
/// before it, and the food on the board and off the snake.
pub open spec fn game_wf(cols: int, rows: int, body: Seq<Point>, food: Point, max_len: int) -> bool {
    &&& 1 <= body.len() <= max_len
    &&& forall|i: int| 0 <= i < body.len() ==> in_bounds(cols, rows, #[trigger] body[i])
    &&& forall|i: int, j: int| 0 <= i < j < body.len() ==> body[i] != body[j]
    &&& forall|i: int| 0 <= i < body.len() - 1 ==> adjacent(#[trigger] body[i], body[i + 1])
    &&& in_bounds(cols, rows, food)
    &&& !body.contains(food)
}

// ---------------------------------------------------------------------------
// Executable game
// ---------------------------------------------------------------------------

/// Whether the body covers `p`.
fn occupied(body: &std::collections::VecDeque<Point>, p: Point) -> (r: bool)
    ensures
        r == body@.contains(p),
{
    let n = body.len();
    let mut i: usize = 0;
    while i < n
        invariant
            n == body@.len(),
            i <= n,
            forall|k: int| 0 <= k < i ==> body@[k] != p,
        decreases n - i,
    {
        let q = body[i];
        if q.0 == p.0 && q.1 == p.1 {
            assert(body@[i as int] == p);
            return true;
        }
        i += 1;
    }
    false
}

proof fn lemma_free_from_skip(cols: int, rows: int, body: Seq<Point>, k: int)
    requires
        0 <= k,
        cols > 0,
        forall|j: int| 0 <= j < k && j < cols * rows ==> body.contains(#[trigger] cell_at(cols, j)),
    ensures
        free_from(cols, rows, body, 0) == free_from(cols, rows, body, k),
    decreases k,
{
    if k > 0 {
        lemma_free_from_skip(cols, rows, body, k - 1);
        if k - 1 < cols * rows {
            assert(body.contains(cell_at(cols, k - 1)));
        }
    }
}

/// The first cell in row-major order that the body does not cover, or
/// `(0, 0)` when the body covers the board.
fn first_free_cell(cols: usize, rows: usize, body: &std::collections::VecDeque<Point>) -> (p: Point)
    requires
        grid_ok(cols as int, rows as int),
    ensures
        p == free_from(cols as int, rows as int, body@, 0),
{
    let total = cols * rows;
    let mut k: usize = 0;
    while k < total
        invariant
            grid_ok(cols as int, rows as int),
            total == cols * rows,
            k <= total,
            forall|j: int| 0 <= j < k ==> body@.contains(#[trigger] cell_at(cols as int, j)),
        decreases total - k,
    {
        let p: Point = ((k % cols) as i32, (k / cols) as i32);
        assert(p == cell_at(cols as int, k as int));
        if !occupied(body, p) {
            proof {
                lemma_free_from_skip(cols as int, rows as int, body@, k as int);
            }
            return p;
        }
        assert(body@.contains(cell_at(cols as int, k as int)));
        k += 1;
    }
    proof {
        lemma_free_from_skip(cols as int, rows as int, body@, total as int);
    }
    (0, 0)
}

/// Picks a random empty cell for the next food, falling back to a scan in
/// row-major order when the random tries all land on the body.
fn spawn_food(cols: usize, rows: usize, body: &std::collections::VecDeque<Point>, rng: &mut Rng) -> (food: Point)
    requires
        grid_ok(cols as int, rows as int),
    ensures
        (food, final(rng).0) == food_spot(cols as int, rows as int, body@, old(rng).0),
{
    let ghost s0 = rng.0;
    let mut t: usize = 0;
    while t < FOOD_TRIES
        invariant
            grid_ok(cols as int, rows as int),
            t <= FOOD_TRIES,
            s0 == old(rng).0,
            food_search(cols as int, rows as int, body@, s0, FOOD_TRIES as nat) == food_search(
                cols as int,
                rows as int,
                body@,
                rng.0,
                (FOOD_TRIES - t) as nat,
            ),
        decreases FOOD_TRIES - t,
    {
        let ghost before = rng.0;
        let x = rng.below(cols);
        let y = rng.below(rows);
        let p: Point = (x as i32, y as i32);
        assert(p == (rng_below(before, cols as int) as i32, rng_below(rng_advance(before), rows as int) as i32));
        assert(rng.0 == rng_advance(rng_advance(before)));
        if !occupied(body, p) {
            assert(food_search(cols as int, rows as int, body@, before, (FOOD_TRIES - t) as nat) == (Some(p), rng.0));
            assert(food_search(cols as int, rows as int, body@, s0, FOOD_TRIES as nat) == (Some(p), rng.0));
            assert(food_spot(cols as int, rows as int, body@, s0) == (p, rng.0));
            return p;
        }
        assert(food_search(cols as int, rows as int, body@, before, (FOOD_TRIES - t) as nat)
            == food_search(cols as int, rows as int, body@, rng.0, (FOOD_TRIES - (t + 1)) as nat));
        t += 1;
    }
    first_free_cell(cols, rows, body)
}

/// Starts a fresh run: a length-3 snake in the middle of the board, heading
/// right, with one food cell placed somewhere it isn't.
fn spawn(cols: usize, rows: usize, rng: &mut Rng) -> (res: (std::collections::VecDeque<Point>, Point))
    requires
        grid_ok(cols as int, rows as int),
    ensures
        (res.0@, res.1, final(rng).0) == fresh_run(cols as int, rows as int, old(rng).0),
{
    let cx = (cols / 2) as i32;
    let cy = (rows / 2) as i32;
    let mut body: std::collections::VecDeque<Point> = std::collections::VecDeque::new();
    body.push_back((cx, cy));
    body.push_back((cx - 1, cy));
    body.push_back((cx - 2, cy));
    assert(body@ == start_body(cols as int, rows as int));
    let food = spawn_food(cols, rows, &body, rng);
    (body, food)
}

fn signum(v: i32) -> (r: i32)
    ensures
        r == sign(v as int),
{
    if v > 0 {
        1
    } else if v < 0 {
        -1
    } else {
        0
    }
}

fn push_dir(prefs: &mut Vec<Point>, d: Point)
    ensures
        final(prefs)@ == with_dir(old(prefs)@, d),
{
    let n = prefs.len();
    let mut i: usize = 0;
    while i < n
        invariant
            n == prefs@.len(),
            prefs@ == old(prefs)@,
            i <= n,
            forall|k: int| 0 <= k < i ==> prefs@[k] != d,
        decreases n - i,
    {
        let q = prefs[i];
        if q.0 == d.0 && q.1 == d.1 {
            assert(prefs@[i as int] == d);
            return;
        }
        i += 1;
    }
    prefs.push(d);
}

/// Advances the game by one step: the snake heads toward the food, preferring
/// whichever axis closes the bigger gap, and steers around its own body and
/// the walls. Cornering itself, or growing past `max_len`, restarts the run.
fn step(
    cols: usize,
    rows: usize,
    body: &mut std::collections::VecDeque<Point>,
    food: &mut Point,
    rng: &mut Rng,
    max_len: usize,
)
    requires
        grid_ok(cols as int, rows as int),
        game_wf(cols as int, rows as int, old(body)@, *old(food), max_len as int),
    ensures
        (final(body)@, *final(food), final(rng).0) == game_step(
            cols as int,
            rows as int,
            old(body)@,
            *old(food),
            old(rng).0,
            max_len as int,
        ),
{
    let head = body[0];
    assert(in_bounds(cols as int, rows as int, body@[0]));
    let dx = food.0 - head.0;
    let dy = food.1 - head.1;
    let ghost prefs_spec = preference_order(dx as int, dy as int);
    let adx = if dx < 0 { -dx } else { dx };
    let ady = if dy < 0 { -dy } else { dy };

    let mut prefs: Vec<Point> = Vec::new();
    if adx >= ady {
        if dx != 0 {
            prefs.push((signum(dx), 0));
        }
        if dy != 0 {
            prefs.push((0, signum(dy)));
        }
    } else {
        if dy != 0 {
            prefs.push((0, signum(dy)));
        }
        if dx != 0 {
            prefs.push((signum(dx), 0));
        }
    }
    assert(prefs@ == (if abs(dx as int) >= abs(dy as int) {
        opt_seq(if dx != 0 { Some((sign(dx as int) as i32, 0i32)) } else { None })
            + opt_seq(if dy != 0 { Some((0i32, sign(dy as int) as i32)) } else { None })
    } else {
        opt_seq(if dy != 0 { Some((0i32, sign(dy as int) as i32)) } else { None })
            + opt_seq(if dx != 0 { Some((sign(dx as int) as i32, 0i32)) } else { None })
    }));
    push_dir(&mut prefs, (1, 0));
    push_dir(&mut prefs, (-1, 0));
    push_dir(&mut prefs, (0, 1));
    push_dir(&mut prefs, (0, -1));
    assert(prefs@ == prefs_spec);

    let chosen = first_safe_dir(cols, rows, body, head, &prefs);
    match chosen {
        None => {
            let (b, f) = spawn(cols, rows, rng);
            *body = b;
            *food = f;
        },
        Some(d) => {
            let next: Point = (head.0 + d.0, head.1 + d.1);
            body.push_front(next);
            if next.0 == food.0 && next.1 == food.1 {
                if body.len() > max_len {
                    let (b, f) = spawn(cols, rows, rng);
                    *body = b;
                    *food = f;
                } else {
                    *food = spawn_food(cols, rows, body, rng);
                }
            } else {
                let _tail = body.pop_back();
                assert(body@ == (seq![next] + old(body)@).drop_last());
            }
        },
    }
}

/// The first direction of `prefs` in which the head can move.
fn first_safe_dir(
    cols: usize,
    rows: usize,
    body: &std::collections::VecDeque<Point>,
    head: Point,
    prefs: &Vec<Point>,
) -> (r: Option<Point>)
    requires
        grid_ok(cols as int, rows as int),
        in_bounds(cols as int, rows as int, head),
    ensures
        r == first_safe(cols as int, rows as int, body@, head, prefs@),
        r matches Some(d) ==> safe_move(cols as int, rows as int, body@, head, d),
{
    let np = prefs.len();
    let mut i: usize = 0;
    assert(prefs@.subrange(0, np as int) == prefs@);
    while i < np
        invariant
            np == prefs@.len(),
            i <= np,
            grid_ok(cols as int, rows as int),
            in_bounds(cols as int, rows as int, head),
            first_safe(cols as int, rows as int, body@, head, prefs@) == first_safe(
                cols as int,
                rows as int,
                body@,
                head,
                prefs@.subrange(i as int, np as int),
            ),
        decreases np - i,
    {
        let d = prefs[i];
        let nx: i64 = head.0 as i64 + d.0 as i64;
        let ny: i64 = head.1 as i64 + d.1 as i64;
        let ghost rest = prefs@.subrange(i as int, np as int);
        assert(rest[0] == d);
        assert(rest.drop_first() == prefs@.subrange(i + 1, np as int));
        if nx >= 0 && ny >= 0 && nx < cols as i64 && ny < rows as i64 {
            let cell: Point = (nx as i32, ny as i32);
            if !occupied(body, cell) {
                return Some(d);
            }
        }
        i += 1;
    }
    None
}

/// Replays the current 15-minute window from tick zero up to `now_ms`, so the
/// board is a pure function of the wall clock and the board size.
pub fn simulate(now_ms: i64, cols: usize, rows: usize) -> (res: (std::collections::VecDeque<Point>, Point))
    requires
        board_ok(cols as int, rows as int),
        cols * rows >= 8,
        now_ms >= i64::MIN + WINDOW_MS,
    ensures
        (res.0@, res.1) == board_at(now_ms as int, cols as int, rows as int),
        game_wf(cols as int, rows as int, res.0@, res.1, max_length(cols as int, rows as int)),
{
    let window = now_ms.checked_div_euclid(WINDOW_MS).unwrap();
    assert(window * WINDOW_MS <= now_ms < window * WINDOW_MS + WINDOW_MS) by (nonlinear_arith)
        requires window == now_ms as int / WINDOW_MS as int, WINDOW_MS == 900_000;
    let anchor: i64 = window * WINDOW_MS;
    let target_tick: i64 = (now_ms - anchor) / TICK_MS;
    let mut rng = Rng::new(#[verifier::truncate] (anchor as u64) ^ SEED_SALT);
    let area = cols * rows;
    let third = area / 3;
    let clamped = if third < 8 {
        8
    } else if third > 60 {
        60
    } else {
        third
    };
    let max_len = if clamped < area - 4 {
        clamped
    } else {
        area - 4
    };
    assert(max_len == max_length(cols as int, rows as int));
    let ghost seed = rng.0;
    let ghost start = fresh_run(cols as int, rows as int, seed);
    let (mut body, mut food) = spawn(cols, rows, &mut rng);
    assert(max_len >= 4);
    proof {
        lemma_fresh_run_wf(cols as int, rows as int, seed, max_len as int);
    }
    let mut tick: i64 = 0;
    while tick < target_tick
        invariant
            board_ok(cols as int, rows as int),
            max_len == max_length(cols as int, rows as int),
            max_len >= 4,
            max_len < cols * rows,
            0 <= tick <= target_tick,
            (body@, food, rng.0) == game_run(cols as int, rows as int, max_len as int, start, tick as nat),
            game_wf(cols as int, rows as int, body@, food, max_len as int),
        decreases target_tick - tick,
    {
        proof {
            lemma_step_wf(cols as int, rows as int, body@, food, rng.0, max_len as int);
        }
        step(cols, rows, &mut body, &mut food, &mut rng, max_len);
        tick += 1;
    }
    (body, food)
}

// ---------------------------------------------------------------------------
// The game's invariant
// ---------------------------------------------------------------------------

proof fn lemma_free_from_in_bounds(cols: int, rows: int, body: Seq<Point>, k: int)
    requires
        board_ok(cols, rows),
        k >= 0,
    ensures
        in_bounds(cols, rows, free_from(cols, rows, body, k)),
    decreases cols * rows - k,
{
    if k < cols * rows {
        assert(0 <= k % cols < cols);
        assert(0 <= k / cols < rows) by (nonlinear_arith)
            requires 0 <= k < cols * rows, cols > 0;
        if body.contains(cell_at(cols, k)) {
            lemma_free_from_in_bounds(cols, rows, body, k + 1);
        }
    }
}

proof fn lemma_food_search_in_bounds(cols: int, rows: int, body: Seq<Point>, state: u64, tries: nat)
    requires
        board_ok(cols, rows),
    ensures
        food_search(cols, rows, body, state, tries).0 matches Some(p) ==> in_bounds(cols, rows, p),
    decreases tries,
{
    if tries > 0 {
        let s1 = rng_advance(state);
        lemma_food_search_in_bounds(cols, rows, body, rng_advance(s1), (tries - 1) as nat);
    }
}

proof fn lemma_cell_at_injective(cols: int, rows: int, k1: int, k2: int)
    requires
        board_ok(cols, rows),
        0 <= k1 < cols * rows,
        0 <= k2 < cols * rows,
        cell_at(cols, k1) == cell_at(cols, k2),
    ensures
        k1 == k2,
{
    assert(0 <= k1 / cols < rows && 0 <= k2 / cols < rows) by (nonlinear_arith)
        requires 0 <= k1 < cols * rows, 0 <= k2 < cols * rows, cols > 0;
    assert(k1 == (k1 / cols) * cols + k1 % cols) by (nonlinear_arith)
        requires cols > 0;
    assert(k2 == (k2 / cols) * cols + k2 % cols) by (nonlinear_arith)
        requires cols > 0;
}

/// A body shorter than the board leaves some cell of the board free.
pub proof fn lemma_free_cell_exists(cols: int, rows: int, body: Seq<Point>)
    requires
        board_ok(cols, rows),
        body.len() < cols * rows,
    ensures
        exists|k: int| 0 <= k < cols * rows && !body.contains(#[trigger] cell_at(cols, k)),
{
    let n = cols * rows;
    if forall|k: int| 0 <= k < n ==> body.contains(#[trigger] cell_at(cols, k)) {
        let f = |k: int| choose|j: int| 0 <= j < body.len() && body[j] == cell_at(cols, k);
        let dom = vstd::set_lib::set_int_range(0, n);
        vstd::set_lib::lemma_int_range(0, n);
        let img = dom.map(f);
        assert forall|k: int| dom.contains(k) implies 0 <= #[trigger] f(k) < body.len() && body[f(k)] == cell_at(cols, k) by {
            assert(body.contains(cell_at(cols, k)));
        }
        assert(vstd::relations::injective_on(f, dom)) by {
            assert forall|k1: int, k2: int| dom.contains(k1) && dom.contains(k2) && #[trigger] f(k1) == #[trigger] f(k2) implies k1 == k2 by {
                lemma_cell_at_injective(cols, rows, k1, k2);
            }
        }
        vstd::set_lib::lemma_map_size(dom, img, f);
        let idx = vstd::set_lib::set_int_range(0, body.len() as int);
        vstd::set_lib::lemma_int_range(0, body.len() as int);
        assert(img.subset_of(idx)) by {
            assert forall|j: int| img.contains(j) implies idx.contains(j) by {
                let k = choose|k: int| dom.contains(k) && f(k) == j;
            }
        }
        vstd::set_lib::lemma_len_subset(img, idx);
        assert(false);
    }
}

proof fn lemma_free_from_finds(cols: int, rows: int, body: Seq<Point>, k: int, k0: int)
    requires
        0 <= k <= k0 < cols * rows,
        !body.contains(cell_at(cols, k0)),
    ensures
        !body.contains(free_from(cols, rows, body, k)),
    decreases k0 - k,
{
    if k < k0 && body.contains(cell_at(cols, k)) {
        lemma_free_from_finds(cols, rows, body, k + 1, k0);
    }
}

proof fn lemma_food_search_free(cols: int, rows: int, body: Seq<Point>, state: u64, tries: nat)
    ensures
        food_search(cols, rows, body, state, tries).0 matches Some(p) ==> !body.contains(p),
    decreases tries,
{
    if tries > 0 {
        let s1 = rng_advance(state);
        lemma_food_search_free(cols, rows, body, rng_advance(s1), (tries - 1) as nat);
    }
}

/// On a board with room to spare, the food lands on a cell the snake does
/// not cover.
pub proof fn lemma_food_spot_free(cols: int, rows: int, body: Seq<Point>, state: u64)
    requires
        board_ok(cols, rows),
        body.len() < cols * rows,
    ensures
        !body.contains(food_spot(cols, rows, body, state).0),
{
    lemma_food_search_free(cols, rows, body, state, FOOD_TRIES as nat);
    lemma_free_cell_exists(cols, rows, body);
    let k0 = choose|k: int| 0 <= k < cols * rows && !body.contains(#[trigger] cell_at(cols, k));
    lemma_free_from_finds(cols, rows, body, 0, k0);
}

/// Wherever the food goes, it is on the board.
pub proof fn lemma_food_spot_in_bounds(cols: int, rows: int, body: Seq<Point>, state: u64)
    requires
        board_ok(cols, rows),
    ensures
        in_bounds(cols, rows, food_spot(cols, rows, body, state).0),
{
    lemma_food_search_in_bounds(cols, rows, body, state, FOOD_TRIES as nat);
    lemma_free_from_in_bounds(cols, rows, body, 0);
}

/// A fresh run satisfies the game's invariant.
pub proof fn lemma_fresh_run_wf(cols: int, rows: int, state: u64, max_len: int)
    requires
        board_ok(cols, rows),
        max_len >= 4,
    ensures
        game_wf(cols, rows, fresh_run(cols, rows, state).0, fresh_run(cols, rows, state).1, max_len),
{
    lemma_food_spot_in_bounds(cols, rows, start_body(cols, rows), state);
    assert(cols * rows >= 4 * 1) by (nonlinear_arith)
        requires cols >= 4, rows >= 1;
    lemma_food_spot_free(cols, rows, start_body(cols, rows), state);
}

proof fn lemma_prefs_units(dx: int, dy: int)
    ensures
        forall|k: int| 0 <= k < preference_order(dx, dy).len() ==> {
            let d = #[trigger] preference_order(dx, dy)[k];
            ||| d == (1i32, 0i32)
            ||| d == (-1i32, 0i32)
            ||| d == (0i32, 1i32)
            ||| d == (0i32, -1i32)
        },
{
}

proof fn lemma_first_safe_member(cols: int, rows: int, body: Seq<Point>, head: Point, prefs: Seq<Point>)
    ensures
        first_safe(cols, rows, body, head, prefs) matches Some(d) ==> prefs.contains(d) && safe_move(
            cols,
            rows,
            body,
            head,
            d,
        ),
    decreases prefs.len(),
{
    if prefs.len() > 0 && !safe_move(cols, rows, body, head, prefs[0]) {
        lemma_first_safe_member(cols, rows, body, head, prefs.drop_first());
        if let Some(d) = first_safe(cols, rows, body, head, prefs.drop_first()) {
            let k = choose|k: int| 0 <= k < prefs.drop_first().len() && prefs.drop_first()[k] == d;
            assert(prefs[k + 1] == d);
        }
    }
}

/// Every step keeps the game's invariant: the snake stays on the board, in
/// one piece, never overlaps itself, stays within the length cap, and the
/// food stays on the board. The snake keeps its length when it moves, grows
/// by one when it eats, and is back to three cells when the run restarts.
pub proof fn lemma_step_wf(cols: int, rows: int, body: Seq<Point>, food: Point, state: u64, max_len: int)
    requires
        board_ok(cols, rows),
        4 <= max_len < cols * rows,
        game_wf(cols, rows, body, food, max_len),
    ensures
        game_wf(
            cols,
            rows,
            game_step(cols, rows, body, food, state, max_len).0,
            game_step(cols, rows, body, food, state, max_len).1,
            max_len,
        ),
        ({
            let n = game_step(cols, rows, body, food, state, max_len).0.len();
            n == body.len() || n == body.len() + 1 || n == 3
        }),
{
    let head = body[0];
    let prefs = preference_order(food.0 - head.0, food.1 - head.1);
    lemma_first_safe_member(cols, rows, body, head, prefs);
    lemma_prefs_units(food.0 - head.0, food.1 - head.1);
    match first_safe(cols, rows, body, head, prefs) {
        None => {
            lemma_fresh_run_wf(cols, rows, state, max_len);
        },
        Some(d) => {
            let k = choose|k: int| 0 <= k < prefs.len() && prefs[k] == d;
            assert(prefs[k] == d);
            let next = moved(head, d);
            let grown = seq![next] + body;
            assert(in_bounds(cols, rows, next));
            assert(!body.contains(next));
            assert forall|i: int, j: int| 0 <= i < j < grown.len() implies grown[i] != grown[j] by {
                if i == 0 {
                    assert(grown[j] == body[j - 1]);
                } else {
                    assert(grown[i] == body[i - 1]);
                    assert(grown[j] == body[j - 1]);
                }
            }
            assert forall|i: int| 0 <= i < grown.len() - 1 implies adjacent(#[trigger] grown[i], grown[i + 1]) by {
                if i > 0 {
                    assert(grown[i] == body[i - 1]);
                    assert(grown[i + 1] == body[i]);
                }
            }
            assert forall|i: int| 0 <= i < grown.len() implies in_bounds(cols, rows, #[trigger] grown[i]) by {
                if i > 0 {
                    assert(grown[i] == body[i - 1]);
                }
            }
            if next == food {
                if grown.len() > max_len {
                    lemma_fresh_run_wf(cols, rows, state, max_len);
                } else {
                    lemma_food_spot_in_bounds(cols, rows, grown, state);
                    lemma_food_spot_free(cols, rows, grown, state);
                }
            } else {
                let shrunk = grown.drop_last();
                assert forall|i: int| 0 <= i < shrunk.len() implies in_bounds(cols, rows, #[trigger] shrunk[i]) by {
                    assert(shrunk[i] == grown[i]);
                }
                assert forall|i: int| 0 <= i < shrunk.len() - 1 implies adjacent(#[trigger] shrunk[i], shrunk[i + 1]) by {
                    assert(shrunk[i] == grown[i]);
                    assert(shrunk[i + 1] == grown[i + 1]);
                }
                assert forall|i: int, j: int| 0 <= i < j < shrunk.len() implies shrunk[i] != shrunk[j] by {
                    assert(shrunk[i] == grown[i]);
                    assert(shrunk[j] == grown[j]);
                }
                if shrunk.contains(food) {
                    let i = choose|i: int| 0 <= i < shrunk.len() && shrunk[i] == food;
                    assert(shrunk[i] == grown[i]);
                    if i > 0 {
                        assert(grown[i] == body[i - 1]);
                    }
                }
            }
        },
    }
}

/// The board shown at a moment depends only on the 15-minute window and the
/// tick within it: two moments that share both show the same board.
pub proof fn lemma_board_depends_on_tick(t1: int, t2: int, cols: int, rows: int)
    requires
        window_start(t1) == window_start(t2),
        (t1 - window_start(t1)) / (TICK_MS as int) == (t2 - window_start(t2)) / (TICK_MS as int),
    ensures
        board_at(t1, cols, rows) == board_at(t2, cols, rows),
{
}

/// The run restarts with every 15-minute window: at the window's first tick
/// the board is a fresh run seeded by the window's start.
pub proof fn lemma_window_starts_fresh(t: int, cols: int, rows: int)
    requires
        (t - window_start(t)) / (TICK_MS as int) == 0,
    ensures
        board_at(t, cols, rows) == ({
            let run = fresh_run(cols, rows, (window_start(t) as u64) ^ SEED_SALT);
            (run.0, run.1)
        }),
{
}

// ---------------------------------------------------------------------------
// Drawing the board
// ---------------------------------------------------------------------------

/// The colors of the snake face.
pub struct SnakeColors {
    /// Header and empty board.
    pub primary: Color,
    /// The snake's head and the food.
    pub accent: Color,
    /// The snake's body.
    pub body: Color,
    /// The date line.
    pub date: Color,
}

/// What a board cell shows: the head, a body cell, the food, or nothing.
pub open spec fn board_cell(body: Seq<Point>, food: Point, p: Point, colors: SnakeColors) -> (char, Color) {
    if p == body[0] {
        ('\u{25C6}', colors.accent)
    } else if body.contains(p) {
        ('\u{2588}', colors.body)
    } else if p == food {
        ('\u{2022}', colors.accent)
    } else {
        (' ', colors.primary)
    }
}

/// Row `y` of the board, `cols` cells wide.
pub open spec fn board_row(body: Seq<Point>, food: Point, y: int, cols: int, colors: SnakeColors) -> Seq<(char, Color)> {
    Seq::new(cols as nat, |x: int| board_cell(body, food, (x as i32, y as i32), colors))
}

/// The header: the clock text and, on a 12-hour clock, the am/pm tag.
pub open spec fn snake_header(now: LocalTime, cfg: Config) -> Seq<char> {
    if am_pm(now, cfg).len() == 0 {
        clock_text(now, cfg)
    } else {
        clock_text(now, cfg) + seq![' '] + am_pm(now, cfg)
    }
}

/// The rows left for the board under the header and above the date.
pub open spec fn board_rows(cfg: Config, avail_h: int) -> int {
    let reserved: int = if cfg.show_date {
        3
    } else {
        1
    };
    if avail_h > reserved {
        avail_h - reserved
    } else {
        0
    }
}

fn draw_row(
    body: &std::collections::VecDeque<Point>,
    food: Point,
    y: usize,
    cols: usize,
    colors: &SnakeColors,
) -> (l: Line)
    requires
        body@.len() > 0,
        cols <= i32::MAX,
        y <= i32::MAX,
    ensures
        merged(l@),
        line_cells(l@) == board_row(body@, food, y as int, cols as int, *colors),
{
    let head = body[0];
    let mut l: Line = Vec::new();
    let mut x: usize = 0;
    while x < cols
        invariant
            body@.len() > 0,
            head == body@[0],
            cols <= i32::MAX,
            y <= i32::MAX,
            x <= cols,
            merged(l@),
            line_cells(l@) == Seq::new(x as nat, |k: int| board_cell(body@, food, (k as i32, y as i32), *colors)),
        decreases cols - x,
    {
        let p: Point = (x as i32, y as i32);
        let (ch, c) = if p.0 == head.0 && p.1 == head.1 {
            ('\u{25C6}', colors.accent)
        } else if occupied(body, p) {
            ('\u{2588}', colors.body)
        } else if p.0 == food.0 && p.1 == food.1 {
            ('\u{2022}', colors.accent)
        } else {
            (' ', colors.primary)
        };
        assert((ch, c) == board_cell(body@, food, p, *colors));
        push_cell(&mut l, ch, c);
        assert(line_cells(l@) =~= Seq::new((x + 1) as nat, |k: int| board_cell(body@, food, (k as i32, y as i32), *colors)));
        x += 1;
    }
    l
}

/// The snake face: the time as a header, the game filling the rest of the
/// area, and the date below when it is shown. When the area is too small for
/// a board (under 6 columns or 4 rows) only the header and date are drawn.
pub fn render(now: &LocalTime, cfg: &Config, avail_w: usize, avail_h: usize, colors: &SnakeColors) -> (lines: Vec<Line>)
    requires
        now.wf(),
        now.millis >= i64::MIN + WINDOW_MS,
        avail_w <= i32::MAX,
        avail_h <= i32::MAX,
        avail_w * avail_h <= usize::MAX,
    ensures
        ({
            let rows = board_rows(*cfg, avail_h as int);
            let has_board = avail_w >= 6 && rows >= 4;
            let n_board = if has_board { rows } else { 0 };
            let n_date = if cfg.show_date { 2int } else { 0int };
            &&& lines@.len() == 1 + n_board + n_date
            &&& line_view(lines@[0]@) == seq![(snake_header(*now, *cfg), colors.primary)]
            &&& has_board ==> forall|y: int|
                0 <= y < rows ==> merged((#[trigger] lines@[1 + y])@) && line_cells(lines@[1 + y]@) == board_row(
                    board_at(now.millis as int, avail_w as int, rows).0,
                    board_at(now.millis as int, avail_w as int, rows).1,
                    y,
                    avail_w as int,
                    *colors,
                )
            &&& cfg.show_date ==> lines@[1 + n_board]@.len() == 0 && line_view(lines@[2 + n_board]@) == seq![
                (now.date_text@, colors.date),
            ]
        }),
{
    let (text, _colons, suffix) = time_text(now, cfg);
    let mut header = text;
    if suffix.unicode_len() > 0 {
        push_char(&mut header, ' ');
        push_str(&mut header, suffix);
    }
    assert(header@ == snake_header(*now, *cfg));
    let mut lines: Vec<Line> = Vec::new();
    lines.push(line(header, colors.primary));
    assert(line_view(lines@[0]@) == seq![(snake_header(*now, *cfg), colors.primary)]);
    let reserved: usize = if cfg.show_date {
        3
    } else {
        1
    };
    let rows = if avail_h > reserved {
        avail_h - reserved
    } else {
        0
    };
    let cols = avail_w;
    let has_board = cols >= 6 && rows >= 4;
    if has_board {
        proof {
            assert(cols * rows <= avail_w * avail_h) by (nonlinear_arith)
                requires cols == avail_w, rows <= avail_h;
            assert(cols * rows >= 8) by (nonlinear_arith)
                requires cols >= 6, rows >= 4;
        }
        let (body, food) = simulate(now.millis, cols, rows);
        let mut y: usize = 0;
        while y < rows
            invariant
                body@.len() >= 1,
                (body@, food) == board_at(now.millis as int, cols as int, rows as int),
                cols <= i32::MAX,
                rows <= i32::MAX,
                y <= rows,
                lines@.len() == 1 + y,
                line_view(lines@[0]@) == seq![(snake_header(*now, *cfg), colors.primary)],
                forall|yy: int|
                    0 <= yy < y ==> merged((#[trigger] lines@[1 + yy])@) && line_cells(lines@[1 + yy]@) == board_row(
                        body@,
                        food,
                        yy,
                        cols as int,
                        *colors,
                    ),
            decreases rows - y,
        {
            lines.push(draw_row(&body, food, y, cols, colors));
            y += 1;
        }
    }
    let ghost before = lines@;
    if cfg.show_date {
        lines.push(blank());
        let mut d = String::new();
        push_str(&mut d, now.date_text.as_str());
        lines.push(line(d, colors.date));
        assert(forall|k: int| 0 <= k < before.len() ==> lines@[k] == before[k]);
    }
    lines
}

} // verus!
