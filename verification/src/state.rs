//! The grid-walking domain that the search engines explore.
//!
//! A `State` is a character position on a 3 x 4 grid of rewards, together
//! with the progress counters of one play-through: elapsed turns, the raw
//! accumulated score, and the rank key used to order candidates. A reward is
//! consumed (set to zero) the first time the character steps on its cell, so
//! the raw score plus the rewards still on the grid is constant across moves.

use crate::heap::Rank;
use vstd::pervasive::VecAdditionalExecFns;
use vstd::prelude::*;

verus! {

/// Number of turns after which a play-through counts as finished.
pub const END_TURN: usize = 4;

/// Number of grid rows.
pub const HEIGHT: usize = 3;

/// Number of grid columns.
pub const WIDTH: usize = 4;

/// A position on the grid: row `y`, column `x`.
#[derive(Clone, Copy)]
pub struct Pos {
    pub y: usize,
    pub x: usize,
}

impl Pos {
    pub fn new(y: usize, x: usize) -> (r: Self)
        ensures
            r.y == y,
            r.x == x,
    {
        Pos { y, x }
    }
}

/// Mathematical model of a `State`: the same data with the grid as a
/// sequence of rows.
pub ghost struct StateModel {
    pub first_action: Option<usize>,
    pub y: usize,
    pub x: usize,
    pub points: Seq<Seq<usize>>,
    pub turn: usize,
    pub game_score: usize,
    pub evaluated_score: usize,
}

/// A search candidate: a grid position plus the counters of the play-through
/// that led there. `first_action` records the move taken at the root of the
/// search on the path to this candidate; the engines assign it when a
/// candidate is created at depth zero and copy it unchanged into every
/// descendant.
pub struct State {
    pub first_action: Option<usize>,
    pub character: Pos,
    pub points: Vec<Vec<usize>>,
    pub turn: usize,
    pub game_score: usize,
    pub evaluated_score: usize,
}

impl View for State {
    type V = StateModel;

    open spec fn view(&self) -> StateModel {
        StateModel {
            first_action: self.first_action,
            y: self.character.y,
            x: self.character.x,
            points: self.points@.map_values(|row: Vec<usize>| row@),
            turn: self.turn,
            game_score: self.game_score,
            evaluated_score: self.evaluated_score,
        }
    }
}

/// Sum of one row of rewards.
pub open spec fn row_sum(row: Seq<usize>) -> int
    decreases row.len(),
{
    if row.len() == 0 {
        0
    } else {
        row_sum(row.drop_last()) + row.last()
    }
}

/// Sum of every reward still on the grid.
pub open spec fn grid_sum(points: Seq<Seq<usize>>) -> int
    decreases points.len(),
{
    if points.len() == 0 {
        0
    } else {
        grid_sum(points.drop_last()) + row_sum(points.last())
    }
}

impl StateModel {
    /// The grid has its fixed shape, the character stands on it, and the
    /// score accumulator can absorb every reward that is still out there.
    pub open spec fn wf(self) -> bool {
        &&& self.points.len() == HEIGHT
        &&& (forall|i: int| 0 <= i < HEIGHT ==> (#[trigger] self.points[i]).len() == WIDTH)
        &&& self.y < HEIGHT
        &&& self.x < WIDTH
        &&& self.game_score + grid_sum(self.points) <= usize::MAX
    }
}

/// Row offset of an action: 0 moves right, 1 down, 2 left, 3 up.
pub open spec fn spec_dy(action: usize) -> int {
    if action == 1 {
        1
    } else if action == 3 {
        -1
    } else {
        0
    }
}

/// Column offset of an action: 0 moves right, 1 down, 2 left, 3 up.
pub open spec fn spec_dx(action: usize) -> int {
    if action == 0 {
        1
    } else if action == 2 {
        -1
    } else {
        0
    }
}

/// Whether `action` keeps the character on the grid.
pub open spec fn spec_action_legal(s: StateModel, action: usize) -> bool {
    &&& 0 <= s.y + spec_dy(action) < HEIGHT
    &&& 0 <= s.x + spec_dx(action) < WIDTH
}

/// The legal actions of `s`, in ascending order.
pub open spec fn spec_legal_actions(s: StateModel) -> Seq<usize> {
    let r = Seq::<usize>::empty();
    let r = if spec_action_legal(s, 0) { r.push(0) } else { r };
    let r = if spec_action_legal(s, 1) { r.push(1) } else { r };
    let r = if spec_action_legal(s, 2) { r.push(2) } else { r };
    if spec_action_legal(s, 3) { r.push(3) } else { r }
}

/// Everything in `spec_legal_actions(s)` really is a legal action below 4.
pub proof fn lemma_legal_actions_legal(s: StateModel)
    ensures
        forall|k: int|
            0 <= k < spec_legal_actions(s).len() ==> spec_action_legal(
                s,
                #[trigger] spec_legal_actions(s)[k],
            ) && spec_legal_actions(s)[k] < 4,
{
}

/// The seed candidate built from an initial state: the same state with its
/// first action unset. The engines search from this seed, so whatever a
/// caller left in the field never reaches a result.
pub open spec fn spec_seed(s: StateModel) -> StateModel {
    StateModel { first_action: None, ..s }
}

/// A well-formed state always has a legal action: from any cell of the
/// grid, some neighbouring cell is still on the grid.
pub proof fn lemma_wf_has_legal_action(s: StateModel)
    requires
        s.wf(),
    ensures
        spec_legal_actions(s).len() >= 1,
{
    if s.x + 1 < WIDTH {
        assert(spec_action_legal(s, 0));
    } else {
        assert(spec_action_legal(s, 2));
    }
}

/// One step of the domain: move the character, consume the reward at the
/// destination, and advance the turn counter.
pub open spec fn spec_move(s: StateModel, action: usize) -> StateModel
    recommends
        s.wf(),
        spec_action_legal(s, action),
        s.turn < usize::MAX,
{
    let ty = (s.y + spec_dy(action)) as usize;
    let tx = (s.x + spec_dx(action)) as usize;
    let point = s.points[ty as int][tx as int];
    StateModel {
        first_action: s.first_action,
        y: ty,
        x: tx,
        points: if point > 0 {
            s.points.update(ty as int, s.points[ty as int].update(tx as int, 0usize))
        } else {
            s.points
        },
        turn: (s.turn + 1) as usize,
        game_score: (s.game_score + point) as usize,
        evaluated_score: s.evaluated_score,
    }
}

/// Recompute the rank key from the raw score.
pub open spec fn spec_eval(s: StateModel) -> StateModel {
    StateModel { evaluated_score: s.game_score, ..s }
}

/// Zeroing one cell lowers the row sum by exactly that cell's value.
proof fn lemma_row_sum_zero_cell(row: Seq<usize>, j: int)
    requires
        0 <= j < row.len(),
    ensures
        row_sum(row.update(j, 0usize)) == row_sum(row) - row[j],
    decreases row.len(),
{
    if j == row.len() - 1 {
        assert(row.update(j, 0usize).drop_last() =~= row.drop_last());
    } else {
        lemma_row_sum_zero_cell(row.drop_last(), j);
        assert(row.update(j, 0usize).drop_last() =~= row.drop_last().update(j, 0usize));
    }
}

/// Zeroing one cell lowers the grid sum by exactly that cell's value.
proof fn lemma_grid_sum_zero_cell(points: Seq<Seq<usize>>, i: int, j: int)
    requires
        0 <= i < points.len(),
        0 <= j < points[i].len(),
    ensures
        grid_sum(points.update(i, points[i].update(j, 0usize))) == grid_sum(points)
            - points[i][j],
    decreases points.len(),
{
    if i == points.len() - 1 {
        let updated = points.update(i, points[i].update(j, 0usize));
        assert(updated.drop_last() =~= points.drop_last());
        lemma_row_sum_zero_cell(points[i], j);
    } else {
        lemma_grid_sum_zero_cell(points.drop_last(), i, j);
        let updated = points.update(i, points[i].update(j, 0usize));
        assert(updated.drop_last() =~= points.drop_last().update(
            i,
            points.drop_last()[i].update(j, 0usize),
        ));
    }
}

/// Every reward is non-negative, so the row sum is too.
proof fn lemma_row_sum_nonneg(row: Seq<usize>)
    ensures
        row_sum(row) >= 0,
    decreases row.len(),
{
    if row.len() > 0 {
        lemma_row_sum_nonneg(row.drop_last());
    }
}

/// Every row sum is non-negative, so the grid sum is too.
pub proof fn lemma_grid_sum_nonneg(points: Seq<Seq<usize>>)
    ensures
        grid_sum(points) >= 0,
    decreases points.len(),
{
    if points.len() > 0 {
        lemma_grid_sum_nonneg(points.drop_last());
        lemma_row_sum_nonneg(points.last());
    }
}

/// One cell never exceeds its row's sum.
proof fn lemma_row_sum_cell_le(row: Seq<usize>, j: int)
    requires
        0 <= j < row.len(),
    ensures
        row[j] <= row_sum(row),
    decreases row.len(),
{
    lemma_row_sum_nonneg(row.drop_last());
    if j < row.len() - 1 {
        lemma_row_sum_cell_le(row.drop_last(), j);
    }
}

/// One cell never exceeds the whole grid's sum.
pub proof fn lemma_grid_sum_cell_le(points: Seq<Seq<usize>>, i: int, j: int)
    requires
        0 <= i < points.len(),
        0 <= j < points[i].len(),
    ensures
        points[i][j] <= grid_sum(points),
    decreases points.len(),
{
    lemma_grid_sum_nonneg(points.drop_last());
    lemma_row_sum_nonneg(points.last());
    if i == points.len() - 1 {
        lemma_row_sum_cell_le(points[i], j);
    } else {
        lemma_grid_sum_cell_le(points.drop_last(), i, j);
    }
}

/// A legal move preserves well-formedness: the consumed reward moves from
/// the grid into the score, so their total stays put.
pub proof fn lemma_move_wf(s: StateModel, action: usize)
    requires
        s.wf(),
        spec_action_legal(s, action),
    ensures
        spec_move(s, action).wf(),
        spec_move(s, action).game_score + grid_sum(spec_move(s, action).points) == s.game_score
            + grid_sum(s.points),
        spec_move(s, action).game_score >= s.game_score,
{
    let ty = (s.y + spec_dy(action)) as int;
    let tx = (s.x + spec_dx(action)) as int;
    lemma_grid_sum_cell_le(s.points, ty, tx);
    if s.points[ty][tx] > 0 {
        lemma_grid_sum_zero_cell(s.points, ty, tx);
    }
}

impl State {
    /// The state is well formed in the sense of its model.
    pub open spec fn wf(&self) -> bool {
        self@.wf()
    }

    /// Start a play-through at `character` on the reward grid `points`. The
    /// reward under the starting cell is consumed immediately.
    pub fn new(character: Pos, points: Vec<Vec<usize>>) -> (r: State)
        requires
            character.y < HEIGHT,
            character.x < WIDTH,
            points@.len() == HEIGHT,
            forall|i: int| 0 <= i < HEIGHT ==> (#[trigger] points@[i])@.len() == WIDTH,
            grid_sum(points@.map_values(|row: Vec<usize>| row@)) <= usize::MAX,
        ensures
            r.wf(),
            r@ == (StateModel {
                first_action: None,
                y: character.y,
                x: character.x,
                points: points@.map_values(|row: Vec<usize>| row@).update(
                    character.y as int,
                    points@.map_values(|row: Vec<usize>| row@)[character.y as int].update(
                        character.x as int,
                        0usize,
                    ),
                ),
                turn: 0,
                game_score: 0,
                evaluated_score: 0,
            }),
    {
        let ghost grid0 = points@.map_values(|row: Vec<usize>| row@);
        let mut points = points;
        let mut row = points.remove(character.y);
        row.set(character.x, 0);
        points.insert(character.y, row);
        proof {
            assert(points@.map_values(|row: Vec<usize>| row@) =~= grid0.update(
                character.y as int,
                grid0[character.y as int].update(character.x as int, 0usize),
            ));
            lemma_grid_sum_zero_cell(grid0, character.y as int, character.x as int);
            lemma_grid_sum_nonneg(grid0.update(
                character.y as int,
                grid0[character.y as int].update(character.x as int, 0usize),
            ));
        }
        State {
            first_action: None,
            character,
            points,
            turn: 0,
            game_score: 0,
            evaluated_score: 0,
        }
    }

    /// Take `action`: move the character one cell, consume the reward there,
    /// and advance the turn counter.
    pub fn advance(&mut self, action: usize)
        requires
            old(self).wf(),
            spec_action_legal(old(self)@, action),
            old(self).turn < usize::MAX,
        ensures
            final(self)@ == spec_move(old(self)@, action),
            final(self).wf(),
    {
        proof {
            lemma_move_wf(old(self)@, action);
        }
        let ty = if action == 1 {
            self.character.y + 1
        } else if action == 3 {
            self.character.y - 1
        } else {
            self.character.y
        };
        let tx = if action == 0 {
            self.character.x + 1
        } else if action == 2 {
            self.character.x - 1
        } else {
            self.character.x
        };
        self.character.y = ty;
        self.character.x = tx;
        let point = self.points[ty][tx];
        if point > 0 {
            proof {
                lemma_grid_sum_cell_le(old(self)@.points, ty as int, tx as int);
            }
            self.game_score = self.game_score + point;
            let ghost grid0 = old(self)@.points;
            let mut row = self.points.remove(ty);
            row.set(tx, 0);
            self.points.insert(ty, row);
            proof {
                assert(self.points@.map_values(|row: Vec<usize>| row@) =~= grid0.update(
                    ty as int,
                    grid0[ty as int].update(tx as int, 0usize),
                ));
            }
        }
        self.turn = self.turn + 1;
        proof {
            assert(self@ =~= spec_move(old(self)@, action));
        }
    }

    /// The actions that keep the character on the grid, in ascending order.
    pub fn legal_actions(&self) -> (r: Vec<usize>)
        requires
            self.wf(),
        ensures
            r@ == spec_legal_actions(self@),
            forall|k: int| 0 <= k < r@.len() ==> spec_action_legal(self@, #[trigger] r@[k]),
            forall|k: int| 0 <= k < r@.len() ==> #[trigger] r@[k] < 4,
    {
        let mut actions: Vec<usize> = Vec::new();
        if self.character.x + 1 < WIDTH {
            actions.push(0);
        }
        if self.character.y + 1 < HEIGHT {
            actions.push(1);
        }
        if self.character.x >= 1 {
            actions.push(2);
        }
        if self.character.y >= 1 {
            actions.push(3);
        }
        proof {
            assert(actions@ =~= spec_legal_actions(self@));
        }
        actions
    }

    /// Refresh the rank key from the raw score.
    pub fn evaluate_score(&mut self)
        ensures
            final(self)@ == spec_eval(old(self)@),
            old(self).wf() ==> final(self).wf(),
    {
        self.evaluated_score = self.game_score;
    }

    /// Whether the turn budget is exhausted.
    pub fn is_done(&self) -> (r: bool)
        ensures
            r == (self@.turn >= END_TURN),
    {
        self.turn >= END_TURN
    }
}

impl Rank for State {
    /// Candidates are ranked by their evaluated score alone.
    open spec fn rank_le_spec(a: StateModel, b: StateModel) -> bool {
        a.evaluated_score <= b.evaluated_score
    }

    proof fn rank_le_total(a: StateModel, b: StateModel) {
    }

    proof fn rank_le_trans(a: StateModel, b: StateModel, c: StateModel) {
    }

    fn rank_le(&self, other: &Self) -> (r: bool) {
        self.evaluated_score <= other.evaluated_score
    }
}

impl Clone for State {
    /// A clone is a fully independent value with the same model.
    fn clone(&self) -> (r: Self)
        ensures
            r@ == self@,
    {
        let mut points: Vec<Vec<usize>> = Vec::new();
        let mut i: usize = 0;
        while i < self.points.len()
            invariant
                i <= self.points@.len(),
                points@.len() == i,
                forall|k: int| 0 <= k < i ==> (#[trigger] points@[k])@ == self.points@[k]@,
            decreases self.points@.len() - i,
        {
            let mut row: Vec<usize> = Vec::new();
            let src = &self.points[i];
            let mut j: usize = 0;
            while j < src.len()
                invariant
                    j <= src@.len(),
                    row@ == src@.subrange(0, j as int),
                decreases src@.len() - j,
            {
                row.push(src[j]);
                proof {
                    assert(row@ =~= src@.subrange(0, j + 1));
                }
                j = j + 1;
            }
            proof {
                assert(row@ =~= src@);
            }
            points.push(row);
            i = i + 1;
        }
        let r = State {
            first_action: self.first_action,
            character: self.character,
            points,
            turn: self.turn,
            game_score: self.game_score,
            evaluated_score: self.evaluated_score,
        };
        proof {
            assert(r@.points =~= self@.points);
        }
        r
    }
}

} // verus!
