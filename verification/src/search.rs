use crate::model::{
    deliverable, lemma_start_inv, lemma_step_inv, start, ActionModel, EventModel, FrameModel,
    Phase, SearchModel,
};
use crate::position::SideToMove;
use crate::score::{opposite, Score, SCORE_MAX, SCORE_MIN};
use crate::table::{lemma_triangle_grows, lemma_triangle_step, record_line, triangle};
use vstd::prelude::*;

verus! {

/// What a search asks of its surroundings. The position meant is the current
/// one of the position history that is searched.
pub enum Action<M> {
    /// Score the current position, relative to its side to move.
    Evaluate,
    /// Fill this list with the legal moves of the current position.
    GenerateMoves(Vec<M>),
    /// Make this move.
    DoMove(M),
    /// Take the last move back.
    UndoLastMove,
    /// Nothing more: this is the score, relative to White, and the principal
    /// variation.
    Finished(Score, Vec<M>),
}

impl<M> View for Action<M> {
    type V = ActionModel<M>;

    open spec fn view(&self) -> ActionModel<M> {
        match *self {
            Action::Evaluate => ActionModel::Evaluate,
            Action::GenerateMoves(list) => ActionModel::GenerateMoves(list@),
            Action::DoMove(m) => ActionModel::DoMove(m),
            Action::UndoLastMove => ActionModel::UndoLastMove,
            Action::Finished(score, line) => ActionModel::Finished(score as int, line@),
        }
    }
}

/// What the surroundings answer.
pub enum Event<M> {
    /// The score of the current position, relative to its side to move.
    Evaluated(Score),
    /// The legal moves of the current position, in the list that was handed
    /// out.
    Generated(Vec<M>),
    /// The move was made.
    MoveDone,
    /// The last move was taken back.
    MoveUndone,
}

impl<M> View for Event<M> {
    type V = EventModel<M>;

    open spec fn view(&self) -> EventModel<M> {
        match *self {
            Event::Evaluated(score) => EventModel::Evaluated(score as int),
            Event::Generated(moves) => EventModel::Generated(moves@),
            Event::MoveDone => EventModel::MoveDone,
            Event::MoveUndone => EventModel::MoveUndone,
        }
    }
}

/// The loop over the moves of one node.
struct Frame<M> {
    depth: usize,
    /// Where the node's row starts in the table.
    row: usize,
    alpha: Score,
    beta: Score,
    best: Score,
    cut: bool,
    moves: Vec<M>,
    next: usize,
}

impl<M> Frame<M> {
    spec fn model(self, pruning: bool) -> FrameModel<M> {
        FrameModel {
            depth: self.depth as nat,
            alpha: self.alpha as int,
            beta: if pruning {
                self.beta as int
            } else {
                SCORE_MAX + 1
            },
            best: self.best as int,
            cut: self.cut,
            moves: self.moves@,
            next: self.next as nat,
        }
    }
}

/// A fixed-depth game-tree search, exhaustive (negamax) or pruned
/// (alpha-beta), as a machine that is driven step by step: it asks for a
/// score, for the legal moves, for a move to be made or taken back, is told
/// the answer, and asks again until it hands out the result.
pub struct Search<M> {
    pruning: bool,
    depth: usize,
    negate: bool,
    principal_variation: Vec<M>,
    move_list_stack: Vec<Vec<M>>,
    frames: Vec<Frame<M>>,
    phase: Phase,
}

impl<M> View for Search<M> {
    type V = SearchModel<M>;

    closed spec fn view(&self) -> SearchModel<M> {
        SearchModel {
            pruning: self.pruning,
            depth: self.depth as nat,
            negate: self.negate,
            table: self.principal_variation@,
            spare: Seq::new(self.move_list_stack@.len(), |k: int| self.move_list_stack@[k]@),
            frames: Seq::new(self.frames@.len(), |k: int| self.frames@[k].model(self.pruning)),
            phase: self.phase,
        }
    }
}

impl<M: Copy> Search<M> {
    /// Every loop knows its row.
    spec fn rows_known(&self) -> bool {
        forall|k: int|
            0 <= k < self.frames@.len() ==> (#[trigger] self.frames@[k]).row + triangle(
                self.frames@[k].depth as nat,
            ) == triangle(self.depth as nat)
    }

    /// The search is in a state between two steps.
    pub closed spec fn wf(&self) -> bool {
        &&& self@.inv()
        &&& self.rows_known()
    }

    /// Starts an exhaustive search of `depth` plies from a position in which
    /// `side_to_move` is to move. The table of best lines is filled with
    /// `null`.
    pub fn negamax(side_to_move: SideToMove, depth: usize, null: M) -> (r: (Search<M>, Action<M>))
        requires
            depth * (depth + 1) <= usize::MAX,
        ensures
            r.0.wf(),
            r.0@ == start(false, side_to_move == SideToMove::Black, depth as nat, null).0,
            r.1@ == start(false, side_to_move == SideToMove::Black, depth as nat, null).1,
    {
        Self::begin(false, side_to_move, depth, null)
    }

    /// Starts an alpha-beta search of `depth` plies from a position in which
    /// `side_to_move` is to move. The table of best lines is filled with
    /// `null`.
    pub fn alpha_beta(side_to_move: SideToMove, depth: usize, null: M) -> (r: (
        Search<M>,
        Action<M>,
    ))
        requires
            depth * (depth + 1) <= usize::MAX,
        ensures
            r.0.wf(),
            r.0@ == start(true, side_to_move == SideToMove::Black, depth as nat, null).0,
            r.1@ == start(true, side_to_move == SideToMove::Black, depth as nat, null).1,
    {
        Self::begin(true, side_to_move, depth, null)
    }

    fn begin(pruning: bool, side_to_move: SideToMove, depth: usize, null: M) -> (r: (
        Search<M>,
        Action<M>,
    ))
        requires
            depth * (depth + 1) <= usize::MAX,
        ensures
            r.0.wf(),
            r.0@ == start(pruning, side_to_move == SideToMove::Black, depth as nat, null).0,
            r.1@ == start(pruning, side_to_move == SideToMove::Black, depth as nat, null).1,
    {
        assert(depth + 1 <= usize::MAX) by (nonlinear_arith)
            requires
                depth * (depth + 1) <= usize::MAX,
        ;
        let size = depth * (depth + 1) / 2;
        let mut principal_variation: Vec<M> = Vec::new();
        let mut filled: usize = 0;
        while filled < size
            invariant
                filled <= size,
                principal_variation@ == Seq::new(filled as nat, |j: int| null),
            decreases size - filled,
        {
            principal_variation.push(null);
            filled += 1;
            assert(principal_variation@ =~= Seq::new(filled as nat, |j: int| null));
        }
        let mut move_list_stack: Vec<Vec<M>> = Vec::new();
        let mut made: usize = 0;
        while made < depth
            invariant
                made <= depth,
                move_list_stack@.len() == made,
                forall|k: int| 0 <= k < made ==> (#[trigger] move_list_stack@[k])@ == Seq::<M>::empty(),
            decreases depth - made,
        {
            move_list_stack.push(Vec::new());
            made += 1;
        }
        let negate = match side_to_move {
            SideToMove::White => false,
            SideToMove::Black => true,
        };
        let mut search = Search {
            pruning,
            depth,
            negate,
            principal_variation,
            move_list_stack,
            frames: Vec::new(),
            phase: Phase::Moving,
        };
        let ghost before = search@;
        assert(before.frames =~= Seq::empty());
        assert(before.spare =~= Seq::new(depth as nat, |k: int| Seq::empty()));
        assert(before == SearchModel {
            pruning,
            depth: depth as nat,
            negate,
            table: Seq::new(triangle(depth as nat), |j: int| null),
            spare: Seq::new(depth as nat, |k: int| Seq::empty()),
            frames: Seq::empty(),
            phase: Phase::Moving,
        });
        let action = search.enter();
        proof {
            lemma_start_inv(pruning, negate, depth as nat, null);
        }
        (search, action)
    }

    /// Whether `event` may come next: it answers what was asked, and a score
    /// that has to be negated is not the lowest one.
    pub fn accepts(&self, event: &Event<M>) -> (r: bool)
        requires
            self.wf(),
        ensures
            r == self@.accepts(event@),
    {
        let outermost = self.frames.len() == 0 && !self.negate;
        match self.phase {
            Phase::Evaluating => match event {
                Event::Evaluated(value) => *value > SCORE_MIN || outermost,
                _ => false,
            },
            Phase::Generating => match event {
                Event::Generated(moves) => moves.len() > 0 || self.pruning || outermost,
                _ => false,
            },
            Phase::Moving => match event {
                Event::MoveDone => true,
                _ => false,
            },
            Phase::Undoing => match event {
                Event::MoveUndone => true,
                _ => false,
            },
            Phase::Finished => false,
        }
    }

    /// Takes the answer to what was asked last, and says what to do next.
    pub fn step(&mut self, event: Event<M>) -> (action: Action<M>)
        requires
            old(self).wf(),
            old(self)@.accepts(event@),
        ensures
            final(self).wf(),
            final(self)@ == old(self)@.step(event@).0,
            action@ == old(self)@.step(event@).1,
            action matches Action::Finished(_, line) ==> line@.len() == old(self)@.depth,
    {
        proof {
            lemma_step_inv(self@, event@);
            lemma_triangle_grows(self@.depth, self@.depth);
        }
        match event {
            Event::Evaluated(value) => self.deliver(value),
            Event::Generated(moves) => {
                if moves.len() == 0 {
                    let ghost grown = SearchModel { spare: self@.spare.push(moves@), ..self@ };
                    self.move_list_stack.push(moves);
                    assert(self@.frames =~= grown.frames);
                    assert(self@.spare =~= grown.spare);
                    assert(self@ == grown);
                    let value = if self.pruning {
                        SCORE_MIN + 1
                    } else {
                        SCORE_MIN
                    };
                    self.deliver(value)
                } else {
                    let first = moves[0];
                    let ghost before = self@;
                    let frame = self.entry_frame(moves);
                    self.frames.push(frame);
                    self.phase = Phase::Moving;
                    assert(self@.frames =~= before.frames.push(before.entry_frame(moves@)));
                    assert(self@.spare =~= before.spare);
                    Action::DoMove(first)
                }
            },
            Event::MoveDone => self.enter(),
            Event::MoveUndone => {
                let ghost before = self@;
                let mut frame = self.frames.pop().unwrap();
                assert(frame.model(self.pruning) == before.frames.last());
                assert(before.frames[before.frames.len() - 1].inv(before.pruning));
                let count = frame.moves.len();
                if frame.cut || frame.next + 1 >= count {
                    let best = frame.best;
                    self.move_list_stack.push(frame.moves);
                    let ghost popped = SearchModel {
                        spare: before.spare.push(before.frames.last().moves),
                        frames: before.frames.drop_last(),
                        ..before
                    };
                    assert(self@.frames =~= popped.frames);
                    assert(self@.spare =~= popped.spare);
                    assert(self@ == popped);
                    assert forall|k: int| 0 <= k < popped.frames.len() implies (
                    #[trigger] popped.frames[k]).depth + k == popped.depth && popped.frames[k].inv(
                        popped.pruning,
                    ) && !popped.frames[k].cut by {
                        assert(popped.frames[k] == before.frames[k]);
                    }
                    self.deliver(best)
                } else {
                    frame.next += 1;
                    let next_move = frame.moves[frame.next];
                    self.frames.push(frame);
                    self.phase = Phase::Moving;
                    assert(self@.frames =~= before.frames.drop_last().push(
                        before.frames.last().advance(),
                    ));
                    assert(self@.spare =~= before.spare);
                    Action::DoMove(next_move)
                }
            },
        }
    }

    /// The loop of the node whose moves were listed.
    fn entry_frame(&self, moves: Vec<M>) -> (frame: Frame<M>)
        requires
            self@.inv(),
            self.rows_known(),
            self.phase == Phase::Generating,
        ensures
            frame.model(self.pruning) == self@.entry_frame(moves@),
            frame.row + triangle(frame.depth as nat) == triangle(self.depth as nat),
    {
        let depth = self.depth - self.frames.len();
        if self.frames.len() == 0 {
            Frame {
                depth,
                row: 0,
                alpha: if self.pruning {
                    SCORE_MIN + 1
                } else {
                    SCORE_MIN
                },
                beta: SCORE_MAX,
                best: if self.pruning {
                    SCORE_MIN + 1
                } else {
                    SCORE_MIN
                },
                cut: false,
                moves,
                next: 0,
            }
        } else {
            let parent = &self.frames[self.frames.len() - 1];
            let size = self.principal_variation.len();
            assert(parent.model(self.pruning) == self@.frames.last());
            assert(self@.frames.last() == self@.frames[self.frames.len() - 1]);
            proof {
                lemma_triangle_step(parent.depth as nat);
                lemma_triangle_grows(parent.depth as nat, parent.depth as nat);
                assert(size == triangle(self.depth as nat));
            }
            Frame {
                depth,
                row: parent.row + parent.depth,
                alpha: if self.pruning {
                    opposite(parent.beta)
                } else {
                    SCORE_MIN
                },
                beta: if self.pruning {
                    opposite(parent.alpha)
                } else {
                    SCORE_MAX
                },
                best: if self.pruning {
                    SCORE_MIN + 1
                } else {
                    SCORE_MIN
                },
                cut: false,
                moves,
                next: 0,
            }
        }
    }

    /// Enters the next node: a leaf is to be scored, an inner node borrows a
    /// move list and is to have its moves listed.
    fn enter(&mut self) -> (action: Action<M>)
        requires
            old(self).frames@.len() <= old(self).depth,
            old(self).move_list_stack@.len() + old(self).frames@.len() == old(self).depth,
        ensures
            final(self)@ == old(self)@.enter().0,
            action@ == old(self)@.enter().1,
            final(self).frames == old(self).frames,
            final(self).depth == old(self).depth,
    {
        let ghost before = self@;
        if self.frames.len() == self.depth {
            self.phase = Phase::Evaluating;
            assert(self@.frames =~= before.frames);
            assert(self@.spare =~= before.spare);
            Action::Evaluate
        } else {
            let list = self.move_list_stack.pop().unwrap();
            self.phase = Phase::Generating;
            assert(self@.frames =~= before.frames);
            assert(self@.spare =~= before.spare.drop_last());
            assert(list@ == before.spare.last());
            Action::GenerateMoves(list)
        }
    }

    /// Hands the answer of the node just left to its parent, or, at the
    /// root, out.
    fn deliver(&mut self, value: Score) -> (action: Action<M>)
        requires
            deliverable(old(self)@, value as int),
            old(self).rows_known(),
        ensures
            final(self)@ == old(self)@.deliver(value as int).0,
            action@ == old(self)@.deliver(value as int).1,
            final(self).rows_known(),
    {
        let ghost before = self@;
        match self.frames.pop() {
            None => {
                self.phase = Phase::Finished;
                let score = if self.negate {
                    opposite(value)
                } else {
                    value
                };
                proof {
                    lemma_triangle_grows(self.depth as nat, self.depth as nat);
                }
                self.principal_variation.truncate(self.depth);
                let mut line: Vec<M> = Vec::new();
                core::mem::swap(&mut self.principal_variation, &mut line);
                assert(self@.frames =~= before.frames);
                assert(self@.spare =~= before.spare);
                assert(self@.table =~= Seq::empty());
                Action::Finished(score, line)
            },
            Some(mut frame) => {
                let ghost parent = before.frames.last();
                assert(frame.model(self.pruning) == parent);
                assert(before.frames[before.frames.len() - 1] == parent);
                let score = opposite(value);
                if self.pruning && score >= frame.beta {
                    frame.best = frame.beta;
                    frame.cut = true;
                } else if score > frame.alpha {
                    frame.alpha = score;
                    frame.best = score;
                    let best_move = frame.moves[frame.next];
                    record_line(&mut self.principal_variation, frame.row, frame.depth, best_move);
                }
                assert(frame.model(self.pruning) == parent.absorb(value as int));
                self.frames.push(frame);
                self.phase = Phase::Undoing;
                assert(self@.frames =~= before.frames.drop_last().push(parent.absorb(value as int)));
                assert(self@.spare =~= before.spare);
                Action::UndoLastMove
            },
        }
    }
}

} // verus!
