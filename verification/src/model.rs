use crate::score::{SCORE_MAX, SCORE_MIN};
use crate::table::{lemma_record, lemma_triangle_grows, record, triangle};
use vstd::prelude::*;

verus! {

/// What a search is waiting for.
#[derive(Clone, Copy, PartialEq, Eq, Structural, Debug)]
pub enum Phase {
    /// For the score of the current position.
    Evaluating,
    /// For the legal moves of the current position.
    Generating,
    /// For a move to be made.
    Moving,
    /// For the last move to be taken back.
    Undoing,
    /// For nothing: the result was handed out.
    Finished,
}

/// What a search asks of its surroundings.
pub enum ActionModel<M> {
    /// Score the current position, relative to its side to move.
    Evaluate,
    /// List the legal moves of the current position, in this move list, of
    /// which nothing that it holds is kept.
    GenerateMoves(Seq<M>),
    /// Make this move.
    DoMove(M),
    /// Take the last move back.
    UndoLastMove,
    /// Nothing more: this is the score, relative to White, and the best line.
    Finished(int, Seq<M>),
}

/// What the surroundings answer.
pub enum EventModel<M> {
    /// The score of the current position, relative to its side to move.
    Evaluated(int),
    /// The legal moves of the current position.
    Generated(Seq<M>),
    /// The move was made.
    MoveDone,
    /// The last move was taken back.
    MoveUndone,
}

/// The loop over the moves of one node.
pub struct FrameModel<M> {
    /// Plies to go from this node, at least one.
    pub depth: nat,
    /// The best score that is known to be in reach. An exhaustive search
    /// has no other bound: there it is `best`.
    pub alpha: int,
    /// The score at which the node is cut off. An exhaustive search never
    /// reaches it.
    pub beta: int,
    /// The score that the node answers with, if no further move changes it.
    pub best: int,
    /// Whether a move has reached `beta`.
    pub cut: bool,
    /// The node's legal moves.
    pub moves: Seq<M>,
    /// The index of the move that is being explored.
    pub next: nat,
}

impl<M> FrameModel<M> {
    /// The move that is being explored.
    pub open spec fn current(self) -> M {
        self.moves[self.next as int]
    }

    /// Whether a child that answers `value` makes its move the node's best.
    pub open spec fn improved_by(self, value: int) -> bool {
        self.alpha < -value < self.beta
    }

    /// The loop after the explored move's child has answered `value`.
    pub open spec fn absorb(self, value: int) -> Self {
        let score = -value;
        if score >= self.beta {
            FrameModel { best: self.beta, cut: true, ..self }
        } else if score > self.alpha {
            FrameModel { alpha: score, best: score, ..self }
        } else {
            self
        }
    }

    /// The lower bound for the child of the explored move.
    pub open spec fn reply_alpha(self, pruning: bool) -> int {
        if pruning {
            -self.beta
        } else {
            SCORE_MIN as int
        }
    }

    /// The upper bound for the child of the explored move.
    pub open spec fn reply_beta(self, pruning: bool) -> int {
        if pruning {
            -self.alpha
        } else {
            SCORE_MAX + 1
        }
    }

    /// Whether no move is left to explore after the current one.
    pub open spec fn exhausted(self) -> bool {
        self.cut || self.next + 1 >= self.moves.len()
    }

    /// The loop at its next move.
    pub open spec fn advance(self) -> Self {
        FrameModel { next: self.next + 1, ..self }
    }

    /// What holds of every loop of a search.
    pub open spec fn inv(self, pruning: bool) -> bool {
        &&& self.depth >= 1
        &&& self.next < self.moves.len()
        &&& SCORE_MIN <= self.alpha < self.beta <= SCORE_MAX + 1
        &&& SCORE_MIN <= self.best <= SCORE_MAX
        &&& pruning ==> SCORE_MIN < self.alpha && self.beta <= SCORE_MAX && SCORE_MIN < self.best
        &&& !pruning ==> self.alpha == self.best && self.beta == SCORE_MAX + 1 && !self.cut
    }
}

/// The lower bound at the root. A pruned search starts one above the lowest
/// score, so that the bound can be negated.
pub open spec fn root_alpha(pruning: bool) -> int {
    if pruning {
        SCORE_MIN + 1
    } else {
        SCORE_MIN as int
    }
}

/// The upper bound at the root. An exhaustive search has none: its bound
/// lies above every score.
pub open spec fn root_beta(pruning: bool) -> int {
    if pruning {
        SCORE_MAX as int
    } else {
        SCORE_MAX + 1
    }
}

/// The first move loop of a node with `depth` plies to go, the bounds
/// `alpha` and `beta` and the legal moves `moves`.
pub open spec fn first_frame<M>(pruning: bool, depth: nat, alpha: int, beta: int, moves: Seq<M>)
    -> FrameModel<M> {
    FrameModel { depth, alpha, beta, best: floor(pruning), cut: false, moves, next: 0 }
}

/// The score of a node none of whose moves was found good.
pub open spec fn floor(pruning: bool) -> int {
    if pruning {
        SCORE_MIN + 1
    } else {
        SCORE_MIN as int
    }
}

/// A search between two steps.
pub struct SearchModel<M> {
    /// Whether the search cuts off (alpha-beta) or visits every node.
    pub pruning: bool,
    /// Plies to go from the root.
    pub depth: nat,
    /// Whether Black is to move at the root.
    pub negate: bool,
    /// The triangular table of best lines.
    pub table: Seq<M>,
    /// The move lists that lie unused, each with what it held last. The one
    /// that is handed out next is the last.
    pub spare: Seq<Seq<M>>,
    /// The loops of the nodes from the root to the current one.
    pub frames: Seq<FrameModel<M>>,
    /// What the search waits for.
    pub phase: Phase,
}

impl<M> SearchModel<M> {
    /// Plies to go from the node that is about to be entered.
    pub open spec fn entry_depth(self) -> nat {
        (self.depth - self.frames.len()) as nat
    }

    /// The lower bound of the node that is about to be entered: the negated
    /// upper bound of its parent.
    pub open spec fn entry_alpha(self) -> int {
        if self.frames.len() == 0 {
            root_alpha(self.pruning)
        } else {
            self.frames.last().reply_alpha(self.pruning)
        }
    }

    /// The upper bound of the node that is about to be entered: the negated
    /// lower bound of its parent.
    pub open spec fn entry_beta(self) -> int {
        if self.frames.len() == 0 {
            root_beta(self.pruning)
        } else {
            self.frames.last().reply_beta(self.pruning)
        }
    }

    /// The loop of the node that is about to be entered, at its first move.
    pub open spec fn entry_frame(self, moves: Seq<M>) -> FrameModel<M> {
        first_frame(self.pruning, self.entry_depth(), self.entry_alpha(), self.entry_beta(), moves)
    }

    /// Entering a node: a leaf is scored, an inner node borrows a move list
    /// and has its moves listed.
    pub open spec fn enter(self) -> (Self, ActionModel<M>) {
        if self.entry_depth() == 0 {
            (SearchModel { phase: Phase::Evaluating, ..self }, ActionModel::Evaluate)
        } else {
            (
                SearchModel { phase: Phase::Generating, spare: self.spare.drop_last(), ..self },
                ActionModel::GenerateMoves(self.spare.last()),
            )
        }
    }

    /// A node has answered `value`. At the root that ends the search: the
    /// score is turned to White's view and the root's row is the best line.
    /// Elsewhere the parent's loop takes the value in, notes the move in the
    /// table if it is the best so far, and has the move taken back.
    pub open spec fn deliver(self, value: int) -> (Self, ActionModel<M>) {
        if self.frames.len() == 0 {
            (
                SearchModel { phase: Phase::Finished, table: Seq::empty(), ..self },
                ActionModel::Finished(
                    if self.negate {
                        -value
                    } else {
                        value
                    },
                    self.table.take(self.depth as int),
                ),
            )
        } else {
            let parent = self.frames.last();
            (
                SearchModel {
                    phase: Phase::Undoing,
                    table: if parent.improved_by(value) {
                        record(self.table, parent.depth, parent.current())
                    } else {
                        self.table
                    },
                    frames: self.frames.drop_last().push(parent.absorb(value)),
                    ..self
                },
                ActionModel::UndoLastMove,
            )
        }
    }

    /// The events that may come next. It is the answer to what was asked,
    /// and a score that has to be negated is not the lowest one.
    pub open spec fn accepts(self, event: EventModel<M>) -> bool {
        let outermost = self.frames.len() == 0 && !self.negate;
        match self.phase {
            Phase::Evaluating => event matches EventModel::Evaluated(value) && SCORE_MIN <= value
                <= SCORE_MAX && (value > SCORE_MIN || outermost),
            Phase::Generating => event matches EventModel::Generated(moves) && (moves.len() > 0
                || self.pruning || outermost),
            Phase::Moving => event is MoveDone,
            Phase::Undoing => event is MoveUndone,
            Phase::Finished => false,
        }
    }

    /// One step: the search after `event`, and what it asks next.
    pub open spec fn step(self, event: EventModel<M>) -> (Self, ActionModel<M>) {
        match self.phase {
            Phase::Evaluating => self.deliver(event->Evaluated_0),
            Phase::Generating => {
                let moves = event->Generated_0;
                if moves.len() == 0 {
                    SearchModel { spare: self.spare.push(moves), ..self }.deliver(
                        floor(self.pruning),
                    )
                } else {
                    (
                        SearchModel {
                            phase: Phase::Moving,
                            frames: self.frames.push(self.entry_frame(moves)),
                            ..self
                        },
                        ActionModel::DoMove(moves[0]),
                    )
                }
            },
            Phase::Moving => self.enter(),
            Phase::Undoing => {
                let node = self.frames.last();
                if node.exhausted() {
                    SearchModel {
                        spare: self.spare.push(node.moves),
                        frames: self.frames.drop_last(),
                        ..self
                    }.deliver(node.best)
                } else {
                    (
                        SearchModel {
                            phase: Phase::Moving,
                            frames: self.frames.drop_last().push(node.advance()),
                            ..self
                        },
                        ActionModel::DoMove(node.advance().current()),
                    )
                }
            },
            Phase::Finished => (self, ActionModel::Finished(0, Seq::empty())),
        }
    }

    /// What holds of a search between any two steps.
    pub open spec fn inv(self) -> bool {
        &&& self.phase != Phase::Finished ==> self.table.len() == triangle(self.depth)
        &&& self.frames.len() <= self.depth
        &&& forall|k: int|
            0 <= k < self.frames.len() ==> (#[trigger] self.frames[k]).depth + k == self.depth
                && self.frames[k].inv(self.pruning)
        &&& forall|k: int|
            0 <= k < self.frames.len() && (#[trigger] self.frames[k]).cut ==> k == self.frames.len()
                - 1 && self.phase == Phase::Undoing
        &&& self.spare.len() + self.frames.len() + (if self.phase == Phase::Generating {
            1nat
        } else {
            0nat
        }) == self.depth
        &&& match self.phase {
            Phase::Evaluating => self.frames.len() == self.depth,
            Phase::Generating => self.frames.len() < self.depth,
            Phase::Moving => self.frames.len() > 0,
            Phase::Undoing => self.frames.len() > 0 && self.frames.last().best > SCORE_MIN,
            Phase::Finished => self.frames.len() == 0 && self.table.len() == 0,
        }
    }
}

/// A search at its first step: the table holds `null` everywhere, every move
/// list lies unused and is empty, and the root is entered.
pub open spec fn start<M>(pruning: bool, negate: bool, depth: nat, null: M) -> (
    SearchModel<M>,
    ActionModel<M>,
) {
    SearchModel {
        pruning,
        depth,
        negate,
        table: Seq::new(triangle(depth), |j: int| null),
        spare: Seq::new(depth, |k: int| Seq::empty()),
        frames: Seq::empty(),
        phase: Phase::Moving,
    }.enter()
}

/// A search starts in a state of which `inv` holds.
pub proof fn lemma_start_inv<M>(pruning: bool, negate: bool, depth: nat, null: M)
    ensures
        start(pruning, negate, depth, null).0.inv(),
{
}

/// A step on an event that the search accepts keeps `inv`.
pub proof fn lemma_step_inv<M>(search: SearchModel<M>, event: EventModel<M>)
    requires
        search.inv(),
        search.accepts(event),
    ensures
        search.step(event).0.inv(),
{
    let after = search.step(event).0;
    match search.phase {
        Phase::Evaluating => {
            lemma_deliver_inv(search, event->Evaluated_0);
        },
        Phase::Generating => {
            let moves = event->Generated_0;
            if moves.len() == 0 {
                lemma_deliver_inv(
                    SearchModel { spare: search.spare.push(moves), ..search },
                    floor(search.pruning),
                );
            } else {
                let frame = search.entry_frame(moves);
                assert(frame.inv(search.pruning));
                assert forall|k: int| 0 <= k < after.frames.len() implies (
                #[trigger] after.frames[k]).depth + k == after.depth && after.frames[k].inv(
                    after.pruning,
                ) by {
                    if k < search.frames.len() {
                        assert(after.frames[k] == search.frames[k]);
                    }
                }
                assert forall|k: int| 0 <= k < after.frames.len() implies !(
                #[trigger] after.frames[k]).cut by {
                    if k < search.frames.len() {
                        assert(after.frames[k] == search.frames[k]);
                    }
                }
            }
        },
        Phase::Moving => {},
        Phase::Undoing => {
            let node = search.frames.last();
            if node.exhausted() {
                let popped = SearchModel {
                    spare: search.spare.push(node.moves),
                    frames: search.frames.drop_last(),
                    ..search
                };
                assert forall|k: int| 0 <= k < popped.frames.len() implies (
                #[trigger] popped.frames[k]).depth + k == popped.depth && popped.frames[k].inv(
                    popped.pruning,
                ) && !popped.frames[k].cut by {
                    assert(popped.frames[k] == search.frames[k]);
                }
                lemma_deliver_inv(popped, node.best);
            } else {
                assert forall|k: int| 0 <= k < after.frames.len() implies (
                #[trigger] after.frames[k]).depth + k == after.depth && after.frames[k].inv(
                    after.pruning,
                ) by {
                    if k < search.frames.len() - 1 {
                        assert(after.frames[k] == search.frames[k]);
                    }
                }
                assert forall|k: int| 0 <= k < after.frames.len() implies !(
                #[trigger] after.frames[k]).cut by {
                    if k < search.frames.len() - 1 {
                        assert(after.frames[k] == search.frames[k]);
                    }
                }
            }
        },
        Phase::Finished => {},
    }
}

/// The state in which a node's answer may be delivered: the phase apart, it
/// is a state between two steps, no loop is cut off, and the answer can be
/// negated where it has to be.
pub open spec fn deliverable<M>(search: SearchModel<M>, value: int) -> bool {
    &&& search.table.len() == triangle(search.depth)
    &&& forall|k: int|
        0 <= k < search.frames.len() ==> (#[trigger] search.frames[k]).depth + k == search.depth
            && search.frames[k].inv(search.pruning) && !search.frames[k].cut
    &&& search.spare.len() + search.frames.len() == search.depth
    &&& SCORE_MIN <= value <= SCORE_MAX
    &&& value > SCORE_MIN || (search.frames.len() == 0 && !search.negate)
}

/// Delivering an answer leads to a state between two steps.
pub proof fn lemma_deliver_inv<M>(search: SearchModel<M>, value: int)
    requires
        deliverable(search, value),
    ensures
        search.deliver(value).0.inv(),
{
    let after = search.deliver(value).0;
    if search.frames.len() > 0 {
        let last = search.frames.len() - 1;
        let parent = search.frames.last();
        assert(parent == search.frames[last]);
        assert(after.frames[last] == parent.absorb(value));
        lemma_triangle_grows(parent.depth, search.depth);
        if parent.improved_by(value) {
            lemma_record(search.table, parent.depth, parent.current());
        }
        assert forall|k: int| 0 <= k < after.frames.len() implies (#[trigger] after.frames[k]).depth
            + k == after.depth && after.frames[k].inv(after.pruning) by {
            if k < last {
                assert(after.frames[k] == search.frames[k]);
            }
        }
        assert forall|k: int| 0 <= k < after.frames.len() && (#[trigger] after.frames[k]).cut implies k
            == last by {
            if k < last {
                assert(after.frames[k] == search.frames[k]);
            }
        }
    }
}

} // verus!
