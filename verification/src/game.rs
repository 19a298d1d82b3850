use crate::model::{first_frame, root_alpha, root_beta, FrameModel};
use crate::score::{Score, SCORE_MIN};
use crate::table::{record, triangle};
use vstd::prelude::*;

verus! {

/// A game as a search sees it from the position it starts at. A position is
/// named by the moves that lead to it from there.
#[verifier::reject_recursive_types(M)]
pub struct Game<M> {
    /// The legal moves of a position, in the order in which they are listed.
    pub moves: spec_fn(Seq<M>) -> Seq<M>,
    /// The score of a position, relative to its side to move.
    pub eval: spec_fn(Seq<M>) -> Score,
}

/// What the search of a node comes to.
pub struct Outcome<M> {
    /// The node's score, relative to its side to move.
    pub score: int,
    /// The table of best lines after the search.
    pub table: Seq<M>,
    /// How often the game was asked or changed: once for each score, each
    /// list of moves, each move made and each move taken back.
    pub rounds: nat,
}

impl<M> Game<M> {
    /// The position after the `i`-th legal move of `position`.
    pub open spec fn child(self, position: Seq<M>, i: int) -> Seq<M> {
        position.push((self.moves)(position)[i])
    }

    /// The negamax value of `position` with `depth` plies to go: a leaf has
    /// its score, and an inner node the best of its children's negated
    /// values.
    pub open spec fn value(self, position: Seq<M>, depth: nat) -> int
        decreases depth, (self.moves)(position).len() + 2,
    {
        if depth == 0 {
            (self.eval)(position) as int
        } else {
            self.best_reply(position, depth, (self.moves)(position).len())
        }
    }

    /// The best of the negated values of the first `n` children of
    /// `position`, and the lowest score if `n` is 0.
    pub open spec fn best_reply(self, position: Seq<M>, depth: nat, n: nat) -> int
        decreases depth, n + 1,
    {
        if depth == 0 || n == 0 {
            SCORE_MIN as int
        } else {
            let so_far = self.best_reply(position, depth, (n - 1) as nat);
            let reply = -self.value(self.child(position, n - 1), (depth - 1) as nat);
            if reply > so_far {
                reply
            } else {
                so_far
            }
        }
    }

    /// The number of rounds that it takes to go through the whole tree of
    /// `depth` plies below `position`: one for the score of each leaf, one
    /// for the moves of each inner node, and two for each move, which is
    /// made and taken back.
    pub open spec fn visits(self, position: Seq<M>, depth: nat) -> nat
        decreases depth, (self.moves)(position).len() + 1,
    {
        if depth == 0 {
            1
        } else {
            1 + self.visits_from(position, depth, 0)
        }
    }

    /// The number of rounds that it takes to go through the trees below the
    /// legal moves of `position` from the move `first` on.
    pub open spec fn visits_from(self, position: Seq<M>, depth: nat, first: nat) -> nat
        decreases depth, (self.moves)(position).len() - first,
    {
        if depth == 0 || first >= (self.moves)(position).len() {
            0
        } else {
            2 + self.visits(self.child(position, first as int), (depth - 1) as nat)
                + self.visits_from(position, depth, first + 1)
        }
    }

    /// Whether the tree of `depth` plies below `position` can be searched:
    /// no leaf has the lowest score and, for an exhaustive search, every
    /// inner node has a move. The one exception is a node whose answer is
    /// handed out as it is (`outermost`): the root, with White to move.
    pub open spec fn playable(self, pruning: bool, outermost: bool, position: Seq<M>, depth: nat)
        -> bool
        decreases depth,
    {
        if depth == 0 {
            outermost || (self.eval)(position) > SCORE_MIN
        } else {
            &&& outermost || pruning || (self.moves)(position).len() > 0
            &&& forall|i: int|
                0 <= i < (self.moves)(position).len() ==> self.playable(
                    pruning,
                    false,
                    #[trigger] self.child(position, i),
                    (depth - 1) as nat,
                )
        }
    }

    /// The search of the node at `position` with `depth` plies to go and the
    /// bounds `alpha` and `beta`: a leaf is scored, an inner node has its
    /// moves listed and explored from the first.
    pub open spec fn search_node(
        self,
        pruning: bool,
        position: Seq<M>,
        depth: nat,
        alpha: int,
        beta: int,
        table: Seq<M>,
    ) -> Outcome<M>
        decreases depth, (self.moves)(position).len() + 1, 0nat,
    {
        if depth == 0 {
            Outcome { score: (self.eval)(position) as int, table, rounds: 1 }
        } else {
            let rest = self.explore(
                pruning,
                position,
                first_frame(pruning, depth, alpha, beta, (self.moves)(position)),
                table,
            );
            Outcome { rounds: rest.rounds + 1, ..rest }
        }
    }

    /// The rest of a node's move loop, from the move `frame.next` on: the
    /// move is made, its child searched, and the answer settled.
    pub open spec fn explore(
        self,
        pruning: bool,
        position: Seq<M>,
        frame: FrameModel<M>,
        table: Seq<M>,
    ) -> Outcome<M>
        decreases frame.depth, frame.moves.len() - frame.next, 1nat,
    {
        if frame.depth == 0 || frame.cut || frame.next >= frame.moves.len() {
            Outcome { score: frame.best, table, rounds: 0 }
        } else {
            let answer = self.search_node(
                pruning,
                position.push(frame.current()),
                (frame.depth - 1) as nat,
                frame.reply_alpha(pruning),
                frame.reply_beta(pruning),
                table,
            );
            let rest = self.settle(pruning, position, frame, answer);
            Outcome { rounds: rest.rounds + 1, ..rest }
        }
    }

    /// What follows the answer of the explored move's child: the loop takes
    /// the score in, the move is noted in the table if it is the best so
    /// far, the move is taken back, and the loop goes on with the next move.
    pub open spec fn settle(
        self,
        pruning: bool,
        position: Seq<M>,
        frame: FrameModel<M>,
        answer: Outcome<M>,
    ) -> Outcome<M>
        decreases frame.depth, frame.moves.len() - frame.next, 0nat,
    {
        if frame.next >= frame.moves.len() {
            answer
        } else {
            let rest = self.explore(
                pruning,
                position,
                frame.absorb(answer.score).advance(),
                if frame.improved_by(answer.score) {
                    record(answer.table, frame.depth, frame.current())
                } else {
                    answer.table
                },
            );
            Outcome { rounds: answer.rounds + 1 + rest.rounds, ..rest }
        }
    }

    /// What a search of `depth` plies from the start position comes to, in a
    /// table that holds `null` everywhere.
    pub open spec fn search(self, pruning: bool, depth: nat, null: M) -> Outcome<M> {
        self.search_node(
            pruning,
            Seq::empty(),
            depth,
            root_alpha(pruning),
            root_beta(pruning),
            Seq::new(triangle(depth), |j: int| null),
        )
    }
}

/// The score that is reported for a root score: relative to White.
pub open spec fn reported(negate: bool, score: int) -> int {
    if negate {
        -score
    } else {
        score
    }
}

} // verus!
