use crate::game::{reported, Game};
use crate::model::{
    first_frame, lemma_start_inv, root_alpha, root_beta, start, ActionModel, FrameModel,
    Phase,
};
use crate::run::Run;
use crate::score::{SCORE_MAX, SCORE_MIN};
use crate::table::{
    lemma_record, lemma_triangle_grows, lemma_triangle_step, record, row, row_start, triangle,
};
use vstd::prelude::*;

verus! {

/// A search of `game` at its first step.
pub open spec fn first_run<M>(pruning: bool, negate: bool, depth: nat, null: M) -> Run<M> {
    Run {
        search: start(pruning, negate, depth, null).0,
        action: start(pruning, negate, depth, null).1,
        position: Seq::empty(),
    }
}

impl<M> Game<M> {
    /// What a search of `depth` plies hands out in the end, if it is driven
    /// on this game from the start position.
    pub open spec fn result(self, pruning: bool, negate: bool, depth: nat, null: M) -> ActionModel<
        M,
    > {
        self.run(
            first_run(pruning, negate, depth, null),
            self.search(pruning, depth, null).rounds,
        ).action
    }

    /// Driving a search answers the question that it was started with. Run
    /// on a game whose tree can be searched, it accepts every answer, ends
    /// after as many rounds as the search of the start position takes, hands
    /// out that search's score, turned to White's view, with the root's row
    /// of the table as the principal variation, and leaves the game in the
    /// position in which it began.
    pub proof fn lemma_search_runs(self, pruning: bool, negate: bool, depth: nat, null: M)
        requires
            self.playable(pruning, !negate, Seq::empty(), depth),
        ensures
            ({
                let from = first_run(pruning, negate, depth, null);
                let rounds = self.search(pruning, depth, null).rounds;
                &&& self.accepted(from, rounds)
                &&& self.run(from, rounds).search.phase == Phase::Finished
                &&& self.result(pruning, negate, depth, null) == ActionModel::Finished(
                    reported(negate, self.search(pruning, depth, null).score),
                    self.search(pruning, depth, null).table.take(depth as int),
                )
                &&& self.run(from, rounds).position == Seq::<M>::empty()
            }),
    {
        let from = first_run(pruning, negate, depth, null);
        lemma_start_inv(pruning, negate, depth, null);
        assert(from.position.take(0) =~= Seq::<M>::empty());
        assert(self.coherent(from));
        self.lemma_run_ends(from);
        assert(self.run(from, self.remaining(from)).position =~= Seq::<M>::empty());
    }
}


impl<M> Game<M> {
    /// Every child of `position` can be searched, `depth` plies deep, as a
    /// node whose answer is negated.
    pub open spec fn replies_playable(self, position: Seq<M>, depth: nat) -> bool {
        forall|i: int|
            0 <= i < (self.moves)(position).len() ==> self.playable(
                false,
                false,
                #[trigger] self.child(position, i),
                depth,
            )
    }

    /// A tree that an exhaustive search can go through, a pruned search can
    /// go through too.
    pub proof fn lemma_playable_pruned(self, outermost: bool, position: Seq<M>, depth: nat)
        requires
            self.playable(false, outermost, position, depth),
        ensures
            self.playable(true, outermost, position, depth),
        decreases depth,
    {
        if depth > 0 {
            assert forall|i: int| 0 <= i < (self.moves)(position).len() implies self.playable(
                true,
                false,
                #[trigger] self.child(position, i),
                (depth - 1) as nat,
            ) by {
                self.lemma_playable_pruned(false, self.child(position, i), (depth - 1) as nat);
            }
        }
    }

    /// More children give no worse a best reply.
    pub proof fn lemma_best_reply_grows(self, position: Seq<M>, depth: nat, few: nat, many: nat)
        requires
            few <= many,
        ensures
            self.best_reply(position, depth, few) <= self.best_reply(position, depth, many),
        decreases many,
    {
        if few < many && depth > 0 {
            self.lemma_best_reply_grows(position, depth, few, (many - 1) as nat);
        }
    }

    /// The value of a node whose tree can be searched is a score that can be
    /// negated.
    pub proof fn lemma_value_bounds(self, position: Seq<M>, depth: nat)
        requires
            self.playable(false, false, position, depth),
        ensures
            SCORE_MIN < self.value(position, depth) <= SCORE_MAX,
        decreases depth, (self.moves)(position).len() + 1,
    {
        if depth > 0 {
            self.lemma_best_reply_bounds(position, depth, (self.moves)(position).len());
        }
    }

    /// The best reply among no children is the lowest score, and among some
    /// a score that can be negated.
    pub proof fn lemma_best_reply_bounds(self, position: Seq<M>, depth: nat, n: nat)
        requires
            depth >= 1,
            n <= (self.moves)(position).len(),
            self.replies_playable(position, (depth - 1) as nat),
        ensures
            n == 0 ==> self.best_reply(position, depth, n) == SCORE_MIN,
            n > 0 ==> SCORE_MIN < self.best_reply(position, depth, n) <= SCORE_MAX,
        decreases depth, n,
    {
        if n > 0 {
            self.lemma_best_reply_bounds(position, depth, (n - 1) as nat);
            self.lemma_value_bounds(self.child(position, n - 1), (depth - 1) as nat);
        }
    }

    /// An exhaustive search finds the negamax value.
    pub proof fn lemma_exhaustive_value(self, position: Seq<M>, depth: nat, table: Seq<M>)
        requires
            self.playable(false, true, position, depth),
        ensures
            self.search_node(
                false,
                position,
                depth,
                root_alpha(false),
                root_beta(false),
                table,
            ).score == self.value(position, depth),
        decreases depth, (self.moves)(position).len() + 1, 0nat,
    {
        if depth > 0 {
            let frame = first_frame(
                false,
                depth,
                root_alpha(false),
                root_beta(false),
                (self.moves)(position),
            );
            self.lemma_exhaustive_loop(position, frame, table);
        }
    }

    /// The rest of an exhaustive move loop finds the best reply among all
    /// children, if the loop holds the best among those before.
    pub proof fn lemma_exhaustive_loop(self, position: Seq<M>, frame: FrameModel<M>, table: Seq<M>)
        requires
            frame.depth >= 1,
            frame.moves == (self.moves)(position),
            frame.next <= frame.moves.len(),
            !frame.cut,
            frame.beta == SCORE_MAX + 1,
            frame.alpha == frame.best,
            frame.best == self.best_reply(position, frame.depth, frame.next),
            self.replies_playable(position, (frame.depth - 1) as nat),
        ensures
            self.explore(false, position, frame, table).score == self.best_reply(
                position,
                frame.depth,
                frame.moves.len(),
            ),
        decreases frame.depth, frame.moves.len() - frame.next, 1nat,
    {
        if frame.next < frame.moves.len() {
            let reached = self.child(position, frame.next as int);
            let below = (frame.depth - 1) as nat;
            assert(self.playable(false, false, reached, below));
            self.lemma_value_bounds(reached, below);
            self.lemma_exhaustive_value(reached, below, table);
            let answer = self.search_node(
                false,
                reached,
                below,
                frame.reply_alpha(false),
                frame.reply_beta(false),
                table,
            );
            self.lemma_best_reply_bounds(position, frame.depth, frame.next);
            let after = frame.absorb(answer.score).advance();
            let noted = if frame.improved_by(answer.score) {
                record(answer.table, frame.depth, frame.current())
            } else {
                answer.table
            };
            assert(after.best == self.best_reply(position, frame.depth, after.next));
            self.lemma_exhaustive_loop(position, after, noted);
        }
    }

    /// A pruned search finds the negamax value where it lies between the
    /// bounds, and otherwise a score on the same side of the bounds as the
    /// value.
    pub proof fn lemma_pruned_value(
        self,
        position: Seq<M>,
        depth: nat,
        alpha: int,
        beta: int,
        table: Seq<M>,
    )
        requires
            self.playable(false, false, position, depth),
            SCORE_MIN < alpha < beta <= SCORE_MAX,
        ensures
            ({
                let found = self.search_node(true, position, depth, alpha, beta, table).score;
                let value = self.value(position, depth);
                &&& SCORE_MIN < found <= SCORE_MAX
                &&& value <= alpha ==> found <= alpha
                &&& alpha < value < beta ==> found == value
                &&& value >= beta ==> found >= beta
            }),
        decreases depth, (self.moves)(position).len() + 1, 0nat,
    {
        if depth > 0 {
            let frame = first_frame(true, depth, alpha, beta, (self.moves)(position));
            self.lemma_best_reply_bounds(position, depth, 0);
            self.lemma_pruned_loop(position, frame, alpha, table);
        }
    }

    /// The rest of a pruned move loop, if the loop has taken in the children
    /// before: its lower bound is the best reply among them where that lies
    /// above the bound that the node was entered with.
    pub proof fn lemma_pruned_loop(
        self,
        position: Seq<M>,
        frame: FrameModel<M>,
        entered: int,
        table: Seq<M>,
    )
        requires
            frame.depth >= 1,
            frame.moves == (self.moves)(position),
            frame.next <= frame.moves.len(),
            !frame.cut,
            SCORE_MIN < entered <= frame.alpha < frame.beta <= SCORE_MAX,
            self.replies_playable(position, (frame.depth - 1) as nat),
            ({
                let so_far = self.best_reply(position, frame.depth, frame.next);
                if so_far > entered {
                    frame.alpha == so_far && frame.best == so_far
                } else {
                    frame.alpha == entered && frame.best == SCORE_MIN + 1
                }
            }),
        ensures
            ({
                let found = self.explore(true, position, frame, table).score;
                let value = self.best_reply(position, frame.depth, frame.moves.len());
                &&& SCORE_MIN < found <= SCORE_MAX
                &&& value <= entered ==> found <= entered
                &&& entered < value < frame.beta ==> found == value
                &&& value >= frame.beta ==> found >= frame.beta
            }),
        decreases frame.depth, frame.moves.len() - frame.next, 1nat,
    {
        if frame.next < frame.moves.len() {
            let reached = self.child(position, frame.next as int);
            let below = (frame.depth - 1) as nat;
            assert(self.playable(false, false, reached, below));
            self.lemma_value_bounds(reached, below);
            self.lemma_pruned_value(
                reached,
                below,
                frame.reply_alpha(true),
                frame.reply_beta(true),
                table,
            );
            let answer = self.search_node(
                true,
                reached,
                below,
                frame.reply_alpha(true),
                frame.reply_beta(true),
                table,
            );
            let after = frame.absorb(answer.score).advance();
            let noted = if frame.improved_by(answer.score) {
                record(answer.table, frame.depth, frame.current())
            } else {
                answer.table
            };
            self.lemma_best_reply_grows(position, frame.depth, after.next, frame.moves.len());
            let so_far = self.best_reply(position, frame.depth, frame.next);
            let reply = -self.value(reached, below);
            assert(self.best_reply(position, frame.depth, after.next) == if reply > so_far {
                reply
            } else {
                so_far
            });
            assert(self.settle(true, position, frame, answer).score == self.explore(
                true,
                position,
                after,
                noted,
            ).score);
            assert(self.explore(true, position, frame, table).score == self.explore(
                true,
                position,
                after,
                noted,
            ).score);
            if !after.cut {
                self.lemma_pruned_loop(position, after, entered, noted);
            }
        }
    }

    /// No search of a node takes more rounds than going through the whole
    /// tree below it.
    pub proof fn lemma_node_rounds_bounded(
        self,
        pruning: bool,
        position: Seq<M>,
        depth: nat,
        alpha: int,
        beta: int,
        table: Seq<M>,
    )
        ensures
            self.search_node(pruning, position, depth, alpha, beta, table).rounds <= self.visits(
                position,
                depth,
            ),
        decreases depth, (self.moves)(position).len() + 1, 0nat,
    {
        if depth > 0 {
            let frame = first_frame(pruning, depth, alpha, beta, (self.moves)(position));
            self.lemma_loop_rounds_bounded(pruning, position, frame, table);
        }
    }

    /// The rest of a move loop takes no more rounds than going through the
    /// trees below the moves that are left.
    pub proof fn lemma_loop_rounds_bounded(
        self,
        pruning: bool,
        position: Seq<M>,
        frame: FrameModel<M>,
        table: Seq<M>,
    )
        requires
            frame.moves == (self.moves)(position),
        ensures
            self.explore(pruning, position, frame, table).rounds <= self.visits_from(
                position,
                frame.depth,
                frame.next,
            ),
        decreases frame.depth, frame.moves.len() - frame.next, 1nat,
    {
        if frame.depth > 0 && !frame.cut && frame.next < frame.moves.len() {
            let reached = self.child(position, frame.next as int);
            let below = (frame.depth - 1) as nat;
            self.lemma_node_rounds_bounded(
                pruning,
                reached,
                below,
                frame.reply_alpha(pruning),
                frame.reply_beta(pruning),
                table,
            );
            let answer = self.search_node(
                pruning,
                reached,
                below,
                frame.reply_alpha(pruning),
                frame.reply_beta(pruning),
                table,
            );
            let after = frame.absorb(answer.score).advance();
            let noted = if frame.improved_by(answer.score) {
                record(answer.table, frame.depth, frame.current())
            } else {
                answer.table
            };
            self.lemma_loop_rounds_bounded(pruning, position, after, noted);
        }
    }

    /// An exhaustive search goes through the whole tree.
    pub proof fn lemma_exhaustive_rounds(self, position: Seq<M>, depth: nat, table: Seq<M>)
        requires
            self.playable(false, true, position, depth),
        ensures
            self.search_node(
                false,
                position,
                depth,
                root_alpha(false),
                root_beta(false),
                table,
            ).rounds == self.visits(position, depth),
        decreases depth, (self.moves)(position).len() + 1, 0nat,
    {
        if depth > 0 {
            let frame = first_frame(
                false,
                depth,
                root_alpha(false),
                root_beta(false),
                (self.moves)(position),
            );
            self.lemma_exhaustive_loop_rounds(position, frame, table);
        }
    }

    /// The rest of an exhaustive move loop goes through the trees below all
    /// moves that are left.
    pub proof fn lemma_exhaustive_loop_rounds(
        self,
        position: Seq<M>,
        frame: FrameModel<M>,
        table: Seq<M>,
    )
        requires
            frame.depth >= 1,
            frame.moves == (self.moves)(position),
            !frame.cut,
            frame.beta == SCORE_MAX + 1,
            SCORE_MIN <= frame.alpha <= SCORE_MAX,
            self.replies_playable(position, (frame.depth - 1) as nat),
        ensures
            self.explore(false, position, frame, table).rounds == self.visits_from(
                position,
                frame.depth,
                frame.next,
            ),
        decreases frame.depth, frame.moves.len() - frame.next, 1nat,
    {
        if frame.next < frame.moves.len() {
            let reached = self.child(position, frame.next as int);
            let below = (frame.depth - 1) as nat;
            assert(self.playable(false, false, reached, below));
            self.lemma_value_bounds(reached, below);
            self.lemma_exhaustive_value(reached, below, table);
            self.lemma_exhaustive_rounds(reached, below, table);
            let answer = self.search_node(
                false,
                reached,
                below,
                frame.reply_alpha(false),
                frame.reply_beta(false),
                table,
            );
            let after = frame.absorb(answer.score).advance();
            let noted = if frame.improved_by(answer.score) {
                record(answer.table, frame.depth, frame.current())
            } else {
                answer.table
            };
            self.lemma_exhaustive_loop_rounds(position, after, noted);
        }
    }

    /// Pruning saves work and adds none: on a tree that an exhaustive
    /// search can go through, the pruned search takes no more rounds.
    pub proof fn lemma_pruning_saves_rounds(self, outermost: bool, depth: nat, null: M)
        requires
            self.playable(false, outermost, Seq::empty(), depth),
        ensures
            self.search(true, depth, null).rounds <= self.search(false, depth, null).rounds,
    {
        let table = Seq::new(triangle(depth), |j: int| null);
        self.lemma_exhaustive_rounds(Seq::empty(), depth, table);
        self.lemma_node_rounds_bounded(
            true,
            Seq::empty(),
            depth,
            root_alpha(true),
            root_beta(true),
            table,
        );
    }

    /// Score consistency: on a tree that an exhaustive search can go
    /// through, from a root that has a move (or with no ply to go), the
    /// pruned search and the exhaustive search find the same score, the
    /// negamax value of the start position.
    pub proof fn lemma_scores_agree(self, outermost: bool, depth: nat, null: M)
        requires
            self.playable(false, outermost, Seq::empty(), depth),
            depth > 0 ==> (self.moves)(Seq::empty()).len() > 0,
        ensures
            self.search(true, depth, null).score == self.search(false, depth, null).score,
            self.search(false, depth, null).score == self.value(Seq::empty(), depth),
    {
        let table = Seq::new(triangle(depth), |j: int| null);
        self.lemma_exhaustive_value(Seq::empty(), depth, table);
        if depth > 0 {
            self.lemma_value_bounds(Seq::empty(), depth);
            self.lemma_pruned_value(
                Seq::empty(),
                depth,
                root_alpha(true),
                root_beta(true),
                table,
            );
        }
    }
}

/// A score as the side sees it that was to move `plies` plies before.
pub open spec fn turned(plies: nat, score: int) -> int {
    if plies % 2 == 0 {
        score
    } else {
        -score
    }
}

impl<M> Game<M> {
    /// Every move of `line` is legal where it is made, if the line is played
    /// from `position`.
    pub open spec fn legal_line(self, position: Seq<M>, line: Seq<M>) -> bool {
        forall|k: int|
            0 <= k < line.len() ==> (self.moves)(position + line.take(k)).contains(
                #[trigger] line[k],
            )
    }

    /// `line` can be played from `position`, and the position that it leads
    /// to has the score `score`, as the side sees it that is to move in
    /// `position`.
    pub open spec fn replays(self, position: Seq<M>, line: Seq<M>, score: int) -> bool {
        &&& self.legal_line(position, line)
        &&& turned(line.len(), (self.eval)(position + line) as int) == score
    }

    /// The score of `position`, relative to White, if `black_first` says
    /// that Black is to move in the start position.
    pub open spec fn eval_white(self, black_first: bool, position: Seq<M>) -> int {
        reported(black_first, turned(position.len(), (self.eval)(position) as int))
    }

    /// A line that replays from the position after a legal move replays,
    /// with that move in front, from the position before it, to the negated
    /// score.
    pub proof fn lemma_replays_after(self, position: Seq<M>, i: int, line: Seq<M>, score: int)
        requires
            0 <= i < (self.moves)(position).len(),
            self.replays(self.child(position, i), line, score),
        ensures
            self.replays(position, seq![(self.moves)(position)[i]] + line, -score),
    {
        let first = (self.moves)(position)[i];
        let reached = self.child(position, i);
        let longer = seq![first] + line;
        assert(position + longer =~= reached + line);
        assert forall|k: int| 0 <= k < longer.len() implies (self.moves)(
            position + longer.take(k),
        ).contains(#[trigger] longer[k]) by {
            if k == 0 {
                assert(position + longer.take(0) =~= position);
            } else {
                assert(position + longer.take(k) =~= reached + line.take(k - 1));
                assert(longer[k] == line[k - 1]);
            }
        }
    }

    /// What the search of a node does to the table: it keeps the length and
    /// all that lies in front of the node's row, and where the score lies
    /// strictly between the bounds, the node's row replays to it.
    pub proof fn lemma_node_line(
        self,
        pruning: bool,
        position: Seq<M>,
        depth: nat,
        alpha: int,
        beta: int,
        table: Seq<M>,
    )
        requires
            triangle(depth) <= table.len(),
            root_alpha(pruning) <= alpha,
            beta <= root_beta(pruning),
        ensures
            ({
                let found = self.search_node(pruning, position, depth, alpha, beta, table);
                &&& found.table.len() == table.len()
                &&& forall|j: int|
                    0 <= j < row_start(table.len(), depth) ==> found.table[j] == table[j]
                &&& alpha < found.score < beta ==> self.replays(
                    position,
                    row(found.table, depth),
                    found.score,
                )
            }),
        decreases depth, (self.moves)(position).len() + 1, 0nat,
    {
        if depth == 0 {
            assert(row(table, 0) =~= Seq::<M>::empty());
            assert(position + Seq::<M>::empty() =~= position);
        } else {
            let frame = first_frame(pruning, depth, alpha, beta, (self.moves)(position));
            self.lemma_loop_line(pruning, position, frame, alpha, table);
        }
    }

    /// What the rest of a move loop does to the table, if the node's row
    /// replays to the loop's lower bound wherever a move has raised it.
    pub proof fn lemma_loop_line(
        self,
        pruning: bool,
        position: Seq<M>,
        frame: FrameModel<M>,
        entered: int,
        table: Seq<M>,
    )
        requires
            frame.depth >= 1,
            triangle(frame.depth) <= table.len(),
            frame.moves == (self.moves)(position),
            root_alpha(pruning) <= entered <= frame.alpha,
            frame.beta <= root_beta(pruning),
            frame.cut ==> frame.best == frame.beta,
            !frame.cut && frame.alpha > entered ==> frame.best == frame.alpha && self.replays(
                position,
                row(table, frame.depth),
                frame.alpha,
            ),
            !frame.cut && frame.alpha == entered ==> frame.best <= entered,
        ensures
            ({
                let found = self.explore(pruning, position, frame, table);
                &&& found.table.len() == table.len()
                &&& forall|j: int|
                    0 <= j < row_start(table.len(), frame.depth) ==> found.table[j] == table[j]
                &&& entered < found.score < frame.beta ==> self.replays(
                    position,
                    row(found.table, frame.depth),
                    found.score,
                )
            }),
        decreases frame.depth, frame.moves.len() - frame.next, 1nat,
    {
        if !frame.cut && frame.next < frame.moves.len() {
            let depth = frame.depth;
            let below = (depth - 1) as nat;
            let len = table.len();
            let reached = self.child(position, frame.next as int);
            lemma_triangle_step(depth);
            lemma_triangle_grows(below, below);
            self.lemma_node_line(
                pruning,
                reached,
                below,
                frame.reply_alpha(pruning),
                frame.reply_beta(pruning),
                table,
            );
            let answer = self.search_node(
                pruning,
                reached,
                below,
                frame.reply_alpha(pruning),
                frame.reply_beta(pruning),
                table,
            );
            let after = frame.absorb(answer.score).advance();
            let noted = if frame.improved_by(answer.score) {
                record(answer.table, depth, frame.current())
            } else {
                answer.table
            };
            assert(row_start(len, below) == row_start(len, depth) + depth);
            if frame.improved_by(answer.score) {
                lemma_record(answer.table, depth, frame.current());
                self.lemma_replays_after(
                    position,
                    frame.next as int,
                    row(answer.table, below),
                    answer.score,
                );
            } else {
                assert(row(answer.table, depth) =~= row(table, depth));
            }
            self.lemma_loop_line(pruning, position, after, entered, noted);
            let found = self.explore(pruning, position, frame, table);
            assert(found.table == self.explore(pruning, position, after, noted).table);
            assert(found.score == self.explore(pruning, position, after, noted).score);
            assert forall|j: int| 0 <= j < row_start(len, depth) implies found.table[j]
                == table[j] by {
                assert(noted[j] == answer.table[j]);
            }
        }
    }

    /// Principal variation: the line that a search hands out has one move
    /// for each ply and, where the score lies strictly between the root's
    /// bounds, it can be played from the start position and leads to a
    /// position whose score, relative to White, is the score that the search
    /// reports.
    pub proof fn lemma_line_replays(self, pruning: bool, negate: bool, depth: nat, null: M)
        ensures
            ({
                let found = self.search(pruning, depth, null);
                let line = found.table.take(depth as int);
                &&& line.len() == depth
                &&& depth == 0 || root_alpha(pruning) < found.score < root_beta(pruning) ==> {
                    &&& self.legal_line(Seq::empty(), line)
                    &&& self.eval_white(negate, line) == reported(negate, found.score)
                }
            }),
    {
        let table = Seq::new(triangle(depth), |j: int| null);
        let found = self.search(pruning, depth, null);
        let line = found.table.take(depth as int);
        lemma_triangle_grows(depth, depth);
        self.lemma_node_line(
            pruning,
            Seq::empty(),
            depth,
            root_alpha(pruning),
            root_beta(pruning),
            table,
        );
        assert(row(found.table, depth) =~= line);
        assert(Seq::<M>::empty() + line =~= line);
        if depth == 0 {
            assert(line =~= Seq::<M>::empty());
        }
    }

    /// The line of an exhaustive search always replays, on a tree that it
    /// can go through from a root that has a move.
    pub proof fn lemma_exhaustive_line_replays(self, negate: bool, depth: nat, null: M)
        requires
            self.playable(false, !negate, Seq::empty(), depth),
            depth > 0 ==> (self.moves)(Seq::empty()).len() > 0,
        ensures
            ({
                let found = self.search(false, depth, null);
                let line = found.table.take(depth as int);
                &&& self.legal_line(Seq::empty(), line)
                &&& self.eval_white(negate, line) == reported(negate, found.score)
            }),
    {
        self.lemma_line_replays(false, negate, depth, null);
        if depth > 0 {
            self.lemma_scores_agree(!negate, depth, null);
            self.lemma_value_bounds(Seq::empty(), depth);
        }
    }

    /// With no ply to go the search scores the start position, hands out an
    /// empty line, and asks the game once.
    pub proof fn lemma_depth_zero(self, pruning: bool, null: M)
        ensures
            self.search(pruning, 0, null).score == (self.eval)(Seq::empty()),
            self.search(pruning, 0, null).table.take(0) == Seq::<M>::empty(),
            self.search(pruning, 0, null).rounds == 1,
    {
        assert(self.search(pruning, 0, null).table.take(0) =~= Seq::<M>::empty());
    }
}

impl<M> Game<M> {
    /// Score consistency of the two searches as they are driven: on a tree
    /// that an exhaustive search can go through, from a root that has a
    /// move (or with no ply to go), both hand out the same score, the
    /// negamax value of the start position relative to White.
    pub proof fn lemma_results_agree(self, negate: bool, depth: nat, null: M)
        requires
            self.playable(false, !negate, Seq::empty(), depth),
            depth > 0 ==> (self.moves)(Seq::empty()).len() > 0,
        ensures
            self.result(false, negate, depth, null) matches ActionModel::Finished(exhaustive, _)
                && self.result(true, negate, depth, null) matches ActionModel::Finished(pruned, _)
                && exhaustive == pruned && exhaustive == reported(
                negate,
                self.value(Seq::empty(), depth),
            ),
    {
        self.lemma_playable_pruned(!negate, Seq::empty(), depth);
        self.lemma_search_runs(false, negate, depth, null);
        self.lemma_search_runs(true, negate, depth, null);
        self.lemma_scores_agree(!negate, depth, null);
    }

    /// Replay of the principal variation that a driven search hands out: it
    /// has one move for each ply and, where the root's score lies strictly
    /// between the root's bounds, it can be played from the start position
    /// and leads to a position whose score, relative to White, is the score
    /// handed out.
    pub proof fn lemma_result_replays(self, pruning: bool, negate: bool, depth: nat, null: M)
        requires
            self.playable(pruning, !negate, Seq::empty(), depth),
        ensures
            self.result(pruning, negate, depth, null) matches ActionModel::Finished(score, line)
                && line.len() == depth && (depth == 0 || root_alpha(pruning) < self.search(
                pruning,
                depth,
                null,
            ).score < root_beta(pruning) ==> self.legal_line(Seq::empty(), line)
                && self.eval_white(negate, line) == score),
    {
        self.lemma_search_runs(pruning, negate, depth, null);
        self.lemma_line_replays(pruning, negate, depth, null);
    }

    /// The principal variation of a driven exhaustive search always
    /// replays, on a tree that the search can go through from a root that
    /// has a move.
    pub proof fn lemma_exhaustive_result_replays(self, negate: bool, depth: nat, null: M)
        requires
            self.playable(false, !negate, Seq::empty(), depth),
            depth > 0 ==> (self.moves)(Seq::empty()).len() > 0,
        ensures
            self.result(false, negate, depth, null) matches ActionModel::Finished(score, line)
                && line.len() == depth && self.legal_line(Seq::empty(), line) && self.eval_white(
                negate,
                line,
            ) == score,
    {
        self.lemma_search_runs(false, negate, depth, null);
        self.lemma_line_replays(false, negate, depth, null);
        self.lemma_exhaustive_line_replays(negate, depth, null);
    }

    /// A driven search with no ply to go asks for the score of the start
    /// position and hands it out, relative to White, with an empty line.
    pub proof fn lemma_result_depth_zero(self, pruning: bool, negate: bool, null: M)
        requires
            negate ==> (self.eval)(Seq::empty()) > SCORE_MIN,
        ensures
            self.search(pruning, 0, null).rounds == 1,
            self.result(pruning, negate, 0, null) == ActionModel::Finished(
                reported(negate, (self.eval)(Seq::empty()) as int),
                Seq::<M>::empty(),
            ),
    {
        self.lemma_search_runs(pruning, negate, 0, null);
        self.lemma_depth_zero(pruning, null);
    }

    /// Sign symmetry of a driven search: on the same tree, with Black to
    /// move at the root in place of White, it hands out the negated score.
    pub proof fn lemma_result_mirrored(self, pruning: bool, depth: nat, null: M)
        requires
            self.playable(pruning, false, Seq::empty(), depth),
        ensures
            self.result(pruning, false, depth, null) matches ActionModel::Finished(white, _)
                && self.result(pruning, true, depth, null) matches ActionModel::Finished(black, _)
                && black == -white,
    {
        self.lemma_search_runs(pruning, false, depth, null);
        self.lemma_search_runs(pruning, true, depth, null);
    }
}

} // verus!
