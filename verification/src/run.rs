use crate::game::{reported, Game, Outcome};
use crate::model::{
    deliverable, floor, lemma_deliver_inv, lemma_step_inv, ActionModel, EventModel, FrameModel,
    Phase, SearchModel,
};
use vstd::prelude::*;

verus! {

/// A search that is being run on a game: the search, what it asked last, and
/// the position that the game is in.
pub struct Run<M> {
    pub search: SearchModel<M>,
    pub action: ActionModel<M>,
    pub position: Seq<M>,
}

/// The position after `action` was carried out in `position`.
pub open spec fn moved<M>(position: Seq<M>, action: ActionModel<M>) -> Seq<M> {
    match action {
        ActionModel::DoMove(m) => position.push(m),
        ActionModel::UndoLastMove => position.drop_last(),
        _ => position,
    }
}

impl<M> Game<M> {
    /// What the game answers to `action`, once it is in `position`.
    pub open spec fn answer(self, position: Seq<M>, action: ActionModel<M>) -> EventModel<M> {
        match action {
            ActionModel::Evaluate => EventModel::Evaluated((self.eval)(position) as int),
            ActionModel::GenerateMoves(_) => EventModel::Generated((self.moves)(position)),
            ActionModel::DoMove(_) => EventModel::MoveDone,
            _ => EventModel::MoveUndone,
        }
    }

    /// What the game answers next in `run`.
    pub open spec fn event(self, run: Run<M>) -> EventModel<M> {
        self.answer(moved(run.position, run.action), run.action)
    }

    /// One round: the game carries out what was asked, and the search takes
    /// a step on the answer. A finished run stays as it is.
    pub open spec fn advance(self, run: Run<M>) -> Run<M> {
        if run.search.phase == Phase::Finished {
            run
        } else {
            let after = run.search.step(self.event(run));
            Run { search: after.0, action: after.1, position: moved(run.position, run.action) }
        }
    }

    /// The run after `rounds` rounds.
    pub open spec fn run(self, from: Run<M>, rounds: nat) -> Run<M>
        decreases rounds,
    {
        if rounds == 0 {
            from
        } else {
            self.run(self.advance(from), (rounds - 1) as nat)
        }
    }

    /// Whether the search accepts each of the next `rounds` answers.
    pub open spec fn accepted(self, from: Run<M>, rounds: nat) -> bool
        decreases rounds,
    {
        rounds == 0 || (from.search.accepts(self.event(from)) && self.accepted(
            self.advance(from),
            (rounds - 1) as nat,
        ))
    }

    /// The loops in `frames` belong to the nodes on the way to `position`:
    /// each holds the legal moves of its node and explores the move that was
    /// made there, and each node's tree can be searched.
    pub open spec fn follows(self, search: SearchModel<M>, position: Seq<M>) -> bool {
        &&& forall|k: int|
            0 <= k < search.frames.len() && k <= position.len() ==> (
            #[trigger] search.frames[k]).moves == (self.moves)(position.take(k))
        &&& forall|k: int|
            0 <= k < position.len() && k < search.frames.len() ==> #[trigger] position[k]
                == search.frames[k].current()
        &&& forall|k: int|
            0 <= k <= position.len() ==> self.playable(
                search.pruning,
                k == 0 && !search.negate,
                #[trigger] position.take(k),
                (search.depth - k) as nat,
            )
    }

    /// The run is in a state that a search of this game's start position can
    /// reach.
    pub open spec fn coherent(self, run: Run<M>) -> bool {
        let search = run.search;
        &&& search.inv()
        &&& match search.phase {
            Phase::Evaluating => run.action == ActionModel::<M>::Evaluate,
            Phase::Generating => run.action is GenerateMoves,
            Phase::Moving => run.action == ActionModel::DoMove(search.frames.last().current()),
            Phase::Undoing => run.action == ActionModel::<M>::UndoLastMove,
            Phase::Finished => run.action is Finished,
        }
        &&& run.position.len() == (if search.phase == Phase::Moving {
            search.frames.len() - 1
        } else {
            search.frames.len() as int
        })
        &&& self.follows(search, run.position)
    }

    /// What the root comes to once the node at `position` has answered
    /// `answer` and the loops in `frames` have gone on to their ends.
    pub open spec fn resume(
        self,
        pruning: bool,
        frames: Seq<FrameModel<M>>,
        position: Seq<M>,
        answer: Outcome<M>,
    ) -> Outcome<M>
        decreases frames.len(),
    {
        if frames.len() == 0 {
            answer
        } else {
            self.resume(
                pruning,
                frames.drop_last(),
                position.drop_last(),
                self.settle(pruning, position.drop_last(), frames.last(), answer),
            )
        }
    }

    /// What the root comes to from where `run` stands, with the rounds that
    /// are still to come.
    pub open spec fn finale(self, run: Run<M>) -> Outcome<M> {
        let search = run.search;
        match search.phase {
            Phase::Moving => self.resume(
                search.pruning,
                search.frames.drop_last(),
                run.position,
                self.explore(search.pruning, run.position, search.frames.last(), search.table),
            ),
            Phase::Undoing => {
                let rest = self.explore(
                    search.pruning,
                    run.position.drop_last(),
                    search.frames.last().advance(),
                    search.table,
                );
                self.resume(
                    search.pruning,
                    search.frames.drop_last(),
                    run.position.drop_last(),
                    Outcome { rounds: rest.rounds + 1, ..rest },
                )
            },
            _ => self.resume(
                search.pruning,
                search.frames,
                run.position,
                self.search_node(
                    search.pruning,
                    run.position,
                    search.entry_depth(),
                    search.entry_alpha(),
                    search.entry_beta(),
                    search.table,
                ),
            ),
        }
    }

    /// The result that `run` ends with.
    pub open spec fn verdict(self, run: Run<M>) -> ActionModel<M> {
        if run.search.phase == Phase::Finished {
            run.action
        } else {
            ActionModel::Finished(
                reported(run.search.negate, self.finale(run).score),
                self.finale(run).table.take(run.search.depth as int),
            )
        }
    }

    /// The number of rounds after which `run` has ended.
    pub open spec fn remaining(self, run: Run<M>) -> nat {
        if run.search.phase == Phase::Finished {
            0
        } else {
            self.finale(run).rounds
        }
    }

    /// Rounds that the answering node still needs are rounds that the root
    /// still needs.
    pub proof fn lemma_resume_later(
        self,
        pruning: bool,
        frames: Seq<FrameModel<M>>,
        position: Seq<M>,
        answer: Outcome<M>,
        rounds: nat,
    )
        ensures
            self.resume(
                pruning,
                frames,
                position,
                Outcome { rounds: answer.rounds + rounds, ..answer },
            ) == (Outcome {
                rounds: self.resume(pruning, frames, position, answer).rounds + rounds,
                ..self.resume(pruning, frames, position, answer)
            }),
        decreases frames.len(),
    {
        if frames.len() > 0 {
            let later = Outcome { rounds: answer.rounds + rounds, ..answer };
            let settled = self.settle(pruning, position.drop_last(), frames.last(), answer);
            assert(self.settle(pruning, position.drop_last(), frames.last(), later) == Outcome {
                rounds: settled.rounds + rounds,
                ..settled
            });
            self.lemma_resume_later(
                pruning,
                frames.drop_last(),
                position.drop_last(),
                settled,
                rounds,
            );
        }
    }

    /// A node's answer is delivered: the run stays coherent, and it ends as
    /// the loops above the node say.
    pub proof fn lemma_deliver(self, search: SearchModel<M>, position: Seq<M>, value: int)
        requires
            deliverable(search, value),
            position.len() == search.frames.len(),
            self.follows(search, position),
        ensures
            ({
                let after = Run {
                    search: search.deliver(value).0,
                    action: search.deliver(value).1,
                    position,
                };
                let end = self.resume(
                    search.pruning,
                    search.frames,
                    position,
                    Outcome { score: value, table: search.table, rounds: 0 },
                );
                &&& self.coherent(after)
                &&& self.verdict(after) == ActionModel::Finished(
                    reported(search.negate, end.score),
                    end.table.take(search.depth as int),
                )
                &&& self.remaining(after) == end.rounds
            }),
    {
        lemma_deliver_inv(search, value);
        let delivered = search.deliver(value);
        let after = Run { search: delivered.0, action: delivered.1, position };
        if search.frames.len() > 0 {
            let parent = search.frames.last();
            let last = search.frames.len() - 1;
            assert(search.frames[last] == parent);
            assert(after.search.frames.drop_last() =~= search.frames.drop_last());
            assert(after.search.frames.last() == parent.absorb(value));
            assert forall|k: int|
                0 <= k < after.search.frames.len() && k <= position.len() implies (
            #[trigger] after.search.frames[k]).moves == (self.moves)(position.take(k)) by {
                assert(after.search.frames[k].moves == search.frames[k].moves);
            }
            assert forall|k: int|
                0 <= k < position.len() && k < after.search.frames.len() implies #[trigger] position[k]
                == after.search.frames[k].current() by {
                assert(after.search.frames[k].moves == search.frames[k].moves);
                assert(after.search.frames[k].next == search.frames[k].next);
            }
        }
    }

    /// One round of a coherent run: the answer is accepted, the run stays
    /// coherent, it ends as before, and one round less is to come.
    pub proof fn lemma_advance(self, run: Run<M>)
        requires
            self.coherent(run),
            run.search.phase != Phase::Finished,
        ensures
            run.search.accepts(self.event(run)),
            self.coherent(self.advance(run)),
            self.verdict(self.advance(run)) == self.verdict(run),
            self.remaining(self.advance(run)) + 1 == self.remaining(run),
    {
        let search = run.search;
        let position = run.position;
        let frames = search.frames;
        let pruning = search.pruning;
        let next = self.advance(run);
        assert(position.take(position.len() as int) =~= position);
        match search.phase {
            Phase::Evaluating => {
                let value = (self.eval)(position) as int;
                let answer = Outcome { score: value, table: search.table, rounds: 0 };
                self.lemma_deliver(search, position, value);
                self.lemma_resume_later(pruning, frames, position, answer, 1);
            },
            Phase::Generating => {
                let moves = (self.moves)(position);
                if moves.len() == 0 {
                    let returned = SearchModel { spare: search.spare.push(moves), ..search };
                    let answer = Outcome {
                        score: floor(pruning),
                        table: search.table,
                        rounds: 0,
                    };
                    self.lemma_deliver(returned, position, floor(pruning));
                    self.lemma_resume_later(pruning, frames, position, answer, 1);
                } else {
                    lemma_step_inv(search, self.event(run));
                    let frame = search.entry_frame(moves);
                    assert(next.search.frames.drop_last() =~= frames);
                    assert(next.search.frames.last() == frame);
                    self.lemma_resume_later(
                        pruning,
                        frames,
                        position,
                        self.explore(pruning, position, frame, search.table),
                        1,
                    );
                    assert forall|k: int|
                        0 <= k < next.search.frames.len() && k <= position.len() implies (
                    #[trigger] next.search.frames[k]).moves == (self.moves)(position.take(k)) by {
                        if k < frames.len() {
                            assert(next.search.frames[k] == frames[k]);
                        }
                    }
                    assert forall|k: int|
                        0 <= k < position.len() && k < next.search.frames.len() implies #[trigger] position[k]
                        == next.search.frames[k].current() by {
                        assert(next.search.frames[k] == frames[k]);
                    }
                }
            },
            Phase::Moving => {
                lemma_step_inv(search, self.event(run));
                let node = frames.last();
                let last = frames.len() - 1;
                assert(frames[last] == node);
                let reached = position.push(node.current());
                assert(reached.drop_last() =~= position);
                assert(next.position == reached);
                let answer = self.search_node(
                    pruning,
                    reached,
                    (node.depth - 1) as nat,
                    node.reply_alpha(pruning),
                    node.reply_beta(pruning),
                    search.table,
                );
                self.lemma_resume_later(
                    pruning,
                    frames.drop_last(),
                    position,
                    self.settle(pruning, position, node, answer),
                    1,
                );
                assert forall|k: int| 0 <= k <= position.len() implies #[trigger] reached.take(k)
                    == position.take(k) by {
                    assert(reached.take(k) =~= position.take(k));
                }
                assert(reached.take(reached.len() as int) =~= reached);
                assert(self.child(position, node.next as int) == reached);
                assert forall|k: int| 0 <= k <= reached.len() implies self.playable(
                    pruning,
                    k == 0 && !search.negate,
                    #[trigger] reached.take(k),
                    (search.depth - k) as nat,
                ) by {
                    if k <= position.len() {
                        assert(reached.take(k) == position.take(k));
                    }
                }
            },
            Phase::Undoing => {
                let node = frames.last();
                let last = frames.len() - 1;
                assert(frames[last] == node);
                let back = position.drop_last();
                assert forall|k: int| 0 <= k <= back.len() implies #[trigger] back.take(k)
                    == position.take(k) by {
                    assert(back.take(k) =~= position.take(k));
                }
                if node.exhausted() {
                    let popped = SearchModel {
                        spare: search.spare.push(node.moves),
                        frames: frames.drop_last(),
                        ..search
                    };
                    assert forall|k: int| 0 <= k < popped.frames.len() implies (
                    #[trigger] popped.frames[k]).depth + k == popped.depth
                        && popped.frames[k].inv(pruning) && !popped.frames[k].cut by {
                        assert(popped.frames[k] == frames[k]);
                    }
                    assert forall|k: int|
                        0 <= k < popped.frames.len() && k <= back.len() implies (
                    #[trigger] popped.frames[k]).moves == (self.moves)(back.take(k)) by {
                        assert(popped.frames[k] == frames[k]);
                        assert(back.take(k) == position.take(k));
                    }
                    assert forall|k: int|
                        0 <= k < back.len() && k < popped.frames.len() implies #[trigger] back[k]
                        == popped.frames[k].current() by {
                        assert(popped.frames[k] == frames[k]);
                        assert(back[k] == position[k]);
                    }
                    assert forall|k: int| 0 <= k <= back.len() implies self.playable(
                        pruning,
                        k == 0 && !search.negate,
                        #[trigger] back.take(k),
                        (search.depth - k) as nat,
                    ) by {
                        assert(back.take(k) == position.take(k));
                    }
                    let answer = Outcome { score: node.best, table: search.table, rounds: 0 };
                    self.lemma_deliver(popped, back, node.best);
                    self.lemma_resume_later(pruning, frames.drop_last(), back, answer, 1);
                } else {
                    lemma_step_inv(search, self.event(run));
                    assert(next.search.frames.drop_last() =~= frames.drop_last());
                    assert(next.search.frames.last() == node.advance());
                    self.lemma_resume_later(
                        pruning,
                        frames.drop_last(),
                        back,
                        self.explore(pruning, back, node.advance(), search.table),
                        1,
                    );
                    assert forall|k: int|
                        0 <= k < next.search.frames.len() && k <= back.len() implies (
                    #[trigger] next.search.frames[k]).moves == (self.moves)(back.take(k)) by {
                        assert(next.search.frames[k].moves == frames[k].moves);
                        assert(back.take(k) == position.take(k));
                    }
                    assert forall|k: int|
                        0 <= k < back.len() && k < next.search.frames.len() implies #[trigger] back[k]
                        == next.search.frames[k].current() by {
                        assert(next.search.frames[k] == frames[k]);
                        assert(back[k] == position[k]);
                    }
                    assert forall|k: int| 0 <= k <= back.len() implies self.playable(
                        pruning,
                        k == 0 && !search.negate,
                        #[trigger] back.take(k),
                        (search.depth - k) as nat,
                    ) by {
                        assert(back.take(k) == position.take(k));
                    }
                }
            },
            Phase::Finished => {},
        }
    }

    /// A coherent run ends: after the rounds that remain the search has
    /// handed out its verdict, the game is in the position in which the
    /// search began, and every answer on the way was accepted.
    pub proof fn lemma_run_ends(self, from: Run<M>)
        requires
            self.coherent(from),
        ensures
            self.accepted(from, self.remaining(from)),
            self.run(from, self.remaining(from)).search.phase == Phase::Finished,
            self.run(from, self.remaining(from)).action == self.verdict(from),
            self.run(from, self.remaining(from)).position.len() == 0,
        decreases self.remaining(from),
    {
        if from.search.phase != Phase::Finished {
            self.lemma_advance(from);
            self.lemma_run_ends(self.advance(from));
        }
    }
}

} // verus!
