use chess_search::position::SideToMove;
use chess_search::score::{opposite, Score, SCORE_MAX, SCORE_MIN};
use chess_search::search::{Action, Event, Search};
use chess_search::table::record_line;

/// The placeholder move.
const NULL: u8 = 255;

/// A game for the tests. A position is the list of the moves that lead to
/// it; its legal moves and its score are looked up in `moves` and `eval`.
struct Toy {
    black_first: bool,
    history: Vec<u8>,
    moves: fn(&[u8]) -> Vec<u8>,
    eval: fn(&[u8]) -> Score,
    /// What was asked, in order.
    asked: Vec<String>,
}

impl Toy {
    fn new(black_first: bool, moves: fn(&[u8]) -> Vec<u8>, eval: fn(&[u8]) -> Score) -> Toy {
        Toy { black_first, history: Vec::new(), moves, eval, asked: Vec::new() }
    }

    fn side_to_move(&self) -> SideToMove {
        if self.black_first == (self.history.len() % 2 == 0) {
            SideToMove::Black
        } else {
            SideToMove::White
        }
    }

    fn generate_moves(&self, out: &mut Vec<u8>) {
        out.clear();
        out.extend((self.moves)(&self.history));
    }

    fn eval_relative(&self) -> Score {
        (self.eval)(&self.history)
    }

    /// The score relative to White.
    fn eval(&self) -> Score {
        match self.side_to_move() {
            SideToMove::White => self.eval_relative(),
            SideToMove::Black => -self.eval_relative(),
        }
    }

    fn do_move(&mut self, m: u8) {
        self.history.push(m);
    }

    fn undo_last_move(&mut self) {
        self.history.pop().unwrap();
    }
}

fn mix(history: &[u8]) -> u64 {
    let mut h: u64 = 0x9E37_79B9_7F4A_7C15;
    for m in history {
        h ^= *m as u64 + 1;
        h = h.wrapping_mul(0x0000_0100_0000_01B3);
        h ^= h >> 29;
    }
    h
}

/// One to three moves in every position.
fn mixed_moves(history: &[u8]) -> Vec<u8> {
    let count = 1 + mix(history) % 3;
    (0..count as u8).map(|m| m * 3 + (history.len() as u8)).collect()
}

/// Scores from -1000 to 1000.
fn mixed_eval(history: &[u8]) -> Score {
    ((mix(history) >> 7) % 2001) as Score - 1000
}

/// No move anywhere.
fn no_moves(_history: &[u8]) -> Vec<u8> {
    Vec::new()
}

/// A tree of two plies: the moves 1 and 2 at the root, and two replies to
/// each.
fn small_moves(history: &[u8]) -> Vec<u8> {
    match history {
        [] => vec![1, 2],
        [1] => vec![11, 12],
        [2] => vec![21, 22],
        _ => Vec::new(),
    }
}

fn small_eval(history: &[u8]) -> Score {
    match history {
        [] => 40,
        [1] => -7,
        [2] => 9,
        [1, 11] => 3,
        [1, 12] => 5,
        [2, 21] => -2,
        [2, 22] => 9,
        _ => 0,
    }
}

/// A tree of two plies in which the second reply to the second move
/// refutes it, so that the third reply need not be looked at.
fn refuted_moves(history: &[u8]) -> Vec<u8> {
    match history {
        [] => vec![1, 2],
        [1] => vec![11, 12],
        [2] => vec![21, 22, 23],
        _ => Vec::new(),
    }
}

fn refuted_eval(history: &[u8]) -> Score {
    match history {
        [1, 11] => 3,
        [1, 12] => 5,
        [2, 21] => 4,
        [2, 22] => 1,
        [2, 23] => 100,
        _ => 0,
    }
}

/// Every leaf is lost for the side that moves first.
fn hopeless_eval(history: &[u8]) -> Score {
    if history.len() % 2 == 0 {
        SCORE_MIN + 1
    } else {
        SCORE_MAX
    }
}

/// Every leaf is won for the side that moves first.
fn winning_eval(history: &[u8]) -> Score {
    if history.len() % 2 == 0 {
        SCORE_MAX
    } else {
        SCORE_MIN + 1
    }
}

fn lowest_eval(_history: &[u8]) -> Score {
    SCORE_MIN
}

/// Carries out what the search asks until it hands out its result. Before
/// and after each move made and taken back the position is compared with
/// what it was.
fn drive(started: (Search<u8>, Action<u8>), game: &mut Toy) -> (Score, Vec<u8>) {
    let (mut search, mut action) = started;
    let mut snapshots: Vec<Vec<u8>> = Vec::new();
    loop {
        let event = match action {
            Action::Evaluate => {
                game.asked.push(format!("eval {:?}", game.history));
                Event::Evaluated(game.eval_relative())
            }
            Action::GenerateMoves(mut list) => {
                game.asked.push(format!("moves {:?}", game.history));
                game.generate_moves(&mut list);
                Event::Generated(list)
            }
            Action::DoMove(m) => {
                game.asked.push(format!("do {}", m));
                snapshots.push(game.history.clone());
                game.do_move(m);
                Event::MoveDone
            }
            Action::UndoLastMove => {
                game.asked.push(format!("undo"));
                game.undo_last_move();
                assert_eq!(snapshots.pop().unwrap(), game.history);
                Event::MoveUndone
            }
            Action::Finished(score, line) => {
                assert!(snapshots.is_empty());
                return (score, line);
            }
        };
        assert!(search.accepts(&event));
        action = search.step(event);
    }
}

fn run_negamax(game: &mut Toy, depth: usize) -> (Score, Vec<u8>) {
    let started = Search::negamax(game.side_to_move(), depth, NULL);
    drive(started, game)
}

fn run_alpha_beta(game: &mut Toy, depth: usize) -> (Score, Vec<u8>) {
    let started = Search::alpha_beta(game.side_to_move(), depth, NULL);
    drive(started, game)
}

/// The exhaustive search as a recursive function.
fn negamax_recursive(line: &mut Vec<u8>, game: &mut Toy, depth: usize) -> Score {
    let mut max = SCORE_MIN;
    if depth == 0 {
        return game.eval_relative();
    }
    let mut list = Vec::new();
    game.generate_moves(&mut list);
    for m in list {
        game.do_move(m);
        let new_score = -negamax_recursive(line, game, depth - 1);
        if new_score > max {
            max = new_score;
            let idx = line.len() - depth * (depth + 1) / 2;
            line[idx] = m;
            for i in 1..depth {
                line[idx + i] = line[idx + i + depth - 1];
            }
        }
        game.undo_last_move();
    }
    max
}

/// The pruned search as a recursive function.
fn alpha_beta_recursive(
    line: &mut Vec<u8>,
    game: &mut Toy,
    mut alpha: Score,
    beta: Score,
    depth: usize,
) -> Score {
    let mut score = SCORE_MIN + 1;
    if depth == 0 {
        return game.eval_relative();
    }
    let mut list = Vec::new();
    game.generate_moves(&mut list);
    for m in list {
        game.do_move(m);
        let new_score = -alpha_beta_recursive(line, game, -beta, -alpha, depth - 1);
        if new_score >= beta {
            score = beta;
            game.undo_last_move();
            break;
        }
        if new_score > alpha {
            alpha = new_score;
            score = new_score;
            let idx = line.len() - depth * (depth + 1) / 2;
            line[idx] = m;
            for i in 1..depth {
                line[idx + i] = line[idx + i + depth - 1];
            }
        }
        game.undo_last_move();
    }
    score
}

fn reference(pruning: bool, game: &mut Toy, depth: usize) -> (Score, Vec<u8>) {
    let mut line = vec![NULL; depth * (depth + 1) / 2];
    let found = if pruning {
        alpha_beta_recursive(&mut line, game, SCORE_MIN + 1, SCORE_MAX, depth)
    } else {
        negamax_recursive(&mut line, game, depth)
    };
    line.truncate(depth);
    match game.side_to_move() {
        SideToMove::White => (found, line),
        SideToMove::Black => (-found, line),
    }
}

#[test]
fn negamax() {
    let mut pos_history = Toy::new(false, mixed_moves, mixed_eval);

    for depth in 0..=3 {
        let (score, pv) = run_negamax(&mut pos_history, depth);

        for m in pv.iter() {
            pos_history.do_move(*m);
        }
        assert_eq!(pos_history.eval(), score);
        for _ in 0..depth {
            pos_history.undo_last_move();
        }
    }
}

#[test]
fn alpha_beta() {
    let mut pos_history = Toy::new(false, mixed_moves, mixed_eval);

    for depth in 0..=4 {
        let (score, pv) = run_alpha_beta(&mut pos_history, depth);

        for m in pv.iter() {
            pos_history.do_move(*m);
        }
        assert_eq!(pos_history.eval(), score);
        for _ in 0..depth {
            pos_history.undo_last_move();
        }
    }
}

#[test]
fn negamax_and_alpha_beta_from_a_deeper_position() {
    for black_first in [false, true] {
        for first in 0..3u8 {
            let mut game = Toy::new(black_first, mixed_moves, mixed_eval);
            game.history.push(first);
            game.history.push(first + 4);
            let start = game.history.clone();
            for depth in 0..=4 {
                let (score, pv) = run_negamax(&mut game, depth);
                let (pruned_score, pruned_pv) = run_alpha_beta(&mut game, depth);
                assert_eq!(start, game.history);
                assert_eq!(score, pruned_score);
                assert_eq!(depth, pv.len());
                assert_eq!(depth, pruned_pv.len());
                for line in [pv, pruned_pv] {
                    for m in line.iter() {
                        let mut legal = Vec::new();
                        game.generate_moves(&mut legal);
                        assert!(legal.contains(m));
                        game.do_move(*m);
                    }
                    assert_eq!(game.eval(), score);
                    for _ in 0..depth {
                        game.undo_last_move();
                    }
                }
            }
        }
    }
}

#[test]
fn negamax_matches_the_recursive_search() {
    for black_first in [false, true] {
        for depth in 0..=5 {
            let mut game = Toy::new(black_first, mixed_moves, mixed_eval);
            let expected = reference(false, &mut game, depth);
            assert_eq!(expected, run_negamax(&mut game, depth));
        }
    }
}

#[test]
fn alpha_beta_matches_the_recursive_search() {
    for black_first in [false, true] {
        for depth in 0..=6 {
            let mut game = Toy::new(black_first, mixed_moves, mixed_eval);
            let expected = reference(true, &mut game, depth);
            assert_eq!(expected, run_alpha_beta(&mut game, depth));
        }
    }
}

#[test]
fn scores_agree_at_every_depth() {
    for black_first in [false, true] {
        for depth in 0..=4 {
            let mut game = Toy::new(black_first, mixed_moves, mixed_eval);
            let (exhaustive, _) = run_negamax(&mut game, depth);
            let (pruned, _) = run_alpha_beta(&mut game, depth);
            assert_eq!(exhaustive, pruned);
        }
    }
}

#[test]
fn depth_zero_scores_the_position() {
    let mut game = Toy::new(false, small_moves, small_eval);
    assert_eq!((40, Vec::new()), run_negamax(&mut game, 0));
    assert_eq!(vec!["eval []".to_string()], game.asked);
    let mut game = Toy::new(false, small_moves, small_eval);
    assert_eq!((40, Vec::new()), run_alpha_beta(&mut game, 0));
    assert_eq!(vec!["eval []".to_string()], game.asked);
}

#[test]
fn depth_zero_with_black_to_move_is_relative_to_white() {
    let mut game = Toy::new(true, small_moves, small_eval);
    assert_eq!((-40, Vec::new()), run_negamax(&mut game, 0));
    let mut game = Toy::new(true, small_moves, small_eval);
    assert_eq!((-40, Vec::new()), run_alpha_beta(&mut game, 0));
}

#[test]
fn depth_zero_hands_the_lowest_score_out_for_white() {
    let mut game = Toy::new(false, small_moves, lowest_eval);
    assert_eq!((SCORE_MIN, Vec::new()), run_negamax(&mut game, 0));
    let mut game = Toy::new(false, small_moves, lowest_eval);
    assert_eq!((SCORE_MIN, Vec::new()), run_alpha_beta(&mut game, 0));
}

#[test]
fn small_tree_by_hand() {
    // After 1 the mover's best reply leaves 3 for the root's side, after 2
    // it leaves -2: the root plays 1, and the reply is 11.
    let mut game = Toy::new(false, small_moves, small_eval);
    assert_eq!((3, vec![1, 11]), run_negamax(&mut game, 2));
    let mut game = Toy::new(false, small_moves, small_eval);
    assert_eq!((3, vec![1, 11]), run_alpha_beta(&mut game, 2));
    let mut game = Toy::new(false, small_moves, small_eval);
    assert_eq!((7, vec![1]), run_negamax(&mut game, 1));
    let mut game = Toy::new(false, small_moves, small_eval);
    assert_eq!((7, vec![1]), run_alpha_beta(&mut game, 1));
}

#[test]
fn small_tree_with_black_to_move() {
    let mut game = Toy::new(true, small_moves, small_eval);
    assert_eq!((-3, vec![1, 11]), run_negamax(&mut game, 2));
    let mut game = Toy::new(true, small_moves, small_eval);
    assert_eq!((-3, vec![1, 11]), run_alpha_beta(&mut game, 2));
}

#[test]
fn exhaustive_search_asks_in_order() {
    let mut game = Toy::new(false, small_moves, small_eval);
    run_negamax(&mut game, 2);
    let expected = [
        "moves []",
        "do 1",
        "moves [1]",
        "do 11",
        "eval [1, 11]",
        "undo",
        "do 12",
        "eval [1, 12]",
        "undo",
        "undo",
        "do 2",
        "moves [2]",
        "do 21",
        "eval [2, 21]",
        "undo",
        "do 22",
        "eval [2, 22]",
        "undo",
        "undo",
    ];
    assert_eq!(expected.to_vec(), game.asked);
}

#[test]
fn cutoff_skips_the_remaining_replies() {
    let mut game = Toy::new(false, refuted_moves, refuted_eval);
    assert_eq!((3, vec![1, 11]), run_alpha_beta(&mut game, 2));
    let expected = [
        "moves []",
        "do 1",
        "moves [1]",
        "do 11",
        "eval [1, 11]",
        "undo",
        "do 12",
        "eval [1, 12]",
        "undo",
        "undo",
        "do 2",
        "moves [2]",
        "do 21",
        "eval [2, 21]",
        "undo",
        "do 22",
        "eval [2, 22]",
        "undo",
        "undo",
    ];
    assert_eq!(expected.to_vec(), game.asked);
    let mut game = Toy::new(false, refuted_moves, refuted_eval);
    assert_eq!((3, vec![1, 11]), run_negamax(&mut game, 2));
    assert_eq!(22, game.asked.len());
    assert!(game.asked.contains(&"eval [2, 23]".to_string()));
}

#[test]
fn pruning_never_asks_more() {
    for depth in 0..=5 {
        let mut game = Toy::new(false, mixed_moves, mixed_eval);
        run_negamax(&mut game, depth);
        let exhaustive = game.asked.len();
        let mut game = Toy::new(false, mixed_moves, mixed_eval);
        run_alpha_beta(&mut game, depth);
        assert!(game.asked.len() <= exhaustive);
    }
}

#[test]
fn principal_variation_has_one_move_for_each_ply() {
    for depth in 0..=5 {
        let mut game = Toy::new(false, mixed_moves, mixed_eval);
        assert_eq!(depth, run_negamax(&mut game, depth).1.len());
        let mut game = Toy::new(true, mixed_moves, mixed_eval);
        assert_eq!(depth, run_alpha_beta(&mut game, depth).1.len());
    }
}

#[test]
fn root_without_moves_keeps_the_placeholders() {
    let mut game = Toy::new(false, no_moves, small_eval);
    assert_eq!((SCORE_MIN, vec![NULL, NULL, NULL]), run_negamax(&mut game, 3));
    assert_eq!(vec!["moves []".to_string()], game.asked);
    let mut game = Toy::new(false, no_moves, small_eval);
    assert_eq!((SCORE_MIN + 1, vec![NULL, NULL, NULL]), run_alpha_beta(&mut game, 3));
    let mut game = Toy::new(true, no_moves, small_eval);
    assert_eq!((SCORE_MAX, vec![NULL, NULL, NULL]), run_alpha_beta(&mut game, 3));
}

#[test]
fn pruned_search_without_a_good_move_keeps_the_placeholders() {
    // No move raises the lower bound, which is the score of a lost game.
    let mut game = Toy::new(false, small_moves, hopeless_eval);
    assert_eq!((SCORE_MIN + 1, vec![NULL, NULL]), run_alpha_beta(&mut game, 2));
    let mut game = Toy::new(false, small_moves, hopeless_eval);
    assert_eq!((SCORE_MIN + 1, vec![1, 11]), run_negamax(&mut game, 2));
}

#[test]
fn pruned_search_is_cut_off_at_the_highest_score() {
    let mut game = Toy::new(false, small_moves, winning_eval);
    assert_eq!((SCORE_MAX, vec![NULL, NULL]), run_alpha_beta(&mut game, 2));
    assert_eq!(10, game.asked.len());
    let mut game = Toy::new(false, small_moves, winning_eval);
    assert_eq!((SCORE_MAX, vec![1, 11]), run_negamax(&mut game, 2));
}

#[test]
fn inner_node_without_moves_in_a_pruned_search() {
    // After 2 there is no reply: that node answers the score of a lost
    // game, which cuts the root off at the highest score. The line is the
    // one that was noted for the move 1.
    fn moves(history: &[u8]) -> Vec<u8> {
        match history {
            [] => vec![1, 2],
            [1] => vec![11],
            _ => Vec::new(),
        }
    }
    let mut game = Toy::new(false, moves, small_eval);
    assert_eq!((SCORE_MAX, vec![1, 11]), run_alpha_beta(&mut game, 2));
}

#[test]
fn mirrored_root_negates_the_score() {
    for depth in 0..=4 {
        let mut white = Toy::new(false, mixed_moves, mixed_eval);
        let mut black = Toy::new(true, mixed_moves, mixed_eval);
        let (white_score, white_pv) = run_negamax(&mut white, depth);
        let (black_score, black_pv) = run_negamax(&mut black, depth);
        assert_eq!(white_score, -black_score);
        assert_eq!(white_pv, black_pv);
        let mut white = Toy::new(false, mixed_moves, mixed_eval);
        let mut black = Toy::new(true, mixed_moves, mixed_eval);
        assert_eq!(run_alpha_beta(&mut white, depth).0, -run_alpha_beta(&mut black, depth).0);
    }
}

#[test]
fn every_move_is_taken_back() {
    for depth in 0..=4 {
        let mut game = Toy::new(false, mixed_moves, mixed_eval);
        run_alpha_beta(&mut game, depth);
        assert!(game.history.is_empty());
        let made = game.asked.iter().filter(|a| a.starts_with("do ")).count();
        let undone = game.asked.iter().filter(|a| *a == "undo").count();
        assert_eq!(made, undone);
    }
}

#[test]
fn first_action_is_to_list_the_moves() {
    let (search, action) = Search::<u8>::negamax(SideToMove::White, 2, NULL);
    assert!(matches!(action, Action::GenerateMoves(_)));
    assert!(search.accepts(&Event::Generated(vec![1])));
    let (_, action) = Search::<u8>::alpha_beta(SideToMove::White, 0, NULL);
    assert!(matches!(action, Action::Evaluate));
}

#[test]
fn accepts_only_the_answer_to_what_was_asked() {
    let (mut search, _) = Search::<u8>::alpha_beta(SideToMove::White, 1, NULL);
    assert!(!search.accepts(&Event::Evaluated(0)));
    assert!(!search.accepts(&Event::MoveDone));
    assert!(!search.accepts(&Event::MoveUndone));
    assert!(search.accepts(&Event::Generated(vec![7, 8])));
    let action = search.step(Event::Generated(vec![7, 8]));
    assert!(matches!(action, Action::DoMove(7)));
    assert!(!search.accepts(&Event::MoveUndone));
    assert!(!search.accepts(&Event::Generated(vec![1])));
    assert!(search.accepts(&Event::MoveDone));
    let action = search.step(Event::MoveDone);
    assert!(matches!(action, Action::Evaluate));
    assert!(!search.accepts(&Event::MoveDone));
    assert!(search.accepts(&Event::Evaluated(-5)));
    let action = search.step(Event::Evaluated(-5));
    assert!(matches!(action, Action::UndoLastMove));
    assert!(!search.accepts(&Event::MoveDone));
    assert!(search.accepts(&Event::MoveUndone));
    let action = search.step(Event::MoveUndone);
    assert!(matches!(action, Action::DoMove(8)));
    search.step(Event::MoveDone);
    search.step(Event::Evaluated(-9));
    let action = search.step(Event::MoveUndone);
    match action {
        Action::Finished(score, line) => {
            assert_eq!(9, score);
            assert_eq!(vec![8], line);
        }
        _ => panic!("the search should be finished"),
    }
    assert!(!search.accepts(&Event::MoveDone));
    assert!(!search.accepts(&Event::MoveUndone));
    assert!(!search.accepts(&Event::Evaluated(0)));
    assert!(!search.accepts(&Event::Generated(vec![1])));
}

#[test]
fn accepts_no_score_that_cannot_be_negated() {
    // Below the root every score is negated.
    let (mut search, _) = Search::<u8>::negamax(SideToMove::White, 1, NULL);
    search.step(Event::Generated(vec![1]));
    search.step(Event::MoveDone);
    assert!(!search.accepts(&Event::Evaluated(SCORE_MIN)));
    assert!(search.accepts(&Event::Evaluated(SCORE_MIN + 1)));
    // At the root the score is negated for Black.
    let (search, _) = Search::<u8>::negamax(SideToMove::Black, 0, NULL);
    assert!(!search.accepts(&Event::Evaluated(SCORE_MIN)));
    let (search, _) = Search::<u8>::negamax(SideToMove::White, 0, NULL);
    assert!(search.accepts(&Event::Evaluated(SCORE_MIN)));
}

#[test]
fn exhaustive_search_accepts_no_inner_node_without_moves() {
    let (mut search, _) = Search::<u8>::negamax(SideToMove::White, 2, NULL);
    search.step(Event::Generated(vec![1]));
    search.step(Event::MoveDone);
    assert!(!search.accepts(&Event::Generated(Vec::new())));
    let (mut search, _) = Search::<u8>::alpha_beta(SideToMove::White, 2, NULL);
    search.step(Event::Generated(vec![1]));
    search.step(Event::MoveDone);
    assert!(search.accepts(&Event::Generated(Vec::new())));
    let (search, _) = Search::<u8>::negamax(SideToMove::Black, 2, NULL);
    assert!(!search.accepts(&Event::Generated(Vec::new())));
    let (search, _) = Search::<u8>::negamax(SideToMove::White, 2, NULL);
    assert!(search.accepts(&Event::Generated(Vec::new())));
}

#[test]
fn move_lists_are_handed_out_and_taken_back() {
    // A list that was filled at one node comes back for its sibling.
    let (mut search, action) = Search::<u8>::negamax(SideToMove::White, 2, NULL);
    let root_list = match action {
        Action::GenerateMoves(mut list) => {
            assert!(list.is_empty());
            list.extend([1, 2]);
            list
        }
        _ => panic!("the search should list the moves"),
    };
    search.step(Event::Generated(root_list));
    let action = search.step(Event::MoveDone);
    let mut list = match action {
        Action::GenerateMoves(list) => list,
        _ => panic!("the search should list the moves"),
    };
    list.push(11);
    search.step(Event::Generated(list));
    search.step(Event::MoveDone);
    search.step(Event::Evaluated(4));
    search.step(Event::MoveUndone);
    search.step(Event::MoveUndone);
    let action = search.step(Event::MoveDone);
    match action {
        Action::GenerateMoves(list) => assert_eq!(vec![11], list),
        _ => panic!("the search should list the moves"),
    }
}

#[test]
fn record_line_copies_the_row_behind() {
    // Three rows: that of depth 3 at 0, of depth 2 at 3, of depth 1 at 5.
    let mut table = vec![10, 11, 12, 20, 21, 30];
    record_line(&mut table, 3, 2, 7);
    assert_eq!(vec![10, 11, 12, 7, 30, 30], table);
    record_line(&mut table, 0, 3, 9);
    assert_eq!(vec![9, 7, 30, 7, 30, 30], table);
    record_line(&mut table, 5, 1, 1);
    assert_eq!(vec![9, 7, 30, 7, 30, 1], table);
}

#[test]
fn opposite_negates() {
    assert_eq!(-5, opposite(5));
    assert_eq!(SCORE_MAX, opposite(SCORE_MIN + 1));
    assert_eq!(SCORE_MIN + 1, opposite(SCORE_MAX));
    assert_eq!(0, opposite(0));
    assert_eq!(-32768, SCORE_MIN);
    assert_eq!(32767, SCORE_MAX);
}
