use std::time::Instant;

use syntaks::board::Position;
use syntaks::limit::Limits;
use syntaks::report::{bestmove_line, info_line};
use syntaks::search::{
    corrhist_applies, history_bonus, lmr_depth, mate_in, rfp_cutoff, tt_cutoff, LmrTable,
    NodeKind, SearchContext, Searcher, SearcherImpl,
};
use syntaks::takmove::Move;
use syntaks::thread::{ThreadData, SCORE_INF, SCORE_MATE};
use syntaks::ttable::{TranspositionTable, TtFlag};
use syntaks::types::{PieceType, Square};

fn play(pos: &Position, text: &str) -> Position {
    let mv = Move::from_str(text).unwrap();
    assert!(pos.is_legal(mv), "{} should be legal in {}", text, pos.tps());
    pos.apply_move(mv)
}

#[test]
fn tt_cutoff_after_store() {
    let mut tt = TranspositionTable::new(1);
    let key = 0x1234_5678_9abc_def0;
    let mv = Move::placement(PieceType::Flat, Square::C3);
    tt.store(key, 100, Some(mv), 5, 0, TtFlag::LowerBound);
    let (hit, entry) = tt.probe(key, 0);
    assert!(hit);
    assert_eq!(entry.score, 100);
    assert_eq!(entry.depth, 5);
    assert_eq!(entry.flag, Some(TtFlag::LowerBound));
    assert_eq!(entry.mv, Some(mv));
    assert_eq!(tt_cutoff(&entry, 5, 50, 90), Some(100));
    assert_eq!(tt_cutoff(&entry, 6, 50, 90), None);
    assert_eq!(tt_cutoff(&entry, 5, 50, 101), None);
}

#[test]
fn search_takes_the_score_of_the_table() {
    let pos = play(&play(&Position::startpos(), "a1"), "f6");
    let mut searcher = SearcherImpl::new(LmrTable::zeros());
    let mut thread = ThreadData::new(0);
    let mut ctx = SearchContext::new(Limits::unbounded(Instant::now()));
    let mut pvs = Vec::new();
    for _ in 0..257 {
        pvs.push(syntaks::pv::PvList::new());
    }
    let quiet = searcher.search(&mut ctx, &mut thread, &mut pvs, &pos, 0, 1, 50, 90, NodeKind::NonPv);
    assert_eq!(quiet, syntaks::eval::static_eval(&pos));
    let mv = Move::placement(PieceType::Flat, Square::C3);
    let mut stored = SearcherImpl::new(LmrTable::zeros());
    stored.store(pos.key(), 100, Some(mv), 5, 1, TtFlag::LowerBound);
    let score = stored.search(&mut ctx, &mut thread, &mut pvs, &pos, 5, 1, 50, 90, NodeKind::NonPv);
    assert_eq!(score, 100);
}

#[test]
fn tt_mate_scores_move_with_the_ply() {
    let mut tt = TranspositionTable::new(1);
    let score = SCORE_MATE - 7;
    tt.store(42, score, None, 3, 4, TtFlag::Exact);
    let (hit, entry) = tt.probe(42, 2);
    assert!(hit);
    assert_eq!(entry.score, score + 4 - 2);
    assert_eq!(entry.mv, None);
    let (miss, none) = tt.probe(43, 2);
    assert!(!miss);
    assert_eq!(none.flag, None);
}

#[test]
fn tt_keeps_the_deeper_result_of_another_position() {
    let mut tt = TranspositionTable::new(1);
    let slots = 131072u64;
    let a = 5;
    let b = 5 + slots + (1 << 48);
    tt.store(a, 10, None, 8, 0, TtFlag::Exact);
    tt.store(b, 20, None, 3, 0, TtFlag::Exact);
    assert!(tt.probe(a, 0).0);
    assert!(!tt.probe(b, 0).0);
    tt.store(b, 20, None, 9, 0, TtFlag::Exact);
    assert!(tt.probe(b, 0).0);
    assert_eq!(tt.estimate_full_permille(), 1);
    tt.clear();
    assert!(!tt.probe(b, 0).0);
    assert_eq!(tt.estimate_full_permille(), 0);
}

#[test]
fn search_decisions() {
    assert!(rfp_cutoff(400, 2, 100));
    assert!(!rfp_cutoff(399, 2, 100));
    assert!(!rfp_cutoff(5000, 7, 100));
    assert_eq!(lmr_depth(5, 0), 4);
    assert_eq!(lmr_depth(5, 3), 2);
    assert_eq!(lmr_depth(5, 9), 1);
    assert_eq!(lmr_depth(1, 0), 1);
    assert!(corrhist_applies(TtFlag::Exact, 0, 10));
    assert!(corrhist_applies(TtFlag::UpperBound, 5, 10));
    assert!(!corrhist_applies(TtFlag::UpperBound, 15, 10));
    assert!(corrhist_applies(TtFlag::LowerBound, 15, 10));
    assert!(!corrhist_applies(TtFlag::LowerBound, 5, 10));
    assert_eq!(history_bonus(1), 0);
    assert_eq!(history_bonus(3), 600);
    assert_eq!(history_bonus(20), 2500);
    assert_eq!(mate_in(SCORE_MATE - 1), Some(1));
    assert_eq!(mate_in(SCORE_MATE - 4), Some(2));
    assert_eq!(mate_in(-SCORE_MATE + 2), Some(-1));
    assert_eq!(mate_in(250), None);
}

#[test]
fn lmr_table_needs_its_shape() {
    assert!(LmrTable::from_rows(vec![vec![0; 64]; 255]).is_some());
    assert!(LmrTable::from_rows(vec![vec![0; 64]; 254]).is_none());
    assert!(LmrTable::from_rows(vec![vec![0; 63]; 255]).is_none());
    assert!(LmrTable::from_rows(vec![vec![-1; 64]; 255]).is_none());
    let mut rows = vec![vec![0; 64]; 255];
    rows[4][9] = 2;
    let table = LmrTable::from_rows(rows).unwrap();
    assert_eq!(table.get(5, 10), 2);
    assert_eq!(table.get(5, 11), 0);
}

#[test]
fn search_finds_the_winning_road() {
    let mut pos = Position::startpos();
    for text in ["f6", "a1", "b1", "f5", "c1", "e6", "d1", "e5", "e1", "d6"] {
        pos = play(&pos, text);
    }
    let mut searcher = Searcher::new(LmrTable::zeros());
    let limits = Limits::unbounded(Instant::now());
    let reports = searcher.start_search(&pos, &[], Instant::now(), limits, 2);
    let best = searcher.best_move().unwrap();
    assert_eq!(best.to_string(), "f1");
    let last = reports.last().unwrap();
    assert_eq!(last.pv[0], best);
    assert_eq!(last.score, SCORE_MATE - 1);
    let line = String::from_utf8(info_line(last)).unwrap();
    assert!(line.starts_with("info depth 2 seldepth "), "{}", line);
    assert!(line.contains(" score mate 1 "), "{}", line);
    assert!(line.ends_with(" pv f1"), "{}", line);
    assert_eq!(String::from_utf8(bestmove_line(best)).unwrap(), "bestmove f1");
}

#[test]
fn search_stops_at_the_node_bound() {
    let pos = play(&play(&Position::startpos(), "a1"), "f6");
    let mut searcher = Searcher::new(LmrTable::zeros());
    let limits = Limits::unbounded(Instant::now()).with_nodes(2000);
    let reports = searcher.start_search(&pos, &[], Instant::now(), limits, 50);
    assert!(!reports.is_empty());
    let last = reports.last().unwrap();
    assert!(last.nodes >= 2000 && last.nodes < 200000);
    let best = searcher.best_move().unwrap();
    assert!(pos.is_legal(best));
    assert!(last.score > -SCORE_INF);
}

#[test]
fn root_moves_are_the_legal_moves_in_order() {
    let pos = play(&play(&play(&Position::startpos(), "a1"), "f6"), "c3");
    let mut searcher = Searcher::new(LmrTable::zeros());
    let limits = Limits::unbounded(Instant::now());
    searcher.begin(&pos, &[], Instant::now(), limits, 2);
    let first = searcher.step();
    assert!(!first.done);
    let info = first.info.unwrap();
    assert_eq!(info.depth, 1);
    assert!(pos.is_legal(info.pv[0]));
    let second = searcher.step();
    assert!(second.done);
    assert!(second.info.is_none());
    let last = searcher.last_report().unwrap();
    assert_eq!(last.depth, 2);
    assert_eq!(Some(last.pv[0]), searcher.best_move());
    let mut next = pos;
    for mv in last.pv.iter() {
        assert!(next.is_legal(*mv));
        next = next.apply_move(*mv);
    }
}

#[test]
fn thread_finds_its_root_moves() {
    let pos = Position::startpos();
    let mut thread = ThreadData::new(0);
    SearcherImpl::prepare(&mut thread, &pos);
    assert_eq!(thread.root_moves.len(), 36);
    assert_eq!(thread.root_depth, 1);
    let mv = Move::placement(PieceType::Flat, Square::D4);
    let at = thread.find_root_move(mv).unwrap();
    assert_eq!(thread.root_moves[at].pv[0], mv);
    assert_eq!(thread.get_root_move(mv).score, -SCORE_INF);
    thread.get_root_move_mut(mv).score = 17;
    assert_eq!(thread.root_moves[at].score, 17);
    assert_eq!(thread.find_root_move(Move::placement(PieceType::Wall, Square::D4)), None);
    syntaks::search::sort_root_moves(&mut thread.root_moves);
    assert_eq!(thread.pv_move().score, 17);
    assert_eq!(thread.pv_move().pv[0], mv);
}

#[test]
fn old_table_entries_give_way() {
    let mut tt = TranspositionTable::new(1);
    let a = 5;
    let b = 5 + 131072 + (1 << 48);
    tt.store(a, 10, None, 8, 0, TtFlag::Exact);
    tt.age_up();
    assert_eq!(tt.estimate_full_permille(), 0);
    tt.store(b, 20, None, 3, 0, TtFlag::UpperBound);
    assert!(tt.probe(b, 0).0);
    assert!(!tt.probe(a, 0).0);
    assert_eq!(tt.estimate_full_permille(), 1);
    tt.resize(2);
    assert!(!tt.probe(b, 0).0);
}

#[test]
fn searcher_keeps_and_ages_results() {
    let mut searcher = SearcherImpl::new(LmrTable::zeros());
    assert_eq!(searcher.hashfull(), 0);
    searcher.store(7, 30, None, 4, 0, TtFlag::Exact);
    searcher.store(8, -30, None, 4, 0, TtFlag::UpperBound);
    assert_eq!(searcher.hashfull(), 2);
    searcher.new_search();
    assert_eq!(searcher.hashfull(), 0);
    searcher.store(7, 31, None, 1, 0, TtFlag::Exact);
    assert_eq!(searcher.hashfull(), 1);
    searcher.reset();
    assert_eq!(searcher.hashfull(), 0);
}

#[test]
fn root_moves_are_noted() {
    let pos = Position::startpos();
    let mut thread = ThreadData::new(0);
    SearcherImpl::prepare(&mut thread, &pos);
    thread.seldepth = 3;
    let mv = Move::placement(PieceType::Flat, Square::B2);
    let reply = Move::placement(PieceType::Flat, Square::E5);
    let child = syntaks::pv::single_pv(reply);
    let at = thread.find_root_move(mv).unwrap();
    SearcherImpl::note_root(&mut thread, &child, mv, 42, true);
    assert_eq!(thread.root_moves[at].score, 42);
    assert_eq!(thread.root_moves[at].seldepth, 3);
    assert_eq!(thread.root_moves[at].pv.as_slice(), &[mv, reply]);
    assert_eq!(thread.root_moves[at + 1].score, -SCORE_INF);
    thread.seldepth = 9;
    SearcherImpl::note_root(&mut thread, &syntaks::pv::PvList::new(), mv, 50, false);
    assert_eq!(thread.root_moves[at].score, -SCORE_INF);
    assert_eq!(thread.root_moves[at].seldepth, 3);
    assert_eq!(thread.root_moves[at].pv.as_slice(), &[mv, reply]);
}

fn full_but_f1(rank1: &str) -> Position {
    let walls = "1S,2S,1S,2S,1S,2S";
    let tps = format!("{w}/{w}/{w}/{w}/{w}/{r} 1 19", w = walls, r = rank1);
    Position::from_tps_str(&tps).unwrap()
}

fn fresh_lines() -> Vec<syntaks::pv::PvList> {
    let mut pvs = Vec::new();
    for _ in 0..257 {
        pvs.push(syntaks::pv::PvList::new());
    }
    pvs
}

fn best_shallow(pos: &Position, ply: i32) -> i32 {
    let mut thread = ThreadData::new(0);
    let mut moves = Vec::new();
    syntaks::movegen::generate_moves(&mut moves, pos);
    let mut best = -SCORE_INF;
    for m in moves {
        let next = thread.apply_move(ply, pos, m);
        let score = match syntaks::search::immediate_result(&thread, &next, m, pos.stm(), ply) {
            Some(s) => s,
            None => -syntaks::eval::static_eval(&next),
        };
        thread.pop_move();
        best = best.max(score);
    }
    best
}

fn search_once(pos: &Position, depth: i32, ply: i32, kind: NodeKind) -> i32 {
    let mut searcher = SearcherImpl::new(LmrTable::zeros());
    let mut thread = ThreadData::new(0);
    let mut ctx = SearchContext::new(Limits::unbounded(Instant::now()));
    let mut pvs = fresh_lines();
    let score =
        searcher.search(&mut ctx, &mut thread, &mut pvs, pos, depth, ply, -SCORE_INF, SCORE_INF, kind);
    assert!(!ctx.has_stopped());
    score
}

#[test]
fn last_square_is_scored_by_flats() {
    let thread = ThreadData::new(0);
    let flat = Move::from_str("f1").unwrap();
    let wall = Move::from_str("Sf1").unwrap();
    let ply = 3;

    let won = full_but_f1("1,1,1,1,2,x");
    let after = won.apply_move(flat);
    assert_eq!(after.count_flats(), syntaks::rules::FlatCountOutcome::Win(syntaks::types::Player::P1));
    assert_eq!(
        syntaks::search::immediate_result(&thread, &after, flat, won.stm(), ply),
        Some(SCORE_MATE - ply - 1)
    );
    assert_eq!(search_once(&won, 1, ply, NodeKind::Pv), SCORE_MATE - ply - 1);
    assert_eq!(search_once(&won, 2, ply, NodeKind::Pv), SCORE_MATE - ply - 1);

    let drawn = full_but_f1("1,1,1,2,2,x");
    let after = drawn.apply_move(flat);
    assert_eq!(after.count_flats(), syntaks::rules::FlatCountOutcome::Draw);
    assert_eq!(syntaks::search::immediate_result(&thread, &after, flat, drawn.stm(), ply), Some(0));
    let after = drawn.apply_move(wall);
    assert_eq!(after.count_flats(), syntaks::rules::FlatCountOutcome::Win(syntaks::types::Player::P2));
    assert_eq!(
        syntaks::search::immediate_result(&thread, &after, wall, drawn.stm(), ply),
        Some(-SCORE_MATE + ply + 1)
    );
    assert!(search_once(&drawn, 1, ply, NodeKind::Pv) >= 0);
    assert!(search_once(&drawn, 2, ply, NodeKind::Pv) >= 0);

    let lost = full_but_f1("1,2,2,2,2,x");
    let after = lost.apply_move(flat);
    assert_eq!(after.count_flats(), syntaks::rules::FlatCountOutcome::Win(syntaks::types::Player::P2));
    assert_eq!(
        syntaks::search::immediate_result(&thread, &after, flat, lost.stm(), ply),
        Some(-SCORE_MATE + ply + 1)
    );
    assert!(search_once(&lost, 1, ply, NodeKind::Pv) >= -SCORE_MATE + ply + 1);
}

#[test]
fn depth_one_takes_the_best_move() {
    let start = Position::startpos();
    assert_eq!(search_once(&start, 1, 0, NodeKind::Pv), best_shallow(&start, 0));
    let mut pos = start;
    for text in ["a1", "f6", "c3", "c4", "d3", "Sb3", "Cd4", "e3", "d4-"] {
        pos = play(&pos, text);
        assert_eq!(search_once(&pos, 1, 0, NodeKind::Pv), best_shallow(&pos, 0));
        assert_eq!(search_once(&pos, 1, 2, NodeKind::NonPv), best_shallow(&pos, 2));
    }
    for rank1 in ["1,1,1,1,2,x", "1,1,1,2,2,x", "1,2,2,2,2,x"] {
        let pos = full_but_f1(rank1);
        assert_eq!(search_once(&pos, 1, 0, NodeKind::Pv), best_shallow(&pos, 0));
    }
}

#[test]
fn table_cutoff_changes_nothing_but_the_count() {
    let pos = play(&play(&Position::startpos(), "a1"), "f6");
    let mut searcher = SearcherImpl::new(LmrTable::zeros());
    let mv = Move::placement(PieceType::Flat, Square::C3);
    searcher.store(pos.key(), 100, Some(mv), 5, 0, TtFlag::LowerBound);
    searcher.store(7, 30, None, 4, 0, TtFlag::Exact);
    assert_eq!(searcher.hashfull(), 1);
    let mut thread = ThreadData::new(0);
    let mut ctx = SearchContext::new(Limits::unbounded(Instant::now()));
    let mut pvs = fresh_lines();
    let marked = Move::placement(PieceType::Wall, Square::B2);
    pvs[0] = syntaks::pv::single_pv(marked);
    let score = searcher.search(&mut ctx, &mut thread, &mut pvs, &pos, 5, 0, 50, 90, NodeKind::NonPv);
    assert_eq!(score, 100);
    assert_eq!(thread.nodes, 1);
    assert_eq!(thread.seldepth, 0);
    assert!(thread.key_history.is_empty());
    assert_eq!(searcher.hashfull(), 1);
    assert_eq!(pvs[0].as_slice(), &[marked]);
    assert!(!ctx.has_stopped());
    let again = searcher.search(&mut ctx, &mut thread, &mut pvs, &pos, 5, 0, 50, 90, NodeKind::NonPv);
    assert_eq!(again, 100);
    assert_eq!(thread.nodes, 2);
    let high = syntaks::eval::static_eval(&pos);
    let futile = searcher.search(&mut ctx, &mut thread, &mut pvs, &pos, 6, 0, -4000, -3000, NodeKind::NonPv);
    assert_eq!(futile, high);
    assert_eq!(thread.nodes, 3);
    assert_eq!(searcher.hashfull(), 1);
}

#[test]
fn search_reaches_the_depth_asked_for() {
    let pos = play(&play(&play(&Position::startpos(), "a1"), "f6"), "c3");
    let mut searcher = Searcher::new(LmrTable::zeros());
    let reports = searcher.start_search(&pos, &[], Instant::now(), Limits::unbounded(Instant::now()), 3);
    assert_eq!(reports.len(), 3);
    for (k, info) in reports.iter().enumerate() {
        assert_eq!(info.depth, k as i32 + 1);
        assert!(info.hashfull <= 1000);
    }
    let last = reports.last().unwrap();
    assert_eq!(Some(last.pv[0]), searcher.best_move());
    let again = searcher.last_report().unwrap();
    assert_eq!(again.depth, 3);
    assert_eq!(again.score, last.score);
    assert_eq!(again.nodes, last.nodes);
    assert_eq!(again.seldepth, last.seldepth);
    assert_eq!(again.pv, last.pv);
    assert_eq!(again.hashfull, last.hashfull);
    let shallow = searcher.start_search(&pos, &[], Instant::now(), Limits::unbounded(Instant::now()), 0);
    assert_eq!(shallow.len(), 1);
    assert_eq!(shallow[0].depth, 1);

    searcher.begin(&pos, &[], Instant::now(), Limits::unbounded(Instant::now()), 3);
    assert!(!searcher.step().done);
    assert!(!searcher.step().done);
    assert!(searcher.step().done);

    let few = Limits::unbounded(Instant::now()).with_nodes(1);
    searcher.begin(&pos, &[], Instant::now(), few, 3);
    let first = searcher.step();
    assert!(first.done);
    assert!(first.info.is_none());
    assert_eq!(searcher.last_report().unwrap().depth, 1);
}

#[test]
fn root_scores_follow_the_search() {
    let mut pos = Position::startpos();
    for text in ["a1", "f6", "c3", "c4", "d3", "Sb3"] {
        pos = play(&pos, text);
    }
    for depth in 1..=2 {
        let mut searcher = SearcherImpl::new(LmrTable::zeros());
        let mut thread = ThreadData::new(0);
        SearcherImpl::prepare(&mut thread, &pos);
        thread.root_depth = depth;
        let mut ctx = SearchContext::new(Limits::unbounded(Instant::now()));
        let mut pvs = fresh_lines();
        let score = searcher.search(
            &mut ctx,
            &mut thread,
            &mut pvs,
            &pos,
            depth,
            0,
            -SCORE_INF,
            SCORE_INF,
            NodeKind::Root,
        );
        assert!(!ctx.has_stopped());
        assert!(thread.root_moves.iter().all(|m| m.score <= score));
        assert!(thread.root_moves.iter().any(|m| m.score == score));
        if depth == 1 {
            assert_eq!(score, best_shallow(&pos, 0));
        }
    }
}
