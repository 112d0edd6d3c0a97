use std::time::Instant;

use syntaks::bitboard::Bitboard;
use syntaks::board::Position;
use syntaks::command::{set_position, PositionError};
use syntaks::correction::CorrectionHistory;
use syntaks::eval::{static_eval, static_eval_player};
use syntaks::history::History;
use syntaks::keys::{owner_key_at, side_key_value, top_key_at};
use syntaks::limit::Limits;
use syntaks::movegen::generate_moves;
use syntaks::movepick::{KillerTable, Movepicker, Stage};
use syntaks::notation::MoveStrError;
use syntaks::pv::{single_pv, update_pv, PvList};
use syntaks::road::{flood, has_road};
use syntaks::takmove::Move;
use syntaks::thread::ThreadData;
use syntaks::tpsparse::TpsError;
use syntaks::types::{Direction, Piece, PieceType, Player, Square};

fn pos_of(tps: &str) -> Position {
    Position::from_tps_str(tps).unwrap()
}

fn mv(text: &str) -> Move {
    Move::from_str(text).unwrap()
}

fn squares(bb: Bitboard) -> Vec<Square> {
    let mut it = bb.into_iter();
    let mut out = Vec::new();
    while let Some(sq) = it.next() {
        out.push(sq);
    }
    out
}

#[test]
fn bitboard_sets() {
    let a = Bitboard::empty().with_sq(Square::A1).with_sq(Square::F1).with_sq(Square::C4);
    assert_eq!(a.raw(), 1 | (1 << 5) | (1 << 20));
    assert_eq!(a.popcount(), 3);
    assert!(a.has_sq(Square::C4));
    assert!(!a.has_sq(Square::C3));
    assert_eq!(a.without_sq(Square::F1).raw(), 1 | (1 << 20));
    assert_eq!(a.with_sq_toggled(Square::A1).raw(), (1 << 5) | (1 << 20));
    assert_eq!(a.lsb(), Some(Square::A1));
    assert_eq!(Bitboard::empty().lsb(), None);
    assert_eq!(squares(a), vec![Square::A1, Square::F1, Square::C4]);
    assert_eq!(a.cmpl().popcount(), 33);
    assert_eq!(a.cmpl().and(a), Bitboard::empty());
    assert_eq!(a.cmpl().or(a).raw(), (1 << 36) - 1);
    assert_eq!(a.xor(a), Bitboard::empty());
    assert_eq!(Bitboard::from_raw(u64::MAX).raw(), (1 << 36) - 1);
    let mut b = a;
    b.set_sq(Square::B2);
    b.clear_sq(Square::A1);
    b.toggle_sq(Square::F6);
    assert_eq!(squares(b), vec![Square::F1, Square::B2, Square::C4, Square::F6]);
    assert_eq!(b.pop_lsb(), Some(Square::F1));
    assert_eq!(squares(b), vec![Square::B2, Square::C4, Square::F6]);
}

#[test]
fn bitboard_shifts_stop_at_the_edges() {
    let a = Bitboard::empty().with_sq(Square::A1).with_sq(Square::F1).with_sq(Square::C6);
    assert_eq!(squares(a.shift(Direction::Right)), vec![Square::B1, Square::D6]);
    assert_eq!(squares(a.shift(Direction::Left)), vec![Square::E1, Square::B6]);
    assert_eq!(squares(a.shift(Direction::Up)), vec![Square::A2, Square::F2]);
    assert_eq!(squares(a.shift(Direction::Down)), vec![Square::C5]);
    assert_eq!(a.shl(1).raw(), 2 | (1 << 6) | (1 << 33));
    assert_eq!(a.shr(1).raw(), (1 << 4) | (1 << 31));
    assert_eq!(Bitboard::edge(Direction::Up).raw(), 0xfc0000000);
    assert_eq!(Bitboard::edge(Direction::Down).raw(), 0x3f);
    assert_eq!(Bitboard::edge(Direction::Left).raw(), 0x41041041);
    assert_eq!(Bitboard::edge(Direction::Right).raw(), 0x820820820);
}

#[test]
fn squares_and_pieces() {
    assert_eq!(Square::from_raw(35), Some(Square::F6));
    assert_eq!(Square::from_raw(36), None);
    assert_eq!(Square::from_file_rank(2, 3), Some(Square::C4));
    assert_eq!(Square::from_file_rank(6, 0), None);
    assert_eq!(Square::C4.file(), 2);
    assert_eq!(Square::C4.rank(), 3);
    assert_eq!(Square::C4.bb().raw(), 1 << 20);
    assert_eq!(Square::F1.shift(Direction::Right), Some(Square::A2));
    assert_eq!(Square::F6.shift(Direction::Right), None);
    assert_eq!(Square::C4.to_bytes(), b"c4".to_vec());
    assert_eq!(Square::from_bytes(b"c4"), Ok(Square::C4));
    let mut all = Square::all();
    let mut count = 0;
    while let Some(sq) = all.next() {
        assert_eq!(sq.idx(), count);
        count += 1;
    }
    assert_eq!(count, 36);
    assert_eq!(PieceType::Capstone.with_player(Player::P2), Piece::P2Capstone);
    assert_eq!(Piece::P2Wall.player(), Player::P2);
    assert_eq!(Piece::P2Wall.piece_type(), PieceType::Wall);
    assert!(PieceType::Wall.is_blocker() && !PieceType::Wall.is_road());
    assert!(PieceType::Capstone.is_blocker() && PieceType::Capstone.is_road());
    assert!(!PieceType::Flat.is_blocker() && PieceType::Flat.is_road());
    assert_eq!(Direction::Down.offset(), -6);
    assert_eq!(Direction::from_raw(3), Some(Direction::Right));
}

#[test]
fn position_sets_follow_the_stacks() {
    let pos = pos_of("x6/x6/x6/x3,12S,x2/x,21C,x4/2,x4,1 1 9");
    assert_eq!(squares(pos.player_bb(Player::P1)), vec![Square::F1, Square::B2]);
    assert_eq!(squares(pos.player_bb(Player::P2)), vec![Square::A1, Square::D3]);
    assert_eq!(squares(pos.type_bb(PieceType::Flat)), vec![Square::A1, Square::F1]);
    assert_eq!(squares(pos.type_bb(PieceType::Wall)), vec![Square::D3]);
    assert_eq!(squares(pos.type_bb(PieceType::Capstone)), vec![Square::B2]);
    assert_eq!(squares(pos.occupied()), vec![Square::A1, Square::F1, Square::B2, Square::D3]);
    assert_eq!(squares(pos.roads(Player::P1)), vec![Square::F1, Square::B2]);
    assert_eq!(squares(pos.roads(Player::P2)), vec![Square::A1]);
    assert_eq!(squares(pos.all_blockers()), vec![Square::B2, Square::D3]);
    assert_eq!(squares(pos.player_piece_bb(Piece::P1Capstone)), vec![Square::B2]);
    assert_eq!(pos.flats_of(Player::P1), 1);
    assert_eq!(pos.flats_of(Player::P2), 1);
    for player in [Player::P1, Player::P2] {
        let mut on_board = 0;
        let mut all = Square::all();
        while let Some(sq) = all.next() {
            let stack = pos.stack_on(sq);
            assert_eq!(stack.is_empty(), stack.height() == 0);
            assert_eq!(stack.top().is_none(), stack.height() == 0);
            let mut owners = stack.into_iter();
            while let Some(owner) = owners.next() {
                if owner == player {
                    on_board += 1;
                }
            }
        }
        assert_eq!(on_board, 3);
        assert_eq!(pos.flats_in_hand(player) + pos.caps_in_hand(player) + on_board, 31);
    }
    assert_eq!(pos.caps_in_hand(Player::P1), 0);
    assert_eq!(pos.caps_in_hand(Player::P2), 1);
    assert_eq!(pos.stack_on(Square::B2).owner(0), Player::P2);
    assert_eq!(pos.stack_on(Square::B2).top_owner(), Player::P1);
}

#[test]
fn keys_are_made_of_their_parts() {
    let empty = Position::startpos();
    assert_eq!(empty.key(), 0);
    assert_eq!(empty.apply_nullmove().key(), side_key_value());
    let pos = pos_of("x6/x6/x6/x6/x6/21S,x5 1 2");
    let wall = top_key_at(PieceType::Wall, 0);
    let owners = owner_key_at(0, Player::P2, 0) ^ owner_key_at(1, Player::P1, 0);
    assert_eq!(pos.key(), wall ^ owners);
    assert_eq!(pos.blocker_key(), wall);
    assert_eq!(pos.wall_key(), wall);
    assert_eq!(pos.top_key(), wall);
    assert_eq!(pos.road_key(), 0);
    assert_eq!(pos.cap_key(), 0);
    assert_ne!(top_key_at(PieceType::Wall, 0), top_key_at(PieceType::Wall, 1));
    assert_ne!(owner_key_at(0, Player::P1, 0), owner_key_at(0, Player::P2, 0));
    let mut game = Position::startpos();
    for text in ["a1", "f6", "a2", "Sb1", "a2-", "b1<"] {
        assert!(game.is_legal(mv(text)));
        game = game.apply_move(mv(text));
        let again = pos_of(&game.tps());
        assert_eq!(game.key(), again.key());
        assert_eq!(game.road_key(), again.road_key());
        assert_eq!(game.top_key(), again.top_key());
        assert_eq!(game.cap_key(), again.cap_key());
        assert_eq!(game.wall_key(), again.wall_key());
        assert_eq!(game.blocker_key(), again.blocker_key());
    }
}

#[test]
fn history_values() {
    let pos = Position::startpos();
    let other = pos.apply_nullmove();
    let m = mv("c3");
    let prev = mv("2b2>11");
    let mut history = History::new();
    assert_eq!(history.score(&pos, m, Some(prev)), 0);
    history.update(&pos, m, None, 1000);
    assert_eq!(history.score(&pos, m, None), 1000);
    history.update(&pos, m, None, 1000);
    assert_eq!(history.score(&pos, m, None), 1939);
    history.update(&pos, m, None, -500);
    assert_eq!(history.score(&pos, m, None), 1380);
    assert_eq!(history.score(&other, m, None), 0);
    assert_eq!(history.score(&pos, mv("c4"), None), 0);
    history.update(&pos, m, Some(prev), 300);
    assert_eq!(history.score(&pos, m, None), 1380 + 300 - 1380 * 300 / 16384);
    assert_eq!(history.score(&pos, m, Some(prev)), 1380 + 300 - 1380 * 300 / 16384 + 300);
    assert_eq!(history.score(&pos, m, Some(mv("2b2>2"))), 1380 + 300 - 1380 * 300 / 16384 + 300);
    assert_eq!(history.score(&pos, m, Some(mv("2b3>2"))), 1380 + 300 - 1380 * 300 / 16384);
    let mut capped = History::new();
    capped.update(&pos, m, None, 100000);
    assert_eq!(capped.score(&pos, m, None), 4096);
    capped.update(&pos, m, None, -100000);
    assert_eq!(capped.score(&pos, m, None), 4096 - 4096 - 4096 * 4096 / 16384);
    capped.clear();
    assert_eq!(capped.score(&pos, m, None), 0);
    assert_eq!(History::move_idx(prev), 7);
    assert_eq!(History::move_idx(mv("Cc1")), 3 * 36 + 2);
}

#[test]
fn correction_values() {
    let pos = pos_of("x6/x6/x6/x6/x6/21S,x5 1 2");
    let mut corrhist = CorrectionHistory::new();
    assert_eq!(corrhist.correction(&pos), 0);
    corrhist.update(&pos, 8, 100, 20);
    assert_eq!(corrhist.correction(&pos), 25);
    corrhist.update(&pos, 8, 20, 100);
    assert_eq!(corrhist.correction(&pos), -1);
    assert_eq!(corrhist.correction(&pos.apply_nullmove()), 0);
    corrhist.clear();
    corrhist.update(&pos, 100, 1000, 0);
    assert_eq!(corrhist.correction(&pos), 80);
    corrhist.update(&pos, 100, -1000, 0);
    assert_eq!(corrhist.correction(&pos), (5 * (256 - 256 - 256 * 256 / 1024)) / 16);
}

#[test]
fn killers_keep_the_last_two() {
    let mut killers = KillerTable::new();
    assert!(!killers.contains(mv("a1")));
    killers.push(mv("a1"));
    killers.push(mv("a1"));
    assert_eq!(killers.get_first(), Some(mv("a1")));
    assert_eq!(killers.get_second(), None);
    killers.push(mv("b1"));
    assert_eq!(killers.get_first(), Some(mv("b1")));
    assert_eq!(killers.get_second(), Some(mv("a1")));
    killers.push(mv("c1"));
    assert!(killers.contains(mv("c1")) && killers.contains(mv("b1")) && !killers.contains(mv("a1")));
    killers.reset();
    assert!(!killers.contains(mv("c1")));
    assert_eq!(Stage::TtMove.next(), Stage::Killer1);
    assert_eq!(Stage::Moves.next(), Stage::End);
}

#[test]
fn movepicker_hands_out_every_legal_move_once() {
    let pos = pos_of("x6/x6/x6/x3,12S,x2/x,21C,x4/2,x4,1 1 9");
    let mut legal = Vec::new();
    generate_moves(&mut legal, &pos);
    let mut history = History::new();
    let prev = mv("d3");
    history.update(&pos, mv("e5"), Some(prev), 900);
    history.update(&pos, mv("f1+"), None, 950);
    history.update(&pos, mv("Sa6"), None, -50);
    let mut killers = KillerTable::new();
    killers.push(mv("a1>"));
    killers.push(mv("2b2+11"));
    killers.push(mv("c3"));
    let mut picker = Movepicker::new(&pos, Some(mv("b2<")), killers, Some(prev));
    let mut picked = Vec::new();
    while let Some(m) = picker.next(&history) {
        assert!(pos.is_legal(m));
        assert!(!picked.contains(&m));
        picked.push(m);
    }
    assert_eq!(picker.next(&history), None);
    assert_eq!(picked.len(), legal.len());
    assert_eq!(&picked[..5], &[mv("b2<"), mv("c3"), mv("2b2+11"), mv("e5"), mv("f1+")]);
    let wall = picked.iter().position(|m| *m == mv("Sa6")).unwrap();
    assert!(picked[5..wall].iter().all(|m| !m.is_spread()));
    assert!(picked[wall + 1..].iter().all(|m| m.is_spread()));
    let score = |m: &Move| history.score(&pos, *m, Some(prev)) + if m.is_spread() { 0 } else { 100 };
    for pair in picked[3..].windows(2) {
        assert!(score(&pair[0]) >= score(&pair[1]));
    }
    let mut plain = Movepicker::new(&pos, Some(mv("a1>")), KillerTable::new(), None);
    let first = plain.next(&history).unwrap();
    assert_ne!(first, mv("a1>"));
    assert_eq!(first, mv("e5"));
    assert_eq!(plain.next(&history), Some(mv("f1+")));
}

#[test]
fn static_evaluation() {
    let start = Position::startpos();
    assert_eq!(static_eval_player(&start, Player::P1, 0), -415);
    assert_eq!(static_eval_player(&start, Player::P2, 2), -265);
    assert_eq!(static_eval_player(&start, Player::P2, 100), -415 + 7500);
    assert_eq!(static_eval_player(&start, Player::P1, 1_000_000), -415 + 75_000_000);
    assert_eq!(static_eval(&start), -120);
    let after = start.apply_move(mv("a1"));
    assert_eq!(static_eval(&after), 228);
    let stack = pos_of("x6/x6/x6/x6/x6/2211,x5 1 5");
    assert_eq!(static_eval_player(&stack, Player::P1, 0), -294);
    assert_eq!(static_eval_player(&stack, Player::P2, 2), -239);
    assert_eq!(static_eval(&stack), -65);
    let wall = pos_of("x6/x6/x6/x6/x6/2211S,x5 1 5");
    assert_eq!(static_eval_player(&wall, Player::P1, 0), 2 * 35 - 15 - 364 - 25);
    let cap = pos_of("x6/x6/x6/x6/x6/12121212C,x5 1 9");
    assert_eq!(static_eval_player(&cap, Player::P2, 0), 3 * 40 - 3 * 20 - 13 * 27 + 9 * 0);
    let road = pos_of("x6/x6/x6/x6/1,x5/1,1,1,x3 1 9");
    assert_eq!(static_eval_player(&road, Player::P1, 0), 4 * 75 - 26 * 13 - 25 + 3 * 9 + 7);
    let rings = pos_of("x6/x6/x2,1,x3/x,1,x4/1,x5/1,x4,2 2 9");
    let first = static_eval_player(&rings, Player::P1, 0);
    let second = static_eval_player(&rings, Player::P2, 2);
    assert_eq!(static_eval(&rings), -(first - second + (2 + 8 - 15 - 40) + 40) + 30);
    let third = pos_of("x6/x6/x6/x6/x6/x2,1,x3 2 9");
    assert_eq!(
        static_eval(&third),
        -(static_eval_player(&third, Player::P1, 0) - static_eval_player(&third, Player::P2, 2) - 5)
            + 30
    );
}

#[test]
fn limits() {
    let limits = Limits::unbounded(Instant::now());
    assert!(!limits.should_stop_soft(usize::MAX));
    assert!(!limits.should_stop_hard(usize::MAX));
    let nodes = limits.with_nodes(100);
    assert!(!nodes.should_stop_hard(99));
    assert!(nodes.should_stop_hard(100));
    assert!(nodes.should_stop_soft(100));
    let timed = limits.with_move_time(50);
    assert_eq!((timed.soft_ms, timed.hard_ms), (Some(50), Some(50)));
    assert!(!timed.hard_stop_at(0, 49));
    assert!(timed.hard_stop_at(0, 50));
    let clock = limits.with_clock(60000, 1000, None);
    assert_eq!((clock.soft_ms, clock.hard_ms), (Some(2100), Some(7000)));
    let last = limits.with_clock(1000, 0, Some(1));
    assert_eq!((last.soft_ms, last.hard_ms), (Some(600), Some(500)));
    let zero = limits.with_clock(1000, 0, Some(0));
    assert_eq!(zero.soft_ms, Some(600));
    assert!(!clock.soft_stop_at(5, 2099));
    assert!(clock.soft_stop_at(5, 2100));
    assert!(!clock.hard_stop_at(5, 6999));
    assert!(limits.with_move_time(0).should_stop_hard(0));
}

#[test]
fn principal_variations() {
    let child = single_pv(mv("b1"));
    let mut pv = PvList::new();
    update_pv(&mut pv, mv("a1"), &child);
    assert_eq!(pv.as_slice(), &[mv("a1"), mv("b1")]);
    let mut longer = PvList::new();
    update_pv(&mut longer, mv("c1"), &pv);
    assert_eq!(longer.as_slice(), &[mv("c1"), mv("a1"), mv("b1")]);
    let mut full = PvList::new();
    for _ in 0..255 {
        full.push(mv("d4"));
    }
    update_pv(&mut pv, mv("e5"), &full);
    assert_eq!(pv.as_slice(), &[mv("e5")]);
}

#[test]
fn thread_data() {
    let mut thread = ThreadData::new(0);
    assert!(thread.is_main_thread());
    assert!(!ThreadData::new(1).is_main_thread());
    thread.inc_nodes();
    thread.inc_nodes();
    assert_eq!(thread.nodes, 2);
    thread.update_seldepth(4);
    thread.update_seldepth(2);
    assert_eq!(thread.seldepth, 5);
    thread.reset_seldepth();
    assert_eq!(thread.seldepth, 0);
    thread.reset(&[7, 8]);
    let pos = Position::startpos();
    let after = thread.apply_move(0, &pos, mv("a1"));
    assert_eq!(after, pos.apply_move(mv("a1")));
    assert_eq!(thread.key_history, vec![7, 8, pos.key()]);
    assert_eq!(thread.stack[0].mv, Some(mv("a1")));
    let passed = thread.apply_nullmove(1, &after);
    assert_eq!(passed.stm(), Player::P1);
    assert_eq!(passed.ply(), 2);
    assert_eq!(thread.stack[1].mv, None);
    thread.pop_move();
    thread.pop_move();
    assert_eq!(thread.key_history, vec![7, 8]);
}

#[test]
fn flood_stays_within_the_set() {
    let occ = pos_of("x6/x6/x6/1,1,x,1,x2/x,1,x,1,x2/1,1,x,1,1,x 1 9").roads(Player::P1);
    let seeds = Bitboard::empty().with_sq(Square::A1);
    assert_eq!(
        squares(flood(occ, seeds)),
        vec![Square::A1, Square::B1, Square::B2, Square::A3, Square::B3]
    );
    assert_eq!(flood(occ, Bitboard::empty().with_sq(Square::C1)), Bitboard::empty());
    assert!(!has_road(occ));
    assert!(has_road(occ.with_sq(Square::C2).with_sq(Square::F1)));
}

#[test]
fn position_commands() {
    fn words(line: &str) -> Vec<Vec<u8>> {
        line.split_ascii_whitespace().map(|w| w.as_bytes().to_vec()).collect()
    }
    let (pos, keys) = set_position(&words("startpos")).unwrap();
    assert_eq!(pos, Position::startpos());
    assert!(keys.is_empty());
    let (pos, keys) = set_position(&words("startpos moves a1 f6 Cc3")).unwrap();
    assert_eq!(pos.tps(), "x5,1/x6/x6/x2,1C,x3/x6/2,x5 2 2");
    assert_eq!(keys.len(), 3);
    assert_eq!(keys[0], Position::startpos().key());
    let (pos, keys) = set_position(&words("tps x6/x6/x6/x6/x6/1,x4,2 1 5 moves a1>")).unwrap();
    assert_eq!(pos.tps(), "x6/x6/x6/x6/x6/x,1,x3,2 2 5");
    assert_eq!(keys, vec![pos_of("x6/x6/x6/x6/x6/1,x4,2 1 5").key()]);
    let (pos, _) = set_position(&words("tps x6/x6/x6/x6/x6/1,x4,2 2")).unwrap();
    assert_eq!(pos.ply(), 1);
    assert_eq!(set_position(&words("")).err(), Some(PositionError::Empty));
    assert_eq!(set_position(&words("fen x")).err(), Some(PositionError::InvalidKind));
    assert_eq!(set_position(&words("tps")).err(), Some(PositionError::MissingTps));
    assert_eq!(set_position(&words("tps moves a1")).err(), Some(PositionError::MissingTps));
    assert_eq!(
        set_position(&words("tps x6/x6 1 1")).err(),
        Some(PositionError::BadTps(TpsError::WrongRankCount))
    );
    assert_eq!(
        set_position(&words("startpos moves a1 Sa")).err(),
        Some(PositionError::BadMove(1, MoveStrError::MissingSquare))
    );
    assert_eq!(
        set_position(&words("startpos moves a1 a1")).err(),
        Some(PositionError::IllegalMove(1))
    );
}
