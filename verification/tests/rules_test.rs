use syntaks::board::Position;
use syntaks::rules::FlatCountOutcome;
use syntaks::search::immediate_result;
use syntaks::takmove::Move;
use syntaks::thread::ThreadData;
use syntaks::tpsparse::TpsError;
use syntaks::types::{PieceType, Player, Square};

fn pos_of(tps: &str) -> Position {
    Position::from_tps_str(tps).unwrap()
}

fn mv(text: &str) -> Move {
    Move::from_str(text).unwrap()
}

#[test]
fn capstone_crushes_exactly_one_wall() {
    let pos = pos_of("x6/x6/x6/x6/1C,2S,x4/x6 1 3");
    assert!(pos.is_legal(mv("a2>")));
    let after = pos.apply_move(mv("a2>"));
    assert_eq!(after.tps(), "x6/x6/x6/x6/x,21C,x4/x6 2 3");
    assert_eq!(after.stack_on(Square::B2).top(), Some(PieceType::Capstone));
    assert_eq!(after.stack_on(Square::B2).height(), 2);
    assert!(after.stack_on(Square::A2).is_empty());

    let flat = pos_of("x6/x6/x6/x6/1,2S,x4/x6 1 3");
    assert!(!flat.is_legal(mv("a2>")));
    let wall = pos_of("x6/x6/x6/x6/1S,2S,x4/x6 1 3");
    assert!(!wall.is_legal(mv("a2>")));
    let onto_cap = pos_of("x6/x6/x6/x6/1C,2C,x4/x6 1 3");
    assert!(!onto_cap.is_legal(mv("a2>")));

    let stacked = pos_of("x6/x6/x6/x6/11C,2S,x4/x6 1 3");
    assert!(stacked.is_legal(mv("a2>")));
    assert!(!stacked.is_legal(mv("2a2>")));
    assert!(!stacked.is_legal(mv("2a2>11")));
    let far = pos_of("x6/x6/x6/x6/11C,x,2S,x3/x6 1 3");
    assert!(far.is_legal(mv("2a2>11")));
    assert!(far.is_legal(mv("2a2>2")));
    assert!(!far.is_legal(mv("2a2>")) || far.apply_move(mv("2a2>")).tps() == "x6/x6/x6/x6/x,11C,2S,x3/x6 2 3");
    let smashed = far.apply_move(mv("2a2>11"));
    assert_eq!(smashed.tps(), "x6/x6/x6/x6/x,1,21C,x3/x6 2 3");
}

#[test]
fn road_detection() {
    let road = pos_of("1,x5/1,x5/1,x5/1,x5/1,x5/1,x5 1 7");
    assert!(road.has_road(Player::P1));
    assert!(!road.has_road(Player::P2));
    let gap = pos_of("1,x5/1,x5/1,x5/x6/1,x5/1,x5 1 7");
    assert!(!gap.has_road(Player::P1));
    let cap = pos_of("1,x5/1,x5/1,x5/1C,x5/1,x5/1,x5 1 7");
    assert!(cap.has_road(Player::P1));
    let wall = pos_of("1,x5/1,x5/1,x5/1S,x5/1,x5/1,x5 1 7");
    assert!(!wall.has_road(Player::P1));
    let diagonal = pos_of("1,x5/1,x5/1,x5/2,1,x4/1,1,x4/1,x5 1 7");
    assert!(!diagonal.has_road(Player::P1));
    let around = pos_of("1,x5/1,x5/1,1,x4/2,1,x4/1,1,x4/1,x5 1 7");
    assert!(around.has_road(Player::P1));
    let across = pos_of("x6/x6/2,2,2,2,2,2/x6/x6/x6 1 7");
    assert!(across.has_road(Player::P2));
    let wrapped = pos_of("x6/x6/x6/x3,2,2,2/2,2,2,x3/x6 1 7");
    assert!(!wrapped.has_road(Player::P2));
}

#[test]
fn flat_count_when_the_board_fills() {
    let draw = pos_of("2,2,2,2,2,2/2,2,2,2,2,2/2,2,2,2,2,1/1,1,1,1,1,1/1,1,1,1,1,1/x,1,1,1,1,1 1 20");
    assert_eq!(draw.count_flats(), FlatCountOutcome::Undecided);
    let filled = draw.apply_move(mv("a1"));
    assert_eq!(filled.count_flats(), FlatCountOutcome::Draw);

    let win = pos_of("2,2,2,2,2,2/2,2,2,2,2,2/2,2,2,2,1,1/1,1,1,1,1,1/1,1,1,1,1,1/x,1,1,1,1,1 1 20");
    assert_eq!(win.apply_move(mv("a1")).count_flats(), FlatCountOutcome::Win(Player::P1));

    let loss = pos_of("2,2,2,2,2,2/2,2,2,2,2,2/2,2,2,2,2,2/1,1,1,1,1,1/1,1,1,1,1,1/x,1,1,1,1,1 1 20");
    assert_eq!(loss.apply_move(mv("a1")).count_flats(), FlatCountOutcome::Win(Player::P2));

    let walls = pos_of("2,2,2,2,2,2/2,2,2,2,2,2/2,2,2,2,2,1/1,1,1,1,1,1/1,1,1,1,1S,1S/x,1,1,1,1,1 1 20");
    assert_eq!(walls.apply_move(mv("a1")).count_flats(), FlatCountOutcome::Win(Player::P2));
}

#[test]
fn flat_count_when_a_reserve_runs_out() {
    let stack = "1".repeat(29);
    let tps = format!("x6/x6/x6/x6/x6/{},x4,2C 1 40", stack);
    let pos = pos_of(&tps);
    assert_eq!(pos.flats_in_hand(Player::P1), 1);
    assert_eq!(pos.count_flats(), FlatCountOutcome::Undecided);
    let after = pos.apply_move(mv("Cb1"));
    assert_eq!(after.caps_in_hand(Player::P1), 0);
    assert_eq!(after.count_flats(), FlatCountOutcome::Undecided);
    let last = after.apply_move(mv("a2")).apply_move(mv("c1"));
    assert_eq!(last.flats_in_hand(Player::P1), 0);
    assert_eq!(last.caps_in_hand(Player::P1), 0);
    assert_eq!(last.count_flats(), FlatCountOutcome::Win(Player::P2));
}

#[test]
fn repetition_is_a_draw() {
    let root = pos_of("x6/x6/x6/x6/x6/1,x4,2 1 5");
    let mut thread = ThreadData::new(0);
    thread.reset(&[]);
    let mut pos = root;
    let line = ["a1>", "f1<", "b1<", "e1>"];
    for (ply, text) in line.iter().enumerate() {
        let m = mv(text);
        assert!(pos.is_legal(m));
        let mover = pos.stm();
        let next = thread.apply_move(ply as i32, &pos, m);
        let known = immediate_result(&thread, &next, m, mover, ply as i32);
        if ply == 3 {
            assert_eq!(next.key(), root.key());
            assert!(thread.is_drawn_by_repetition(next.key(), ply as i32));
            assert_eq!(known, Some(0));
        } else {
            assert!(!thread.is_drawn_by_repetition(next.key(), ply as i32));
            assert_eq!(known, None);
        }
        pos = next;
    }
    assert_eq!(pos, root.apply_move(mv("a1>")).apply_move(mv("f1<")).apply_move(mv("b1<")).apply_move(mv("e1>")));
    assert_eq!(thread.key_history.iter().filter(|&&k| k == root.key()).count(), 1);
}

#[test]
fn repetition_of_the_game_counts_at_the_root() {
    let root = pos_of("x6/x6/x6/x6/x6/1,x4,2 1 5");
    let after = root.apply_move(mv("a1>"));
    let mut thread = ThreadData::new(0);
    thread.reset(&[after.key()]);
    thread.apply_move(0, &root, mv("a1>"));
    assert!(!thread.is_drawn_by_repetition(after.key(), 0));
    thread.pop_move();
    thread.reset(&[after.key(), root.key(), after.key()]);
    thread.apply_move(0, &root, mv("a1>"));
    assert!(thread.is_drawn_by_repetition(after.key(), 0));
}

#[test]
fn tps_round_trip_along_a_game() {
    let mut pos = Position::startpos();
    for text in [
        "a1", "f6", "c3", "c4", "Cd3", "Sd4", "d3+", "c4<", "2d4-11", "b2", "d2<", "a2", "Sc1", "Cb3",
        "c2+", "b3+", "c1+",
    ] {
        let m = mv(text);
        assert!(pos.is_legal(m), "{} in {}", text, pos.tps());
        pos = pos.apply_move(m);
        let read = Position::from_tps_str(&pos.tps()).unwrap();
        assert_eq!(read, pos, "{}", pos.tps());
        assert_eq!(read.key(), pos.key());
        assert_eq!(read.blocker_key(), pos.blocker_key());
    }
}

#[test]
fn tps_errors() {
    assert_eq!(Position::from_tps_str("").err(), Some(TpsError::BlankField));
    assert_eq!(Position::from_tps_str("x6/x6/x6/x6/x6/x6").err(), Some(TpsError::BlankField));
    assert_eq!(Position::from_tps_str("x6/x6/x6/x6/x6/x6 ").err(), Some(TpsError::BlankField));
    assert_eq!(Position::from_tps_str("x6/x6/x6/x6/x6/x6 3").err(), Some(TpsError::BadSideToMove));
    assert_eq!(Position::from_tps_str("x6/x6/x6/x6/x6/x6 1 0").err(), Some(TpsError::BadMoveNumber));
    assert_eq!(Position::from_tps_str("x6/x6/x6/x6/x6/x6 1 a").err(), Some(TpsError::BadMoveNumber));
    assert_eq!(Position::from_tps_str("x6/x6/x6/x6/x6/x6 1 32769").err(), Some(TpsError::BadMoveNumber));
    assert_eq!(Position::from_tps_str("x6/x6/x6/x6/x6 1 1").err(), Some(TpsError::WrongRankCount));
    assert_eq!(Position::from_tps_str("x6/x6/x6/x6/x6/x6/x6 1 1").err(), Some(TpsError::WrongRankCount));
    assert_eq!(Position::from_tps_str("x6/x6/x6/x6/x6/x5 1 1").err(), Some(TpsError::WrongFileCount));
    assert_eq!(Position::from_tps_str("x6/x6/x6/x6/x6/x6,1 1 1").err(), Some(TpsError::WrongFileCount));
    assert_eq!(Position::from_tps_str("x6/x6/x6/x6/x6/y6 1 1").err(), Some(TpsError::IllegalChar));
    assert_eq!(Position::from_tps_str("x6/x6/x6/x6/x6/x5,3 1 1").err(), Some(TpsError::IllegalChar));
    assert_eq!(Position::from_tps_str("x6/x6/x6/x6/x6/1C,1C,x4 1 1").err(), Some(TpsError::TooManyPieces));
    let tall = format!("x6/x6/x6/x6/x6/{},x5 1 1", "12".repeat(32));
    assert_eq!(Position::from_tps_str(&tall).err(), Some(TpsError::BadStack));
    let many = format!("x6/x6/x6/x6/x6/{},{},x4 1 1", "1".repeat(20), "1".repeat(11));
    assert_eq!(Position::from_tps_str(&many).err(), Some(TpsError::TooManyPieces));
    let read = Position::from_tps_str("x6/x6/x6/x6/x6/x,x2,21S,x2 2").unwrap();
    assert_eq!(read.tps(), "x6/x6/x6/x6/x6/x3,21S,x2 2 1");
    assert_eq!(read.ply(), 1);
    assert_eq!(read.flats_in_hand(Player::P1), 29);
    assert_eq!(read.flats_in_hand(Player::P2), 29);
}

#[test]
fn invariants_hold_along_a_game() {
    let mut pos = Position::startpos();
    let line = [
        "a1", "f6", "c3", "c4", "Cd3", "Sd4", "d3+", "c4<", "2d4-11", "b2", "d2<", "a2", "Sc1", "Cb3",
        "c2+", "b3+", "c1+", "e1", "e2", "Se3", "f1", "e1+", "f1<",
    ];
    for text in line {
        let m = mv(text);
        assert!(pos.is_legal(m), "{} in {}", text, pos.tps());
        pos = pos.apply_move(m);
        let first = pos.player_bb(Player::P1);
        let second = pos.player_bb(Player::P2);
        let flats = pos.type_bb(PieceType::Flat);
        let walls = pos.type_bb(PieceType::Wall);
        let caps = pos.type_bb(PieceType::Capstone);
        assert!(first.and(second).is_empty());
        assert!(flats.and(walls).is_empty());
        assert!(flats.and(caps).is_empty());
        assert!(walls.and(caps).is_empty());
        assert_eq!(flats.or(walls).or(caps), first.or(second));
        assert_eq!(first.or(second), pos.occupied());
        let mut on_board = [0u32, 0u32];
        for raw in 0..36 {
            let sq = Square::from_raw(raw).unwrap();
            let stack = pos.stack_on(sq);
            assert_eq!(stack.height() == 0, stack.top().is_none());
            assert_eq!(pos.occupied().has_sq(sq), stack.top().is_some());
            let mut count = 0;
            let mut owners = stack.into_iter();
            while let Some(owner) = owners.next() {
                on_board[owner.idx()] += 1;
                count += 1;
            }
            assert_eq!(count, stack.height());
            if count > 0 {
                assert!(pos.player_bb(stack.top_owner()).has_sq(sq));
            }
        }
        for player in [Player::P1, Player::P2] {
            let hand = u32::from(pos.flats_in_hand(player)) + u32::from(pos.caps_in_hand(player));
            assert_eq!(hand + on_board[player.idx()], 31);
        }
        let again = Position::from_tps_str(&pos.tps()).unwrap();
        assert_eq!(again, pos);
    }
    assert_eq!(pos.ply(), 23);
}
