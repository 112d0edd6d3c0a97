use syntaks::board::Position;
use syntaks::movegen::generate_moves;
use syntaks::perft::perft;
use syntaks::takmove::Move;

#[test]
fn perft_from_start() {
    let pos = Position::startpos();
    assert_eq!(perft(&pos, 1), 36);
    assert_eq!(perft(&pos, 2), 1260);
    assert_eq!(perft(&pos, 3), 132720);
}

#[test]
fn generated_moves_are_the_legal_moves() {
    let mut pos = Position::startpos();
    for text in ["a1", "b1", "b2", "a2", "b1<", "a2-", "Cc3", "Sc2", "c3-"] {
        let mv = Move::from_str(text).unwrap();
        let mut moves = Vec::new();
        generate_moves(&mut moves, &pos);
        assert!(moves.contains(&mv), "{} missing in {}", text, pos.tps());
        for raw in 1..=u16::MAX {
            let candidate = Move::from_raw(raw).unwrap();
            assert_eq!(pos.is_legal(candidate), moves.contains(&candidate));
        }
        pos = pos.apply_move(mv);
    }
    assert_eq!(pos.tps(), "x6/x6/x6/x6/x,1,21C,x3/212,x5 2 5");
}

#[test]
fn perft_adds_up_over_the_moves() {
    let mut pos = Position::startpos();
    for text in ["a1", "b1", "b2", "a2", "b1<", "a2-", "Cc3", "Sc2"] {
        pos = pos.apply_move(Move::from_str(text).unwrap());
    }
    let mut moves = Vec::new();
    generate_moves(&mut moves, &pos);
    assert_eq!(perft(&pos, 1), moves.len());
    assert_eq!(perft(&pos, 0), moves.len());
    let mut two = 0;
    let mut three = 0;
    for mv in moves.iter() {
        let next = pos.apply_move(*mv);
        two += perft(&next, 1);
        three += perft(&next, 2);
    }
    assert_eq!(perft(&pos, 2), two);
    assert_eq!(perft(&pos, 3), three);
    assert_eq!(syntaks::perft::do_perft(&pos, 0), 1);
    assert_eq!(syntaks::perft::do_perft(&pos, -3), 1);
}
