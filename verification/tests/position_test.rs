use syntaks::board::Position;
use syntaks::notation::MoveStrError;
use syntaks::takmove::Move;
use syntaks::types::{Direction, PieceType, Player, Square, SquareStrError};

fn play(pos: &Position, text: &str) -> Position {
    let mv = Move::from_str(text).unwrap();
    assert!(pos.is_legal(mv), "{} should be legal in {}", text, pos.tps());
    pos.apply_move(mv)
}

#[test]
fn startpos_tps() {
    assert_eq!(Position::startpos().tps(), "x6/x6/x6/x6/x6/x6 1 1");
}

#[test]
fn opening_placements() {
    let mut pos = Position::startpos();
    for text in ["a1", "b1", "Sc1", "Cd1"] {
        pos = play(&pos, text);
    }
    assert_eq!(pos.tps(), "x6/x6/x6/x6/x6/2,1,1S,2C,x2 1 3");
    assert_eq!(pos.flats_in_hand(Player::P1), 28);
    assert_eq!(pos.caps_in_hand(Player::P1), 1);
    assert_eq!(pos.flats_in_hand(Player::P2), 29);
    assert_eq!(pos.caps_in_hand(Player::P2), 0);
    assert_eq!(pos.stm(), Player::P1);
    assert_eq!(pos.ply(), 4);
}

#[test]
fn opening_allows_only_flats() {
    let pos = Position::startpos();
    assert!(pos.is_legal(Move::from_str("c3").unwrap()));
    assert!(!pos.is_legal(Move::from_str("Sc3").unwrap()));
    assert!(!pos.is_legal(Move::from_str("Cc3").unwrap()));
    assert!(!pos.is_legal(Move::from_str("a1>").unwrap()));
}

#[test]
fn spread_moves_the_stack() {
    let mut pos = Position::startpos();
    for text in ["a1", "b1", "b2", "a2", "b1<", "a2-"] {
        pos = play(&pos, text);
    }
    assert_eq!(pos.tps(), "x6/x6/x6/x6/x,1,x4/212,x5 1 4");
    pos = play(&pos, "c1");
    pos = play(&pos, "3a1>12");
    assert_eq!(pos.tps(), "x6/x6/x6/x6/x,1,x4/x,2,112,x3 1 5");
}

#[test]
fn move_text_round_trip() {
    for text in ["a1", "Sc3", "Cf6", "a1>", "3a1>", "3a1>12", "6c3+123", "2d4-11", "6f6<111111"] {
        let mv = Move::from_str(text).unwrap();
        assert!(mv.is_valid());
        assert_eq!(mv.to_string(), text);
    }
}

#[test]
fn move_text_fields() {
    let mv = Move::from_str("3a1>12").unwrap();
    assert!(mv.is_spread());
    assert_eq!(mv.sq(), Square::A1);
    assert_eq!(mv.dir(), Direction::Right);
    assert_eq!(mv.pattern(), 0b011000);
    let mv = Move::from_str("Fb2").unwrap();
    assert_eq!(mv, Move::placement(PieceType::Flat, Square::B2));
    let mv = Move::from_str("a1<*").unwrap();
    assert_eq!(mv, Move::spread(Square::A1, Direction::Left, 32));
}

#[test]
fn move_text_errors() {
    assert_eq!(Move::from_str("é1"), Err(MoveStrError::NonAsciiString));
    assert_eq!(Move::from_str("a"), Err(MoveStrError::TooShort));
    assert_eq!(Move::from_str("Sa"), Err(MoveStrError::MissingSquare));
    assert_eq!(
        Move::from_str("g1"),
        Err(MoveStrError::InvalidSquare(SquareStrError::InvalidFile))
    );
    assert_eq!(
        Move::from_str("a7"),
        Err(MoveStrError::InvalidSquare(SquareStrError::InvalidRank))
    );
    assert_eq!(Move::from_str("a1x"), Err(MoveStrError::InvalidDirection));
    assert_eq!(Move::from_str("a1>1111111"), Err(MoveStrError::TooManySpreadSteps));
    assert_eq!(Move::from_str("2a1>17"), Err(MoveStrError::InvalidSpreadPattern));
    assert_eq!(Move::from_str("2a1>12"), Err(MoveStrError::TooManySpreadPieces));
    assert_eq!(Move::from_str("7a1>"), Err(MoveStrError::TooManySpreadPieces));
}

#[test]
fn move_from_raw_keeps_zero_free() {
    assert_eq!(Move::from_raw(0), None);
    let mv = Move::placement(PieceType::Wall, Square::C4);
    assert_eq!(Move::from_raw(mv.raw()), Some(mv));
    assert_eq!(mv.pt(), PieceType::Wall);
    assert_eq!(mv.sq(), Square::C4);
    assert!(!mv.is_spread());
}
