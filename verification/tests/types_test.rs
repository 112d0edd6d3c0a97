use syntaks::types::{Direction, Player, Square};

#[test]
fn player_flip_toggles() {
    assert_eq!(Player::P1.flip(), Player::P2);
    assert_eq!(Player::P2.flip(), Player::P1);
    assert_eq!(Player::P1.sign(), 1);
    assert_eq!(Player::P2.sign(), -1);
}

#[test]
fn square_shift_checked_rejects_edges() {
    assert_eq!(Square::A1.shift_checked(Direction::Left), None);
    assert_eq!(Square::F1.shift_checked(Direction::Right), None);
    assert_eq!(Square::A1.shift_checked(Direction::Down), None);
    assert_eq!(Square::F6.shift_checked(Direction::Up), None);
    assert_eq!(Square::C3.shift_checked(Direction::Up), Some(Square::C4));
    assert_eq!(Square::C3.shift_checked(Direction::Left), Some(Square::B3));
}
