use connect_four::grid::{Tile, COLUMNS, ROWS};
use connect_four::lobby::Lobby;
use connect_four::message::{column_text, read_column, MsgCode};
use connect_four::session::{Delivery, Message, Outcome, Received, Session};
use connect_four::turn::Turn;

fn code(to: Turn, c: MsgCode) -> Delivery {
    Delivery { to, message: Message::Code(c) }
}

fn column(to: Turn, c: usize) -> Delivery {
    Delivery { to, message: Message::Column(c) }
}

fn board_is_empty(s: &Session) -> bool {
    (0..COLUMNS).all(|c| (0..ROWS).all(|r| s.grid().tile_at(c, r) == Tile::Empty))
}

#[test]
fn opening_tells_each_player_their_role() {
    let (s, out) = Session::new(Turn::A);
    assert_eq!(out, vec![code(Turn::A, MsgCode::First), code(Turn::B, MsgCode::Second)]);
    assert_eq!(s.current(), Turn::A);
    assert_eq!(s.outcome(), None);
    assert!(!s.is_over());
    assert!(board_is_empty(&s));
    let (t, out) = Session::new(Turn::B);
    assert_eq!(out, vec![code(Turn::B, MsgCode::First), code(Turn::A, MsgCode::Second)]);
    assert_eq!(t.current(), Turn::B);
}

#[test]
fn random_start_announces_the_drawn_player() {
    for _ in 0..20 {
        let (s, out) = Session::start();
        let first = s.current();
        assert_eq!(out, vec![code(first, MsgCode::First), code(first.flipped(), MsgCode::Second)]);
        assert!(!s.is_over());
        assert!(board_is_empty(&s));
    }
}

#[test]
fn unreadable_move_asks_the_same_player_again() {
    let (mut s, _) = Session::new(Turn::A);
    assert_eq!(read_column(b"left"), None);
    let out = s.on_received(Received::Unreadable);
    assert_eq!(out, vec![code(Turn::A, MsgCode::Unexpected)]);
    assert_eq!(s.current(), Turn::A);
    assert!(!s.is_over());
    assert!(board_is_empty(&s));
}

#[test]
fn failed_channel_tells_the_other_player_and_ends() {
    let (mut s, _) = Session::new(Turn::B);
    let out = s.on_received(Received::Failed);
    assert_eq!(out, vec![code(Turn::A, MsgCode::OtherLeft)]);
    assert_eq!(s.outcome(), Some(Outcome::Abandoned(Turn::B)));
    assert_eq!(s.current(), Turn::B);
    assert!(s.is_over());
    assert_eq!(s.on_received(Received::Column(3)), vec![]);
    assert!(board_is_empty(&s));
}

#[test]
fn column_out_of_range_is_refused() {
    let (mut s, _) = Session::new(Turn::A);
    let out = s.on_received(Received::Column(7));
    assert_eq!(out, vec![code(Turn::A, MsgCode::OutOfBounds)]);
    let out = s.on_received(Received::Column(usize::MAX));
    assert_eq!(out, vec![code(Turn::A, MsgCode::OutOfBounds)]);
    assert_eq!(s.current(), Turn::A);
    assert!(board_is_empty(&s));
}

#[test]
fn full_column_is_refused() {
    let (mut s, _) = Session::new(Turn::A);
    for _ in 0..6 {
        s.on_received(Received::Column(0));
    }
    assert_eq!(s.current(), Turn::A);
    let out = s.on_received(Received::Column(0));
    assert_eq!(out, vec![code(Turn::A, MsgCode::ColumnFull)]);
    assert_eq!(s.current(), Turn::A);
    assert!(!s.is_over());
}

#[test]
fn accepted_move_is_relayed_to_the_opponent() {
    let (mut s, _) = Session::new(Turn::A);
    let c = read_column(b"5").unwrap();
    let out = s.on_received(Received::Column(c));
    assert_eq!(out, vec![code(Turn::A, MsgCode::Wait), code(Turn::B, MsgCode::Go), column(Turn::B, 5)]);
    assert_eq!(s.current(), Turn::B);
    assert_eq!(s.grid().tile_at(5, 5), Tile::PlayerA);
    match out[2].message {
        Message::Column(sent) => assert_eq!(read_column(&column_text(sent)), Some(5)),
        Message::Code(_) => panic!("expected a column"),
    }
}

#[test]
fn four_in_a_column_wins_the_match() {
    let (mut s, _) = Session::new(Turn::A);
    for _ in 0..3 {
        s.on_received(Received::Column(0));
        s.on_received(Received::Column(1));
    }
    let out = s.on_received(Received::Column(0));
    assert_eq!(out, vec![code(Turn::A, MsgCode::Win), code(Turn::B, MsgCode::Lose), column(Turn::B, 0)]);
    assert_eq!(s.outcome(), Some(Outcome::WinBy(Turn::A)));
    assert_eq!(s.current(), Turn::B);
    assert!(s.is_over());
}

#[test]
fn full_board_without_four_is_a_draw() {
    let moves = [
        4usize, 3, 6, 0, 1, 4, 5, 5, 1, 1, 5, 0, 1, 6, 0, 1, 5, 5, 1, 0, 4, 6, 3, 2, 6, 6, 0, 4,
        6, 5, 2, 0, 4, 2, 4, 2, 2, 2, 3, 3, 3, 3,
    ];
    let (mut s, _) = Session::new(Turn::A);
    for (i, &c) in moves.iter().enumerate() {
        let mover = s.current();
        let out = s.on_received(Received::Column(c));
        if i + 1 < moves.len() {
            assert_eq!(out[0], code(mover, MsgCode::Wait));
            assert!(!s.is_over());
        } else {
            assert_eq!(out, vec![code(mover, MsgCode::Draw), code(mover.flipped(), MsgCode::Draw)]);
            assert_eq!(s.current(), mover);
        }
    }
    assert_eq!(s.outcome(), Some(Outcome::Draw));
    assert!(s.grid().is_full());
}

#[test]
fn lobby_pairs_players_in_order_of_arrival() {
    let mut l: Lobby<u32> = Lobby::new();
    assert!(!l.has_pending());
    assert_eq!(l.arrive(1), None);
    assert!(l.has_pending());
    assert_eq!(l.arrive(2), Some((1, 2)));
    assert!(!l.has_pending());
    assert_eq!(l.arrive(3), None);
    assert_eq!(l.arrive(4), Some((3, 4)));
}
