use connect_four::message::{column_text, read_column, MsgCode};

#[test]
fn tokens_name_the_notices() {
    assert_eq!(MsgCode::Go.token(), "Go");
    assert_eq!(MsgCode::Win.token(), "Win");
    assert_eq!(MsgCode::Lose.token(), "Lose");
    assert_eq!(MsgCode::Draw.token(), "Draw");
    assert_eq!(MsgCode::Wait.token(), "Wait");
    assert_eq!(MsgCode::ColumnFull.token(), "ColumnFull");
    assert_eq!(MsgCode::OutOfBounds.token(), "OutOfBounds");
    assert_eq!(MsgCode::First.token(), "First");
    assert_eq!(MsgCode::Second.token(), "Second");
    assert_eq!(MsgCode::OtherLeft.token(), "OtherLeft");
    assert_eq!(MsgCode::Unexpected.token(), "Unexpected");
}

#[test]
fn reads_decimal_columns() {
    assert_eq!(read_column(b"0"), Some(0));
    assert_eq!(read_column(b"3"), Some(3));
    assert_eq!(read_column(b"42"), Some(42));
    assert_eq!(read_column(b"007"), Some(7));
    assert_eq!(read_column(b"+4"), Some(4));
    assert_eq!(read_column(b"18446744073709551615"), Some(usize::MAX));
}

#[test]
fn rejects_text_that_is_no_column() {
    assert_eq!(read_column(b""), None);
    assert_eq!(read_column(b"+"), None);
    assert_eq!(read_column(b"abc"), None);
    assert_eq!(read_column(b"-1"), None);
    assert_eq!(read_column(b" 3"), None);
    assert_eq!(read_column(b"3 "), None);
    assert_eq!(read_column(b"++3"), None);
    assert_eq!(read_column(b"1.5"), None);
    assert_eq!(read_column(b"18446744073709551616"), None);
    assert_eq!(read_column(b"99999999999999999999x"), None);
}

#[test]
fn writes_columns_in_decimal() {
    assert_eq!(column_text(0), b"0".to_vec());
    assert_eq!(column_text(6), b"6".to_vec());
    assert_eq!(column_text(42), b"42".to_vec());
    assert_eq!(column_text(1000), b"1000".to_vec());
}

#[test]
fn written_column_reads_back() {
    for n in [0usize, 1, 6, 7, 10, 99, 12345, usize::MAX] {
        assert_eq!(read_column(&column_text(n)), Some(n));
    }
}
