use vstd::prelude::*;

verus! {

/// The notices the server sends to a client, one text token each.
#[derive(Clone, Copy, Debug, PartialEq, Eq, Structural)]
pub enum MsgCode {
    Go,
    Win,
    Lose,
    Draw,
    Wait,
    ColumnFull,
    OutOfBounds,
    First,
    Second,
    OtherLeft,
    Unexpected,
}

impl MsgCode {
    /// The token that stands for the notice on the wire.
    pub open spec fn text(self) -> Seq<char> {
        match self {
            MsgCode::Go => "Go"@,
            MsgCode::Win => "Win"@,
            MsgCode::Lose => "Lose"@,
            MsgCode::Draw => "Draw"@,
            MsgCode::Wait => "Wait"@,
            MsgCode::ColumnFull => "ColumnFull"@,
            MsgCode::OutOfBounds => "OutOfBounds"@,
            MsgCode::First => "First"@,
            MsgCode::Second => "Second"@,
            MsgCode::OtherLeft => "OtherLeft"@,
            MsgCode::Unexpected => "Unexpected"@,
        }
    }

    /// The token that stands for the notice on the wire.
    pub fn token(&self) -> (s: &'static str)
        ensures
            s@ == self.text(),
    {
        match self {
            MsgCode::Go => "Go",
            MsgCode::Win => "Win",
            MsgCode::Lose => "Lose",
            MsgCode::Draw => "Draw",
            MsgCode::Wait => "Wait",
            MsgCode::ColumnFull => "ColumnFull",
            MsgCode::OutOfBounds => "OutOfBounds",
            MsgCode::First => "First",
            MsgCode::Second => "Second",
            MsgCode::OtherLeft => "OtherLeft",
            MsgCode::Unexpected => "Unexpected",
        }
    }
}

/// An ASCII decimal digit.
pub open spec fn is_digit(b: u8) -> bool {
    48 <= b <= 57
}

/// The number that a string of decimal digits writes, most significant first.
pub open spec fn digits_value(d: Seq<u8>) -> nat
    decreases d.len(),
{
    if d.len() == 0 {
        0
    } else {
        digits_value(d.drop_last()) * 10 + (d.last() - 48) as nat
    }
}

/// The text without the one leading `+` that it may carry.
pub open spec fn unsigned_part(t: Seq<u8>) -> Seq<u8> {
    if t.len() > 0 && t[0] == 43 {
        t.subrange(1, t.len() as int)
    } else {
        t
    }
}

/// Whether the text writes a `usize`: an optional `+`, then one or more
/// decimal digits whose value fits.
pub open spec fn writes_usize(t: Seq<u8>) -> bool {
    let d = unsigned_part(t);
    &&& d.len() > 0
    &&& forall|i: int| 0 <= i < d.len() ==> is_digit(#[trigger] d[i])
    &&& digits_value(d) <= usize::MAX
}

proof fn lemma_digits_value_grows(d: Seq<u8>, j: int, k: int)
    requires
        0 <= j <= k <= d.len(),
    ensures
        digits_value(d.subrange(0, j)) <= digits_value(d.subrange(0, k)),
    decreases k - j,
{
    if j < k {
        lemma_digits_value_grows(d, j, k - 1);
        assert(d.subrange(0, k).drop_last() =~= d.subrange(0, k - 1));
    }
}

/// Reads a column number sent by a client: an optional `+` and decimal
/// digits. `None` when the text is anything else or too large for a `usize`.
pub fn read_column(text: &[u8]) -> (r: Option<usize>)
    ensures
        match r {
            Some(v) => writes_usize(text@) && v == digits_value(unsigned_part(text@)),
            None => !writes_usize(text@),
        },
{
    let ghost t = text@;
    let len = text.len();
    let start: usize = if len > 0 && text[0] == 43u8 {
        1
    } else {
        0
    };
    let ghost d = unsigned_part(t);
    assert(d =~= t.subrange(start as int, len as int));
    if start == len {
        return None;
    }
    let mut i: usize = start;
    let mut value: usize = 0;
    while i < len
        invariant
            t == text@,
            len == t.len(),
            d == t.subrange(start as int, len as int),
            d == unsigned_part(t),
            start <= i <= len,
            forall|k: int| 0 <= k < i - start ==> is_digit(#[trigger] d[k]),
            value == digits_value(d.subrange(0, i - start)),
        decreases len - i,
    {
        let b = text[i];
        let ghost n = i - start;
        assert(d[n] == b);
        if b < 48u8 || b > 57u8 {
            assert(!is_digit(d[n]));
            return None;
        }
        let digit = (b - 48u8) as usize;
        assert(d.subrange(0, n + 1).drop_last() =~= d.subrange(0, n));
        assert(d.subrange(0, n + 1).last() == b);
        assert(digits_value(d.subrange(0, n + 1)) == value * 10 + digit);
        match value.checked_mul(10) {
            Some(m) => match m.checked_add(digit) {
                Some(v) => {
                    value = v;
                },
                None => {
                    proof {
                        lemma_digits_value_grows(d, n + 1, d.len() as int);
                        assert(d.subrange(0, d.len() as int) =~= d);
                    }
                    return None;
                },
            },
            None => {
                proof {
                    lemma_digits_value_grows(d, n + 1, d.len() as int);
                    assert(d.subrange(0, d.len() as int) =~= d);
                }
                return None;
            },
        }
        i += 1;
    }
    assert(d.subrange(0, d.len() as int) =~= d);
    Some(value)
}

/// The decimal digits of `n`, most significant first, with no leading zero.
pub open spec fn decimal(n: nat) -> Seq<u8>
    decreases n,
{
    if n < 10 {
        seq![(48 + n) as u8]
    } else {
        decimal(n / 10).push((48 + n % 10) as u8)
    }
}

/// Writes a column number as the decimal text that is sent to a client.
pub fn column_text(n: usize) -> (text: Vec<u8>)
    ensures
        text@ == decimal(n as nat),
    decreases n,
{
    if n < 10 {
        let mut text: Vec<u8> = Vec::new();
        text.push(48u8 + n as u8);
        assert(text@ =~= decimal(n as nat));
        text
    } else {
        let mut text = column_text(n / 10);
        text.push(48u8 + (n % 10) as u8);
        text
    }
}

proof fn lemma_decimal_digits(n: nat)
    ensures
        decimal(n).len() > 0,
        forall|i: int| 0 <= i < decimal(n).len() ==> is_digit(#[trigger] decimal(n)[i]),
        digits_value(decimal(n)) == n,
    decreases n,
{
    let d = decimal(n);
    if n < 10 {
        assert(d.drop_last() =~= Seq::<u8>::empty());
        assert(d.last() == 48 + n);
        assert(digits_value(d.drop_last()) == 0);
    } else {
        lemma_decimal_digits(n / 10);
        assert(d.drop_last() =~= decimal(n / 10));
        assert(d.last() == 48 + n % 10);
        assert(n == (n / 10) * 10 + n % 10);
        assert(digits_value(d) == digits_value(decimal(n / 10)) * 10 + n % 10);
        assert forall|i: int| 0 <= i < d.len() implies is_digit(#[trigger] d[i]) by {
            if i < d.len() - 1 {
                assert(d[i] == decimal(n / 10)[i]);
            }
        }
    }
}

/// The decimal text of a number reads back as that number.
pub proof fn lemma_decimal_reads_back(n: nat)
    requires
        n <= usize::MAX,
    ensures
        writes_usize(decimal(n)),
        digits_value(unsigned_part(decimal(n))) == n,
{
    lemma_decimal_digits(n);
    assert(is_digit(decimal(n)[0]));
    assert(unsigned_part(decimal(n)) == decimal(n));
}

} // verus!
