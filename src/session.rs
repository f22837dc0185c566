use vstd::prelude::*;

use crate::grid::{
    board_full, column_full, completes_four, dropped, empty_board, settled, Grid, Tile, COLUMNS,
};
use crate::message::{decimal, digits_value, lemma_decimal_reads_back, unsigned_part, writes_usize, MsgCode};
use crate::turn::Turn;

verus! {

/// What the server sends to a client: a notice, or the column that the
/// opponent just played.
#[derive(Clone, Copy, Debug, PartialEq, Eq, Structural)]
pub enum Message {
    Code(MsgCode),
    Column(usize),
}

/// A message addressed to one of the two players.
#[derive(Clone, Copy, Debug, PartialEq, Eq, Structural)]
pub struct Delivery {
    pub to: Turn,
    pub message: Message,
}

/// What came of reading the current player's next move.
#[derive(Clone, Copy, Debug, PartialEq, Eq, Structural)]
pub enum Received {
    /// The channel failed or was closed.
    Failed,
    /// A message arrived that does not write a column number.
    Unreadable,
    /// A column number arrived.
    Column(usize),
}

/// How a match ended.
#[derive(Clone, Copy, Debug, PartialEq, Eq, Structural)]
pub enum Outcome {
    /// The player won by a line of four.
    WinBy(Turn),
    /// The board filled up with no line of four.
    Draw,
    /// The player's channel failed while the match awaited their move.
    Abandoned(Turn),
}

/// What a session is at a given time.
pub struct SessionView {
    /// The board, laid out as `Grid`'s view.
    pub board: Seq<Tile>,
    /// The player whose move is awaited.
    pub turn: Turn,
    /// How the match ended, once it has.
    pub outcome: Option<Outcome>,
}

/// A notice `code` for player `to`.
pub open spec fn notice(to: Turn, code: MsgCode) -> Delivery {
    Delivery { to, message: Message::Code(code) }
}

/// The messages that open a match in which `first` moves first.
pub open spec fn opening(first: Turn) -> Seq<Delivery> {
    seq![notice(first, MsgCode::First), notice(first.other(), MsgCode::Second)]
}

/// The state after `s` receives `rcv` from the current player, with the
/// messages sent in reply, in order. A match that has ended stays as it is.
pub open spec fn respond(s: SessionView, rcv: Received) -> (SessionView, Seq<Delivery>) {
    let cur = s.turn;
    let other = cur.other();
    if s.outcome is Some {
        (s, seq![])
    } else {
        match rcv {
            Received::Failed => (
                SessionView { board: s.board, turn: cur, outcome: Some(Outcome::Abandoned(cur)) },
                seq![notice(other, MsgCode::OtherLeft)],
            ),
            Received::Unreadable => (s, seq![notice(cur, MsgCode::Unexpected)]),
            Received::Column(c) => if c >= COLUMNS {
                (s, seq![notice(cur, MsgCode::OutOfBounds)])
            } else if column_full(s.board, c as int) {
                (s, seq![notice(cur, MsgCode::ColumnFull)])
            } else {
                let b = dropped(s.board, c as int, cur);
                let relay = Delivery { to: other, message: Message::Column(c) };
                if completes_four(b, c as int, cur) {
                    (
                        SessionView { board: b, turn: other, outcome: Some(Outcome::WinBy(cur)) },
                        seq![notice(cur, MsgCode::Win), notice(other, MsgCode::Lose), relay],
                    )
                } else if board_full(b) {
                    (
                        SessionView { board: b, turn: cur, outcome: Some(Outcome::Draw) },
                        seq![notice(cur, MsgCode::Draw), notice(other, MsgCode::Draw)],
                    )
                } else {
                    (
                        SessionView { board: b, turn: other, outcome: None },
                        seq![notice(cur, MsgCode::Wait), notice(other, MsgCode::Go), relay],
                    )
                }
            },
        }
    }
}

/// A move in column `c` reaches the opponent as that very column: a reply
/// to it carries no other column, and carries this one last whenever the
/// move is accepted and does not draw the match. Written out as decimal
/// text, the column reads back as the same number.
pub proof fn lemma_relayed_column(s: SessionView, c: usize)
    requires
        s.outcome is None,
        settled(s.board),
    ensures
        forall|i: int|
            0 <= i < respond(s, Received::Column(c)).1.len() && (#[trigger] respond(
                s,
                Received::Column(c),
            ).1[i]).message is Column ==> respond(s, Received::Column(c)).1[i] == (Delivery {
                to: s.turn.other(),
                message: Message::Column(c),
            }),
        c < COLUMNS && !column_full(s.board, c as int) && respond(s, Received::Column(c)).0.outcome
            != Some(Outcome::Draw) ==> respond(s, Received::Column(c)).1.last() == (Delivery {
            to: s.turn.other(),
            message: Message::Column(c),
        }),
        writes_usize(decimal(c as nat)),
        digits_value(unsigned_part(decimal(c as nat))) == c,
{
    lemma_decimal_reads_back(c as nat);
}

/// Relies on rand::random::<bool>: a value drawn from the thread-local
/// generator, of which nothing is promised.
#[verifier::external_body]
fn coin_flip() -> bool {
    rand::random()
}

/// One match between two players: the board, whose move is awaited, and
/// how the match ended once it has.
pub struct Session {
    grid: Grid,
    turn: Turn,
    outcome: Option<Outcome>,
}

impl View for Session {
    type V = SessionView;

    closed spec fn view(&self) -> SessionView {
        SessionView { board: self.grid@, turn: self.turn, outcome: self.outcome }
    }
}

impl Session {
    /// The board keeps its size and no disc floats.
    pub open spec fn wf(&self) -> bool {
        settled(self@.board)
    }

    /// Opens a match on an empty board in which `first` moves first; returns
    /// the session and the messages that tell each player their role.
    pub fn new(first: Turn) -> (r: (Session, Vec<Delivery>))
        ensures
            r.0.wf(),
            r.0@.board == empty_board(),
            r.0@.turn == first,
            r.0@.outcome is None,
            r.1@ == opening(first),
    {
        let mut out: Vec<Delivery> = Vec::new();
        out.push(Delivery { to: first, message: Message::Code(MsgCode::First) });
        out.push(Delivery { to: first.flipped(), message: Message::Code(MsgCode::Second) });
        assert(out@ =~= opening(first));
        (Session { grid: Grid::new(), turn: first, outcome: None }, out)
    }

    /// Opens a match as `new` does, the first mover drawn at random.
    pub fn start() -> (r: (Session, Vec<Delivery>))
        ensures
            r.0.wf(),
            r.0@.board == empty_board(),
            r.0@.outcome is None,
            r.1@ == opening(r.0@.turn),
    {
        let first = if coin_flip() {
            Turn::A
        } else {
            Turn::B
        };
        Session::new(first)
    }

    /// The player whose move is awaited.
    pub fn current(&self) -> (t: Turn)
        ensures
            t == self@.turn,
    {
        self.turn
    }

    /// How the match ended, or `None` while it goes on.
    pub fn outcome(&self) -> (o: Option<Outcome>)
        ensures
            o == self@.outcome,
    {
        self.outcome
    }

    /// Whether the match has ended.
    pub fn is_over(&self) -> (over: bool)
        ensures
            over == self@.outcome is Some,
    {
        self.outcome.is_some()
    }

    /// The board.
    pub fn grid(&self) -> (g: &Grid)
        ensures
            g@ == self@.board,
    {
        &self.grid
    }

    /// Takes what came of reading the current player's move and returns the
    /// messages to send, in order: a rejected move leaves the state as it is
    /// and asks the same player again; an accepted one is relayed to the
    /// opponent, or ends the match.
    pub fn on_received(&mut self, received: Received) -> (out: Vec<Delivery>)
        requires
            old(self).wf(),
        ensures
            final(self).wf(),
            (final(self)@, out@) == respond(old(self)@, received),
    {
        let mut out: Vec<Delivery> = Vec::new();
        if self.outcome.is_some() {
            assert(out@ =~= seq![]);
            return out;
        }
        let cur = self.turn;
        let other = cur.flipped();
        match received {
            Received::Failed => {
                out.push(Delivery { to: other, message: Message::Code(MsgCode::OtherLeft) });
                self.outcome = Some(Outcome::Abandoned(cur));
            },
            Received::Unreadable => {
                out.push(Delivery { to: cur, message: Message::Code(MsgCode::Unexpected) });
            },
            Received::Column(c) => {
                if c >= COLUMNS {
                    out.push(Delivery { to: cur, message: Message::Code(MsgCode::OutOfBounds) });
                } else if self.grid.insert_disc(c, cur) {
                    if self.grid.is_win(c, cur) {
                        out.push(Delivery { to: cur, message: Message::Code(MsgCode::Win) });
                        out.push(Delivery { to: other, message: Message::Code(MsgCode::Lose) });
                        out.push(Delivery { to: other, message: Message::Column(c) });
                        self.turn.flip();
                        self.outcome = Some(Outcome::WinBy(cur));
                    } else if self.grid.is_full() {
                        out.push(Delivery { to: cur, message: Message::Code(MsgCode::Draw) });
                        out.push(Delivery { to: other, message: Message::Code(MsgCode::Draw) });
                        self.outcome = Some(Outcome::Draw);
                    } else {
                        out.push(Delivery { to: cur, message: Message::Code(MsgCode::Wait) });
                        out.push(Delivery { to: other, message: Message::Code(MsgCode::Go) });
                        out.push(Delivery { to: other, message: Message::Column(c) });
                        self.turn.flip();
                    }
                } else {
                    out.push(Delivery { to: cur, message: Message::Code(MsgCode::ColumnFull) });
                }
            },
        }
        assert(out@ =~= respond(old(self)@, received).1);
        out
    }
}

} // verus!
