use vstd::prelude::*;
use vstd::string::StringExecFns;
use crate::board::{
    count_marks, full, lemma_count_after_mark, lemma_count_on_empty_cells,
    lemma_empty_board_has_no_winner, lemma_other_mark_keeps_result, wins, Field, Mark, PixelCoord,
    Playground,
};
use crate::direction::{coord_of, parse_direction_spec, DirectionError};
use crate::player::{Name, Player, O, X};

verus! {

/// Renders the board for the players.
pub trait PlaygroundDisplay {
    fn display(&self, playground: &Playground);
}

/// Emits one line of text.
pub trait Writer {
    fn writeln(&self, s: &str);
}

/// Returns the next line of operator input.
pub trait Reader {
    fn readln(&self) -> String;
}

/// Renders one cell.
pub trait FieldFormatter {
    fn format(&self, field: &Field) -> String;
}

/// The glyph of a cell: `[ ]` when empty, else the mark in brackets.
pub open spec fn bracket_glyph(cell: Option<Mark>) -> Seq<char> {
    match cell {
        None => "[ ]"@,
        Some(Mark::X) => "[X]"@,
        Some(Mark::O) => "[O]"@,
    }
}

/// Renders a cell as a three-character bracketed glyph.
pub struct BracketFieldFormatter;

impl BracketFieldFormatter {
    pub fn bracket(&self, field: &Field) -> (r: String)
        ensures
            r@ == bracket_glyph(field@),
    {
        match field.get_mark() {
            None => String::from_str("[ ]"),
            Some(Mark::X) => String::from_str("[X]"),
            Some(Mark::O) => String::from_str("[O]"),
        }
    }
}

impl FieldFormatter for BracketFieldFormatter {
    fn format(&self, field: &Field) -> (r: String)
        ensures
            r@ == bracket_glyph(field@),
    {
        self.bracket(field)
    }
}

/// How a finished game ended.
#[derive(Clone, Copy, Debug, PartialEq, Eq, Structural)]
pub enum Outcome {
    Draw,
    Won(Mark),
}

/// Where the turn engine stands: at the start of a round, waiting for the
/// move of one side, or finished.
#[derive(Clone, Copy, Debug, PartialEq, Eq, Structural)]
pub enum Stage {
    RoundStart,
    Turn(Mark),
    Finished(Outcome),
}

/// The stage after `mark` has placed a mark that gives the board `cells`:
/// the game is won if `mark` now holds a line, and drawn if no cell is left
/// free; else `O` moves after `X`, and a new round starts after `O`.
pub open spec fn stage_after_move(cells: Seq<Option<Mark>>, mark: Mark) -> Stage {
    if wins(cells, mark) {
        Stage::Finished(Outcome::Won(mark))
    } else if full(cells) {
        Stage::Finished(Outcome::Draw)
    } else if mark == Mark::X {
        Stage::Turn(Mark::O)
    } else {
        Stage::RoundStart
    }
}

/// Relies on random_number::random_at_most: a value between the type's
/// minimum, zero for `usize`, and `max`, inclusive.
#[verifier::external_body]
fn random_at_most(max: usize) -> (r: usize)
    ensures
        r <= max,
{
    random_number::random_at_most(max)
}

/// The prompt that asks the human called `name` for a move.
pub open spec fn prompt_text(name: Seq<char>) -> Seq<char> {
    name + " it's your turn. Where do you want to place your mark? Your input should be the column direction (top, center, bottom) and the row direction (left, center, right) separated by a minus, e.g. \"top-left\" or \"center\""@
}

/// The lines that announce the end of a game at `stage`; none while it runs.
pub open spec fn announcement(stage: Stage) -> Seq<Seq<char>> {
    match stage {
        Stage::Finished(Outcome::Won(Mark::X)) => seq!["X has WON"@],
        Stage::Finished(Outcome::Won(Mark::O)) => seq!["O has WON"@],
        Stage::Finished(Outcome::Draw) => seq!["We've reached a draw."@],
        _ => Seq::empty(),
    }
}

/// The prompt that asks the human `name` for a move.
fn prompt_for(name: &Name) -> (r: String)
    ensures
        r@ == prompt_text(name@),
{
    let mut msg = String::from_str(name.as_str());
    msg.append(
        " it's your turn. Where do you want to place your mark? Your input should be the column direction (top, center, bottom) and the row direction (left, center, right) separated by a minus, e.g. \"top-left\" or \"center\"",
    );
    msg
}


/// A game between the side `X` and the side `O` on one board, with the
/// collaborators that show the board, write text and read input. Ghost logs
/// record the lines written, how often the board was shown and how many
/// lines were read.
pub struct Game<D: PlaygroundDisplay, W: Writer, R: Reader> {
    playground: Playground,
    x: X,
    o: O,
    displayer: D,
    writer: W,
    reader: R,
    stage: Stage,
    written: Ghost<Seq<Seq<char>>>,
    shown: Ghost<nat>,
    lines_read: Ghost<nat>,
}

impl<D: PlaygroundDisplay, W: Writer, R: Reader> Game<D, W, R> {
    pub closed spec fn board(&self) -> Seq<Option<Mark>> {
        self.playground@
    }

    pub closed spec fn stage_spec(&self) -> Stage {
        self.stage
    }

    pub closed spec fn x_player(&self) -> Player {
        self.x.player_spec()
    }

    pub closed spec fn o_player(&self) -> Player {
        self.o.player_spec()
    }

    /// Every line handed to the writer so far, in order.
    pub closed spec fn written(&self) -> Seq<Seq<char>> {
        self.written@
    }

    /// How many times the board has been handed to the display.
    pub closed spec fn shown(&self) -> nat {
        self.shown@
    }

    /// How many lines have been taken from the reader.
    pub closed spec fn lines_read(&self) -> nat {
        self.lines_read@
    }

    /// The player of the side that places `mark`.
    pub open spec fn player_of(&self, mark: Mark) -> Player {
        if mark == Mark::X {
            self.x_player()
        } else {
            self.o_player()
        }
    }

    /// The game's invariant: `X` has as many marks as `O`, or one more
    /// exactly when `O` is to move or `X` has just won; nobody has won while
    /// the game runs; a won game has exactly one winner, and a drawn game a
    /// full board and none.
    pub open spec fn wf(&self) -> bool {
        let b = self.board();
        let xs = count_marks(b, Mark::X);
        let os = count_marks(b, Mark::O);
        &&& b.len() == 9
        &&& match self.stage_spec() {
            Stage::RoundStart => xs == os && !wins(b, Mark::X) && !wins(b, Mark::O),
            Stage::Turn(Mark::X) => xs == os && !wins(b, Mark::X) && !wins(b, Mark::O),
            Stage::Turn(Mark::O) => xs == os + 1 && !wins(b, Mark::X) && !wins(b, Mark::O),
            Stage::Finished(Outcome::Won(Mark::X)) => xs == os + 1 && wins(b, Mark::X) && !wins(
                b,
                Mark::O,
            ),
            Stage::Finished(Outcome::Won(Mark::O)) => xs == os && wins(b, Mark::O) && !wins(
                b,
                Mark::X,
            ),
            Stage::Finished(Outcome::Draw) => full(b) && !wins(b, Mark::X) && !wins(b, Mark::O),
        }
    }

    /// `after` is `before` once an attempt to move was refused: the lines
    /// `pre` and then `note` were written and `reads` lines read; nothing
    /// else changed.
    pub open spec fn refused(
        before: &Self,
        after: &Self,
        pre: Seq<Seq<char>>,
        note: Seq<char>,
        reads: nat,
    ) -> bool {
        &&& after.board() == before.board()
        &&& after.stage_spec() == before.stage_spec()
        &&& after.x_player() == before.x_player()
        &&& after.o_player() == before.o_player()
        &&& after.written() == before.written() + pre + seq![note]
        &&& after.shown() == before.shown()
        &&& after.lines_read() == before.lines_read() + reads
    }

    /// `after` is `before` once the side to move placed its mark on the free
    /// cell `i`: the lines `pre` were written and `reads` lines read; the
    /// stage follows `stage_after_move`, and a game that thereby ended shows
    /// the board once more and announces its end.
    pub open spec fn placed(
        before: &Self,
        after: &Self,
        pre: Seq<Seq<char>>,
        reads: nat,
        i: int,
    ) -> bool {
        let m = before.stage_spec()->Turn_0;
        &&& 0 <= i < 9
        &&& before.board()[i] is None
        &&& after.board() == before.board().update(i, Some(m))
        &&& after.stage_spec() == stage_after_move(after.board(), m)
        &&& after.x_player() == before.x_player()
        &&& after.o_player() == before.o_player()
        &&& after.written() == before.written() + pre + announcement(after.stage_spec())
        &&& after.shown() == before.shown() + if after.stage_spec() is Finished {
            1nat
        } else {
            0nat
        }
        &&& after.lines_read() == before.lines_read() + reads
    }

    proof fn lemma_fresh(&self)
        requires
            self.board() == Seq::new(9, |i: int| None::<Mark>),
            self.stage_spec() == Stage::RoundStart,
        ensures
            self.wf(),
    {
        lemma_count_on_empty_cells(self.board(), Mark::X);
        lemma_count_on_empty_cells(self.board(), Mark::O);
        lemma_empty_board_has_no_winner(Mark::X);
        lemma_empty_board_has_no_winner(Mark::O);
    }

    /// A game of the named human as `X` against the random chooser as `O`.
    pub fn single_player(name: Name, displayer: D, reader: R, writer: W) -> (r: Self)
        ensures
            r.wf(),
            r.board() == Seq::new(9, |i: int| None::<Mark>),
            r.stage_spec() == Stage::RoundStart,
            r.x_player() == (Player::Human { name }),
            r.o_player() == Player::KI,
            r.written() == Seq::<Seq<char>>::empty(),
            r.shown() == 0,
            r.lines_read() == 0,
    {
        let r = Game {
            playground: Playground::default(),
            x: X::new(Player::Human { name }),
            o: O::new(Player::KI),
            displayer,
            writer,
            reader,
            stage: Stage::RoundStart,
            written: Ghost(Seq::empty()),
            shown: Ghost(0),
            lines_read: Ghost(0),
        };
        proof {
            r.lemma_fresh();
        }
        r
    }

    /// A game between the two given sides.
    pub fn multi_player(x: X, o: O, displayer: D, reader: R, writer: W) -> (r: Self)
        ensures
            r.wf(),
            r.board() == Seq::new(9, |i: int| None::<Mark>),
            r.stage_spec() == Stage::RoundStart,
            r.x_player() == x.player_spec(),
            r.o_player() == o.player_spec(),
            r.written() == Seq::<Seq<char>>::empty(),
            r.shown() == 0,
            r.lines_read() == 0,
    {
        let r = Game {
            playground: Playground::default(),
            x,
            o,
            displayer,
            writer,
            reader,
            stage: Stage::RoundStart,
            written: Ghost(Seq::empty()),
            shown: Ghost(0),
            lines_read: Ghost(0),
        };
        proof {
            r.lemma_fresh();
        }
        r
    }

    pub fn stage(&self) -> (r: Stage)
        ensures
            r == self.stage_spec(),
    {
        self.stage
    }

    pub fn playground(&self) -> (r: &Playground)
        ensures
            r@ == self.board(),
    {
        &self.playground
    }

    /// Hands the board to the display.
    fn display(&mut self)
        ensures
            final(self).shown() == old(self).shown() + 1,
            final(self).written() == old(self).written(),
            final(self).lines_read() == old(self).lines_read(),
            final(self).board() == old(self).board(),
            final(self).stage_spec() == old(self).stage_spec(),
            final(self).x_player() == old(self).x_player(),
            final(self).o_player() == old(self).o_player(),
    {
        self.displayer.display(&self.playground);
        self.shown = Ghost(self.shown@ + 1);
    }

    /// Hands one line to the writer.
    fn write_line(&mut self, s: &str)
        ensures
            final(self).written() == old(self).written().push(s@),
            final(self).shown() == old(self).shown(),
            final(self).lines_read() == old(self).lines_read(),
            final(self).board() == old(self).board(),
            final(self).stage_spec() == old(self).stage_spec(),
            final(self).x_player() == old(self).x_player(),
            final(self).o_player() == old(self).o_player(),
    {
        self.writer.writeln(s);
        self.written = Ghost(self.written@.push(s@));
    }

    /// Starts a round: shows the board, and ends the game in a draw, with the
    /// draw line, when the board is full.
    pub fn start_round(&mut self)
        requires
            old(self).wf(),
            old(self).stage_spec() == Stage::RoundStart,
        ensures
            final(self).wf(),
            final(self).board() == old(self).board(),
            final(self).x_player() == old(self).x_player(),
            final(self).o_player() == old(self).o_player(),
            final(self).stage_spec() == if full(old(self).board()) {
                Stage::Finished(Outcome::Draw)
            } else {
                Stage::Turn(Mark::X)
            },
            final(self).written() == old(self).written() + announcement(final(self).stage_spec()),
            final(self).shown() == old(self).shown() + 1,
            final(self).lines_read() == old(self).lines_read(),
    {
        self.display();
        if self.playground.is_full() {
            self.write_line("We've reached a draw.");
            self.stage = Stage::Finished(Outcome::Draw);
        } else {
            self.stage = Stage::Turn(Mark::X);
        }
        assert(self.written() =~= old(self).written() + announcement(self.stage_spec()));
    }

    /// Offers `pos` as the move of the side whose turn it is. A taken cell is
    /// refused with a notice and changes nothing else; a free one receives
    /// the side's mark, as `placed` says.
    pub fn offer(&mut self, pos: PixelCoord) -> (accepted: bool)
        requires
            old(self).wf(),
            old(self).stage_spec() is Turn,
            pos.x < 3,
            pos.y < 3,
        ensures
            final(self).wf(),
            if old(self).board()[pos.index_spec()].is_some() {
                !accepted && Self::refused(
                    old(self),
                    final(self),
                    Seq::empty(),
                    "That field is already taken. Please choose another."@,
                    0,
                )
            } else {
                accepted && Self::placed(old(self), final(self), Seq::empty(), 0, pos.index_spec())
            },
    {
        let mark = match self.stage {
            Stage::Turn(m) => m,
            _ => Mark::X,
        };
        let other = match mark {
            Mark::X => Mark::O,
            Mark::O => Mark::X,
        };
        proof {
            self.playground.lemma_len();
        }
        if self.playground.is_field_occupied(&pos) {
            self.write_line("That field is already taken. Please choose another.");
            assert(self.written() =~= old(self).written() + Seq::empty() + seq![
                "That field is already taken. Please choose another."@,
            ]);
            return false;
        }
        let ghost i = pos.index_spec();
        let ghost b0 = self.board();
        match self.playground.mark_field_with(&pos, mark) {
            Ok(()) => {},
            Err(_) => {},
        }
        proof {
            lemma_count_after_mark(b0, i, mark, Mark::X);
            lemma_count_after_mark(b0, i, mark, Mark::O);
            lemma_other_mark_keeps_result(b0, i, mark, other);
        }
        if self.playground.has_won(mark) {
            self.display();
            match mark {
                Mark::X => self.write_line("X has WON"),
                Mark::O => self.write_line("O has WON"),
            }
            self.stage = Stage::Finished(Outcome::Won(mark));
        } else if self.playground.is_full() {
            self.display();
            self.write_line("We've reached a draw.");
            self.stage = Stage::Finished(Outcome::Draw);
        } else {
            match mark {
                Mark::X => self.stage = Stage::Turn(Mark::O),
                Mark::O => self.stage = Stage::RoundStart,
            }
        }
        assert(self.written() =~= old(self).written() + Seq::empty() + announcement(
            self.stage_spec(),
        ));
        true
    }

    /// Offers a line of human input as the move of the side whose turn it
    /// is. A line that names no position is refused with a notice and changes
    /// nothing else; otherwise the position is offered as `offer` does.
    pub fn offer_line(&mut self, line: &str) -> (r: Result<bool, DirectionError>)
        requires
            old(self).wf(),
            old(self).stage_spec() is Turn,
        ensures
            final(self).wf(),
            match parse_direction_spec(line@) {
                Err(e) => r == Err::<bool, DirectionError>(e) && Self::refused(
                    old(self),
                    final(self),
                    Seq::empty(),
                    "That is not a valid input..."@,
                    0,
                ),
                Ok((row, column)) => {
                    let i = coord_of(row, column).index_spec();
                    if old(self).board()[i].is_some() {
                        r == Ok::<bool, DirectionError>(false) && Self::refused(
                            old(self),
                            final(self),
                            Seq::empty(),
                            "That field is already taken. Please choose another."@,
                            0,
                        )
                    } else {
                        r == Ok::<bool, DirectionError>(true) && Self::placed(
                            old(self),
                            final(self),
                            Seq::empty(),
                            0,
                            i,
                        )
                    }
                },
            },
    {
        match PixelCoord::try_from(line) {
            Ok(pos) => Ok(self.offer(pos)),
            Err(e) => {
                self.write_line("That is not a valid input...");
                assert(self.written() =~= old(self).written() + Seq::empty() + seq![
                    "That is not a valid input..."@,
                ]);
                Err(e)
            },
        }
    }

    /// A position drawn uniformly at random, whether or not it is taken.
    fn get_random_position(&self) -> (r: PixelCoord)
        ensures
            r.x < 3,
            r.y < 3,
    {
        PixelCoord { x: random_at_most(2), y: random_at_most(2) }
    }

    /// What one attempt of a human to move does after `pre` was written and
    /// `reads` lines read: the line is refused as invalid or as naming a
    /// taken cell, or the move is placed.
    pub open spec fn human_attempt(before: &Self, after: &Self, pre: Seq<Seq<char>>) -> bool {
        ||| Self::refused(before, after, pre, "That is not a valid input..."@, 1)
        ||| Self::refused(
            before,
            after,
            pre,
            "That field is already taken. Please choose another."@,
            1,
        )
        ||| exists|i: int| Self::placed(before, after, pre, 1, i)
    }

    /// Writes `name_prompt`, reads one line of input and offers it as the
    /// move of the side whose turn it is.
    fn ask_for_direction(&mut self, name_prompt: String)
        requires
            old(self).wf(),
            old(self).stage_spec() is Turn,
        ensures
            final(self).wf(),
            Self::human_attempt(old(self), final(self), seq![name_prompt@]),
    {
        self.write_line(name_prompt.as_str());
        let line = self.reader.readln();
        self.lines_read = Ghost(self.lines_read@ + 1);
        let ghost mid = *self;
        let r = self.offer_line(line.as_str());
        proof {
            let pre = seq![name_prompt@];
            assert(mid.written() =~= old(self).written() + pre);
            assert(old(self).written() + pre + Seq::empty() =~= old(self).written() + pre);
            match parse_direction_spec(line@) {
                Err(e) => {
                    assert(Self::refused(old(self), self, pre, "That is not a valid input..."@, 1));
                },
                Ok((row, column)) => {
                    let i = coord_of(row, column).index_spec();
                    if mid.board()[i].is_some() {
                        assert(Self::refused(
                            old(self),
                            self,
                            pre,
                            "That field is already taken. Please choose another."@,
                            1,
                        ));
                    } else {
                        assert(self.written() =~= old(self).written() + pre + announcement(
                            self.stage_spec(),
                        ));
                        assert(Self::placed(old(self), self, pre, 1, i));
                    }
                },
            }
        }
    }

    /// Runs one bounded step: the start of a round, or one attempt by the
    /// side whose turn it is to make a move. A human is prompted and one line
    /// is read; the random chooser draws a position. A finished game is left
    /// as it is, and nothing is read, written or shown. Returns the stage
    /// reached.
    pub fn step(&mut self) -> (r: Stage)
        requires
            old(self).wf(),
        ensures
            final(self).wf(),
            r == final(self).stage_spec(),
            match old(self).stage_spec() {
                Stage::RoundStart => {
                    &&& final(self).board() == old(self).board()
                    &&& final(self).x_player() == old(self).x_player()
                    &&& final(self).o_player() == old(self).o_player()
                    &&& final(self).stage_spec() == if full(old(self).board()) {
                        Stage::Finished(Outcome::Draw)
                    } else {
                        Stage::Turn(Mark::X)
                    }
                    &&& final(self).written() == old(self).written() + announcement(
                        final(self).stage_spec(),
                    )
                    &&& final(self).shown() == old(self).shown() + 1
                    &&& final(self).lines_read() == old(self).lines_read()
                },
                Stage::Turn(m) => match old(self).player_of(m) {
                    Player::Human { name } => Self::human_attempt(
                        old(self),
                        final(self),
                        seq![prompt_text(name@)],
                    ),
                    Player::KI => Self::refused(
                        old(self),
                        final(self),
                        Seq::empty(),
                        "That field is already taken. Please choose another."@,
                        0,
                    ) || exists|i: int| Self::placed(old(self), final(self), Seq::empty(), 0, i),
                },
                Stage::Finished(_) => *final(self) == *old(self),
            },
    {
        match self.stage {
            Stage::RoundStart => self.start_round(),
            Stage::Turn(m) => {
                let player = match m {
                    Mark::X => self.x.player(),
                    Mark::O => self.o.player(),
                };
                let prompt = match player {
                    Player::Human { name } => Some(prompt_for(name)),
                    Player::KI => None,
                };
                match prompt {
                    Some(p) => {
                        self.ask_for_direction(p);
                    },
                    None => {
                        let pos = self.get_random_position();
                        let _ = self.offer(pos);
                    },
                }
            },
            Stage::Finished(_) => {},
        }
        self.stage
    }
}

} // verus!
