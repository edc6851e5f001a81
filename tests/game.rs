use std::cell::{Cell, RefCell};
use std::collections::VecDeque;
use std::rc::Rc;
use tictactoe::board::{Field, Mark, Playground};
use tictactoe::game::{
    BracketFieldFormatter, FieldFormatter, Game, Outcome, PlaygroundDisplay, Reader, Stage, Writer,
};
use tictactoe::player::{Marker, Name, NameError, Player, O, X};

struct CountingDisplay {
    shown: Rc<Cell<usize>>,
}

impl PlaygroundDisplay for CountingDisplay {
    fn display(&self, _playground: &Playground) {
        self.shown.set(self.shown.get() + 1);
    }
}

struct Lines {
    written: Rc<RefCell<Vec<String>>>,
}

impl Writer for Lines {
    fn writeln(&self, s: &str) {
        self.written.borrow_mut().push(s.to_string());
    }
}

struct Script {
    lines: Rc<RefCell<VecDeque<String>>>,
}

impl Reader for Script {
    fn readln(&self) -> String {
        self.lines.borrow_mut().pop_front().expect("no more scripted input")
    }
}

fn human(name: &str) -> Player {
    Player::Human { name: Name::try_from(name).unwrap() }
}

fn game_of(x: Player, o: Player, input: &[&str]) -> Game<CountingDisplay, Lines, Script> {
    Game::multi_player(
        X::new(x),
        O::new(o),
        CountingDisplay { shown: Rc::new(Cell::new(0)) },
        Script { lines: Rc::new(RefCell::new(input.iter().map(|s| s.to_string()).collect())) },
        Lines { written: Rc::new(RefCell::new(Vec::new())) },
    )
}

fn marks(p: &Playground) -> Vec<Option<Mark>> {
    p.get_fields().iter().map(|f| f.get_mark().copied()).collect()
}

fn run(game: &mut Game<CountingDisplay, Lines, Script>, limit: usize) -> Stage {
    for _ in 0..limit {
        if let Stage::Finished(_) = game.step() {
            break;
        }
    }
    game.stage()
}

#[test]
fn scripted_game_ends_with_a_top_row_win() {
    let input = ["top-left", "center", "top-center", "center-left", "top-right"];
    let mut game = game_of(human("Alice"), human("Bob"), &input);
    assert_eq!(run(&mut game, 100), Stage::Finished(Outcome::Won(Mark::X)));
    let m = marks(game.playground());
    assert_eq!(m[0], Some(Mark::X));
    assert_eq!(m[1], Some(Mark::X));
    assert_eq!(m[2], Some(Mark::X));
    assert_eq!(m[4], Some(Mark::O));
    assert_eq!(m[3], Some(Mark::O));
    assert_eq!(m.iter().filter(|c| c.is_some()).count(), 5);
}

#[test]
fn no_prompt_follows_the_win() {
    let input = ["top-left", "center", "top-center", "center-left", "top-right"];
    let shown = Rc::new(Cell::new(0));
    let written = Rc::new(RefCell::new(Vec::new()));
    let lines = Rc::new(RefCell::new(input.iter().map(|s| s.to_string()).collect::<VecDeque<_>>()));
    let display = CountingDisplay { shown: shown.clone() };
    let writer = Lines { written: written.clone() };
    let reader = Script { lines: lines.clone() };
    let mut game = Game::multi_player(X::new(human("Alice")), O::new(human("Bobby")), display, reader, writer);
    let mut steps = 0;
    while let Stage::RoundStart | Stage::Turn(_) = game.step() {
        steps += 1;
        assert!(steps < 100);
    }
    assert!(lines.borrow().is_empty());
    let out = written.borrow().clone();
    assert_eq!(out.len(), 6);
    let names = ["Alice", "Bobby", "Alice", "Bobby", "Alice"];
    for (line, name) in out.iter().zip(names.iter()) {
        assert!(line.starts_with(&format!("{} it's your turn.", name)));
    }
    assert_eq!(out[5], "X has WON");
    // Three round starts and once more after the win.
    assert_eq!(shown.get(), 4);
    // Finished games stay finished; nothing more is read, written or shown.
    assert_eq!(game.step(), Stage::Finished(Outcome::Won(Mark::X)));
    assert_eq!(written.borrow().len(), 6);
    assert_eq!(shown.get(), 4);
}

#[test]
fn notices_follow_refused_input() {
    let input = ["nowhere", "center", "center"];
    let written = Rc::new(RefCell::new(Vec::new()));
    let mut game = Game::multi_player(
        X::new(human("Alice")),
        O::new(human("Bobby")),
        CountingDisplay { shown: Rc::new(Cell::new(0)) },
        Script { lines: Rc::new(RefCell::new(input.iter().map(|s| s.to_string()).collect())) },
        Lines { written: written.clone() },
    );
    for _ in 0..4 {
        game.step();
    }
    let out = written.borrow().clone();
    assert_eq!(out.len(), 5);
    assert!(out[0].starts_with("Alice it's your turn."));
    assert_eq!(out[1], "That is not a valid input...");
    assert!(out[2].starts_with("Alice it's your turn."));
    assert!(out[3].starts_with("Bobby it's your turn."));
    assert_eq!(out[4], "That field is already taken. Please choose another.");
}

#[test]
fn invalid_and_taken_input_is_refused_with_a_notice() {
    let input = ["nowhere", "center", "center", "top-left"];
    let mut game = game_of(human("Alice"), human("Bob"), &input);
    assert_eq!(game.step(), Stage::Turn(Mark::X));
    assert_eq!(game.step(), Stage::Turn(Mark::X));
    assert_eq!(game.step(), Stage::Turn(Mark::O));
    assert_eq!(game.step(), Stage::Turn(Mark::O));
    assert_eq!(game.step(), Stage::RoundStart);
    let m = marks(game.playground());
    assert_eq!(m[4], Some(Mark::X));
    assert_eq!(m[0], Some(Mark::O));
}

#[test]
fn offer_line_reports_each_result() {
    let mut game = game_of(human("Alice"), human("Bob"), &[]);
    game.start_round();
    assert_eq!(game.offer_line("up"), Err(tictactoe::direction::DirectionError::UnknownDirection));
    assert_eq!(game.offer_line("bottom-right"), Ok(true));
    assert_eq!(game.stage(), Stage::Turn(Mark::O));
    assert_eq!(game.offer_line("right-bottom"), Ok(false));
    assert_eq!(game.stage(), Stage::Turn(Mark::O));
}

#[test]
fn full_board_without_winner_is_a_draw() {
    // X O X / X O O / O X X, played so that nobody completes a line.
    let input = [
        "top-left", "center", "top-right", "top-center", "bottom-center", "center-right",
        "center-left", "bottom-left", "bottom-right",
    ];
    let written = Rc::new(RefCell::new(Vec::new()));
    let mut game = Game::multi_player(
        X::new(human("Alice")),
        O::new(human("Bob")),
        CountingDisplay { shown: Rc::new(Cell::new(0)) },
        Script { lines: Rc::new(RefCell::new(input.iter().map(|s| s.to_string()).collect())) },
        Lines { written: written.clone() },
    );
    assert_eq!(run(&mut game, 100), Stage::Finished(Outcome::Draw));
    assert_eq!(written.borrow().last().map(|s| s.as_str()), Some("We've reached a draw."));
    assert_eq!(written.borrow().len(), 10);
    assert!(game.playground().is_full());
    assert!(!game.playground().has_won(Mark::X));
    assert!(!game.playground().has_won(Mark::O));
    // A finished game reads no more input.
    assert_eq!(game.step(), Stage::Finished(Outcome::Draw));
}

#[test]
fn winning_move_on_the_last_cell_is_a_win() {
    // X takes the top row with its fifth mark, which also fills the board.
    let input = [
        "top-left", "center", "top-center", "center-right", "center-left", "bottom-left",
        "bottom-center", "bottom-right", "top-right",
    ];
    let mut game = game_of(human("Alice"), human("Bob"), &input);
    let stage = run(&mut game, 100);
    assert!(game.playground().is_full());
    assert_eq!(stage, Stage::Finished(Outcome::Won(Mark::X)));
}

#[test]
fn random_opponent_places_one_mark_per_turn() {
    let mut game = game_of(human("Alice"), Player::KI, &["center"]);
    game.step();
    game.step();
    let mut steps = 0;
    while game.stage() == Stage::Turn(Mark::O) {
        game.step();
        steps += 1;
        assert!(steps < 10_000);
    }
    assert_eq!(game.stage(), Stage::RoundStart);
    let m = marks(game.playground());
    assert_eq!(m[4], Some(Mark::X));
    assert_eq!(m.iter().filter(|c| **c == Some(Mark::O)).count(), 1);
}

#[test]
fn single_player_starts_a_fresh_game() {
    let game = Game::single_player(
        Name::try_from("Dgame").unwrap(),
        CountingDisplay { shown: Rc::new(Cell::new(0)) },
        Script { lines: Rc::new(RefCell::new(VecDeque::new())) },
        Lines { written: Rc::new(RefCell::new(Vec::new())) },
    );
    assert_eq!(game.stage(), Stage::RoundStart);
    assert_eq!(marks(game.playground()), vec![None; 9]);
}

#[test]
fn names_are_trimmed_and_bounded() {
    assert_eq!(Name::try_from("  Bob \n").unwrap().as_str(), "Bob");
    assert!(matches!(Name::try_from(" ab "), Err(NameError::TooShort(2))));
    assert!(matches!(Name::try_from(""), Err(NameError::TooShort(0))));
    let long = "a".repeat(61);
    assert!(matches!(Name::try_from(long.as_str()), Err(NameError::TooLong(61))));
    let max = "b".repeat(60);
    assert_eq!(Name::try_from(max.as_str()).unwrap().as_str(), max.as_str());
}

#[test]
fn sides_carry_their_mark_and_player() {
    let x = X::new(human("Alice"));
    let o = O::new(Player::KI);
    assert_eq!(x.get_mark(), Mark::X);
    assert_eq!(o.get_mark(), Mark::O);
    assert!(matches!(x.player(), Player::Human { name } if name.as_str() == "Alice"));
    assert!(matches!(o.player(), Player::KI));
}

#[test]
fn cells_render_as_bracketed_glyphs() {
    let f = BracketFieldFormatter;
    let mut p = Playground::default();
    let empty: &Field = &p.get_fields()[0];
    assert_eq!(f.format(empty), "[ ]");
    p.mark_field_with(&tictactoe::board::PixelCoord { x: 0, y: 0 }, Mark::X).unwrap();
    p.mark_field_with(&tictactoe::board::PixelCoord { x: 1, y: 0 }, Mark::O).unwrap();
    assert_eq!(f.format(&p.get_fields()[0]), "[X]");
    assert_eq!(f.format(&p.get_fields()[1]), "[O]");
}
