use asynckit::puzzle::{Cell, Puzzle, Variable};
use asynckit::view::{Direction, InputEvent, Key, KeyEvent, Mode, PuzzleDiv};

const DATA: &str = "HI-AAAABA\nGreeting\nmeta\nquote\nauthor\ntitle\nHI";

fn key(key: Key) -> InputEvent {
    InputEvent::KeyEvent(KeyEvent { key, modified: false })
}

#[test]
fn parse_reads_cells_variables_and_clues() {
    let p = Puzzle::parse_text(DATA);
    assert_eq!(p.cells.len(), 3);
    assert_eq!(p.cells[0], Cell { cell: 0, correct: 'H', guess: None, variable: Some(1) });
    assert_eq!(p.cells[1], Cell { cell: 1, correct: 'I', guess: None, variable: Some(2) });
    assert_eq!(p.cells[2], Cell { cell: 2, correct: '-', guess: Some('-'), variable: None });
    assert_eq!(p.variables.len(), 2);
    assert_eq!(p.variables[0], Variable { variable: 1, cell: 0, letter: 'A', offset: 0 });
    assert_eq!(p.variables[1], Variable { variable: 2, cell: 1, letter: 'A', offset: 1 });
    assert_eq!(p.clues.len(), 1);
    assert_eq!(p.clues[0].letter, 'A');
    assert_eq!(p.clues[0].variables, vec![1, 2]);
    assert_eq!(p.clues[0].clue, "Greeting");
    assert_eq!(p.clues[0].pretty_answer, "HI");
}

#[test]
fn typing_fills_and_moves_on() {
    let mut div = PuzzleDiv::new(Puzzle::parse_text(DATA));
    assert_eq!(div.mode(), Mode::Clue);
    assert!(div.handle(key(Key::Type('X'))));
    assert_eq!(div.puzzle().cells[0].guess, Some('X'));
    assert_eq!(div.current_cell(), 1);
    assert!(div.handle(key(Key::Delete)));
    assert_eq!(div.current_cell(), 0);
    assert_eq!(div.puzzle().cells[0].guess, None);
}

#[test]
fn modes_and_arrows() {
    let mut div = PuzzleDiv::new(Puzzle::parse_text(DATA));
    assert!(div.handle(key(Key::Type('™'))));
    assert_eq!(div.mode(), Mode::Quote);
    assert!(div.handle(key(Key::Arrow(Direction::Right))));
    assert_eq!(div.current_cell(), 1);
    assert!(div.handle(key(Key::Arrow(Direction::Right))));
    assert_eq!(div.current_cell(), 2);
    assert!(div.handle(key(Key::Arrow(Direction::Right))));
    assert_eq!(div.current_cell(), 0);
    assert!(!div.handle(InputEvent::MouseEvent));
    assert!(!div.handle(key(Key::Func(1))));
}

#[test]
fn wrap_goes_round() {
    assert_eq!(PuzzleDiv::wrap(0, -1, 5), 4);
    assert_eq!(PuzzleDiv::wrap(4, 1, 5), 0);
    assert_eq!(PuzzleDiv::wrap(2, 1, 5), 3);
}

#[test]
fn layout_splits_into_five_lines() {
    let mut div = PuzzleDiv::new(Puzzle::parse_text(DATA));
    div.layout();
    assert_eq!(div.lines(), &vec![0, 0, 1, 1, 2, 3]);
}

#[test]
fn check_text_accepts_puzzles_and_refuses_the_rest() {
    assert!(Puzzle::check_text(DATA));
    assert!(Puzzle::check_text("Ab.AB.AAA\nx|y\nmeta\nq\na\nt\nAB|C"));
    // Six lines only.
    assert!(!Puzzle::check_text("Ab.AB.AAA\nx|y\nmeta\nq\na\nt"));
    // A square naming a clue beyond the last one.
    assert!(!Puzzle::check_text("Ab.AC.AAA\nx|y\nmeta\nq\na\nt\nAB|C"));
    // An offset letter below 'A'.
    assert!(!Puzzle::check_text("Ab.AB.A@A\nx|y\nmeta\nq\na\nt\nAB|C"));
    // A character outside ASCII in the first line, with the byte thirds
    // between characters.
    assert!(Puzzle::check_text("Ab.AB.AAA\u{e9}\nx|y\nmeta\nq\na\nt\nAB|C"));
    // A byte third that falls inside a character.
    assert!(!Puzzle::check_text("\u{e9}ab\nx\nmeta\nq\na\nt\nA"));
}

#[test]
fn quote_steps_undo_each_other() {
    let mut div = PuzzleDiv::new(Puzzle::parse_text(DATA));
    assert!(div.handle(key(Key::Type('™'))));
    for start in 0..3 {
        for dir in [1isize, -1] {
            while div.current_cell() != start {
                div.shift(1);
            }
            div.shift(dir);
            assert_ne!(div.current_cell(), start);
            div.shift(-dir);
            assert_eq!(div.current_cell(), start);
        }
    }
    for x in 0..5 {
        assert_eq!(PuzzleDiv::wrap(PuzzleDiv::wrap(x, 1, 5), -1, 5), x);
    }
}

#[test]
fn squares_and_variables_describe_themselves() {
    let p = Puzzle::parse_text(DATA);
    assert_eq!(p.cells[0].debug_string(), "H 1 ");
    assert_eq!(p.cells[2].debug_string(), "-[-] ");
    assert_eq!(p.variables[1].debug_string(), "1 A[1]");
    let guessed = Cell { cell: 4, correct: 'x', guess: Some('y'), variable: Some(12) };
    assert_eq!(guessed.debug_string(), "x[y] 12 ");
    let v = Variable { variable: 3, cell: 10, letter: 'C', offset: 0 };
    assert_eq!(v.debug_string(), "10 C[0]");
}

#[test]
fn clues_go_on_past_z() {
    let texts: Vec<String> = (0..30).map(|k| format!("c{}", k)).collect();
    let answers: Vec<String> = (0..30).map(|k| format!("a{}", k)).collect();
    let data = format!("a^A\n{}\nmeta\nq\na\nt\n{}", texts.join("|"), answers.join("|"));
    assert!(Puzzle::check_text(&data));
    let p = Puzzle::parse_text(&data);
    assert_eq!(p.clues.len(), 30);
    assert_eq!(p.clues[29].letter, '^');
    assert_eq!(p.clues[29].variables, vec![1]);
    assert_eq!(p.variables[0].letter, '^');
    assert_eq!(p.clues[25].letter, 'Z');
    assert_eq!(p.clues[26].letter, '[');
}

#[test]
fn thirds_are_taken_by_bytes() {
    // Eight bytes: answers "AB", letters from byte 2, offsets from byte 5.
    let p = Puzzle::parse_text("ABAAxABB\nx\nmeta\nq\na\nt\nAB");
    assert_eq!(p.cells.len(), 2);
    assert_eq!(p.variables[0].offset, 0);
    assert_eq!(p.variables[1].offset, 1);
    assert_eq!(p.clues[0].variables, vec![1, 2]);
    // A first line with a two-byte answer: thirds at bytes 2 and 4.
    let p = Puzzle::parse_text("\u{e9}AAAA\nx\nmeta\nq\na\nt\nA");
    assert_eq!(p.cells.len(), 1);
    assert_eq!(p.cells[0].correct, '\u{e9}');
    assert_eq!(p.cells[0].guess, Some('\u{e9}'));
}
