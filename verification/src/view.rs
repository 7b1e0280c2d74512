use vstd::prelude::*;
use crate::puzzle::{Puzzle, Variable, Clue, Cell, letter_index, letter_idx, puzzle_wf};
use crate::text::{is_ascii_alnum, ascii_alnum};

verus! {

/// Which part of the puzzle the cursor moves in.
#[derive(Debug, Eq, PartialEq, Structural, Clone, Copy)]
pub enum Mode {
    Clue,
    Quote,
    Title,
}

/// An arrow key's direction.
#[derive(Debug, Eq, PartialEq, Structural, Clone, Copy)]
pub enum Direction {
    Up,
    Down,
    Left,
    Right,
}

/// A key of the terminal.
#[derive(Debug, Eq, PartialEq, Structural, Clone, Copy)]
pub enum Key {
    Arrow(Direction),
    Type(char),
    Func(usize),
    Delete,
    ForwardDelete,
}

/// A key press; `modified` tells whether a modifier key was held.
#[derive(Debug, Eq, PartialEq, Structural, Clone, Copy)]
pub struct KeyEvent {
    pub key: Key,
    pub modified: bool,
}

/// An input the puzzle view receives.
#[derive(Debug, Eq, PartialEq, Structural, Clone, Copy)]
pub enum InputEvent {
    MouseEvent,
    KeyEvent(KeyEvent),
}

/// The interactive state of an acrostic: the puzzle with its guesses, the
/// square under the cursor, the part of the puzzle being worked on, and
/// where each line of the quotation starts once laid out.
pub struct PuzzleDiv {
    puzzle: Puzzle,
    current_cell: usize,
    mode: Mode,
    lines: Vec<usize>,
}

/// `(x + dir) mod len` for a position `x` in `0..len`.
pub open spec fn wrap_spec(x: int, dir: int, len: int) -> int {
    (x + dir + len) % len
}

/// A step around a cycle of `len` positions is undone by a step the other way.
pub proof fn wrap_undone(x: int, dir: int, len: int)
    requires
        0 <= x < len,
        dir == 1 || dir == -1,
    ensures
        0 <= wrap_spec(x, dir, len) < len,
        wrap_spec(wrap_spec(x, dir, len), -dir, len) == x,
{
    let y = x + dir + len;
    if dir == 1 {
        if x + 1 < len {
            assert(y % len == x + 1) by (nonlinear_arith)
                requires
                    y == x + 1 + len,
                    0 <= x + 1 < len,
            ;
            assert((x + 1 - 1 + len) % len == x) by (nonlinear_arith)
                requires
                    0 <= x < len,
            ;
        } else {
            assert(y % len == 0) by (nonlinear_arith)
                requires
                    y == 2 * len,
                    len > 0,
            ;
            assert((0 - 1 + len) % len == len - 1) by (nonlinear_arith)
                requires
                    len > 0,
            ;
        }
    } else {
        if x > 0 {
            assert(y % len == x - 1) by (nonlinear_arith)
                requires
                    y == x - 1 + len,
                    0 <= x - 1 < len,
            ;
            assert((x - 1 + 1 + len) % len == x) by (nonlinear_arith)
                requires
                    0 <= x < len,
            ;
        } else {
            assert(y % len == len - 1) by (nonlinear_arith)
                requires
                    y == len - 1,
                    len > 0,
            ;
            assert((len - 1 + 1 + len) % len == 0) by (nonlinear_arith)
                requires
                    len > 0,
            ;
        }
    }
}

/// The start of each of the five quotation lines, and the end of the last.
pub open spec fn layout_lines(len: nat) -> Seq<usize> {
    Seq::new(6, |x: int| (x * len / 5) as usize)
}

/// Whether `event` is the plain key press that types `c`.
pub open spec fn is_typed(event: KeyEvent, c: char) -> bool {
    event.key == Key::Type(c) && !event.modified
}

/// A column of one quotation line fits on every other line: lines differ
/// in length by at most one, and the last is among the longest.
proof fn lemma_layout_column(len: int, y: int, y2: int, x: int)
    requires
        len >= 0,
        0 <= y < 5,
        0 <= y2 < 5,
        0 <= x < (y + 1) * len / 5 - y * len / 5,
    ensures
        x + y2 * len / 5 < len,
{
    assert(0 * len / 5 == 0);
    assert(1 * len / 5 == len / 5);
    assert(2 * len / 5 == (len + len) / 5);
    assert(3 * len / 5 == (len + len + len) / 5);
    assert(4 * len / 5 == (len + len + len + len) / 5);
    assert(5 * len / 5 == len);
}

/// The layout's line starts rise from 0 to `len`.
proof fn lemma_layout_monotone(len: int, a: int, b: int)
    requires
        len >= 0,
        0 <= a <= b <= 5,
    ensures
        0 <= a * len / 5 <= b * len / 5 <= len,
        0 * len / 5 == 0,
        5 * len / 5 == len,
{
    assert(b * len <= 5 * len) by (nonlinear_arith)
        requires
            b <= 5,
            len >= 0,
    ;
    assert(0 <= a * len) by (nonlinear_arith)
        requires
            a >= 0,
            len >= 0,
    ;
    assert(a * len <= b * len) by (nonlinear_arith)
        requires
            a <= b,
            len >= 0,
    ;
    assert(0 * len / 5 == 0);
    assert(5 * len / 5 == len);
}

impl PuzzleDiv {
    pub closed spec fn puzzle_spec(&self) -> Puzzle {
        self.puzzle
    }

    pub closed spec fn cells(&self) -> Seq<Cell> {
        self.puzzle.cells@
    }

    pub closed spec fn vars(&self) -> Seq<Variable> {
        self.puzzle.variables@
    }

    pub closed spec fn clues(&self) -> Seq<Clue> {
        self.puzzle.clues@
    }

    pub closed spec fn cursor(&self) -> int {
        self.current_cell as int
    }

    pub closed spec fn mode_spec(&self) -> Mode {
        self.mode
    }

    pub closed spec fn lines_spec(&self) -> Seq<usize> {
        self.lines@
    }

    /// The puzzle is well formed, has a square, and the cursor stands on one.
    pub open spec fn wf(&self) -> bool {
        &&& puzzle_wf(self.cells(), self.vars(), self.clues())
        &&& 0 <= self.cursor() < self.cells().len()
        &&& self.cells().len() * 5 <= usize::MAX
        &&& self.lines_spec().len() == 0 || self.lines_spec() == layout_lines(self.cells().len())
    }

    /// The variable of the square under the cursor.
    pub open spec fn cur_var(&self) -> Option<usize> {
        self.cells()[self.cursor()].variable
    }

    /// The clue of the variable under the cursor, by index.
    pub open spec fn cur_clue(&self) -> Option<int> {
        match self.cur_var() {
            Some(v) => Some(letter_index(self.vars()[v - 1].letter)),
            None => None,
        }
    }

    /// The square of variable `v`.
    pub open spec fn cell_of(&self, v: int) -> int {
        self.vars()[v - 1].cell as int
    }

    /// A valid variable number.
    pub open spec fn is_var(&self, v: int) -> bool {
        1 <= v <= self.vars().len()
    }

    /// The clue a clue-wise move in direction `dir` lands on: the next or
    /// previous letter, wrapping around, or the first clue when the cursor
    /// is on no variable.
    pub open spec fn clue_target(&self, dir: int) -> int {
        let n = self.clues().len() as int;
        match self.cur_clue() {
            None => 0,
            Some(k) => if dir == 1 {
                if k + 1 < n {
                    k + 1
                } else {
                    0
                }
            } else if k > 0 {
                k - 1
            } else {
                n - 1
            },
        }
    }

    /// A clue-wise move does not panic: there is a clue to land on, with a
    /// first variable that exists, and the direction is one step.
    pub open spec fn shift_clue_ok(&self, dir: int) -> bool {
        &&& self.clues().len() > 0
        &&& (self.cur_clue() is Some ==> dir == 1 || dir == -1)
        &&& self.clues()[self.clue_target(dir)].variables@.len() > 0
        &&& self.is_var(self.clues()[self.clue_target(dir)].variables@[0] as int)
    }

    /// Where a clue-wise move puts the cursor: the first square of the target clue.
    pub open spec fn shift_clue_target(&self, dir: int) -> int {
        self.cell_of(self.clues()[self.clue_target(dir)].variables@[0] as int)
    }

    /// Within the clue of the current variable, the variable `dir` steps away.
    pub open spec fn clue_step_var(&self, dir: int) -> int {
        let var = self.vars()[self.cur_var().unwrap() - 1];
        let clue = self.clues()[letter_index(var.letter)];
        clue.variables@[wrap_spec(var.offset as int, dir, clue.variables@.len() as int)] as int
    }

    /// A move within the current part does not panic.
    pub open spec fn shift_ok(&self, dir: int) -> bool {
        &&& dir == 1 || dir == -1
        &&& match self.mode_spec() {
            Mode::Clue => self.cur_var() is Some ==> {
                let var = self.vars()[self.cur_var().unwrap() - 1];
                let clue = self.clues()[letter_index(var.letter)];
                &&& clue.variables@.len() > 0
                &&& clue.variables@.len() * 2 < isize::MAX
                &&& var.offset < clue.variables@.len()
                &&& self.is_var(self.clue_step_var(dir))
            },
            Mode::Quote => true,
            Mode::Title => self.shift_clue_ok(dir),
        }
    }

    /// Where a move within the current part puts the cursor.
    pub open spec fn shift_target(&self, dir: int) -> int {
        match self.mode_spec() {
            Mode::Clue => match self.cur_var() {
                Some(v) => self.cell_of(self.clue_step_var(dir)),
                None => 0,
            },
            Mode::Quote => wrap_spec(self.cursor(), dir, self.cells().len() as int),
            Mode::Title => self.shift_clue_target(dir),
        }
    }

    /// The quotation line the cursor is on: the last line starting at
    /// or before it.
    pub open spec fn cursor_row(&self) -> int {
        choose|y: int|
            0 <= y < 5 && #[trigger] self.lines_spec()[y] <= self.cursor() < self.lines_spec()[y + 1]
    }

    /// Where a move between quotation lines puts the cursor: the same
    /// column on the line `dir` away, wrapping around. Outside the
    /// quotation the cursor stays.
    pub open spec fn vertical_target(&self, dir: int) -> int {
        if self.mode_spec() == Mode::Quote {
            let y = self.cursor_row();
            let x = self.cursor() - self.lines_spec()[y];
            x + self.lines_spec()[wrap_spec(y, dir, 5)]
        } else {
            self.cursor()
        }
    }


    /// The square `d` steps after square `i`, going round.
    pub open spec fn step_from(&self, i: int, d: int) -> int {
        if i + d < self.cells().len() {
            i + d
        } else {
            i + d - self.cells().len()
        }
    }

    /// `d` is the least number of steps from square `start` to a square
    /// that is (`want`) or is not a variable's.
    pub open spec fn is_first_from(&self, start: int, d: int, want: bool) -> bool {
        &&& 0 <= d < self.cells().len()
        &&& (self.cells()[self.step_from(start, d)].variable is Some) == want
        &&& forall|e: int|
            0 <= e < d ==> (#[trigger] self.cells()[self.step_from(start, e)].variable is Some) != want
    }

    /// The least number of steps from `start` to a square that is (`want`)
    /// or is not a variable's.
    pub open spec fn first_from(&self, start: int, want: bool) -> int {
        choose|d: int| self.is_first_from(start, d, want)
    }

    /// Some square is (`want`) or is not a variable's.
    pub open spec fn has_cell(&self, want: bool) -> bool {
        exists|i: int| 0 <= i < self.cells().len() && (#[trigger] self.cells()[i].variable is Some) == want
    }

    /// The square the cursor lands on when it goes round to the next
    /// variable's square, staying if it is on one.
    pub open spec fn next_var_cell(&self) -> int {
        self.step_from(self.cursor(), self.first_from(self.cursor(), true))
    }

    /// The first square of the clue of the variable on square `c`.
    pub open spec fn clue_start_var(&self, c: int) -> int {
        let v = self.cells()[c].variable.unwrap();
        self.clues()[letter_index(self.vars()[v - 1].letter)].variables@[0] as int
    }

    /// Whether `handle` can take `event` without panicking or looping for
    /// ever.
    pub open spec fn handle_ok(&self, event: InputEvent) -> bool {
        match event {
            InputEvent::MouseEvent => true,
            InputEvent::KeyEvent(e) => if is_typed(e, '¡') {
                self.has_cell(true)
            } else if is_typed(e, '™') {
                true
            } else if is_typed(e, '£') {
                &&& self.has_cell(true)
                &&& {
                    let c = self.next_var_cell();
                    let v = self.cells()[c].variable.unwrap();
                    let clue = self.clues()[letter_index(self.vars()[v - 1].letter)];
                    &&& clue.variables@.len() > 0
                    &&& self.is_var(self.clue_start_var(c))
                }
            } else if is_typed(e, '\r') {
                match self.mode_spec() {
                    Mode::Quote => self.has_cell(false) && self.first_from(self.cursor() + 1, false) + 1
                        < self.cells().len(),
                    _ => self.shift_clue_ok(1),
                }
            } else {
                match e.key {
                    Key::Arrow(Direction::Up) | Key::Arrow(Direction::Down) => self.mode_spec()
                        == Mode::Quote ==> self.lines_spec().len() > 0,
                    Key::Arrow(Direction::Right) => self.shift_ok(1),
                    Key::Arrow(Direction::Left) => self.shift_ok(-1),
                    Key::Type(x) => is_ascii_alnum(x) ==> self.shift_ok(1),
                    Key::Delete => self.shift_ok(-1),
                    _ => true,
                }
            },
        }
    }

    /// The squares after a guess is written on (`Some`) or erased from
    /// (`None`) square `i`, when it is a variable's.
    pub open spec fn cells_with_guess(&self, i: int, guess: Option<char>) -> Seq<Cell> {
        if self.cells()[i].variable is Some {
            self.cells().update(i, Cell { guess, ..self.cells()[i] })
        } else {
            self.cells()
        }
    }

    pub fn new(puzzle: Puzzle) -> (r: Self)
        requires
            puzzle.wf(),
            puzzle.cells@.len() > 0,
            puzzle.cells@.len() * 5 <= usize::MAX,
        ensures
            r.wf(),
            r.puzzle_spec() == puzzle,
            r.cursor() == 0,
            r.mode_spec() == Mode::Clue,
            r.lines_spec() == Seq::<usize>::empty(),
    {
        PuzzleDiv { puzzle, current_cell: 0, mode: Mode::Clue, lines: Vec::new() }
    }

    pub fn puzzle(&self) -> (r: &Puzzle)
        ensures
            *r == self.puzzle_spec(),
    {
        &self.puzzle
    }

    pub fn current_cell(&self) -> (r: usize)
        ensures
            r == self.cursor(),
    {
        self.current_cell
    }

    pub fn mode(&self) -> (r: Mode)
        ensures
            r == self.mode_spec(),
    {
        self.mode
    }

    pub fn lines(&self) -> (r: &Vec<usize>)
        ensures
            r@ == self.lines_spec(),
    {
        &self.lines
    }

    /// Splits the quotation into five lines of (nearly) equal length.
    pub fn layout(&mut self)
        requires
            old(self).wf(),
        ensures
            final(self).wf(),
            final(self).lines_spec() == layout_lines(old(self).cells().len()),
            final(self).puzzle_spec() == old(self).puzzle_spec(),
            final(self).cursor() == old(self).cursor(),
            final(self).mode_spec() == old(self).mode_spec(),
    {
        let len = self.puzzle.cells.len();
        let mut lines: Vec<usize> = Vec::new();
        let mut x: usize = 0;
        while x < 6
            invariant
                x <= 6,
                len == self.puzzle.cells@.len(),
                len * 5 <= usize::MAX,
                lines@.len() == x,
                forall|j: int| 0 <= j < x ==> lines@[j] == (j * len / 5) as usize,
            decreases 6 - x,
        {
            assert(x * len <= 5 * len) by (nonlinear_arith)
                requires
                    x <= 5,
            ;
            lines.push(x * len / 5);
            x = x + 1;
        }
        assert(lines@ =~= layout_lines(len as nat));
        self.lines = lines;
    }

    /// The variable under the cursor.
    pub fn current_variable(&self) -> (r: Option<&Variable>)
        requires
            self.wf(),
        ensures
            r == (match self.cur_var() {
                Some(v) => Some(&self.vars()[v - 1]),
                None => None,
            }),
    {
        match self.puzzle.cells[self.current_cell].variable {
            Some(v) => Some(&self.puzzle.variables[v - 1]),
            None => None,
        }
    }

    /// Moves the cursor to the square of variable `variable`.
    pub fn set_variable(&mut self, variable: usize)
        requires
            old(self).wf(),
            old(self).is_var(variable as int),
        ensures
            final(self).wf(),
            final(self).cursor() == old(self).cell_of(variable as int),
            final(self).puzzle_spec() == old(self).puzzle_spec(),
            final(self).mode_spec() == old(self).mode_spec(),
            final(self).lines_spec() == old(self).lines_spec(),
    {
        assert(self.vars()[variable - 1] == self.vars()[variable - 1]);
        self.current_cell = self.puzzle.variables[variable - 1].cell;
    }

    /// The clue of the variable under the cursor.
    pub fn current_clue(&self) -> (r: Option<&Clue>)
        requires
            self.wf(),
        ensures
            r == (match self.cur_clue() {
                Some(k) => Some(&self.clues()[k]),
                None => None,
            }),
    {
        match self.current_variable() {
            Some(var) => {
                assert(self.vars()[self.cur_var().unwrap() - 1] == *var);
                let k = letter_idx(var.letter);
                Some(&self.puzzle.clues[k])
            },
            None => None,
        }
    }

    /// `(x + dir) mod len`, as the view steps around a cycle of `len` positions.
    pub fn wrap(x: usize, dir: isize, len: usize) -> (r: usize)
        requires
            len > 0,
            x <= isize::MAX,
            len <= isize::MAX,
            0 <= x + dir + len <= isize::MAX,
        ensures
            r == wrap_spec(x as int, dir as int, len as int),
    {
        ((x as isize + dir + len as isize) as usize) % len
    }

    /// Moves to the first square of the next (`dir == 1`) or previous
    /// (`dir == -1`) clue, or of the first clue when the cursor is on no
    /// variable.
    pub fn shift_clue(&mut self, dir: isize)
        requires
            old(self).wf(),
            old(self).shift_clue_ok(dir as int),
        ensures
            final(self).wf(),
            final(self).cursor() == old(self).shift_clue_target(dir as int),
            final(self).puzzle_spec() == old(self).puzzle_spec(),
            final(self).mode_spec() == old(self).mode_spec(),
            final(self).lines_spec() == old(self).lines_spec(),
    {
        let n = self.puzzle.clues.len();
        let mut next: usize = 0;
        if let Some(clue) = self.current_clue() {
            let k = letter_idx(clue.letter);
            assert(letter_index(self.clues()[k as int].letter) == k);
            if dir == 1 {
                next = if k + 1 < n {
                    k + 1
                } else {
                    0
                };
            } else {
                next = if k > 0 {
                    k - 1
                } else {
                    n - 1
                };
            }
        }
        assert(next == self.clue_target(dir as int));
        let variable = self.puzzle.clues[next].variables[0];
        self.set_variable(variable);
    }

    /// Moves one step within the current part: along the answer of the
    /// current clue, along the quotation, or from clue to clue.
    pub fn shift(&mut self, dir: isize)
        requires
            old(self).wf(),
            old(self).shift_ok(dir as int),
        ensures
            final(self).wf(),
            final(self).cursor() == old(self).shift_target(dir as int),
            final(self).puzzle_spec() == old(self).puzzle_spec(),
            final(self).mode_spec() == old(self).mode_spec(),
            final(self).lines_spec() == old(self).lines_spec(),
    {
        match self.mode {
            Mode::Clue => {
                match self.current_variable() {
                    Some(var) => {
                        let offset = var.offset;
                        let letter = var.letter;
                        let k = letter_idx(letter);
                        let clue = &self.puzzle.clues[k];
                        let offset = Self::wrap(offset, dir, clue.variables.len());
                        let variable = clue.variables[offset];
                        self.set_variable(variable);
                    },
                    None => {
                        self.current_cell = 0;
                    },
                }
            },
            Mode::Quote => {
                self.current_cell = Self::wrap(self.current_cell, dir, self.puzzle.cells.len());
            },
            Mode::Title => {
                self.shift_clue(dir);
            },
        }
    }

    /// Moves to the same column of the next (`dir == 1`) or previous
    /// (`dir == -1`) quotation line, when working on the quotation.
    pub fn shift_vertical(&mut self, dir: isize)
        requires
            old(self).wf(),
            dir == 1 || dir == -1,
            old(self).mode_spec() == Mode::Quote ==> old(self).lines_spec().len() > 0,
        ensures
            final(self).wf(),
            final(self).cursor() == old(self).vertical_target(dir as int),
            final(self).puzzle_spec() == old(self).puzzle_spec(),
            final(self).mode_spec() == old(self).mode_spec(),
            final(self).lines_spec() == old(self).lines_spec(),
    {
        if self.mode == Mode::Quote {
            let ghost len = self.cells().len() as int;
            let ghost cur = self.cursor();
            proof {
                lemma_layout_monotone(len, 0, 0);
            }
            let mut p: usize = 0;
            while p < self.lines.len() && self.lines[p] <= self.current_cell
                invariant
                    p <= 6,
                    self.lines@ == layout_lines(len as nat),
                    len == self.puzzle.cells@.len(),
                    cur == self.current_cell,
                    cur < len,
                    forall|q: int| 0 <= q < p ==> self.lines@[q] <= cur,
                decreases 6 - p,
            {
                p = p + 1;
            }
            proof {
                lemma_layout_monotone(len, 0, 5);
                assert(self.lines@[5] == len);
                assert(self.lines@[0] == 0);
            }
            let y = p - 1;
            proof {
                lemma_layout_monotone(len, y as int, p as int);
                assert(self.lines@[y as int] <= cur < self.lines@[y + 1]);
                let r = self.cursor_row();
                assert(0 <= r < 5 && self.lines@[r] <= cur < self.lines@[r + 1]);
                lemma_layout_monotone(len, r, r + 1);
                lemma_layout_monotone(len, y as int, y + 1);
                if r < y {
                    lemma_layout_monotone(len, r + 1, y as int);
                } else if r > y {
                    lemma_layout_monotone(len, y + 1, r);
                }
                assert(r == y);
            }
            let x = self.current_cell - self.lines[y];
            let y2 = Self::wrap(y, dir, self.lines.len() - 1);
            proof {
                lemma_layout_column(len, y as int, y2 as int, x as int);
            }
            self.current_cell = x + self.lines[y2];
        }
    }


    proof fn lemma_first_exists(&self, start: int, want: bool, d: int, target: int)
        requires
            self.wf(),
            0 <= start <= self.cells().len(),
            0 <= d <= target < self.cells().len(),
            (self.cells()[self.step_from(start, target)].variable is Some) == want,
            forall|e: int|
                0 <= e < d ==> (#[trigger] self.cells()[self.step_from(start, e)].variable is Some)
                    != want,
        ensures
            self.is_first_from(start, self.first_from(start, want), want),
        decreases target - d,
    {
        if (self.cells()[self.step_from(start, d)].variable is Some) == want {
            assert(self.is_first_from(start, d, want));
        } else {
            self.lemma_first_exists(start, want, d + 1, target);
        }
    }

    proof fn lemma_first_from(&self, start: int, want: bool)
        requires
            self.wf(),
            0 <= start <= self.cells().len(),
            self.has_cell(want),
        ensures
            self.is_first_from(start, self.first_from(start, want), want),
            forall|d: int| #[trigger] self.is_first_from(start, d, want) ==> d == self.first_from(start, want),
    {
        let len = self.cells().len() as int;
        let i = choose|i: int| 0 <= i < len && (#[trigger] self.cells()[i].variable is Some) == want;
        let target = if i >= start { i - start } else { i + len - start };
        if target == len {
            // only when start == len and i == 0
            assert(self.step_from(start, 0) == i);
            self.lemma_first_exists(start, want, 0, 0);
        } else {
            assert(self.step_from(start, target) == i);
            self.lemma_first_exists(start, want, 0, target);
        }
        let f = self.first_from(start, want);
        assert forall|d: int| #[trigger] self.is_first_from(start, d, want) implies d == f by {
            if d < f {
                assert((self.cells()[self.step_from(start, d)].variable is Some) != want);
            } else if d > f {
                assert((self.cells()[self.step_from(start, f)].variable is Some) != want);
            }
        }
    }

    /// The least number of steps from square `start` to a square that is
    /// (`want`) or is not a variable's.
    fn find_first(&self, start: usize, want: bool) -> (d: usize)
        requires
            self.wf(),
            start <= self.cells().len(),
            self.has_cell(want),
        ensures
            d == self.first_from(start as int, want),
            self.is_first_from(start as int, d as int, want),
    {
        proof {
            self.lemma_first_from(start as int, want);
        }
        let len = self.puzzle.cells.len();
        let ghost f = self.first_from(start as int, want);
        let mut d: usize = 0;
        loop
            invariant
                self.wf(),
                len == self.cells().len(),
                start <= len,
                0 <= d <= f,
                self.is_first_from(start as int, f, want),
                forall|e: int|
                    0 <= e < d ==> (#[trigger] self.cells()[self.step_from(start as int, e)].variable is Some)
                        != want,
            decreases f - d,
        {
            let i = if start + d < len {
                start + d
            } else {
                start + d - len
            };
            assert(i == self.step_from(start as int, d as int));
            if self.puzzle.cells[i].variable.is_some() == want {
                assert(self.is_first_from(start as int, d as int, want));
                return d;
            }
            d = d + 1;
        }
    }

    /// Goes round to the next square of a variable, staying on the current
    /// square if it is one.
    fn advance_to_variable(&mut self)
        requires
            old(self).wf(),
            old(self).has_cell(true),
        ensures
            final(self).wf(),
            final(self).cursor() == old(self).next_var_cell(),
            final(self).cur_var() is Some,
            final(self).puzzle_spec() == old(self).puzzle_spec(),
            final(self).mode_spec() == old(self).mode_spec(),
            final(self).lines_spec() == old(self).lines_spec(),
    {
        let len = self.puzzle.cells.len();
        let d = self.find_first(self.current_cell, true);
        self.current_cell = if self.current_cell + d < len {
            self.current_cell + d
        } else {
            self.current_cell + d - len
        };
    }

    /// Reacts to an input: switches part with '¡' (clue), '™' (quotation)
    /// and '£' (title); jumps ahead with return; moves with the arrows;
    /// writes a letter or digit and moves on; erases backwards with delete.
    /// Returns whether the input was used.
    pub fn handle(&mut self, event: InputEvent) -> (handled: bool)
        requires
            old(self).wf(),
            old(self).handle_ok(event),
        ensures
            final(self).wf(),
            final(self).lines_spec() == old(self).lines_spec(),
            final(self).vars() == old(self).vars(),
            final(self).clues() == old(self).clues(),
            match event {
                InputEvent::MouseEvent => !handled && final(self).puzzle_spec() == old(self).puzzle_spec()
                    && final(self).cursor() == old(self).cursor() && final(self).mode_spec()
                    == old(self).mode_spec(),
                InputEvent::KeyEvent(e) => if is_typed(e, '¡') {
                    &&& handled
                    &&& final(self).mode_spec() == Mode::Clue
                    &&& final(self).cursor() == old(self).next_var_cell()
                    &&& final(self).puzzle_spec() == old(self).puzzle_spec()
                } else if is_typed(e, '™') {
                    &&& handled
                    &&& final(self).mode_spec() == Mode::Quote
                    &&& final(self).cursor() == old(self).cursor()
                    &&& final(self).puzzle_spec() == old(self).puzzle_spec()
                } else if is_typed(e, '£') {
                    &&& handled
                    &&& final(self).mode_spec() == Mode::Title
                    &&& final(self).cursor() == old(self).cell_of(
                        old(self).clue_start_var(old(self).next_var_cell()),
                    )
                    &&& final(self).puzzle_spec() == old(self).puzzle_spec()
                } else if is_typed(e, '\r') {
                    &&& handled
                    &&& final(self).mode_spec() == old(self).mode_spec()
                    &&& final(self).puzzle_spec() == old(self).puzzle_spec()
                    &&& final(self).cursor() == match old(self).mode_spec() {
                        Mode::Quote => old(self).first_from(old(self).cursor() + 1, false) + 1,
                        _ => old(self).shift_clue_target(1),
                    }
                } else {
                    match e.key {
                        Key::Arrow(d) => {
                            &&& handled
                            &&& final(self).mode_spec() == old(self).mode_spec()
                            &&& final(self).puzzle_spec() == old(self).puzzle_spec()
                            &&& final(self).cursor() == match d {
                                Direction::Up => old(self).vertical_target(-1),
                                Direction::Down => old(self).vertical_target(1),
                                Direction::Right => old(self).shift_target(1),
                                Direction::Left => old(self).shift_target(-1),
                            }
                        },
                        Key::Type(x) => if is_ascii_alnum(x) {
                            &&& handled
                            &&& final(self).mode_spec() == old(self).mode_spec()
                            &&& final(self).cells() == old(self).cells_with_guess(old(self).cursor(), Some(x))
                            &&& final(self).cursor() == old(self).shift_target(1)
                        } else {
                            &&& !handled
                            &&& final(self).mode_spec() == old(self).mode_spec()
                            &&& final(self).puzzle_spec() == old(self).puzzle_spec()
                            &&& final(self).cursor() == old(self).cursor()
                        },
                        Key::Delete => {
                            &&& handled
                            &&& final(self).mode_spec() == old(self).mode_spec()
                            &&& final(self).cursor() == old(self).shift_target(-1)
                            &&& final(self).cells() == old(self).cells_with_guess(old(self).shift_target(-1), None)
                        },
                        _ => {
                            &&& !handled
                            &&& final(self).mode_spec() == old(self).mode_spec()
                            &&& final(self).puzzle_spec() == old(self).puzzle_spec()
                            &&& final(self).cursor() == old(self).cursor()
                        },
                    }
                },
            },
    {
        match event {
            InputEvent::MouseEvent => false,
            InputEvent::KeyEvent(e) => {
                if e.key == Key::Type('¡') && !e.modified {
                    self.advance_to_variable();
                    self.mode = Mode::Clue;
                    true
                } else if e.key == Key::Type('™') && !e.modified {
                    self.mode = Mode::Quote;
                    true
                } else if e.key == Key::Type('£') && !e.modified {
                    self.advance_to_variable();
                    let v = self.puzzle.cells[self.current_cell].variable.unwrap();
                    let k = letter_idx(self.puzzle.variables[v - 1].letter);
                    let variable = self.puzzle.clues[k].variables[0];
                    self.set_variable(variable);
                    self.mode = Mode::Title;
                    true
                } else if e.key == Key::Type('\r') && !e.modified {
                    match self.mode {
                        Mode::Quote => {
                            let d = self.find_first(self.current_cell + 1, false);
                            self.current_cell = d + 1;
                        },
                        _ => {
                            self.shift_clue(1);
                        },
                    }
                    true
                } else {
                    match e.key {
                        Key::Arrow(direction) => {
                            match direction {
                                Direction::Up => self.shift_vertical(-1),
                                Direction::Down => self.shift_vertical(1),
                                Direction::Right => self.shift(1),
                                Direction::Left => self.shift(-1),
                            }
                            true
                        },
                        Key::Type(x) => {
                            if ascii_alnum(x) {
                                if self.puzzle.cells[self.current_cell].variable.is_some() {
                                    self.puzzle.cells[self.current_cell].guess = Some(x);
                                }
                                self.shift(1);
                                true
                            } else {
                                false
                            }
                        },
                        Key::Delete => {
                            self.shift(-1);
                            if self.puzzle.cells[self.current_cell].variable.is_some() {
                                self.puzzle.cells[self.current_cell].guess = None;
                            }
                            true
                        },
                        _ => false,
                    }
                }
            },
        }
    }

}

/// On the quotation, a step one way is undone by a step the other way: the
/// cursor comes back to the square it left.
pub proof fn quote_shift_undone(before: PuzzleDiv, after: PuzzleDiv, dir: int)
    requires
        before.wf(),
        before.mode_spec() == Mode::Quote,
        dir == 1 || dir == -1,
        after.puzzle_spec() == before.puzzle_spec(),
        after.mode_spec() == Mode::Quote,
        after.cursor() == before.shift_target(dir),
    ensures
        after.shift_target(-dir) == before.cursor(),
{
    wrap_undone(before.cursor(), dir, before.cells().len() as int);
}

/// A clue-wise step follows the letters: forward lands on the clue whose
/// letter comes after the current clue's, back on the one before, both
/// wrapping round; off any clue a step lands on the first clue.
pub proof fn clue_steps_follow_letters(div: PuzzleDiv)
    requires
        div.wf(),
        div.clues().len() > 0,
    ensures
        div.cur_clue() is None ==> div.clue_target(1) == 0 && div.clue_target(-1) == 0,
        div.cur_clue() matches Some(k) ==> {
            let n = div.clues().len() as int;
            &&& 0 <= k < n
            &&& div.clue_target(1) == (k + 1) % n
            &&& div.clue_target(-1) == (k + n - 1) % n
            &&& letter_index(div.clues()[div.clue_target(1)].letter) == (k + 1) % n
            &&& letter_index(div.clues()[div.clue_target(-1)].letter) == (k + n - 1) % n
        },
{
    if let Some(v) = div.cur_var() {
        let c = div.cursor();
        assert(div.cells()[c].variable == Some(v));
        let j = v - 1;
        assert(div.vars()[j].variable == j + 1);
        let n = div.clues().len() as int;
        let k = letter_index(div.vars()[j].letter);
        assert(0 <= k < n);
        let f = div.clue_target(1);
        let b = div.clue_target(-1);
        assert(f == (k + 1) % n) by {
            if k + 1 < n {
                vstd::arithmetic::div_mod::lemma_small_mod((k + 1) as nat, n as nat);
            } else {
                vstd::arithmetic::div_mod::lemma_mod_self_0(n);
            }
        }
        assert(b == (k + n - 1) % n) by {
            if k > 0 {
                vstd::arithmetic::div_mod::lemma_mod_add_multiples_vanish(k - 1, n);
                vstd::arithmetic::div_mod::lemma_small_mod((k - 1) as nat, n as nat);
            } else {
                vstd::arithmetic::div_mod::lemma_small_mod((n - 1) as nat, n as nat);
            }
        }
        assert(div.clues()[f].letter == div.clues()[f].letter);
        assert(div.clues()[b].letter == div.clues()[b].letter);
    }
}

} // verus!
