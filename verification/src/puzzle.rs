use vstd::prelude::*;
use crate::remangle::shorten::{utf8_len, utf8_width};
use crate::text::{split_fields, split_str, str_views, is_ascii_alnum, ascii_alnum, append_char, append_decimal, decimal};

verus! {

/// One square of the quotation. Letters and digits are to be guessed;
/// other characters are shown from the start.
#[derive(Eq, PartialEq, Structural, PartialOrd, Ord, Hash, Debug, Clone, Copy)]
pub struct Cell {
    pub cell: usize,
    pub correct: char,
    pub guess: Option<char>,
    pub variable: Option<usize>,
}

/// A square to be guessed: its number (from 1), where it stands in the
/// quotation, and the clue and position in the clue's answer it belongs to.
#[derive(Eq, PartialEq, Structural, PartialOrd, Ord, Hash, Debug, Clone, Copy)]
pub struct Variable {
    pub variable: usize,
    pub cell: usize,
    pub letter: char,
    pub offset: usize,
}

/// A clue: its letter, the variables that spell its answer, its text and
/// the answer as it is shown.
#[derive(Eq, PartialEq, PartialOrd, Ord, Hash, Debug)]
pub struct Clue {
    pub letter: char,
    pub variables: Vec<usize>,
    pub clue: String,
    pub pretty_answer: String,
}

/// An acrostic puzzle. `variables[v - 1]` is variable `v`, and `clues[k]`
/// is the clue whose letter is the `k`-th from 'A'.
#[derive(Eq, PartialEq, PartialOrd, Ord, Hash, Debug)]
pub struct Puzzle {
    pub cells: Vec<Cell>,
    pub variables: Vec<Variable>,
    pub clues: Vec<Clue>,
}

/// How a square is described for debugging: its answer, the guess in
/// brackets if there is one, a space, and its variable's number and a
/// space if it has one.
pub open spec fn cell_text(c: Cell) -> Seq<char> {
    seq![c.correct] + match c.guess {
        Some(g) => seq!['[', g, ']'],
        None => Seq::empty(),
    } + seq![' '] + match c.variable {
        Some(v) => decimal(v as nat) + seq![' '],
        None => Seq::empty(),
    }
}

/// How a variable is described for debugging: its square, its clue letter,
/// and its position in the clue's answer in brackets.
pub open spec fn variable_text(v: Variable) -> Seq<char> {
    decimal(v.cell as nat) + seq![' ', v.letter, '['] + decimal(v.offset as nat) + seq![']']
}

impl Cell {
    /// The square described for debugging.
    pub fn debug_string(&self) -> (r: String)
        ensures
            r@ == cell_text(*self),
    {
        let mut out = String::new();
        append_char(&mut out, self.correct);
        if let Some(g) = self.guess {
            append_char(&mut out, '[');
            append_char(&mut out, g);
            append_char(&mut out, ']');
        }
        append_char(&mut out, ' ');
        if let Some(v) = self.variable {
            append_decimal(&mut out, v as u64);
            append_char(&mut out, ' ');
        }
        assert(out@ =~= cell_text(*self));
        out
    }
}

impl Variable {
    /// The variable described for debugging.
    pub fn debug_string(&self) -> (r: String)
        ensures
            r@ == variable_text(*self),
    {
        let mut out = String::new();
        append_decimal(&mut out, self.cell as u64);
        append_char(&mut out, ' ');
        append_char(&mut out, self.letter);
        append_char(&mut out, '[');
        append_decimal(&mut out, self.offset as u64);
        append_char(&mut out, ']');
        assert(out@ =~= variable_text(*self));
        out
    }
}

/// The lines of a puzzle file.
pub open spec fn puzzle_lines(data: Seq<char>) -> Seq<Seq<char>> {
    split_fields(data, '\n')
}

/// Bytes that the first `k` characters of `ct` take in UTF-8.
pub open spec fn prefix_bytes(ct: Seq<char>, k: int) -> int {
    utf8_len(ct.take(k))
}

/// Whether byte offset `b` of `ct` falls between two characters.
pub open spec fn on_boundary(ct: Seq<char>, b: int) -> bool {
    exists|k: int| 0 <= k <= ct.len() && #[trigger] prefix_bytes(ct, k) == b
}

/// The character position at byte offset `b` of `ct`, when it falls
/// between two characters.
pub open spec fn cut(ct: Seq<char>, b: int) -> int {
    choose|k: int| 0 <= k <= ct.len() && #[trigger] prefix_bytes(ct, k) == b
}

/// Where the clue letters start: a third of the first line, in bytes.
pub open spec fn first_cut(ct: Seq<char>) -> int {
    cut(ct, utf8_len(ct) / 3)
}

/// Where the offset letters start: two thirds of the first line, in bytes.
pub open spec fn second_cut(ct: Seq<char>) -> int {
    cut(ct, 2 * utf8_len(ct) / 3)
}

/// Whether the first line can be cut in thirds by bytes.
pub open spec fn cuts_ok(ct: Seq<char>) -> bool {
    on_boundary(ct, utf8_len(ct) / 3) && on_boundary(ct, 2 * utf8_len(ct) / 3)
}

/// The number of squares: the first line holds the answers, the clue
/// letters and the offsets, each a third of it in bytes; squares are read
/// as long as all three parts have characters.
pub open spec fn cell_count(ct: Seq<char>) -> int {
    let a = first_cut(ct);
    let b = second_cut(ct) - first_cut(ct);
    let c = ct.len() - second_cut(ct);
    if a <= b && a <= c {
        a
    } else if b <= c {
        b
    } else {
        c
    }
}

/// The number of squares to guess among the first `n`.
pub open spec fn alnum_count(ct: Seq<char>, n: int) -> nat
    decreases n,
{
    if n <= 0 {
        0
    } else {
        alnum_count(ct, n - 1) + if is_ascii_alnum(ct[n - 1]) {
            1nat
        } else {
            0nat
        }
    }
}

/// The answer, clue letter and offset letter of square `i`.
pub open spec fn answer_at(ct: Seq<char>, i: int) -> char {
    ct[i]
}

pub open spec fn letter_at(ct: Seq<char>, i: int) -> char {
    ct[first_cut(ct) + i]
}

pub open spec fn offset_at(ct: Seq<char>, i: int) -> int {
    ct[second_cut(ct) + i] as int - 'A' as int
}

/// `vars` grown with zeros to hold position `off`, with `v` written there.
pub open spec fn assign_var(vars: Seq<usize>, off: int, v: usize) -> Seq<usize> {
    let grown = if vars.len() <= off {
        vars + Seq::new((off + 1 - vars.len()) as nat, |_i: int| 0usize)
    } else {
        vars
    };
    grown.update(off, v)
}

/// The variables of the clue whose letter has code `code`, after the first
/// `n` squares are read.
pub open spec fn clue_vars(ct: Seq<char>, n: int, code: int) -> Seq<usize>
    decreases n,
{
    if n <= 0 {
        Seq::empty()
    } else {
        let prev = clue_vars(ct, n - 1, code);
        let i = n - 1;
        if is_ascii_alnum(answer_at(ct, i)) && letter_at(ct, i) as int == code {
            assign_var(prev, offset_at(ct, i), alnum_count(ct, n) as usize)
        } else {
            prev
        }
    }
}

/// The number of clues: as many as both the clue texts and the pretty
/// answers provide.
pub open spec fn clue_total(data: Seq<char>) -> int {
    let a = split_fields(puzzle_lines(data)[1], '|').len();
    let b = split_fields(puzzle_lines(data)[6], '|').len();
    if a <= b {
        a as int
    } else {
        b as int
    }
}

/// The inputs `parse_text` accepts: seven lines, a first line that can be
/// cut in thirds by bytes, no more clues than `'A'..` can letter, and every
/// square to guess naming an existing clue and an offset letter.
pub open spec fn parse_ok(data: Seq<char>) -> bool {
    let lines = puzzle_lines(data);
    let ct = lines[0];
    &&& lines.len() == 7
    &&& cuts_ok(ct)
    &&& clue_total(data) <= MAX_CLUES
    &&& forall|i: int|
        0 <= i < cell_count(ct) && is_ascii_alnum(#[trigger] answer_at(ct, i)) ==> {
            &&& 'A' as int <= letter_at(ct, i) as int
            &&& letter_index(letter_at(ct, i)) < clue_total(data)
            &&& offset_at(ct, i) >= 0
        }
}

/// Square `i` as parsed from the first line `ct`.
pub open spec fn cell_spec(ct: Seq<char>, i: int) -> Cell {
    if is_ascii_alnum(answer_at(ct, i)) {
        Cell {
            cell: i as usize,
            correct: answer_at(ct, i),
            guess: None,
            variable: Some(alnum_count(ct, i + 1) as usize),
        }
    } else {
        Cell { cell: i as usize, correct: answer_at(ct, i), guess: Some(answer_at(ct, i)), variable: None }
    }
}

/// The variable of square `i`, a square to guess.
pub open spec fn variable_spec(ct: Seq<char>, i: int) -> Variable {
    Variable {
        variable: alnum_count(ct, i + 1) as usize,
        cell: i as usize,
        letter: letter_at(ct, i),
        offset: offset_at(ct, i) as usize,
    }
}

proof fn lemma_alnum_count_step(ct: Seq<char>, n: int)
    requires
        n >= 0,
    ensures
        alnum_count(ct, n) <= n,
        alnum_count(ct, n + 1) == alnum_count(ct, n) + if is_ascii_alnum(ct[n]) {
            1nat
        } else {
            0nat
        },
    decreases n,
{
    if n > 0 {
        lemma_alnum_count_step(ct, n - 1);
    }
}

proof fn lemma_alnum_count_mono(ct: Seq<char>, m: int, n: int)
    requires
        0 <= m <= n,
    ensures
        alnum_count(ct, m) <= alnum_count(ct, n),
    decreases n - m,
{
    if m < n {
        lemma_alnum_count_mono(ct, m, n - 1);
        lemma_alnum_count_step(ct, n - 1);
    }
}

/// The position of a clue letter counted from 'A', over the characters
/// that follow it (the surrogate codes are no characters).
pub open spec fn letter_index(c: char) -> int {
    if (c as int) < 0xD800 {
        c as int - 'A' as int
    } else {
        c as int - 'A' as int - 0x800
    }
}

/// The code of the `k`-th character from 'A', as `'A'..` counts them.
pub open spec fn clue_letter(k: int) -> int {
    if 'A' as int + k < 0xD800 {
        'A' as int + k
    } else {
        'A' as int + k + 0x800
    }
}

/// The most clues `'A'..` can letter: it computes the character after the
/// last one it hands out, and has none after `char::MAX`.
pub const MAX_CLUES: usize = 0x10F7BD;

/// The letter of clue `k` is the `k`-th from 'A', and that is the clue a
/// letter names.
pub proof fn lemma_clue_letter(k: int, c: char)
    requires
        0 <= k,
        'A' as int <= c as int,
    ensures
        (clue_letter(k) == c as int) <==> (k == letter_index(c)),
        letter_index(c) >= 0,
{
}

/// The position of clue letter `c` counted from 'A'.
pub fn letter_idx(c: char) -> (r: usize)
    requires
        'A' as int <= c as int,
    ensures
        r == letter_index(c),
{
    let code = c as u32;
    if code < 0xD800 {
        (code - 65) as usize
    } else {
        (code - 65 - 0x800) as usize
    }
}

/// `char::from_u32`: the character with code `code`, when `code` is a
/// Unicode scalar value (not a surrogate, at most 0x10FFFF); `None` else.
#[verifier::external_body]
fn char_from_u32(code: u32) -> (r: Option<char>)
    ensures
        r matches Some(c) ==> c as int == code,
        (code < 0xD800 || (0xE000 <= code && code <= 0x10FFFF)) ==> r is Some,
{
    char::from_u32(code)
}

/// The letter of clue `k`.
fn clue_char(k: usize) -> (r: char)
    requires
        k <= MAX_CLUES,
    ensures
        r as int == clue_letter(k as int),
{
    let k32 = k as u32;
    let code: u32 = if 65 + k32 < 0xD800 {
        65 + k32
    } else {
        65 + k32 + 0x800
    };
    char_from_u32(code).unwrap()
}

/// Bytes that `c` takes in UTF-8.
fn char_width(c: char) -> (r: u128)
    ensures
        r == utf8_width(c),
{
    let code = c as u32;
    if code < 0x80 {
        1
    } else if code < 0x800 {
        2
    } else if code < 0x10000 {
        3
    } else {
        4
    }
}

/// Prefixes of more characters take more bytes.
proof fn lemma_prefix_bytes_grow(ct: Seq<char>, j: int, k: int)
    requires
        0 <= j < k <= ct.len(),
    ensures
        prefix_bytes(ct, j) < prefix_bytes(ct, k),
    decreases k - j,
{
    assert(ct.take(k).drop_last() =~= ct.take(k - 1));
    if j < k - 1 {
        lemma_prefix_bytes_grow(ct, j, k - 1);
    }
}

/// The character positions at a third and at two thirds of `s` in bytes,
/// when both fall between characters.
fn byte_cuts(s: &str) -> (r: Option<(usize, usize)>)
    ensures
        r is Some <==> cuts_ok(s@),
        r matches Some(c) ==> c.0 == first_cut(s@) && c.1 == second_cut(s@) && c.0 <= c.1 <= s@.len(),
{
    let ghost ct = s@;
    let n = s.unicode_len();
    let mut total: u128 = 0;
    let mut k: usize = 0;
    assert(ct.take(0) =~= Seq::<char>::empty());
    while k < n
        invariant
            n == ct.len(),
            ct == s@,
            k <= n,
            total == prefix_bytes(ct, k as int),
            total <= 4 * k,
        decreases n - k,
    {
        assert(ct.take(k + 1).drop_last() =~= ct.take(k as int));
        total = total + char_width(s.get_char(k));
        k = k + 1;
    }
    assert(ct.take(n as int) =~= ct);
    let one = total / 3;
    let two = 2 * total / 3;
    let mut first: Option<usize> = None;
    let mut second: Option<usize> = None;
    let mut bytes: u128 = 0;
    let mut i: usize = 0;
    while i < n
        invariant
            n == ct.len(),
            ct == s@,
            i <= n,
            total == utf8_len(ct),
            one == utf8_len(ct) / 3,
            two == 2 * utf8_len(ct) / 3,
            bytes == prefix_bytes(ct, i as int),
            bytes <= 4 * i,
            first matches Some(a) ==> a < i && prefix_bytes(ct, a as int) == one,
            first is None ==> forall|j: int| 0 <= j < i ==> prefix_bytes(ct, j) != one,
            second matches Some(b) ==> b < i && prefix_bytes(ct, b as int) == two,
            second is None ==> forall|j: int| 0 <= j < i ==> prefix_bytes(ct, j) != two,
        decreases n - i,
    {
        if bytes == one && first.is_none() {
            first = Some(i);
        }
        if bytes == two && second.is_none() {
            second = Some(i);
        }
        assert(ct.take(i + 1).drop_last() =~= ct.take(i as int));
        bytes = bytes + char_width(s.get_char(i));
        i = i + 1;
    }
    if bytes == one && first.is_none() {
        first = Some(n);
    }
    if bytes == two && second.is_none() {
        second = Some(n);
    }
    assert(first matches Some(a) ==> a <= n && prefix_bytes(ct, a as int) == one);
    assert(first is None ==> forall|j: int| 0 <= j <= n ==> prefix_bytes(ct, j) != one);
    assert(second matches Some(b) ==> b <= n && prefix_bytes(ct, b as int) == two);
    assert(second is None ==> forall|j: int| 0 <= j <= n ==> prefix_bytes(ct, j) != two);
    proof {
        assert forall|j: int, k2: int|
            0 <= j <= ct.len() && 0 <= k2 <= ct.len() && prefix_bytes(ct, j) == prefix_bytes(ct, k2) implies j
            == k2 by {
            if j < k2 {
                lemma_prefix_bytes_grow(ct, j, k2);
            } else if k2 < j {
                lemma_prefix_bytes_grow(ct, k2, j);
            }
        }
    }
    match (first, second) {
        (Some(a), Some(b)) => {
            assert(prefix_bytes(ct, a as int) == utf8_len(ct) / 3);
            assert(prefix_bytes(ct, b as int) == 2 * utf8_len(ct) / 3);
            if b < a {
                proof {
                    lemma_prefix_bytes_grow(ct, b as int, a as int);
                }
            }
            Some((a, b))
        },
        _ => {
            assert(!cuts_ok(ct));
            None
        },
    }
}



/// The links between squares, variables and clues hold: square `i` is
/// numbered `i`; variable `v` is `variables[v - 1]` and its square points
/// back to it; its clue exists; clue `k` has the `k`-th letter; and a clue
/// lists only existing variable numbers, or 0 for a gap.
pub open spec fn puzzle_wf(cells: Seq<Cell>, vars: Seq<Variable>, clues: Seq<Clue>) -> bool {
    &&& forall|i: int|
        #![trigger cells[i]]
        0 <= i < cells.len() ==> {
            &&& cells[i].cell == i
            &&& (cells[i].variable matches Some(v) ==> 1 <= v <= vars.len() && vars[v - 1].cell == i)
        }
    &&& forall|j: int|
        #![trigger vars[j]]
        0 <= j < vars.len() ==> {
            &&& vars[j].variable == j + 1
            &&& vars[j].cell < cells.len()
            &&& cells[vars[j].cell as int].variable == Some((j + 1) as usize)
            &&& 0 <= letter_index(vars[j].letter) < clues.len()
        }
    &&& forall|k: int|
        #![trigger clues[k]]
        0 <= k < clues.len() ==> {
            &&& letter_index(clues[k].letter) == k
            &&& forall|e: int| 0 <= e < clues[k].variables@.len() ==> clues[k].variables@[e] <= vars.len()
        }
}

impl Puzzle {
    pub open spec fn wf(&self) -> bool {
        puzzle_wf(self.cells@, self.variables@, self.clues@)
    }
}

/// One clue per letter from 'A', with its text and pretty answer and no
/// variables yet.
fn empty_clues(clue_texts: &Vec<&str>, pretty_answers: &Vec<&str>, total: usize) -> (clues: Vec<Clue>)
    requires
        total <= MAX_CLUES,
        total <= clue_texts@.len(),
        total <= pretty_answers@.len(),
    ensures
        clues@.len() == total,
        forall|j: int|
            #![trigger clues@[j]]
            0 <= j < total ==> {
                &&& clues@[j].letter as int == clue_letter(j)
                &&& clues@[j].variables@ == Seq::<usize>::empty()
                &&& clues@[j].clue@ == clue_texts@[j]@
                &&& clues@[j].pretty_answer@ == pretty_answers@[j]@
            },
{
        let mut clues: Vec<Clue> = Vec::new();
        let mut k: usize = 0;
        while k < total
            invariant
                k <= total,
                total <= MAX_CLUES,
                total <= clue_texts@.len(),
                total <= pretty_answers@.len(),
                clues@.len() == k,
                forall|j: int|
                    #![trigger clues@[j]]
                    0 <= j < k ==> {
                        &&& clues@[j].letter as int == clue_letter(j)
                        &&& clues@[j].variables@ == Seq::<usize>::empty()
                        &&& clues@[j].clue@ == clue_texts@[j]@
                        &&& clues@[j].pretty_answer@ == pretty_answers@[j]@
                    },
            decreases total - k,
        {
            let letter = clue_char(k);
            let clue = Clue {
                letter,
                variables: Vec::new(),
                clue: clue_texts[k].to_owned(),
                pretty_answer: pretty_answers[k].to_owned(),
            };
            let ghost prev = clues@;
            clues.push(clue);
            assert forall|j: int|
                #![trigger clues@[j]]
                0 <= j < k + 1 implies {
                    &&& clues@[j].letter as int == clue_letter(j)
                    &&& clues@[j].variables@ == Seq::<usize>::empty()
                    &&& clues@[j].clue@ == clue_texts@[j]@
                    &&& clues@[j].pretty_answer@ == pretty_answers@[j]@
                } by {
                if j < k {
                    assert(prev[j].letter as int == clue_letter(j));
                    assert(clues@[j].letter == prev[j].letter);
                    assert(clues@[j].variables@ == prev[j].variables@);
                    assert(clues@[j].clue@ == prev[j].clue@);
                    assert(clues@[j].pretty_answer@ == prev[j].pretty_answer@);
                }
            }
            k = k + 1;
        }
        clues
}

impl Puzzle {
    /// Whether `parse_text` accepts `data`: what reading a puzzle file
    /// checks before it builds the puzzle.
    pub fn check_text(data: &str) -> (r: bool)
        ensures
            r == parse_ok(data@),
    {
        let lines = split_str(data, '\n');
        let ghost lv = str_views(lines@);
        if lines.len() != 7 {
            assert(puzzle_lines(data@).len() != 7);
            return false;
        }
        assert(lv[0] == lines@[0]@);
        assert(lv[1] == lines@[1]@);
        assert(lv[6] == lines@[6]@);
        let cell_text = lines[0];
        let ghost ct = cell_text@;
        assert(ct == puzzle_lines(data@)[0]);
        let clue_texts = split_str(lines[1], '|');
        let pretty_answers = split_str(lines[6], '|');
        let total = if clue_texts.len() <= pretty_answers.len() {
            clue_texts.len()
        } else {
            pretty_answers.len()
        };
        assert(total == clue_total(data@));
        if total > MAX_CLUES {
            return false;
        }
        let (first, second) = match byte_cuts(cell_text) {
            Some(c) => c,
            None => return false,
        };
        let len = cell_text.unicode_len();
        let n = if first <= second - first && first <= len - second {
            first
        } else if second - first <= len - second {
            second - first
        } else {
            len - second
        };
        let mut k: usize = 0;
        while k < n
            invariant
                ct == cell_text@,
                ct == puzzle_lines(data@)[0],
                puzzle_lines(data@).len() == 7,
                cuts_ok(ct),
                first == first_cut(ct),
                second == second_cut(ct),
                first <= second <= len,
                len == ct.len(),
                n == cell_count(ct),
                k <= n,
                total == clue_total(data@),
                total <= MAX_CLUES,
                forall|j: int|
                    0 <= j < k && is_ascii_alnum(#[trigger] answer_at(ct, j)) ==> {
                        &&& 'A' as int <= letter_at(ct, j) as int
                        &&& letter_index(letter_at(ct, j)) < total
                        &&& offset_at(ct, j) >= 0
                    },
            decreases n - k,
        {
            let answer = cell_text.get_char(k);
            if ascii_alnum(answer) {
                let letter = cell_text.get_char(first + k);
                let offset_char = cell_text.get_char(second + k);
                assert(is_ascii_alnum(answer_at(ct, k as int)));
                assert(letter_at(ct, k as int) == letter);
                assert(offset_at(ct, k as int) == offset_char as int - 65);
                if (letter as u32) < 65 || (offset_char as u32) < 65 {
                    return false;
                }
                if letter_idx(letter) >= total {
                    return false;
                }
            }
            k = k + 1;
        }
        true
    }

    /// Reads a puzzle from the text of a puzzle file.
    pub fn parse_text(data: &str) -> (r: Puzzle)
        requires
            parse_ok(data@),
        ensures
            r.wf(),
            ({
                let lines = puzzle_lines(data@);
                let ct = lines[0];
                let n = cell_count(ct);
                let texts = split_fields(lines[1], '|');
                let pretty = split_fields(lines[6], '|');
                &&& r.cells@.len() == n
                &&& forall|i: int| 0 <= i < n ==> r.cells@[i] == cell_spec(ct, i)
                &&& r.variables@.len() == alnum_count(ct, n)
                &&& forall|i: int|
                    0 <= i < n && is_ascii_alnum(#[trigger] answer_at(ct, i))
                        ==> r.variables@[alnum_count(ct, i + 1) - 1] == variable_spec(ct, i)
                &&& r.clues@.len() == clue_total(data@)
                &&& forall|k: int|
                    0 <= k < r.clues@.len() ==> {
                        &&& #[trigger] r.clues@[k].letter as int == clue_letter(k)
                        &&& r.clues@[k].variables@ == clue_vars(ct, n, clue_letter(k))
                        &&& r.clues@[k].clue@ == texts[k]
                        &&& r.clues@[k].pretty_answer@ == pretty[k]
                    }
            }),
    {
        let lines = split_str(data, '\n');
        let ghost lv = str_views(lines@);
        assert(lv[0] == lines@[0]@);
        assert(lv[1] == lines@[1]@);
        assert(lv[6] == lines@[6]@);
        let cell_text = lines[0];
        let clue_texts = split_str(lines[1], '|');
        let pretty_answers = split_str(lines[6], '|');
        let total = if clue_texts.len() <= pretty_answers.len() {
            clue_texts.len()
        } else {
            pretty_answers.len()
        };
        let ghost ct = cell_text@;
        let mut clues = empty_clues(&clue_texts, &pretty_answers, total);
        let len = cell_text.unicode_len();
        let (first, second) = byte_cuts(cell_text).unwrap();
        let n = if first <= second - first && first <= len - second {
            first
        } else if second - first <= len - second {
            second - first
        } else {
            len - second
        };
        let mut cells: Vec<Cell> = Vec::new();
        let mut variables: Vec<Variable> = Vec::new();
        let mut variable: usize = 0;
        let mut i: usize = 0;
        while i < n
            invariant
                ct == cell_text@,
                ct == puzzle_lines(data@)[0],
                len == ct.len(),
                first == first_cut(ct),
                second == second_cut(ct),
                first <= second <= len,
                n == cell_count(ct),
                i <= n,
                parse_ok(data@),
                total == clue_total(data@),
                clues@.len() == total,
                variable == alnum_count(ct, i as int),
                puzzle_wf(cells@, variables@, clues@),
                cells@.len() == i,
                variables@.len() == variable,
                forall|j: int| 0 <= j < i ==> cells@[j] == cell_spec(ct, j),
                forall|j: int|
                    0 <= j < i && is_ascii_alnum(#[trigger] answer_at(ct, j)) ==> variables@[alnum_count(
                        ct,
                        j + 1,
                    ) - 1] == variable_spec(ct, j),
                total <= clue_texts@.len(),
                total <= pretty_answers@.len(),
                forall|q: int|
                    #![trigger clues@[q]]
                    0 <= q < total ==> {
                        &&& clues@[q].letter as int == clue_letter(q)
                        &&& clues@[q].variables@ == clue_vars(ct, i as int, clue_letter(q))
                        &&& clues@[q].clue@ == clue_texts@[q]@
                        &&& clues@[q].pretty_answer@ == pretty_answers@[q]@
                    },
            decreases n - i,
        {
            proof {
                lemma_alnum_count_step(ct, i as int);
            }
            let answer = cell_text.get_char(i);
            let letter = cell_text.get_char(first + i);
            let offset_char = cell_text.get_char(second + i);
            if ascii_alnum(answer) {
                assert(is_ascii_alnum(answer_at(ct, i as int)));
                variable = variable + 1;
                let offset = (offset_char as u32 - 65) as usize;
                let idx = letter_idx(letter);
                let ghost old_clues = clues@;
                if clues[idx].variables.len() <= offset {
                    clues[idx].variables.resize(offset + 1, 0);
                }
                clues[idx].variables[offset] = variable;
                proof {
                    assert forall|q: int|
                        #![trigger clues@[q]]
                        0 <= q < total implies {
                        &&& clues@[q].letter as int == clue_letter(q)
                        &&& clues@[q].variables@ == clue_vars(ct, i + 1, clue_letter(q))
                        &&& clues@[q].clue@ == clue_texts@[q]@
                        &&& clues@[q].pretty_answer@ == pretty_answers@[q]@
                    } by {
                        assert(old_clues[q] == old_clues[q]);
                        lemma_clue_letter(q, letter);
                        if q == idx {
                            let prev = old_clues[q].variables@;
                            assert(clues@[q].variables@ =~= assign_var(prev, offset as int, variable));
                        } else {
                            assert(clues@[q] == old_clues[q]);
                        }
                    }
                }
                variables.push(Variable { variable, cell: cells.len(), letter, offset });
                cells.push(Cell { cell: cells.len(), correct: answer, guess: None, variable: Some(variable) });
                proof {
                    assert forall|j: int|
                        0 <= j < i + 1 && is_ascii_alnum(#[trigger] answer_at(ct, j)) implies variables@[alnum_count(
                        ct,
                        j + 1,
                    ) - 1] == variable_spec(ct, j) by {
                        if j < i {
                            lemma_alnum_count_mono(ct, j + 1, i as int);
                        }
                    }
                }
            } else {
                cells.push(Cell { cell: cells.len(), correct: answer, guess: Some(answer), variable: None });
                proof {
                    assert forall|q: int|
                        #![trigger clues@[q]]
                        0 <= q < total implies clues@[q].variables@ == clue_vars(
                        ct,
                        i + 1,
                        clue_letter(q),
                    ) by {
                        assert(clues@[q] == clues@[q]);
                    }
                }
            }
            i = i + 1;
        }
        Puzzle { cells, variables, clues }
    }
}

} // verus!
