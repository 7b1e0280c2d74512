use vstd::prelude::*;
use crate::text::{append_str, append_decimal, decimal};
use crate::remangle::{remangle, remangled};

verus! {

/// What `s.split(pat).last()` gives, scanning from `i` with the current
/// piece starting at `start`: the text after the last match found left to
/// right, or all of `s` if `pat` never matches.
pub open spec fn last_piece(s: Seq<char>, pat: Seq<char>, start: int, i: int) -> Seq<char>
    decreases s.len() - i,
{
    if pat.len() == 0 || i < 0 || i + pat.len() > s.len() {
        s.skip(start)
    } else if s.subrange(i, i + pat.len()) == pat {
        last_piece(s, pat, i + pat.len(), i + pat.len())
    } else {
        last_piece(s, pat, start, i + 1)
    }
}

/// A source file's name as a symbol line shows it: what follows the last
/// `src/`, and then the last `examples/`.
pub open spec fn short_file(f: Seq<char>) -> Seq<char> {
    let after_src = last_piece(f, "src/"@, 0, 0);
    last_piece(after_src, "examples/"@, 0, 0)
}

/// The location part of a symbol line: the file, then the line and the
/// column where they are known.
pub open spec fn location(file: Seq<char>, lineno: Option<u32>, colno: Option<u32>) -> Seq<char> {
    " ("@ + short_file(file) + match lineno {
        Some(l) => ":"@ + decimal(l as nat) + match colno {
            Some(c) => ":"@ + decimal(c as nat),
            None => Seq::empty(),
        },
        None => Seq::empty(),
    } + ")"@
}

/// The line that describes one symbol of a backtrace: its remangled name
/// and, if known, where it is defined; nothing if the name is unknown.
pub open spec fn symbol_text(
    name: Option<Seq<char>>,
    file: Option<Seq<char>>,
    lineno: Option<u32>,
    colno: Option<u32>,
) -> Seq<char> {
    match name {
        None => Seq::empty(),
        Some(n) => remangled(n) + match file {
            Some(f) => location(f, lineno, colno),
            None => Seq::empty(),
        },
    }
}

/// Whether `pat` occurs in `s` at position `i`.
fn matches_at(s: &str, n: usize, pat: &str, m: usize, i: usize) -> (r: bool)
    requires
        n == s@.len(),
        m == pat@.len(),
        i + m <= n,
    ensures
        r == (s@.subrange(i as int, i + m) == pat@),
{
    let mut k: usize = 0;
    while k < m
        invariant
            n == s@.len(),
            m == pat@.len(),
            i + m <= n,
            k <= m,
            s@.subrange(i as int, i + k) == pat@.take(k as int),
        decreases m - k,
    {
        if s.get_char(i + k) != pat.get_char(k) {
            assert(s@.subrange(i as int, i + m)[k as int] != pat@[k as int]);
            return false;
        }
        assert(s@.subrange(i as int, i + k + 1) =~= s@.subrange(i as int, i + k).push(s@[i + k]));
        assert(pat@.take(k + 1) =~= pat@.take(k as int).push(pat@[k as int]));
        k = k + 1;
    }
    assert(pat@.take(m as int) =~= pat@);
    true
}

/// The last piece of `s` split at `pat`, as `s.split(pat).last()` gives it.
pub fn split_last<'a>(s: &'a str, pat: &str) -> (r: &'a str)
    requires
        pat@.len() > 0,
    ensures
        r@ == last_piece(s@, pat@, 0, 0),
{
    let n = s.unicode_len();
    let m = pat.unicode_len();
    let mut start: usize = 0;
    let mut i: usize = 0;
    while m <= n - i
        invariant
            n == s@.len(),
            m == pat@.len(),
            m > 0,
            start <= i,
            i <= n,
            last_piece(s@, pat@, 0, 0) == last_piece(s@, pat@, start as int, i as int),
        decreases n - i,
    {
        if matches_at(s, n, pat, m, i) {
            i = i + m;
            start = i;
        } else {
            i = i + 1;
        }
    }
    assert(s@.subrange(start as int, n as int) =~= s@.skip(start as int));
    s.substring_char(start, n)
}

/// The file name as a symbol line shows it.
pub fn short_file_name<'a>(file: &'a str) -> (r: &'a str)
    ensures
        r@ == short_file(file@),
{
    proof {
        reveal_strlit("src/");
        reveal_strlit("examples/");
    }
    let after_src = split_last(file, "src/");
    split_last(after_src, "examples/")
}

/// The line that describes one symbol of a backtrace: the remangled name,
/// then the file (what follows its last `src/` and `examples/`), line and
/// column in parentheses, as far as they are known. A symbol without a
/// name gives an empty line.
pub fn symbol_line(name: Option<&str>, file: Option<&str>, lineno: Option<u32>, colno: Option<u32>) -> (r: String)
    ensures
        r@ == symbol_text(
            match name {
                Some(n) => Some(n@),
                None => None,
            },
            match file {
                Some(f) => Some(f@),
                None => None,
            },
            lineno,
            colno,
        ),
{
    let mut line = String::new();
    if let Some(name) = name {
        line = remangle(name);
        if let Some(file) = file {
            let ghost head = line@;
            append_str(&mut line, " (");
            append_str(&mut line, short_file_name(file));
            let ghost with_file = line@;
            if let Some(l) = lineno {
                append_str(&mut line, ":");
                append_decimal(&mut line, l as u64);
                if let Some(c) = colno {
                    append_str(&mut line, ":");
                    append_decimal(&mut line, c as u64);
                }
            }
            let ghost numbers = line@;
            assert(numbers =~= with_file + match lineno {
                Some(l) => ":"@ + decimal(l as nat) + match colno {
                    Some(c) => ":"@ + decimal(c as nat),
                    None => Seq::empty(),
                },
                None => Seq::empty(),
            });
            append_str(&mut line, ")");
            assert(line@ =~= head + location(file@, lineno, colno));
        }
    }
    line
}

} // verus!
