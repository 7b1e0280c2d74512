use vstd::prelude::*;
use crate::remangle::lexer::tokens;
use crate::remangle::grammar::parse_tokens;
use crate::remangle::parser::{ParseResult, Parser};
use crate::remangle::path::{Path, PathModel, path_model};
use crate::remangle::printer::{MAX_QUIET, QUIET_REMOVE_VERSION, Printer, print_path};
use crate::text::append_str;

pub mod lexer;
pub mod path;
pub mod grammar;
pub mod parser;
pub mod printer;
pub mod debug;
pub mod symbol;

verus! {

/// What `path_to_string` gives: the print at the first level from `q` on
/// that fits in `max_length` characters; if none does, the quietest print
/// cut to `max_length` characters.
pub open spec fn shown(p: PathModel, q: int, max_length: int) -> Seq<char>
    decreases MAX_QUIET + 1 - q,
{
    if q > MAX_QUIET || q < 0 {
        Seq::empty()
    } else {
        let s = print_path(q, p);
        if s.len() <= max_length {
            s
        } else if q == MAX_QUIET {
            s.take(max_length)
        } else {
            shown(p, q + 1, max_length)
        }
    }
}

/// The length of a path's summary never exceeds the length asked for.
pub proof fn shown_fits(p: PathModel, q: int, max_length: int)
    requires
        max_length >= 0,
    ensures
        shown(p, q, max_length).len() <= max_length,
    decreases MAX_QUIET + 1 - q,
{
    if 0 <= q < MAX_QUIET && print_path(q, p).len() > max_length {
        shown_fits(p, q + 1, max_length);
    }
}

/// What `remangle` gives for a symbol: its summary, or the symbol itself
/// behind a marker when it cannot be read.
pub open spec fn remangled(s: Seq<char>) -> Seq<char> {
    match parse_tokens(tokens(s)) {
        Some(p) => shown(p, QUIET_REMOVE_VERSION as int, 100),
        None => "[unparsed]::"@ + s,
    }
}

impl<'a> Path<'a> {
    /// Reads a whole symbol path.
    pub fn parse(input: &'a str) -> (r: ParseResult<Path<'a>>)
        ensures
            match parse_tokens(tokens(input@)) {
                None => r is Err,
                Some(m) => r matches Ok(p) && path_model(p) == m,
            },
    {
        let mut parser = Parser::new(input);
        let result = match parser.parse_path() {
            Ok(result) => result,
            Err(err) => return Err(err),
        };
        match parser.finish() {
            Ok(()) => Ok(result),
            Err(err) => Err(err),
        }
    }

    /// The path as text of at most `max_length` characters: printed at
    /// levels of quietness from `min_quiet` on until it fits, and cut if
    /// even the quietest print does not.
    pub fn path_to_string(&self, min_quiet: usize, max_length: usize) -> (r: String)
        ensures
            r@ == shown(path_model(*self), min_quiet as int, max_length as int),
    {
        let ghost p = path_model(*self);
        let mut quiet = min_quiet;
        while quiet <= MAX_QUIET
            invariant
                p == path_model(*self),
                shown(p, min_quiet as int, max_length as int) == shown(p, quiet as int, max_length as int),
            decreases MAX_QUIET + 1 - quiet,
        {
            let mut printer = Printer::new(quiet, String::new());
            printer.print(self);
            let output = printer.into_output();
            let text = output.as_str();
            let n = text.unicode_len();
            if n <= max_length {
                return output;
            }
            if quiet == MAX_QUIET {
                let cut = text.substring_char(0, max_length);
                assert(cut@ =~= print_path(quiet as int, p).take(max_length as int));
                return cut.to_owned();
            }
            quiet = quiet + 1;
        }
        String::new()
    }
}

/// Shortens a demangled Rust symbol for display: versions, hashes and
/// what does not fit in a hundred characters are left out. A symbol that
/// cannot be read comes back whole behind `[unparsed]::`.
pub fn remangle(input: &str) -> (r: String)
    ensures
        r@ == remangled(input@),
{
    match Path::parse(input) {
        Ok(path) => path.path_to_string(QUIET_REMOVE_VERSION, 100),
        Err(_) => {
            let mut out = "[unparsed]::".to_owned();
            append_str(&mut out, input);
            out
        },
    }
}

} // verus!
pub mod shorten;
