use vstd::prelude::*;
use crate::remangle::lexer::{Lexer, SpecToken, Token, spells, token_specs, tokens};
use crate::remangle::path::{
    ArgModel,
    Path,
    PathArg,
    PathBraces,
    PathSegment,
    args_model,
    braces_opt_model,
    path_model,
    path_opt_model,
    paths_model,
    seg_model,
    segs_model,
    str_opt_model,
};
use crate::remangle::grammar::{
    Op,
    args_at,
    braces_at,
    dyn_items_at,
    ends_path,
    fn_items_at,
    ident_at,
    ident_rest_at,
    is_op,
    array_at,
    tuple_at,
    fn_ptr_at,
    braces_segment_at,
    impl_for_at,
    qualified_at,
    more_segments_at,
    op_chars,
    path_at,
    pointy_at,
    segment_at,
    strip_prefix,
    tuple_items_at,
};

verus! {

/// Why a symbol path could not be read.
#[derive(Debug)]
pub struct ParseError(&'static str);

pub type ParseResult<T> = Result<T, ParseError>;

/// Reads a symbol path from its tokens.
pub struct Parser<'a> {
    tokens: Vec<Token<'a>>,
    pos: usize,
}

/// How an operator is spelled, as characters.
fn op_text(o: Op) -> (r: Vec<char>)
    ensures
        r@ == op_chars(o),
{
    let v: Vec<char> = match o {
        Op::Lt => vec!['<'],
        Op::Gt => vec!['>'],
        Op::LBracket => vec!['['],
        Op::RBracket => vec![']'],
        Op::LParen => vec!['('],
        Op::RParen => vec![')'],
        Op::LBrace => vec!['{'],
        Op::RBrace => vec!['}'],
        Op::Comma => vec![','],
        Op::Semi => vec![';'],
        Op::Plus => vec!['+'],
        Op::Equals => vec!['='],
        Op::Colon => vec![':'],
        Op::Colons => vec![':', ':'],
        Op::Arrow => vec!['-', '>'],
        Op::Amp => vec!['&'],
        Op::Star => vec!['*'],
        Op::As => vec!['a', 's'],
        Op::For => vec!['f', 'o', 'r'],
        Op::Impl => vec!['i', 'm', 'p', 'l'],
        Op::Mut => vec!['m', 'u', 't'],
        Op::Const => vec!['c', 'o', 'n', 's', 't'],
        Op::Fn => vec!['f', 'n'],
        Op::Dyn => vec!['d', 'y', 'n'],
    };
    assert(v@ =~= op_chars(o));
    v
}

/// What follows `prefix` in `s`, if `s` starts with it.
fn strip_chars<'a>(s: &'a str, prefix: &[char]) -> (r: Option<&'a str>)
    ensures
        match strip_prefix(s@, prefix@) {
            None => r is None,
            Some(rest) => r matches Some(x) && x@ == rest,
        },
{
    let n = s.unicode_len();
    let m = prefix.len();
    if m > n {
        return None;
    }
    let mut i: usize = 0;
    while i < m
        invariant
            n == s@.len(),
            m == prefix@.len(),
            m <= n,
            i <= m,
            forall|j: int| 0 <= j < i ==> s@[j] == prefix@[j],
        decreases m - i,
    {
        if s.get_char(i) != prefix[i] {
            assert(s@.take(m as int)[i as int] != prefix@[i as int]);
            return None;
        }
        i = i + 1;
    }
    assert(s@.take(m as int) =~= prefix@);
    let rest = s.substring_char(m, n);
    assert(rest@ =~= s@.skip(m as int));
    Some(rest)
}

impl<'a> Parser<'a> {
    /// The tokens, as values.
    pub closed spec fn toks(&self) -> Seq<SpecToken> {
        token_specs(self.tokens@)
    }

    /// The index of the next token to read.
    pub closed spec fn position(&self) -> int {
        self.pos as int
    }

    pub open spec fn wf(&self) -> bool {
        0 <= self.position() <= self.toks().len()
    }

    /// A parser at the start of the tokens of `input`.
    pub fn new(input: &'a str) -> (r: Self)
        ensures
            r.toks() == tokens(input@),
            r.position() == 0,
            r.wf(),
    {
        let lexer = Lexer::new(input);
        Parser { tokens: lexer.collect_tokens(), pos: 0 }
    }

    /// Whether the token `k` places ahead is the operator `o`.
    fn can_read_at(&self, k: usize, o: Op) -> (r: bool)
        requires
            self.wf(),
        ensures
            r == is_op(self.toks(), self.position() + k, o),
    {
        if k >= self.tokens.len() - self.pos {
            return false;
        }
        match &self.tokens[self.pos + k] {
            Token::Oper(s) => {
                let w = op_text(o);
                spells(s, w.as_slice())
            },
            Token::Ident(_) => false,
        }
    }

    /// Reads the operator `o`, if it comes next.
    fn read(&mut self, o: Op) -> (r: bool)
        requires
            old(self).wf(),
        ensures
            final(self).toks() == old(self).toks(),
            final(self).wf(),
            r == is_op(old(self).toks(), old(self).position(), o),
            final(self).position() == old(self).position() + if r { 1int } else { 0int },
    {
        if self.can_read_at(0, o) {
            let n = self.tokens.len();
            assert(self.toks().len() == n);
            self.pos = self.pos + 1;
            true
        } else {
            false
        }
    }

    /// Reads the operators `a` then `b`, if they come next.
    fn read2(&mut self, a: Op, b: Op) -> (r: bool)
        requires
            old(self).wf(),
        ensures
            final(self).toks() == old(self).toks(),
            final(self).wf(),
            r == (is_op(old(self).toks(), old(self).position(), a) && is_op(
                old(self).toks(),
                old(self).position() + 1,
                b,
            )),
            final(self).position() == old(self).position() + if r { 2int } else { 0int },
    {
        if self.can_read_at(0, a) && self.can_read_at(1, b) {
            let n = self.tokens.len();
            assert(self.toks().len() == n);
            self.pos = self.pos + 2;
            true
        } else {
            false
        }
    }

    /// Reads an identifier, if one comes next.
    fn read_ident(&mut self) -> (r: Option<&'a str>)
        requires
            old(self).wf(),
        ensures
            final(self).toks() == old(self).toks(),
            final(self).wf(),
            match ident_at(old(self).toks(), old(self).position()) {
                None => r is None && final(self).position() == old(self).position(),
                Some(x) => r matches Some(s) && s@ == x && final(self).position()
                    == old(self).position() + 1,
            },
    {
        if self.pos >= self.tokens.len() {
            return None;
        }
        match &self.tokens[self.pos] {
            Token::Ident(s) => {
                let s: &'a str = *s;
                self.pos = self.pos + 1;
                Some(s)
            },
            Token::Oper(_) => None,
        }
    }

    /// Reads braces, if they come next.
    pub fn parse_braces(&mut self) -> (r: ParseResult<Option<PathBraces<'a>>>)
        requires
            old(self).wf(),
        ensures
            final(self).toks() == old(self).toks(),
            final(self).wf(),
            match braces_at(old(self).toks(), old(self).position()) {
                None => r is Err,
                Some((b, j)) => r matches Ok(x) && braces_opt_model(x) == b && final(self).position()
                    == j,
            },
    {
        if !self.read(Op::LBrace) {
            return Ok(None);
        }
        if self.read(Op::LBrace) {
            let ident = match self.read_ident() {
                Some(x) => x,
                None => return Err(ParseError("expected shim or closure, found oper")),
            };
            let vtable_shim: [char; 11] = ['v', 't', 'a', 'b', 'l', 'e', '.', 's', 'h', 'i', 'm'];
            let closure: [char; 7] = ['c', 'l', 'o', 's', 'u', 'r', 'e'];
            assert(vtable_shim@ =~= seq!['v', 't', 'a', 'b', 'l', 'e', '.', 's', 'h', 'i', 'm']);
            assert(closure@ =~= seq!['c', 'l', 'o', 's', 'u', 'r', 'e']);
            let result;
            if spells(ident, &vtable_shim) {
                result = Some(PathBraces::UnknownVTable);
            } else if spells(ident, &closure) {
                result = Some(PathBraces::UnknownClosure);
            } else {
                return Err(ParseError("expected 'vtable.shim' or 'closure'"));
            }
            if !self.read(Op::RBrace) {
                return Err(ParseError("expected '}'"));
            }
            if !self.read(Op::RBrace) {
                return Err(ParseError("expected '}'"));
            }
            return Ok(result);
        }
        let prefix = match self.read_ident() {
            Some(x) => x,
            None => return Err(ParseError("expected shim or closure")),
        };
        let shim_vtable: [char; 11] = ['s', 'h', 'i', 'm', '.', 'v', 't', 'a', 'b', 'l', 'e'];
        let shim: [char; 4] = ['s', 'h', 'i', 'm'];
        let vtable_hash: [char; 7] = ['v', 't', 'a', 'b', 'l', 'e', '#'];
        let closure_hash: [char; 8] = ['c', 'l', 'o', 's', 'u', 'r', 'e', '#'];
        assert(shim_vtable@ =~= seq!['s', 'h', 'i', 'm', '.', 'v', 't', 'a', 'b', 'l', 'e']);
        assert(shim@ =~= seq!['s', 'h', 'i', 'm']);
        assert(vtable_hash@ =~= seq!['v', 't', 'a', 'b', 'l', 'e', '#']);
        assert(closure_hash@ =~= seq!['c', 'l', 'o', 's', 'u', 'r', 'e', '#']);
        let result;
        if spells(prefix, &shim_vtable) {
            result = Some(PathBraces::VTable { vtable: "" });
            proof {
                reveal_strlit("");
                assert(""@ =~= Seq::<char>::empty());
            }
        } else if spells(prefix, &shim) {
            if !self.read(Op::Colon) {
                return Err(ParseError("expected ':'"));
            }
            let vtable = match self.read_ident() {
                Some(x) => x,
                None => return Err(ParseError("expected vtable")),
            };
            let vtable = match strip_chars(vtable, &vtable_hash) {
                Some(x) => x,
                None => return Err(ParseError("expected vtable...")),
            };
            result = Some(PathBraces::VTable { vtable });
        } else if let Some(closure) = strip_chars(prefix, &closure_hash) {
            result = Some(PathBraces::Closure { closure });
        } else {
            return Err(ParseError("expected shim or closure"));
        }
        if !self.read(Op::RBrace) {
            return Err(ParseError("expected '}'"));
        }
        Ok(result)
    }

    /// Reads a path: segments joined by `::`, possibly none.
    pub fn parse_path(&mut self) -> (r: ParseResult<Path<'a>>)
        requires
            old(self).wf(),
        ensures
            final(self).toks() == old(self).toks(),
            final(self).wf(),
            r is Ok ==> old(self).position() <= final(self).position(),
            match path_at(old(self).toks(), old(self).position()) {
                None => r is Err,
                Some((m, j)) => r matches Ok(p) && path_model(p) == m && final(self).position() == j,
            },
        decreases old(self).toks().len() - old(self).position(), 3int,
    {
        let first = match self.parse_segment() {
            Ok(x) => x,
            Err(e) => return Err(e),
        };
        match first {
            None => {
                let segments: Vec<PathSegment<'a>> = Vec::new();
                let p = Path { segments };
                assert(path_model(p).segments =~= Seq::empty());
                Ok(p)
            },
            Some(segment) => {
                let mut segments: Vec<PathSegment<'a>> = Vec::new();
                segments.push(segment);
                proof {
                    lemma_segs_model_single(segment);
                    assert(segments@ =~= seq![segment]);
                }
                let mut rest = match self.parse_more_segments() {
                    Ok(x) => x,
                    Err(e) => return Err(e),
                };
                let ghost head = segments@;
                let ghost tail = rest@;
                segments.append(&mut rest);
                proof {
                    assert(segments@ =~= head + tail);
                    lemma_segs_model_append(head, tail);
                }
                let p = Path { segments };
                assert(path_model(p).segments =~= seq![seg_model(segment)] + segs_model(tail));
                Ok(p)
            },
        }
    }

    /// Reads `::` and a segment, as many times as they come.
    fn parse_more_segments(&mut self) -> (r: ParseResult<Vec<PathSegment<'a>>>)
        requires
            old(self).wf(),
        ensures
            final(self).toks() == old(self).toks(),
            final(self).wf(),
            r is Ok ==> old(self).position() <= final(self).position(),
            match more_segments_at(old(self).toks(), old(self).position()) {
                None => r is Err,
                Some((m, j)) => r matches Ok(v) && segs_model(v@) == m && final(self).position() == j,
            },
        decreases old(self).toks().len() - old(self).position(), 1int,
    {
        let mut out: Vec<PathSegment<'a>> = Vec::new();
        if !self.read(Op::Colons) {
            assert(segs_model(out@) =~= Seq::empty());
            return Ok(out);
        }
        let segment = match self.parse_segment() {
            Ok(Some(s)) => s,
            Ok(None) => return Err(ParseError("missing ::")),
            Err(e) => return Err(e),
        };
        out.push(segment);
        proof {
            lemma_segs_model_single(segment);
            assert(out@ =~= seq![segment]);
        }
        let mut rest = match self.parse_more_segments() {
            Ok(x) => x,
            Err(e) => return Err(e),
        };
        let ghost head = out@;
        let ghost tail = rest@;
        out.append(&mut rest);
        proof {
            assert(out@ =~= head + tail);
            lemma_segs_model_append(head, tail);
        }
        Ok(out)
    }

    /// Reads the items of a tuple after its `(`, with the closing `)`.
    fn parse_tuple_items(&mut self) -> (r: ParseResult<Vec<Path<'a>>>)
        requires
            old(self).wf(),
        ensures
            final(self).toks() == old(self).toks(),
            final(self).wf(),
            r is Ok ==> old(self).position() <= final(self).position(),
            match tuple_items_at(old(self).toks(), old(self).position()) {
                None => r is Err,
                Some((m, j)) => r matches Ok(v) && paths_model(v@) == m && final(self).position() == j,
            },
        decreases old(self).toks().len() - old(self).position(), 4int,
    {
        let p = match self.parse_path() {
            Ok(p) => p,
            Err(e) => return Err(e),
        };
        let mut out: Vec<Path<'a>> = Vec::new();
        out.push(p);
        proof {
            lemma_paths_model_single(p);
            assert(out@ =~= seq![p]);
        }
        if self.read(Op::RParen) {
            return Ok(out);
        }
        if self.read2(Op::Comma, Op::RParen) {
            return Ok(out);
        }
        if !self.read(Op::Comma) {
            return Err(ParseError("expected ')' or ','"));
        }
        let mut rest = match self.parse_tuple_items() {
            Ok(x) => x,
            Err(e) => return Err(e),
        };
        let ghost head = out@;
        let ghost tail = rest@;
        out.append(&mut rest);
        proof {
            assert(out@ =~= head + tail);
            lemma_paths_model_append(head, tail);
        }
        Ok(out)
    }

    /// Reads the parameters of a function pointer after its `(`, with the `)`.
    fn parse_fn_items(&mut self) -> (r: ParseResult<Vec<Path<'a>>>)
        requires
            old(self).wf(),
        ensures
            final(self).toks() == old(self).toks(),
            final(self).wf(),
            r is Ok ==> old(self).position() <= final(self).position(),
            match fn_items_at(old(self).toks(), old(self).position()) {
                None => r is Err,
                Some((m, j)) => r matches Ok(v) && paths_model(v@) == m && final(self).position() == j,
            },
        decreases old(self).toks().len() - old(self).position(), 4int,
    {
        let p = match self.parse_path() {
            Ok(p) => p,
            Err(e) => return Err(e),
        };
        let mut out: Vec<Path<'a>> = Vec::new();
        out.push(p);
        proof {
            lemma_paths_model_single(p);
            assert(out@ =~= seq![p]);
        }
        if self.read(Op::RParen) {
            return Ok(out);
        }
        if !self.read(Op::Comma) {
            return Err(ParseError("expected ')' or ',' in 'fn' section"));
        }
        let mut rest = match self.parse_fn_items() {
            Ok(x) => x,
            Err(e) => return Err(e),
        };
        let ghost head = out@;
        let ghost tail = rest@;
        out.append(&mut rest);
        proof {
            assert(out@ =~= head + tail);
            lemma_paths_model_append(head, tail);
        }
        Ok(out)
    }

    /// Reads the bounds of a `dyn` type, joined by `+`.
    fn parse_dyn_items(&mut self) -> (r: ParseResult<Vec<Path<'a>>>)
        requires
            old(self).wf(),
        ensures
            final(self).toks() == old(self).toks(),
            final(self).wf(),
            r is Ok ==> old(self).position() <= final(self).position(),
            match dyn_items_at(old(self).toks(), old(self).position()) {
                None => r is Err,
                Some((m, j)) => r matches Ok(v) && paths_model(v@) == m && final(self).position() == j,
            },
        decreases old(self).toks().len() - old(self).position(), 4int,
    {
        let p = match self.parse_path() {
            Ok(p) => p,
            Err(e) => return Err(e),
        };
        let mut out: Vec<Path<'a>> = Vec::new();
        out.push(p);
        proof {
            lemma_paths_model_single(p);
            assert(out@ =~= seq![p]);
        }
        if !self.read(Op::Plus) {
            return Ok(out);
        }
        let mut rest = match self.parse_dyn_items() {
            Ok(x) => x,
            Err(e) => return Err(e),
        };
        let ghost head = out@;
        let ghost tail = rest@;
        out.append(&mut rest);
        proof {
            assert(out@ =~= head + tail);
            lemma_paths_model_append(head, tail);
        }
        Ok(out)
    }

    /// Reads generic arguments after `<`, with the closing `>`.
    fn parse_args(&mut self) -> (r: ParseResult<Vec<PathArg<'a>>>)
        requires
            old(self).wf(),
        ensures
            final(self).toks() == old(self).toks(),
            final(self).wf(),
            r is Ok ==> old(self).position() <= final(self).position(),
            match args_at(old(self).toks(), old(self).position()) {
                None => r is Err,
                Some((m, j)) => r matches Ok(v) && args_model(v@) == m && final(self).position() == j,
            },
        decreases old(self).toks().len() - old(self).position(), 4int,
    {
        let p1 = match self.parse_path() {
            Ok(p) => p,
            Err(e) => return Err(e),
        };
        let arg;
        if self.read(Op::Equals) {
            let p2 = match self.parse_path() {
                Ok(p) => p,
                Err(e) => return Err(e),
            };
            arg = PathArg { name: Some(p1), value: p2 };
        } else {
            arg = PathArg { name: None, value: p1 };
        }
        let mut out: Vec<PathArg<'a>> = Vec::new();
        out.push(arg);
        proof {
            lemma_args_model_single(arg);
            assert(out@ =~= seq![arg]);
        }
        if self.read(Op::Comma) {
            let mut rest = match self.parse_args() {
                Ok(x) => x,
                Err(e) => return Err(e),
            };
            let ghost head = out@;
            let ghost tail = rest@;
            out.append(&mut rest);
            proof {
                assert(out@ =~= head + tail);
                lemma_args_model_append(head, tail);
            }
            Ok(out)
        } else if self.read(Op::Gt) {
            Ok(out)
        } else {
            Err(ParseError("expecting ',' or '>'"))
        }
    }

    /// Reads what follows the name of an identifier segment.
    fn parse_ident_rest(&mut self, name: &'a str) -> (r: ParseResult<Option<PathSegment<'a>>>)
        requires
            old(self).wf(),
        ensures
            final(self).toks() == old(self).toks(),
            final(self).wf(),
            r is Ok ==> old(self).position() <= final(self).position(),
            match ident_rest_at(old(self).toks(), name@, old(self).position()) {
                None => r is Err,
                Some((m, j)) => r matches Ok(s) && seg_opt_model(s) == m && final(self).position() == j,
            },
        decreases old(self).toks().len() - old(self).position(), 5int,
    {
        let mut version = None;
        if self.read(Op::LBracket) {
            version = match self.read_ident() {
                Some(v) => Some(v),
                None => return Err(ParseError("expected version in brackets")),
            };
            if !self.read(Op::RBracket) {
                return Err(ParseError("expected ']' after version"));
            }
        }
        let braces = match self.parse_braces() {
            Ok(b) => b,
            Err(e) => return Err(e),
        };
        let mut turbofish = false;
        let mut tys: Vec<PathArg<'a>> = Vec::new();
        assert(args_model(tys@) =~= Seq::empty());
        let impl_next = self.can_read_at(0, Op::Colons) && self.can_read_at(1, Op::Lt)
            && self.can_read_at(2, Op::Impl);
        if !impl_next {
            let mut tardyfish = false;
            if self.read2(Op::Colons, Op::Lt) {
                turbofish = true;
            } else if self.read(Op::Lt) {
                tardyfish = true;
            }
            if turbofish || tardyfish {
                tys = match self.parse_args() {
                    Ok(x) => x,
                    Err(e) => return Err(e),
                };
            }
        }
        Ok(Some(PathSegment::Ident { name, version, braces, turbofish, tys }))
    }

    /// Reads a pointer or reference to a path.
    fn parse_pointy(&mut self, raw: bool, mutable: bool) -> (r: ParseResult<Option<PathSegment<'a>>>)
        requires
            old(self).wf(),
        ensures
            final(self).toks() == old(self).toks(),
            final(self).wf(),
            r is Ok ==> old(self).position() <= final(self).position(),
            match pointy_at(old(self).toks(), old(self).position(), raw, mutable) {
                None => r is Err,
                Some((m, j)) => r matches Ok(s) && seg_opt_model(s) == m && final(self).position() == j,
            },
        decreases old(self).toks().len() - old(self).position(), 4int,
    {
        match self.parse_path() {
            Ok(ty) => Ok(Some(PathSegment::Pointy { raw, mutable, ty })),
            Err(e) => Err(e),
        }
    }

    /// Reads an array type after its `[`.
    fn parse_array(&mut self) -> (r: ParseResult<Option<PathSegment<'a>>>)
        requires
            old(self).wf(),
        ensures
            final(self).toks() == old(self).toks(),
            final(self).wf(),
            r is Ok ==> old(self).position() <= final(self).position(),
            match array_at(old(self).toks(), old(self).position()) {
                None => r is Err,
                Some((m, j)) => r matches Ok(s) && seg_opt_model(s) == m && final(self).position() == j,
            },
        decreases old(self).toks().len() - old(self).position(), 4int,
    {
        let ty = match self.parse_path() {
            Ok(p) => p,
            Err(e) => return Err(e),
        };
        let mut length = None;
        let mut length_ty = None;
        if self.read(Op::Semi) {
            length = match self.read_ident() {
                Some(n) => Some(n),
                None => return Err(ParseError("expected length")),
            };
            if self.read(Op::Colon) {
                length_ty = match self.parse_path() {
                    Ok(p) => Some(p),
                    Err(e) => return Err(e),
                };
            }
        }
        if !self.read(Op::RBracket) {
            return Err(ParseError("Expected ']' after '['"));
        }
        Ok(Some(PathSegment::Array { ty, length, length_ty }))
    }

    /// Reads a tuple type after its `(`.
    fn parse_tuple(&mut self) -> (r: ParseResult<Option<PathSegment<'a>>>)
        requires
            old(self).wf(),
        ensures
            final(self).toks() == old(self).toks(),
            final(self).wf(),
            r is Ok ==> old(self).position() <= final(self).position(),
            match tuple_at(old(self).toks(), old(self).position()) {
                None => r is Err,
                Some((m, j)) => r matches Ok(s) && seg_opt_model(s) == m && final(self).position() == j,
            },
        decreases old(self).toks().len() - old(self).position(), 5int,
    {
        if self.read(Op::RParen) {
            let tys: Vec<Path<'a>> = Vec::new();
            let seg = PathSegment::Tuple { tys };
            assert(paths_model(tys@) =~= Seq::empty());
            return Ok(Some(seg));
        }
        let tys = match self.parse_tuple_items() {
            Ok(x) => x,
            Err(e) => return Err(e),
        };
        Ok(Some(PathSegment::Tuple { tys }))
    }

    /// Reads a function pointer type after its `fn(`.
    fn parse_fn_ptr(&mut self) -> (r: ParseResult<Option<PathSegment<'a>>>)
        requires
            old(self).wf(),
        ensures
            final(self).toks() == old(self).toks(),
            final(self).wf(),
            r is Ok ==> old(self).position() <= final(self).position(),
            match fn_ptr_at(old(self).toks(), old(self).position()) {
                None => r is Err,
                Some((m, j)) => r matches Ok(s) && seg_opt_model(s) == m && final(self).position() == j,
            },
        decreases old(self).toks().len() - old(self).position(), 5int,
    {
        let tys = match self.parse_fn_items() {
            Ok(x) => x,
            Err(e) => return Err(e),
        };
        let mut output = None;
        if self.read(Op::Arrow) {
            output = match self.parse_path() {
                Ok(p) => Some(p),
                Err(e) => return Err(e),
            };
        }
        Ok(Some(PathSegment::FnPtr { tys, output }))
    }

    /// Reads a segment made only of braces.
    fn parse_braces_segment(&mut self) -> (r: ParseResult<Option<PathSegment<'a>>>)
        requires
            old(self).wf(),
        ensures
            final(self).toks() == old(self).toks(),
            final(self).wf(),
            r is Ok ==> old(self).position() <= final(self).position(),
            match braces_segment_at(old(self).toks(), old(self).position()) {
                None => r is Err,
                Some((m, j)) => r matches Ok(s) && seg_opt_model(s) == m && final(self).position() == j,
            },
    {
        let braces = match self.parse_braces() {
            Ok(b) => b,
            Err(e) => return Err(e),
        };
        let tys: Vec<PathArg<'a>> = Vec::new();
        let seg = PathSegment::Ident { name: "", version: None, braces, turbofish: false, tys };
        proof {
            reveal_strlit("");
            assert(""@ =~= Seq::<char>::empty());
            assert(args_model(tys@) =~= Seq::empty());
        }
        Ok(Some(seg))
    }

    /// Reads an `impl` segment after its `<impl`.
    fn parse_impl_for(&mut self) -> (r: ParseResult<Option<PathSegment<'a>>>)
        requires
            old(self).wf(),
        ensures
            final(self).toks() == old(self).toks(),
            final(self).wf(),
            r is Ok ==> old(self).position() <= final(self).position(),
            match impl_for_at(old(self).toks(), old(self).position()) {
                None => r is Err,
                Some((m, j)) => r matches Ok(s) && seg_opt_model(s) == m && final(self).position() == j,
            },
        decreases old(self).toks().len() - old(self).position(), 4int,
    {
        let trait_for = match self.parse_path() {
            Ok(p) => p,
            Err(e) => return Err(e),
        };
        if !self.read(Op::For) {
            return Err(ParseError("missing for"));
        }
        let for_ty = match self.parse_path() {
            Ok(p) => p,
            Err(e) => return Err(e),
        };
        if !self.read(Op::Gt) {
            return Err(ParseError("impl bad ending"));
        }
        Ok(Some(PathSegment::ImplFor { trait_for, for_ty }))
    }

    /// Reads a qualified type after its `<`.
    fn parse_qualified(&mut self) -> (r: ParseResult<Option<PathSegment<'a>>>)
        requires
            old(self).wf(),
        ensures
            final(self).toks() == old(self).toks(),
            final(self).wf(),
            r is Ok ==> old(self).position() <= final(self).position(),
            match qualified_at(old(self).toks(), old(self).position()) {
                None => r is Err,
                Some((m, j)) => r matches Ok(s) && seg_opt_model(s) == m && final(self).position() == j,
            },
        decreases old(self).toks().len() - old(self).position(), 4int,
    {
        let ty = match self.parse_path() {
            Ok(p) => p,
            Err(e) => return Err(e),
        };
        let mut as_trait = None;
        if self.read(Op::As) {
            as_trait = match self.parse_path() {
                Ok(p) => Some(p),
                Err(e) => return Err(e),
            };
        }
        if !self.read(Op::Gt) {
            return Err(ParseError("inherent bad ending"));
        }
        match as_trait {
            Some(as_trait) => Ok(Some(PathSegment::As { ty, as_trait })),
            None => Ok(Some(PathSegment::Ty { ty })),
        }
    }

    /// Reads one segment, or nothing if what comes next ends the path.
    pub fn parse_segment(&mut self) -> (r: ParseResult<Option<PathSegment<'a>>>)
        requires
            old(self).wf(),
        ensures
            final(self).toks() == old(self).toks(),
            final(self).wf(),
            r is Ok ==> old(self).position() <= final(self).position(),
            match segment_at(old(self).toks(), old(self).position()) {
                None => r is Err,
                Some((m, j)) => r matches Ok(s) && seg_opt_model(s) == m && final(self).position() == j,
            },
        decreases old(self).toks().len() - old(self).position(), 2int,
    {
        if self.can_read_at(0, Op::As) || self.can_read_at(0, Op::Gt) || self.can_read_at(0, Op::RBracket)
            || self.can_read_at(0, Op::RParen) || self.can_read_at(0, Op::RBrace) || self.can_read_at(
            0,
            Op::Comma,
        ) || self.can_read_at(0, Op::For) || self.can_read_at(0, Op::Semi) || self.can_read_at(0, Op::Plus)
            || self.can_read_at(0, Op::Equals) {
            return Ok(None);
        }
        if self.read(Op::LBracket) {
            self.parse_array()
        } else if self.read(Op::LParen) {
            self.parse_tuple()
        } else if self.read2(Op::Fn, Op::LParen) {
            self.parse_fn_ptr()
        } else if self.can_read_at(0, Op::LBrace) {
            self.parse_braces_segment()
        } else if self.read2(Op::Amp, Op::Mut) {
            self.parse_pointy(false, true)
        } else if self.read(Op::Amp) {
            self.parse_pointy(false, false)
        } else if self.read2(Op::Star, Op::Mut) {
            self.parse_pointy(true, true)
        } else if self.read2(Op::Star, Op::Const) {
            self.parse_pointy(true, false)
        } else if self.read2(Op::Lt, Op::Impl) {
            self.parse_impl_for()
        } else if self.read(Op::Lt) {
            self.parse_qualified()
        } else if self.read(Op::Dyn) {
            let tys = match self.parse_dyn_items() {
                Ok(x) => x,
                Err(e) => return Err(e),
            };
            Ok(Some(PathSegment::Dyn { tys }))
        } else if let Some(name) = self.read_ident() {
            self.parse_ident_rest(name)
        } else {
            Err(ParseError("No valid segment prefix"))
        }
    }

    /// Whether every token was read.
    pub fn finish(&self) -> (r: ParseResult<()>)
        requires
            self.wf(),
        ensures
            r is Ok <==> self.position() == self.toks().len(),
    {
        if self.pos == self.tokens.len() {
            Ok(())
        } else {
            Err(ParseError("Unused tokens"))
        }
    }
}

/// A segment, if any, as a value.
pub open spec fn seg_opt_model(s: Option<PathSegment>) -> Option<crate::remangle::path::SegModel> {
    match s {
        Some(s) => Some(seg_model(s)),
        None => None,
    }
}

proof fn lemma_segs_model_single(s: PathSegment)
    ensures
        segs_model(seq![s]) == seq![seg_model(s)],
{
    reveal_with_fuel(segs_model, 2);
    assert(seq![s].drop_first() =~= Seq::<PathSegment>::empty());
    assert(segs_model(seq![s]) =~= seq![seg_model(s)]);
}

proof fn lemma_paths_model_single(p: Path)
    ensures
        paths_model(seq![p]) == seq![path_model(p)],
{
    reveal_with_fuel(paths_model, 2);
    assert(seq![p].drop_first() =~= Seq::<Path>::empty());
    assert(paths_model(seq![p]) =~= seq![path_model(p)]);
}

proof fn lemma_args_model_single(a: PathArg)
    ensures
        args_model(seq![a]) == seq![crate::remangle::path::arg_model(a)],
{
    reveal_with_fuel(args_model, 2);
    assert(seq![a].drop_first() =~= Seq::<PathArg>::empty());
    assert(args_model(seq![a]) =~= seq![crate::remangle::path::arg_model(a)]);
}

proof fn lemma_segs_model_append(a: Seq<PathSegment>, b: Seq<PathSegment>)
    ensures
        segs_model(a + b) == segs_model(a) + segs_model(b),
    decreases a.len(),
{
    if a.len() == 0 {
        assert(a + b =~= b);
        assert(segs_model(a) =~= Seq::empty());
        assert(segs_model(a) + segs_model(b) =~= segs_model(b));
    } else {
        assert((a + b).drop_first() =~= a.drop_first() + b);
        lemma_segs_model_append(a.drop_first(), b);
        assert(segs_model(a + b) =~= segs_model(a) + segs_model(b));
    }
}

proof fn lemma_paths_model_append(a: Seq<Path>, b: Seq<Path>)
    ensures
        paths_model(a + b) == paths_model(a) + paths_model(b),
    decreases a.len(),
{
    if a.len() == 0 {
        assert(a + b =~= b);
        assert(paths_model(a) =~= Seq::empty());
        assert(paths_model(a) + paths_model(b) =~= paths_model(b));
    } else {
        assert((a + b).drop_first() =~= a.drop_first() + b);
        lemma_paths_model_append(a.drop_first(), b);
        assert(paths_model(a + b) =~= paths_model(a) + paths_model(b));
    }
}

proof fn lemma_args_model_append(a: Seq<PathArg>, b: Seq<PathArg>)
    ensures
        args_model(a + b) == args_model(a) + args_model(b),
    decreases a.len(),
{
    if a.len() == 0 {
        assert(a + b =~= b);
        assert(args_model(a) =~= Seq::empty());
        assert(args_model(a) + args_model(b) =~= args_model(b));
    } else {
        assert((a + b).drop_first() =~= a.drop_first() + b);
        lemma_args_model_append(a.drop_first(), b);
        assert(args_model(a + b) =~= args_model(a) + args_model(b));
    }
}

} // verus!
