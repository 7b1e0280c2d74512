use vstd::prelude::*;
use crate::remangle::lexer::SpecToken;
use crate::remangle::path::{ArgModel, BracesModel, PathModel, SegModel};

verus! {

/// The punctuation and keywords that the parser looks for.
#[derive(Copy, Clone, PartialEq, Eq, Structural, Debug)]
pub enum Op {
    Lt,
    Gt,
    LBracket,
    RBracket,
    LParen,
    RParen,
    LBrace,
    RBrace,
    Comma,
    Semi,
    Plus,
    Equals,
    Colon,
    Colons,
    Arrow,
    Amp,
    Star,
    As,
    For,
    Impl,
    Mut,
    Const,
    Fn,
    Dyn,
}

/// How an operator is spelled.
pub open spec fn op_chars(o: Op) -> Seq<char> {
    match o {
        Op::Lt => seq!['<'],
        Op::Gt => seq!['>'],
        Op::LBracket => seq!['['],
        Op::RBracket => seq![']'],
        Op::LParen => seq!['('],
        Op::RParen => seq![')'],
        Op::LBrace => seq!['{'],
        Op::RBrace => seq!['}'],
        Op::Comma => seq![','],
        Op::Semi => seq![';'],
        Op::Plus => seq!['+'],
        Op::Equals => seq!['='],
        Op::Colon => seq![':'],
        Op::Colons => seq![':', ':'],
        Op::Arrow => seq!['-', '>'],
        Op::Amp => seq!['&'],
        Op::Star => seq!['*'],
        Op::As => seq!['a', 's'],
        Op::For => seq!['f', 'o', 'r'],
        Op::Impl => seq!['i', 'm', 'p', 'l'],
        Op::Mut => seq!['m', 'u', 't'],
        Op::Const => seq!['c', 'o', 'n', 's', 't'],
        Op::Fn => seq!['f', 'n'],
        Op::Dyn => seq!['d', 'y', 'n'],
    }
}

/// Whether the token at `i` is the operator `o`.
pub open spec fn is_op(t: Seq<SpecToken>, i: int, o: Op) -> bool {
    0 <= i < t.len() && t[i] == SpecToken::Oper(op_chars(o))
}

/// The identifier at `i`, if the token there is one.
pub open spec fn ident_at(t: Seq<SpecToken>, i: int) -> Option<Seq<char>> {
    if 0 <= i < t.len() {
        match t[i] {
            SpecToken::Ident(s) => Some(s),
            SpecToken::Oper(_) => None,
        }
    } else {
        None
    }
}

/// What follows `p` in `s`, if `s` starts with `p`.
pub open spec fn strip_prefix(s: Seq<char>, p: Seq<char>) -> Option<Seq<char>> {
    if p.len() <= s.len() && s.take(p.len() as int) == p {
        Some(s.skip(p.len() as int))
    } else {
        None
    }
}

/// A parse of something at a position: `None` is a parse error, `Some`
/// holds what was read and the position after it.
pub type Parsed<T> = Option<(T, int)>;

/// Whether `j` is a position between `i` and the end of `t`.
pub open spec fn within(t: Seq<SpecToken>, i: int, j: int) -> bool {
    i <= j <= t.len()
}

/// Braces after an identifier, or in place of one: `{{vtable.shim}}`,
/// `{{closure}}`, `{shim.vtable}`, `{shim:vtable#N}` or `{closure#N}`.
/// `Some((None, i))` when no brace opens at `i`.
pub open spec fn braces_at(t: Seq<SpecToken>, i: int) -> Parsed<Option<BracesModel>> {
    if !is_op(t, i, Op::LBrace) {
        Some((None, i))
    } else if is_op(t, i + 1, Op::LBrace) {
        match ident_at(t, i + 2) {
            None => None,
            Some(x) => {
                let b = if x == seq!['v', 't', 'a', 'b', 'l', 'e', '.', 's', 'h', 'i', 'm'] {
                    Some(BracesModel::UnknownVTable)
                } else if x == seq!['c', 'l', 'o', 's', 'u', 'r', 'e'] {
                    Some(BracesModel::UnknownClosure)
                } else {
                    None
                };
                match b {
                    None => None,
                    Some(b) => if is_op(t, i + 3, Op::RBrace) && is_op(t, i + 4, Op::RBrace) {
                        Some((Some(b), i + 5))
                    } else {
                        None
                    },
                }
            },
        }
    } else {
        match ident_at(t, i + 1) {
            None => None,
            Some(prefix) => {
                let found: Option<(BracesModel, int)> = if prefix == seq![
                    's',
                    'h',
                    'i',
                    'm',
                    '.',
                    'v',
                    't',
                    'a',
                    'b',
                    'l',
                    'e',
                ] {
                    Some((BracesModel::VTable(Seq::empty()), i + 2))
                } else if prefix == seq!['s', 'h', 'i', 'm'] {
                    if !is_op(t, i + 2, Op::Colon) {
                        None
                    } else {
                        match ident_at(t, i + 3) {
                            None => None,
                            Some(v) => match strip_prefix(v, seq!['v', 't', 'a', 'b', 'l', 'e', '#']) {
                                None => None,
                                Some(n) => Some((BracesModel::VTable(n), i + 4)),
                            },
                        }
                    }
                } else {
                    match strip_prefix(prefix, seq!['c', 'l', 'o', 's', 'u', 'r', 'e', '#']) {
                        None => None,
                        Some(n) => Some((BracesModel::Closure(n), i + 2)),
                    }
                };
                match found {
                    None => None,
                    Some((b, j)) => if is_op(t, j, Op::RBrace) {
                        Some((Some(b), j + 1))
                    } else {
                        None
                    },
                }
            },
        }
    }
}

/// Whether a segment cannot start at `i`: what follows ends the path.
pub open spec fn ends_path(t: Seq<SpecToken>, i: int) -> bool {
    ||| is_op(t, i, Op::As)
    ||| is_op(t, i, Op::Gt)
    ||| is_op(t, i, Op::RBracket)
    ||| is_op(t, i, Op::RParen)
    ||| is_op(t, i, Op::RBrace)
    ||| is_op(t, i, Op::Comma)
    ||| is_op(t, i, Op::For)
    ||| is_op(t, i, Op::Semi)
    ||| is_op(t, i, Op::Plus)
    ||| is_op(t, i, Op::Equals)
}

/// A path at `i`: a segment, then `::` and a segment any number of times.
/// A path may be empty, when no segment starts at `i`.
pub open spec fn path_at(t: Seq<SpecToken>, i: int) -> Parsed<PathModel>
    decreases t.len() - i, 3int,
{
    if !within(t, i, t.len() as int) {
        None
    } else {
        match segment_at(t, i) {
            None => None,
            Some((None, j)) => Some((PathModel { segments: Seq::empty() }, j)),
            Some((Some(s), j)) => if !within(t, i, j) {
                None
            } else {
                match more_segments_at(t, j) {
                    None => None,
                    Some((rest, k)) => Some((PathModel { segments: seq![s] + rest }, k)),
                }
            },
        }
    }
}

/// The segments that follow a first one: each after a `::`.
pub open spec fn more_segments_at(t: Seq<SpecToken>, i: int) -> Parsed<Seq<SegModel>>
    decreases t.len() - i, 1int,
{
    if !within(t, i, t.len() as int) {
        None
    } else if !is_op(t, i, Op::Colons) {
        Some((Seq::empty(), i))
    } else {
        match segment_at(t, i + 1) {
            None => None,
            Some((None, _)) => None,
            Some((Some(s), j)) => if !within(t, i + 1, j) {
                None
            } else {
                match more_segments_at(t, j) {
                    None => None,
                    Some((rest, k)) => Some((seq![s] + rest, k)),
                }
            },
        }
    }
}

/// The items of a tuple after its `(`, up to and with the closing `)`;
/// a comma may follow the last item.
pub open spec fn tuple_items_at(t: Seq<SpecToken>, i: int) -> Parsed<Seq<PathModel>>
    decreases t.len() - i, 4int,
{
    if !within(t, i, t.len() as int) {
        None
    } else {
        match path_at(t, i) {
            None => None,
            Some((p, j)) => if !within(t, i, j) {
                None
            } else if is_op(t, j, Op::RParen) {
                Some((seq![p], j + 1))
            } else if is_op(t, j, Op::Comma) && is_op(t, j + 1, Op::RParen) {
                Some((seq![p], j + 2))
            } else if is_op(t, j, Op::Comma) {
                match tuple_items_at(t, j + 1) {
                    None => None,
                    Some((rest, k)) => Some((seq![p] + rest, k)),
                }
            } else {
                None
            },
        }
    }
}

/// The parameters of a function pointer after its `(`, up to and with the `)`.
pub open spec fn fn_items_at(t: Seq<SpecToken>, i: int) -> Parsed<Seq<PathModel>>
    decreases t.len() - i, 4int,
{
    if !within(t, i, t.len() as int) {
        None
    } else {
        match path_at(t, i) {
            None => None,
            Some((p, j)) => if !within(t, i, j) {
                None
            } else if is_op(t, j, Op::RParen) {
                Some((seq![p], j + 1))
            } else if is_op(t, j, Op::Comma) {
                match fn_items_at(t, j + 1) {
                    None => None,
                    Some((rest, k)) => Some((seq![p] + rest, k)),
                }
            } else {
                None
            },
        }
    }
}

/// The bounds of a `dyn` type, separated by `+`.
pub open spec fn dyn_items_at(t: Seq<SpecToken>, i: int) -> Parsed<Seq<PathModel>>
    decreases t.len() - i, 4int,
{
    if !within(t, i, t.len() as int) {
        None
    } else {
        match path_at(t, i) {
            None => None,
            Some((p, j)) => if !within(t, i, j) {
                None
            } else if is_op(t, j, Op::Plus) {
                match dyn_items_at(t, j + 1) {
                    None => None,
                    Some((rest, k)) => Some((seq![p] + rest, k)),
                }
            } else {
                Some((seq![p], j))
            },
        }
    }
}

/// The generic arguments after `<`, up to and with the `>`; each may bind
/// a name with `=`.
pub open spec fn args_at(t: Seq<SpecToken>, i: int) -> Parsed<Seq<ArgModel>>
    decreases t.len() - i, 4int,
{
    if !within(t, i, t.len() as int) {
        None
    } else {
        match path_at(t, i) {
            None => None,
            Some((p1, j)) => if !within(t, i, j) {
                None
            } else {
                let arg: Parsed<ArgModel> = if is_op(t, j, Op::Equals) {
                    match path_at(t, j + 1) {
                        None => None,
                        Some((p2, k)) => Some((ArgModel { name: Some(p1), value: p2 }, k)),
                    }
                } else {
                    Some((ArgModel { name: None, value: p1 }, j))
                };
                match arg {
                    None => None,
                    Some((a, k)) => if !within(t, j, k) {
                        None
                    } else if is_op(t, k, Op::Comma) {
                        match args_at(t, k + 1) {
                            None => None,
                            Some((rest, m)) => Some((seq![a] + rest, m)),
                        }
                    } else if is_op(t, k, Op::Gt) {
                        Some((seq![a], k + 1))
                    } else {
                        None
                    },
                }
            },
        }
    }
}

/// An identifier segment after its name at `i - 1`: an optional version in
/// brackets, optional braces, and optional generic arguments after `::<`
/// or `<` (but not before `::<impl`).
pub open spec fn ident_rest_at(t: Seq<SpecToken>, name: Seq<char>, i: int) -> Parsed<Option<SegModel>>
    decreases t.len() - i, 5int,
{
    if !within(t, i, t.len() as int) {
        None
    } else {
        let version: Parsed<Option<Seq<char>>> = if is_op(t, i, Op::LBracket) {
            match ident_at(t, i + 1) {
                None => None,
                Some(v) => if is_op(t, i + 2, Op::RBracket) {
                    Some((Some(v), i + 3))
                } else {
                    None
                },
            }
        } else {
            Some((None, i))
        };
        match version {
            None => None,
            Some((version, j)) => match braces_at(t, j) {
                None => None,
                Some((braces, k)) => {
                                        let mk = |turbofish: bool, tys: Seq<ArgModel>| SegModel::Ident { name, version, braces, turbofish, tys };
                    if is_op(t, k, Op::Colons) && is_op(t, k + 1, Op::Lt) && is_op(t, k + 2, Op::Impl) {
                        Some((Some(mk(false, Seq::empty())), k))
                    } else if is_op(t, k, Op::Colons) && is_op(t, k + 1, Op::Lt) {
                        if !within(t, i, k + 2) {
                            None
                        } else {
                            match args_at(t, k + 2) {
                                None => None,
                                Some((tys, m)) => Some((Some(mk(true, tys)), m)),
                            }
                        }
                    } else if is_op(t, k, Op::Lt) {
                        if !within(t, i, k + 1) {
                            None
                        } else {
                            match args_at(t, k + 1) {
                                None => None,
                                Some((tys, m)) => Some((Some(mk(false, tys)), m)),
                            }
                        }
                    } else {
                        Some((Some(mk(false, Seq::empty())), k))
                    }
                },
            },
        }
    }
}

/// An array type after its `[`: an element type, then optionally `;`, a
/// length and, after `:`, the length's type; then `]`.
pub open spec fn array_at(t: Seq<SpecToken>, i: int) -> Parsed<Option<SegModel>>
    decreases t.len() - i, 4int,
{
    match path_at(t, i) {
        None => None,
        Some((ty, j)) => {
            let len: Parsed<(Option<Seq<char>>, Option<PathModel>)> = if is_op(t, j, Op::Semi) {
                match ident_at(t, j + 1) {
                    None => None,
                    Some(n) => if is_op(t, j + 2, Op::Colon) {
                        if !within(t, i + 1, j + 3) {
                            None
                        } else {
                            match path_at(t, j + 3) {
                                None => None,
                                Some((lt, k)) => Some(((Some(n), Some(lt)), k)),
                            }
                        }
                    } else {
                        Some(((Some(n), None), j + 2))
                    },
                }
            } else {
                Some(((None, None), j))
            };
            match len {
                None => None,
                Some(((length, length_ty), k)) => if is_op(t, k, Op::RBracket) {
                    Some((Some(SegModel::Array { ty, length, length_ty }), k + 1))
                } else {
                    None
                },
            }
        },
    }
}

/// A tuple type after its `(`.
pub open spec fn tuple_at(t: Seq<SpecToken>, i: int) -> Parsed<Option<SegModel>>
    decreases t.len() - i, 5int,
{
    if is_op(t, i, Op::RParen) {
        Some((Some(SegModel::Tuple { tys: Seq::empty() }), i + 1))
    } else {
        match tuple_items_at(t, i) {
            None => None,
            Some((tys, j)) => Some((Some(SegModel::Tuple { tys }), j)),
        }
    }
}

/// A function pointer type after its `fn(`: parameters, then optionally
/// `->` and the output type.
pub open spec fn fn_ptr_at(t: Seq<SpecToken>, i: int) -> Parsed<Option<SegModel>>
    decreases t.len() - i, 5int,
{
    match fn_items_at(t, i) {
        None => None,
        Some((tys, j)) => if is_op(t, j, Op::Arrow) {
            if !within(t, i + 1, j + 1) {
                None
            } else {
                match path_at(t, j + 1) {
                    None => None,
                    Some((out, k)) => Some((Some(SegModel::FnPtr { tys, output: Some(out) }), k)),
                }
            }
        } else {
            Some((Some(SegModel::FnPtr { tys, output: None }), j))
        },
    }
}

/// An `impl` segment after its `<impl`: a trait, `for`, a type, `>`.
pub open spec fn impl_for_at(t: Seq<SpecToken>, i: int) -> Parsed<Option<SegModel>>
    decreases t.len() - i, 4int,
{
    match path_at(t, i) {
        None => None,
        Some((trait_for, j)) => if is_op(t, j, Op::For) {
            if !within(t, i + 1, j + 1) {
                None
            } else {
                match path_at(t, j + 1) {
                    None => None,
                    Some((for_ty, k)) => if is_op(t, k, Op::Gt) {
                        Some((Some(SegModel::ImplFor { trait_for, for_ty }), k + 1))
                    } else {
                        None
                    },
                }
            }
        } else {
            None
        },
    }
}

/// A qualified type after its `<`: a type, optionally `as` and a trait, `>`.
pub open spec fn qualified_at(t: Seq<SpecToken>, i: int) -> Parsed<Option<SegModel>>
    decreases t.len() - i, 4int,
{
    match path_at(t, i) {
        None => None,
        Some((ty, j)) => {
            let as_trait: Parsed<Option<PathModel>> = if is_op(t, j, Op::As) {
                if !within(t, i + 1, j + 1) {
                    None
                } else {
                    match path_at(t, j + 1) {
                        None => None,
                        Some((a, k)) => Some((Some(a), k)),
                    }
                }
            } else {
                Some((None, j))
            };
            match as_trait {
                None => None,
                Some((as_trait, k)) => if !is_op(t, k, Op::Gt) {
                    None
                } else {
                    match as_trait {
                        Some(a) => Some((Some(SegModel::As { ty, as_trait: a }), k + 1)),
                        None => Some((Some(SegModel::Ty { ty }), k + 1)),
                    }
                },
            }
        },
    }
}

/// A segment made only of braces, at `i`.
pub open spec fn braces_segment_at(t: Seq<SpecToken>, i: int) -> Parsed<Option<SegModel>> {
    match braces_at(t, i) {
        None => None,
        Some((b, j)) => Some((
            Some(
                SegModel::Ident {
                    name: Seq::empty(),
                    version: None,
                    braces: b,
                    turbofish: false,
                    tys: Seq::empty(),
                },
            ),
            j,
        )),
    }
}

/// A segment at `i`, or `None` inside `Some` when what follows ends the path.
pub open spec fn segment_at(t: Seq<SpecToken>, i: int) -> Parsed<Option<SegModel>>
    decreases t.len() - i, 2int,
{
    if !within(t, i, t.len() as int) {
        None
    } else if ends_path(t, i) {
        Some((None, i))
    } else if is_op(t, i, Op::LBracket) {
        array_at(t, i + 1)
    } else if is_op(t, i, Op::LParen) {
        tuple_at(t, i + 1)
    } else if is_op(t, i, Op::Fn) && is_op(t, i + 1, Op::LParen) {
        fn_ptr_at(t, i + 2)
    } else if is_op(t, i, Op::LBrace) {
        braces_segment_at(t, i)
    } else if is_op(t, i, Op::Amp) && is_op(t, i + 1, Op::Mut) {
        pointy_at(t, i + 2, false, true)
    } else if is_op(t, i, Op::Amp) {
        pointy_at(t, i + 1, false, false)
    } else if is_op(t, i, Op::Star) && is_op(t, i + 1, Op::Mut) {
        pointy_at(t, i + 2, true, true)
    } else if is_op(t, i, Op::Star) && is_op(t, i + 1, Op::Const) {
        pointy_at(t, i + 2, true, false)
    } else if is_op(t, i, Op::Lt) && is_op(t, i + 1, Op::Impl) {
        impl_for_at(t, i + 2)
    } else if is_op(t, i, Op::Lt) {
        qualified_at(t, i + 1)
    } else if is_op(t, i, Op::Dyn) {
        match dyn_items_at(t, i + 1) {
            None => None,
            Some((tys, j)) => Some((Some(SegModel::Dyn { tys }), j)),
        }
    } else {
        match ident_at(t, i) {
            None => None,
            Some(name) => ident_rest_at(t, name, i + 1),
        }
    }
}

/// A pointer or reference to the path at `i`.
pub open spec fn pointy_at(t: Seq<SpecToken>, i: int, raw: bool, mutable: bool) -> Parsed<Option<SegModel>>
    decreases t.len() - i, 4int,
{
    match path_at(t, i) {
        None => None,
        Some((ty, j)) => Some((Some(SegModel::Pointy { raw, mutable, ty }), j)),
    }
}

/// A whole symbol: a path that takes every token.
pub open spec fn parse_tokens(t: Seq<SpecToken>) -> Option<PathModel> {
    match path_at(t, 0) {
        Some((p, j)) => if j == t.len() {
            Some(p)
        } else {
            None
        },
        None => None,
    }
}

} // verus!
