use vstd::prelude::*;

verus! {

/// A token of a Rust symbol path: an identifier or a piece of punctuation
/// (a few keywords count as punctuation).
#[derive(Ord, PartialOrd, Eq, PartialEq, Hash, Debug)]
pub enum Token<'a> {
    Ident(&'a str),
    Oper(&'a str),
}

/// A token as a mathematical value.
pub enum SpecToken {
    Ident(Seq<char>),
    Oper(Seq<char>),
}

impl<'a> Token<'a> {
    pub open spec fn spec(&self) -> SpecToken {
        match self {
            Token::Ident(s) => SpecToken::Ident(s@),
            Token::Oper(s) => SpecToken::Oper(s@),
        }
    }
}

/// The mathematical values of a run of tokens.
pub open spec fn token_specs<'a>(v: Seq<Token<'a>>) -> Seq<SpecToken> {
    v.map_values(|t: Token<'a>| t.spec())
}

/// Splits a symbol path into tokens.
pub struct Lexer<'a> {
    input: &'a str,
}

/// Characters that end an identifier and stand as tokens of their own.
pub open spec fn is_delimiter(c: char) -> bool {
    c == '<' || c == '>' || c == ':' || c == '[' || c == ']' || c == '(' || c == ')' || c == '{'
        || c == '}' || c == ' ' || c == ',' || c == '&' || c == '*' || c == '-' || c == ';'
}

/// Words that are read as punctuation rather than identifiers.
pub open spec fn is_keyword(w: Seq<char>) -> bool {
    ||| w == seq!['a', 's']
    ||| w == seq!['f', 'o', 'r']
    ||| w == seq!['i', 'm', 'p', 'l']
    ||| w == seq!['m', 'u', 't']
    ||| w == seq!['c', 'o', 'n', 's', 't']
    ||| w == seq!['f', 'n']
}

/// The token for an identifier-like word.
pub open spec fn word_token(w: Seq<char>) -> SpecToken {
    if is_keyword(w) {
        SpecToken::Oper(w)
    } else {
        SpecToken::Ident(w)
    }
}

/// The number of leading spaces of `s`.
pub open spec fn leading_spaces(s: Seq<char>) -> nat
    decreases s.len(),
{
    if s.len() > 0 && s[0] == ' ' {
        1 + leading_spaces(s.drop_first())
    } else {
        0
    }
}

/// The index of the first delimiter of `s`, or its length if it has none.
pub open spec fn first_delimiter(s: Seq<char>) -> nat
    decreases s.len(),
{
    if s.len() == 0 || is_delimiter(s[0]) {
        0
    } else {
        1 + first_delimiter(s.drop_first())
    }
}

/// The next token of `s` and what is left after it, or `None` when only
/// spaces remain.
pub open spec fn next_token(s: Seq<char>) -> Option<(SpecToken, Seq<char>)> {
    let t = s.skip(leading_spaces(s) as int);
    let p = first_delimiter(t);
    if t.len() == 0 {
        None
    } else if p == 0 {
        let n: int = if t.len() >= 2 && ((t[0] == ':' && t[1] == ':') || (t[0] == '-' && t[1] == '>')) {
            2
        } else {
            1
        };
        Some((SpecToken::Oper(t.take(n)), t.skip(n)))
    } else {
        Some((word_token(t.take(p as int)), t.skip(p as int)))
    }
}

/// All tokens of `s`, in order.
pub open spec fn tokens(s: Seq<char>) -> Seq<SpecToken>
    decreases s.len(),
{
    match next_token(s) {
        None => Seq::empty(),
        Some((tok, rest)) => if rest.len() < s.len() {
            seq![tok] + tokens(rest)
        } else {
            Seq::empty()
        },
    }
}

proof fn lemma_leading_spaces(s: Seq<char>)
    ensures
        leading_spaces(s) <= s.len(),
        forall|i: int| 0 <= i < leading_spaces(s) ==> s[i] == ' ',
        leading_spaces(s) < s.len() ==> s[leading_spaces(s) as int] != ' ',
    decreases s.len(),
{
    if s.len() > 0 && s[0] == ' ' {
        lemma_leading_spaces(s.drop_first());
        assert forall|i: int| 0 <= i < leading_spaces(s) implies s[i] == ' ' by {
            if i > 0 {
                assert(s[i] == s.drop_first()[i - 1]);
            }
        }
    }
}

proof fn lemma_first_delimiter(s: Seq<char>)
    ensures
        first_delimiter(s) <= s.len(),
        forall|i: int| 0 <= i < first_delimiter(s) ==> !is_delimiter(#[trigger] s[i]),
        first_delimiter(s) < s.len() ==> is_delimiter(s[first_delimiter(s) as int]),
    decreases s.len(),
{
    if s.len() > 0 && !is_delimiter(s[0]) {
        lemma_first_delimiter(s.drop_first());
        assert forall|i: int| 0 <= i < first_delimiter(s) implies !is_delimiter(#[trigger] s[i]) by {
            if i > 0 {
                assert(s[i] == s.drop_first()[i - 1]);
            }
        }
    }
}

/// Each token takes at least one character, so `tokens` walks the whole input.
proof fn lemma_next_token_shrinks(s: Seq<char>)
    ensures
        next_token(s) matches Some((tok, rest)) ==> rest.len() < s.len(),
{
    lemma_leading_spaces(s);
    let t = s.skip(leading_spaces(s) as int);
    lemma_first_delimiter(t);
}

fn is_delimiter_char(c: char) -> (r: bool)
    ensures
        r == is_delimiter(c),
{
    c == '<' || c == '>' || c == ':' || c == '[' || c == ']' || c == '(' || c == ')' || c == '{'
        || c == '}' || c == ' ' || c == ',' || c == '&' || c == '*' || c == '-' || c == ';'
}

/// Whether `s` spells exactly `w`.
pub(crate) fn spells(s: &str, w: &[char]) -> (r: bool)
    ensures
        r == (s@ == w@),
{
    let n = s.unicode_len();
    if n != w.len() {
        return false;
    }
    let mut i: usize = 0;
    while i < n
        invariant
            n == s@.len(),
            n == w@.len(),
            i <= n,
            forall|j: int| 0 <= j < i ==> s@[j] == w@[j],
        decreases n - i,
    {
        if s.get_char(i) != w[i] {
            return false;
        }
        i = i + 1;
    }
    assert(s@ =~= w@);
    true
}

impl<'a> Token<'a> {
    /// Keywords become punctuation; any other word is an identifier.
    pub fn from_ident_like(input: &'a str) -> (r: Token<'a>)
        ensures
            r.spec() == word_token(input@),
    {
        let as_kw: [char; 2] = ['a', 's'];
        let for_kw: [char; 3] = ['f', 'o', 'r'];
        let impl_kw: [char; 4] = ['i', 'm', 'p', 'l'];
        let mut_kw: [char; 3] = ['m', 'u', 't'];
        let const_kw: [char; 5] = ['c', 'o', 'n', 's', 't'];
        let fn_kw: [char; 2] = ['f', 'n'];
        assert(as_kw@ =~= seq!['a', 's']);
        assert(for_kw@ =~= seq!['f', 'o', 'r']);
        assert(impl_kw@ =~= seq!['i', 'm', 'p', 'l']);
        assert(mut_kw@ =~= seq!['m', 'u', 't']);
        assert(const_kw@ =~= seq!['c', 'o', 'n', 's', 't']);
        assert(fn_kw@ =~= seq!['f', 'n']);
        if spells(input, &as_kw) || spells(input, &for_kw) || spells(input, &impl_kw) || spells(
            input,
            &mut_kw,
        ) || spells(input, &const_kw) || spells(input, &fn_kw) {
            Token::Oper(input)
        } else {
            Token::Ident(input)
        }
    }
}

impl<'a> Lexer<'a> {
    pub fn new(input: &'a str) -> (r: Self)
        ensures
            r.rest() == input@,
    {
        Lexer { input }
    }

    /// What is left to read.
    pub closed spec fn rest(&self) -> Seq<char> {
        self.input@
    }

    /// Reads the next token, skipping the spaces before it.
    pub fn next_token(&mut self) -> (r: Option<Token<'a>>)
        ensures
            match next_token(old(self).rest()) {
                None => r is None && final(self).rest().len() == 0,
                Some((tok, rest)) => r matches Some(t) && t.spec() == tok && final(self).rest()
                    == rest,
            },
    {
        let ghost s = self.input@;
        proof {
            lemma_leading_spaces(s);
        }
        let n = self.input.unicode_len();
        let mut start: usize = 0;
        while start < n && self.input.get_char(start) == ' '
            invariant
                n == s.len(),
                s == self.input@,
                start <= leading_spaces(s),
                leading_spaces(s) <= n,
                forall|i: int| 0 <= i < leading_spaces(s) ==> s[i] == ' ',
                leading_spaces(s) < s.len() ==> s[leading_spaces(s) as int] != ' ',
            decreases n - start,
        {
            start = start + 1;
        }
        assert(start == leading_spaces(s));
        let ghost t = s.skip(start as int);
        proof {
            lemma_first_delimiter(t);
        }
        let mut pos: usize = start;
        while pos < n && !is_delimiter_char(self.input.get_char(pos))
            invariant
                n == s.len(),
                s == self.input@,
                start <= pos <= n,
                t == s.skip(start as int),
                pos - start <= first_delimiter(t),
                first_delimiter(t) <= t.len(),
                forall|i: int| 0 <= i < first_delimiter(t) ==> !is_delimiter(#[trigger] t[i]),
                first_delimiter(t) < t.len() ==> is_delimiter(t[first_delimiter(t) as int]),
            decreases n - pos,
        {
            assert(t[pos - start] == s[pos as int]);
            pos = pos + 1;
        }
        if pos < n {
            assert(t[pos - start] == s[pos as int]);
        }
        assert(pos - start == first_delimiter(t));
        if pos < n {
            if pos == start {
                let mut len: usize = 1;
                if pos + 1 < n {
                    let c0 = self.input.get_char(pos);
                    let c1 = self.input.get_char(pos + 1);
                    if (c0 == ':' && c1 == ':') || (c0 == '-' && c1 == '>') {
                        len = 2;
                    }
                }
                let result = self.input.substring_char(pos, pos + len);
                self.input = self.input.substring_char(pos + len, n);
                assert(result@ =~= t.take(len as int));
                assert(self.input@ =~= t.skip(len as int));
                Some(Token::Oper(result))
            } else {
                let result = self.input.substring_char(start, pos);
                self.input = self.input.substring_char(pos, n);
                assert(result@ =~= t.take(pos - start));
                assert(self.input@ =~= t.skip(pos - start));
                Some(Token::from_ident_like(result))
            }
        } else if start < n {
            let result = self.input.substring_char(start, n);
            self.input = self.input.substring_char(n, n);
            assert(result@ =~= t.take(pos - start));
            assert(self.input@ =~= t.skip(pos - start));
            Some(Token::from_ident_like(result))
        } else {
            self.input = self.input.substring_char(n, n);
            None
        }
    }

    /// Reads every remaining token.
    pub fn collect_tokens(self) -> (r: Vec<Token<'a>>)
        ensures
            token_specs(r@) == tokens(self.rest()),
    {
        let mut lexer = self;
        let ghost s0 = lexer.input@;
        let mut out: Vec<Token<'a>> = Vec::new();
        assert(token_specs(out@) + tokens(s0) =~= tokens(s0));
        loop
            invariant
                s0 == self.rest(),
                token_specs(out@) + tokens(lexer.input@) == tokens(s0),
            decreases lexer.input@.len(),
        {
            let ghost before = lexer.input@;
            proof {
                lemma_next_token_shrinks(before);
            }
            match lexer.next_token() {
                None => {
                    assert(token_specs(out@) + tokens(before) =~= token_specs(out@));
                    return out;
                },
                Some(tok) => {
                    let ghost prev = out@;
                    out.push(tok);
                    assert(token_specs(out@) =~= token_specs(prev).push(tok.spec()));
                    assert(tokens(before) == seq![tok.spec()] + tokens(lexer.input@));
                    assert(token_specs(out@) + tokens(lexer.input@)
                        =~= token_specs(prev) + tokens(before));
                },
            }
        }
    }
}

/// The characters of a token.
pub open spec fn token_text(t: SpecToken) -> Seq<char> {
    match t {
        SpecToken::Ident(w) => w,
        SpecToken::Oper(w) => w,
    }
}

/// The characters of a run of tokens, one after the other.
pub open spec fn tokens_text(ts: Seq<SpecToken>) -> Seq<char>
    decreases ts.len(),
{
    if ts.len() == 0 {
        Seq::empty()
    } else {
        token_text(ts[0]) + tokens_text(ts.drop_first())
    }
}

/// `s` with every space taken out.
pub open spec fn without_spaces(s: Seq<char>) -> Seq<char>
    decreases s.len(),
{
    if s.len() == 0 {
        Seq::empty()
    } else if s[0] == ' ' {
        without_spaces(s.drop_first())
    } else {
        seq![s[0]] + without_spaces(s.drop_first())
    }
}

/// What a token may be: an identifier with no delimiter in it, or a
/// punctuation token: `::`, `->`, one delimiter other than a space, or a
/// keyword. No token is empty or holds a space.
pub open spec fn well_formed_token(t: SpecToken) -> bool {
    &&& token_text(t).len() > 0
    &&& forall|i: int| 0 <= i < token_text(t).len() ==> #[trigger] token_text(t)[i] != ' '
    &&& match t {
        SpecToken::Ident(w) => forall|i: int| 0 <= i < w.len() ==> !is_delimiter(#[trigger] w[i]),
        SpecToken::Oper(w) => {
            ||| w == seq![':', ':']
            ||| w == seq!['-', '>']
            ||| (w.len() == 1 && is_delimiter(w[0]) && w[0] != ' ')
            ||| is_keyword(w)
        },
    }
}

proof fn lemma_without_spaces_add(a: Seq<char>, b: Seq<char>)
    ensures
        without_spaces(a + b) == without_spaces(a) + without_spaces(b),
    decreases a.len(),
{
    if a.len() == 0 {
        assert(a + b =~= b);
    } else {
        assert((a + b).drop_first() =~= a.drop_first() + b);
        lemma_without_spaces_add(a.drop_first(), b);
    }
}

proof fn lemma_without_spaces_none(a: Seq<char>)
    requires
        forall|i: int| 0 <= i < a.len() ==> a[i] != ' ',
    ensures
        without_spaces(a) == a,
    decreases a.len(),
{
    if a.len() > 0 {
        lemma_without_spaces_none(a.drop_first());
        assert(seq![a[0]] + a.drop_first() =~= a);
    }
}

proof fn lemma_without_spaces_all(a: Seq<char>)
    requires
        forall|i: int| 0 <= i < a.len() ==> a[i] == ' ',
    ensures
        without_spaces(a) == Seq::<char>::empty(),
    decreases a.len(),
{
    if a.len() > 0 {
        lemma_without_spaces_all(a.drop_first());
    }
}

/// The tokens of `s` spell `s` without its spaces, and each is well
/// formed; a lexer that found no token finds none again.
pub proof fn tokens_spell_input(s: Seq<char>)
    ensures
        tokens_text(tokens(s)) == without_spaces(s),
        forall|i: int| 0 <= i < tokens(s).len() ==> well_formed_token(#[trigger] tokens(s)[i]),
        next_token(s) is None ==> without_spaces(s) == Seq::<char>::empty(),
        next_token(Seq::<char>::empty()) is None,
    decreases s.len(),
{
    lemma_leading_spaces(s);
    lemma_next_token_shrinks(s);
    let lead = leading_spaces(s) as int;
    let t = s.skip(lead);
    lemma_first_delimiter(t);
    assert(s.take(lead) + t =~= s);
    lemma_without_spaces_all(s.take(lead));
    lemma_without_spaces_add(s.take(lead), t);
    match next_token(s) {
        None => {
            assert(t.len() == 0);
            assert(t =~= Seq::<char>::empty());
        },
        Some((tok, rest)) => {
            let n = token_text(tok).len() as int;
            assert(token_text(tok) == t.take(n));
            assert(t.take(n) + rest =~= t);
            assert(t[0] != ' ');
            let p = first_delimiter(t) as int;
            if p == 0 {
                assert(is_delimiter(t[0]));
                if n == 2 {
                    if t[0] == ':' {
                        assert(token_text(tok) =~= seq![':', ':']);
                    } else {
                        assert(token_text(tok) =~= seq!['-', '>']);
                    }
                } else {
                    assert(token_text(tok)[0] == t[0]);
                }
            } else {
                assert(n == p);
                assert forall|i: int| 0 <= i < n implies !is_delimiter(#[trigger] token_text(tok)[i]) by {
                    assert(token_text(tok)[i] == t[i]);
                }
            }
            assert forall|i: int| 0 <= i < token_text(tok).len() implies #[trigger] token_text(tok)[i] != ' ' by {
                if p > 0 {
                    assert(!is_delimiter(token_text(tok)[i]));
                }
            }
            lemma_without_spaces_none(token_text(tok));
            lemma_without_spaces_add(t.take(n), rest);
            tokens_spell_input(rest);
            assert(tokens(s) == seq![tok] + tokens(rest));
            assert((seq![tok] + tokens(rest)).drop_first() =~= tokens(rest));
            assert(well_formed_token(tok));
            assert forall|i: int| 0 <= i < tokens(s).len() implies well_formed_token(#[trigger] tokens(s)[i]) by {
                if i > 0 {
                    assert(tokens(s)[i] == tokens(rest)[i - 1]);
                }
            }
        },
    }
}

} // verus!
