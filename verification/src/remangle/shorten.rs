use vstd::prelude::*;
use crate::text::append_str;

verus! {

/// Why a symbol could not be read.
#[derive(Debug)]
pub struct ParseError(&'static str);

/// A segment of a symbol read character by character: a qualified type in
/// angle brackets, or a name with generic parameters.
pub enum PathSegment<'a> {
    Inherent { path: Path<'a>, as_trait: Option<Path<'a>> },
    Ident { name: &'a str, params: Vec<Path<'a>> },
}

/// A symbol: segments joined by `::`.
pub struct Path<'a> {
    pub segments: Vec<PathSegment<'a>>,
}

/// `PathSegment` as a mathematical value.
pub enum SegValue {
    Inherent { path: PathValue, as_trait: Option<PathValue> },
    Ident { name: Seq<char>, params: Seq<PathValue> },
}

/// `Path` as a mathematical value.
pub struct PathValue {
    pub segments: Seq<SegValue>,
}

pub open spec fn path_value(p: Path) -> PathValue
    decreases p, 2int,
{
    PathValue { segments: seg_values(p.segments@) }
}

pub open spec fn path_opt_value(p: Option<Path>) -> Option<PathValue>
    decreases p, 3int,
{
    match p {
        Some(q) => Some(path_value(q)),
        None => None,
    }
}

pub open spec fn seg_value(s: PathSegment) -> SegValue
    decreases s, 3int,
{
    match s {
        PathSegment::Inherent { path, as_trait } => SegValue::Inherent {
            path: path_value(path),
            as_trait: path_opt_value(as_trait),
        },
        PathSegment::Ident { name, params } => SegValue::Ident { name: name@, params: path_values(params@) },
    }
}

pub open spec fn seg_values(v: Seq<PathSegment>) -> Seq<SegValue>
    decreases v, 1int,
{
    if v.len() == 0 {
        Seq::empty()
    } else {
        seq![seg_value(v[0])] + seg_values(v.drop_first())
    }
}

pub open spec fn path_values(v: Seq<Path>) -> Seq<PathValue>
    decreases v, 1int,
{
    if v.len() == 0 {
        Seq::empty()
    } else {
        seq![path_value(v[0])] + path_values(v.drop_first())
    }
}

proof fn lemma_seg_values(v: Seq<PathSegment>)
    ensures
        seg_values(v).len() == v.len(),
        forall|i: int| 0 <= i < v.len() ==> #[trigger] seg_values(v)[i] == seg_value(v[i]),
    decreases v.len(),
{
    if v.len() > 0 {
        lemma_seg_values(v.drop_first());
        assert forall|i: int| 0 <= i < v.len() implies #[trigger] seg_values(v)[i] == seg_value(v[i]) by {
            if i > 0 {
                assert(v.drop_first()[i - 1] == v[i]);
            }
        }
    }
}

proof fn lemma_path_values(v: Seq<Path>)
    ensures
        path_values(v).len() == v.len(),
        forall|i: int| 0 <= i < v.len() ==> #[trigger] path_values(v)[i] == path_value(v[i]),
    decreases v.len(),
{
    if v.len() > 0 {
        lemma_path_values(v.drop_first());
        assert forall|i: int| 0 <= i < v.len() implies #[trigger] path_values(v)[i] == path_value(v[i]) by {
            if i > 0 {
                assert(v.drop_first()[i - 1] == v[i]);
            }
        }
    }
}

proof fn lemma_seg_values_push(v: Seq<PathSegment>, s: PathSegment)
    ensures
        seg_values(v.push(s)) == seg_values(v).push(seg_value(s)),
{
    lemma_seg_values(v);
    lemma_seg_values(v.push(s));
    assert(seg_values(v.push(s)) =~= seg_values(v).push(seg_value(s)));
}

proof fn lemma_path_values_push(v: Seq<Path>, p: Path)
    ensures
        path_values(v.push(p)) == path_values(v).push(path_value(p)),
{
    lemma_path_values(v);
    lemma_path_values(v.push(p));
    assert(path_values(v.push(p)) =~= path_values(v).push(path_value(p)));
}

/// A parse at a position: `None` is an error; `Some` holds what was read
/// and the position after it.
pub type Read<T> = Option<(T, int)>;

/// Whether `s` has `p` at position `i`.
pub open spec fn has_at(s: Seq<char>, i: int, p: Seq<char>) -> bool {
    0 <= i && i + p.len() <= s.len() && s.subrange(i, i + p.len()) == p
}

pub open spec fn opens(c: char) -> bool {
    c == '[' || c == '(' || c == '{'
}

pub open spec fn closes(c: char) -> bool {
    c == ']' || c == ')' || c == '}'
}

pub open spec fn separates(c: char) -> bool {
    c == ',' || c == ':' || c == '<' || c == '>'
}

/// Where a name that starts at `k` ends, with `depth` brackets open: at a
/// closing bracket that was not opened, or at `,` `:` `<` `>` outside
/// brackets, or at the end.
pub open spec fn name_end(s: Seq<char>, k: int, depth: int) -> int
    decreases s.len() - k,
{
    if k < 0 || k >= s.len() {
        k
    } else if opens(s[k]) {
        name_end(s, k + 1, depth + 1)
    } else if closes(s[k]) {
        if depth <= 0 {
            k
        } else {
            name_end(s, k + 1, depth - 1)
        }
    } else if separates(s[k]) && depth <= 0 {
        k
    } else {
        name_end(s, k + 1, depth)
    }
}

proof fn lemma_name_end(s: Seq<char>, k: int, depth: int)
    requires
        0 <= k <= s.len(),
    ensures
        k <= name_end(s, k, depth) <= s.len(),
    decreases s.len() - k,
{
    if k < s.len() {
        if opens(s[k]) {
            lemma_name_end(s, k + 1, depth + 1);
        } else if closes(s[k]) {
            if depth > 0 {
                lemma_name_end(s, k + 1, depth - 1);
            }
        } else if !(separates(s[k]) && depth <= 0) {
            lemma_name_end(s, k + 1, depth);
        }
    }
}

/// A symbol path at `i`: segments joined by `::`, possibly none.
pub open spec fn path_read(s: Seq<char>, i: int) -> Read<PathValue>
    decreases s.len() - i, 3int,
{
    if !(0 <= i <= s.len()) {
        None
    } else {
        match segment_read(s, i) {
            None => None,
            Some((None, j)) => Some((PathValue { segments: Seq::empty() }, j)),
            Some((Some(seg), j)) => if !(i <= j <= s.len()) {
                None
            } else {
                match more_read(s, j) {
                    None => None,
                    Some((rest, k)) => Some((PathValue { segments: seq![seg] + rest }, k)),
                }
            },
        }
    }
}

/// Further segments, each after `::`.
pub open spec fn more_read(s: Seq<char>, i: int) -> Read<Seq<SegValue>>
    decreases s.len() - i, 1int,
{
    if !(0 <= i <= s.len()) {
        None
    } else if !has_at(s, i, seq![':', ':']) {
        Some((Seq::empty(), i))
    } else {
        match segment_read(s, i + 2) {
            None => None,
            Some((None, _)) => None,
            Some((Some(seg), j)) => if !(i + 2 <= j <= s.len()) {
                None
            } else {
                match more_read(s, j) {
                    None => None,
                    Some((rest, k)) => Some((seq![seg] + rest, k)),
                }
            },
        }
    }
}

/// Generic parameters after `<`, separated by `,` or `, `, up to `>`.
pub open spec fn params_read(s: Seq<char>, i: int) -> Read<Seq<PathValue>>
    decreases s.len() - i, 4int,
{
    if !(0 <= i <= s.len()) {
        None
    } else {
        match path_read(s, i) {
            None => None,
            Some((p, j)) => if !(i <= j <= s.len()) {
                None
            } else if has_at(s, j, seq![',', ' ']) {
                match params_read(s, j + 2) {
                    None => None,
                    Some((rest, k)) => Some((seq![p] + rest, k)),
                }
            } else if has_at(s, j, seq![',']) {
                match params_read(s, j + 1) {
                    None => None,
                    Some((rest, k)) => Some((seq![p] + rest, k)),
                }
            } else if has_at(s, j, seq!['>']) {
                Some((seq![p], j + 1))
            } else {
                None
            },
        }
    }
}

/// A qualified type after its `<`: a path, optionally ` as ` and a trait, `>`.
pub open spec fn inherent_read(s: Seq<char>, i: int) -> Read<Option<SegValue>>
    decreases s.len() - i, 4int,
{
    match path_read(s, i) {
        None => None,
        Some((path, j)) => {
            let as_trait: Read<Option<PathValue>> = if has_at(s, j, seq![' ', 'a', 's', ' ']) {
                if !(i < j + 4 <= s.len()) {
                    None
                } else {
                    match path_read(s, j + 4) {
                        None => None,
                        Some((t, k)) => Some((Some(t), k)),
                    }
                }
            } else {
                Some((None, j))
            };
            match as_trait {
                None => None,
                Some((as_trait, k)) => if has_at(s, k, seq!['>']) {
                    Some((Some(SegValue::Inherent { path, as_trait }), k + 1))
                } else {
                    None
                },
            }
        },
    }
}

/// A segment at `i`, or `None` inside `Some` when the path ends there.
pub open spec fn segment_read(s: Seq<char>, i: int) -> Read<Option<SegValue>>
    decreases s.len() - i, 2int,
{
    if !(0 <= i <= s.len()) {
        None
    } else if i == s.len() || has_at(s, i, seq![' ', 'a', 's', ' ']) || has_at(s, i, seq!['>'])
        || has_at(s, i, seq![',']) {
        Some((None, i))
    } else if has_at(s, i, seq!['<']) {
        inherent_read(s, i + 1)
    } else {
        let e = name_end(s, i, 0);
        if e <= i || e > s.len() {
            None
        } else {
            let name = s.subrange(i, e);
            if has_at(s, e, seq![':', ':', '<']) {
                match params_read(s, e + 3) {
                    None => None,
                    Some((params, k)) => Some((Some(SegValue::Ident { name, params }), k)),
                }
            } else if has_at(s, e, seq!['<']) {
                match params_read(s, e + 1) {
                    None => None,
                    Some((params, k)) => Some((Some(SegValue::Ident { name, params }), k)),
                }
            } else {
                Some((Some(SegValue::Ident { name, params: Seq::empty() }), e))
            }
        }
    }
}

/// The path that a whole symbol spells, if it spells one.
pub open spec fn symbol_path(s: Seq<char>) -> Option<PathValue> {
    match path_read(s, 0) {
        Some((p, j)) => if j == s.len() {
            Some(p)
        } else {
            None
        },
        None => None,
    }
}

/// Reads a symbol character by character.
struct Parser<'a> {
    string: &'a str,
    pos: usize,
}

/// Whether `s` has the characters of `p` at `i`.
fn has_chars_at(s: &str, i: usize, p: &[char]) -> (r: bool)
    requires
        i <= s@.len(),
    ensures
        r == has_at(s@, i as int, p@),
{
    let n = s.unicode_len();
    let m = p.len();
    if m > n - i {
        return false;
    }
    let mut k: usize = 0;
    while k < m
        invariant
            n == s@.len(),
            m == p@.len(),
            i + m <= n,
            k <= m,
            forall|j: int| 0 <= j < k ==> s@[i + j] == p@[j],
        decreases m - k,
    {
        if s.get_char(i + k) != p[k] {
            assert(s@.subrange(i as int, i + m)[k as int] != p@[k as int]);
            return false;
        }
        k = k + 1;
    }
    assert(s@.subrange(i as int, i + m) =~= p@);
    true
}

impl<'a> Parser<'a> {
    spec fn text(&self) -> Seq<char> {
        self.string@
    }

    spec fn at(&self) -> int {
        self.pos as int
    }

    spec fn wf(&self) -> bool {
        self.pos <= self.string@.len()
    }

    fn can_read(&self, p: &[char]) -> (r: bool)
        requires
            self.wf(),
        ensures
            r == has_at(self.text(), self.at(), p@),
    {
        has_chars_at(self.string, self.pos, p)
    }

    fn read(&mut self, p: &[char]) -> (r: bool)
        requires
            old(self).wf(),
        ensures
            final(self).wf(),
            final(self).text() == old(self).text(),
            r == has_at(old(self).text(), old(self).at(), p@),
            final(self).at() == old(self).at() + if r { p@.len() as int } else { 0 },
    {
        if has_chars_at(self.string, self.pos, p) {
            let n = self.string.unicode_len();
            assert(self.pos + p@.len() <= n);
            self.pos = self.pos + p.len();
            true
        } else {
            false
        }
    }

    /// Reads a name: up to a closing bracket that it did not open, or up to
    /// `,` `:` `<` `>` outside brackets.
    fn read_ident(&mut self) -> (r: Option<&'a str>)
        requires
            old(self).wf(),
        ensures
            final(self).wf(),
            final(self).text() == old(self).text(),
            ({
                let e = name_end(old(self).text(), old(self).at(), 0);
                if e == old(self).at() {
                    r is None && final(self).at() == old(self).at()
                } else {
                    r matches Some(x) && x@ == old(self).text().subrange(old(self).at(), e) && final(self).at() == e
                }
            }),
    {
        let ghost s = self.string@;
        let n = self.string.unicode_len();
        let mut k: usize = self.pos;
        let mut depth: usize = 0;
        proof {
            lemma_name_end(s, k as int, 0);
        }
        while k < n
            invariant
                n == s.len(),
                s == self.string@,
                self.pos <= k <= n,
                depth <= k - self.pos,
                name_end(s, self.pos as int, 0) == name_end(s, k as int, depth as int),
            ensures
                self.pos <= k <= n,
                name_end(s, self.pos as int, 0) == k,
            decreases n - k,
        {
            let c = self.string.get_char(k);
            if c == '[' || c == '(' || c == '{' {
                depth = depth + 1;
            } else if c == ']' || c == ')' || c == '}' {
                if depth == 0 {
                    assert(name_end(s, k as int, 0) == k);
                    break;
                } else {
                    depth = depth - 1;
                }
            } else if c == ',' || c == ':' || c == '<' || c == '>' {
                if depth == 0 {
                    assert(name_end(s, k as int, 0) == k);
                    break;
                }
            }
            k = k + 1;
        }
        let start = self.pos;
        if k == start {
            return None;
        }
        let result = self.string.substring_char(start, k);
        self.pos = k;
        Some(result)
    }

    fn finish(&self) -> (r: Result<(), ParseError>)
        requires
            self.wf(),
        ensures
            r is Ok <==> self.at() == self.text().len(),
    {
        if self.pos == self.string.unicode_len() {
            Ok(())
        } else {
            Err(ParseError("Unused tokens"))
        }
    }

    fn parse_params(&mut self) -> (r: Result<Vec<Path<'a>>, ParseError>)
        requires
            old(self).wf(),
        ensures
            final(self).wf(),
            final(self).text() == old(self).text(),
            r is Ok ==> old(self).at() <= final(self).at(),
            match params_read(old(self).text(), old(self).at()) {
                None => r is Err,
                Some((m, j)) => r matches Ok(v) && path_values(v@) == m && final(self).at() == j,
            },
        decreases old(self).text().len() - old(self).at(), 4int,
    {
        let p = match self.parse_path() {
            Ok(p) => p,
            Err(e) => return Err(e),
        };
        let mut out: Vec<Path<'a>> = Vec::new();
        out.push(p);
        proof {
            lemma_path_values_push(Seq::empty(), p);
            assert(Seq::<Path>::empty().push(p) =~= out@);
            assert(path_values(Seq::<Path>::empty()) =~= Seq::empty());
        }
        let comma_space: [char; 2] = [',', ' '];
        let comma: [char; 1] = [','];
        let close: [char; 1] = ['>'];
        assert(comma_space@ =~= seq![',', ' ']);
        assert(comma@ =~= seq![',']);
        assert(close@ =~= seq!['>']);
        if self.read(&comma_space) || self.read(&comma) {
            let mut rest = match self.parse_params() {
                Ok(x) => x,
                Err(e) => return Err(e),
            };
            let ghost head = out@;
            let ghost tail = rest@;
            out.append(&mut rest);
            proof {
                assert(out@ =~= head + tail);
                lemma_path_values(head);
                lemma_path_values(tail);
                lemma_path_values(out@);
                assert(path_values(out@) =~= path_values(head) + path_values(tail));
            }
            Ok(out)
        } else if self.read(&close) {
            Ok(out)
        } else {
            Err(ParseError("params ending incorrect"))
        }
    }

    fn parse_inherent(&mut self) -> (r: Result<Option<PathSegment<'a>>, ParseError>)
        requires
            old(self).wf(),
        ensures
            final(self).wf(),
            final(self).text() == old(self).text(),
            r is Ok ==> old(self).at() <= final(self).at(),
            match inherent_read(old(self).text(), old(self).at()) {
                None => r is Err,
                Some((m, j)) => r matches Ok(v) && seg_opt_value(v) == m && final(self).at() == j,
            },
        decreases old(self).text().len() - old(self).at(), 4int,
    {
        let path = match self.parse_path() {
            Ok(p) => p,
            Err(e) => return Err(e),
        };
        let as_kw: [char; 4] = [' ', 'a', 's', ' '];
        let close: [char; 1] = ['>'];
        assert(as_kw@ =~= seq![' ', 'a', 's', ' ']);
        assert(close@ =~= seq!['>']);
        let mut as_trait = None;
        if self.read(&as_kw) {
            as_trait = match self.parse_path() {
                Ok(p) => Some(p),
                Err(e) => return Err(e),
            };
        }
        if !self.read(&close) {
            return Err(ParseError("inherent bad ending"));
        }
        Ok(Some(PathSegment::Inherent { path, as_trait }))
    }

    fn parse_segment(&mut self) -> (r: Result<Option<PathSegment<'a>>, ParseError>)
        requires
            old(self).wf(),
        ensures
            final(self).wf(),
            final(self).text() == old(self).text(),
            r is Ok ==> old(self).at() <= final(self).at(),
            match segment_read(old(self).text(), old(self).at()) {
                None => r is Err,
                Some((m, j)) => r matches Ok(v) && seg_opt_value(v) == m && final(self).at() == j,
            },
        decreases old(self).text().len() - old(self).at(), 2int,
    {
        let as_kw: [char; 4] = [' ', 'a', 's', ' '];
        let close: [char; 1] = ['>'];
        let comma: [char; 1] = [','];
        let open: [char; 1] = ['<'];
        let turbofish: [char; 3] = [':', ':', '<'];
        assert(as_kw@ =~= seq![' ', 'a', 's', ' ']);
        assert(close@ =~= seq!['>']);
        assert(comma@ =~= seq![',']);
        assert(open@ =~= seq!['<']);
        assert(turbofish@ =~= seq![':', ':', '<']);
        if self.pos == self.string.unicode_len() {
            return Ok(None);
        }
        if self.can_read(&as_kw) || self.can_read(&close) || self.can_read(&comma) {
            return Ok(None);
        }
        if self.read(&open) {
            return self.parse_inherent();
        }
        proof {
            lemma_name_end(self.text(), self.at(), 0);
        }
        match self.read_ident() {
            Some(name) => {
                let mut params: Vec<Path<'a>> = Vec::new();
                if self.read(&turbofish) || self.read(&open) {
                    params = match self.parse_params() {
                        Ok(x) => x,
                        Err(e) => return Err(e),
                    };
                } else {
                    assert(path_values(params@) =~= Seq::empty());
                }
                Ok(Some(PathSegment::Ident { name, params }))
            },
            None => Err(ParseError("No valid segment prefix")),
        }
    }

    fn parse_path(&mut self) -> (r: Result<Path<'a>, ParseError>)
        requires
            old(self).wf(),
        ensures
            final(self).wf(),
            final(self).text() == old(self).text(),
            r is Ok ==> old(self).at() <= final(self).at(),
            match path_read(old(self).text(), old(self).at()) {
                None => r is Err,
                Some((m, j)) => r matches Ok(p) && path_value(p) == m && final(self).at() == j,
            },
        decreases old(self).text().len() - old(self).at(), 3int,
    {
        let ghost i0 = self.at();
        let ghost s = self.text();
        let first = match self.parse_segment() {
            Ok(x) => x,
            Err(e) => return Err(e),
        };
        let mut segments: Vec<PathSegment<'a>> = Vec::new();
        match first {
            None => {
                let p = Path { segments };
                assert(path_value(p).segments =~= Seq::empty());
                return Ok(p);
            },
            Some(segment) => {
                segments.push(segment);
            },
        }
        let colons: [char; 2] = [':', ':'];
        assert(colons@ =~= seq![':', ':']);
        proof {
            lemma_seg_values(segments@);
        }
        let ghost j0 = self.at();
        loop
            invariant
                self.wf(),
                self.text() == s,
                s == old(self).text(),
                i0 == old(self).at(),
                i0 <= j0,
                colons@ == seq![':', ':'],
                j0 <= self.at(),
                segments@.len() >= 1,
                path_read(s, i0) == match more_read(s, j0) {
                    None => None,
                    Some((rest, k)) => Some((PathValue { segments: seq![seg_values(segments@)[0]] + rest }, k)),
                },
                more_read(s, j0) == match more_read(s, self.at()) {
                    None => None,
                    Some((rest, k)) => Some((seg_values(segments@).drop_first() + rest, k)),
                },
            ensures
                self.wf(),
                self.text() == s,
                i0 <= j0,
                j0 <= self.at(),
                segments@.len() >= 1,
                path_read(s, i0) == match more_read(s, j0) {
                    None => None,
                    Some((rest, k)) => Some((PathValue { segments: seq![seg_values(segments@)[0]] + rest }, k)),
                },
                more_read(s, j0) == Some((seg_values(segments@).drop_first(), self.at())),
            decreases s.len() - self.at(),
        {
            let ghost at0 = self.at();
            if !self.read(&colons) {
                assert(seg_values(segments@).drop_first() + Seq::<SegValue>::empty() =~= seg_values(segments@).drop_first());
                break;
            }
            let ghost before = segments@;
            match self.parse_segment() {
                Ok(Some(segment)) => {
                    segments.push(segment);
                    proof {
                        lemma_seg_values_push(before, segment);
                        lemma_seg_values(before);
                        assert(seg_values(segments@)[0] == seg_values(before)[0]);
                        assert(seg_values(segments@).drop_first() =~= seg_values(before).drop_first().push(
                            seg_value(segment),
                        ));
                        match more_read(s, self.at()) {
                            None => {},
                            Some((rest, k)) => {
                                assert(seg_values(before).drop_first() + (seq![seg_value(segment)] + rest)
                                    =~= seg_values(segments@).drop_first() + rest);
                            },
                        }
                    }
                },
                Ok(None) => return Err(ParseError("missing ::")),
                Err(e) => return Err(e),
            }
        }
        proof {
            lemma_seg_values(segments@);
            assert(seg_values(segments@) =~= seq![seg_values(segments@)[0]] + seg_values(segments@).drop_first());
        }
        let p = Path { segments };
        Ok(p)
    }
}

/// A segment, if any, as a value.
pub open spec fn seg_opt_value(s: Option<PathSegment>) -> Option<SegValue> {
    match s {
        Some(s) => Some(seg_value(s)),
        None => None,
    }
}

/// Where the first `[` of a name is, or its length if it has none.
pub open spec fn bracket_at(n: Seq<char>, k: int) -> int
    decreases n.len() - k,
{
    if k < 0 || k >= n.len() || n[k] == '[' {
        k
    } else {
        bracket_at(n, k + 1)
    }
}

/// A name without its version: what comes before its first `[`.
pub open spec fn unversioned(n: Seq<char>) -> Seq<char> {
    n.take(bracket_at(n, 0))
}

/// The path with the versions of all its names taken off.
pub open spec fn strip_path(p: PathValue) -> PathValue
    decreases p, 0int,
{
    PathValue { segments: strip_segs(p.segments, 0) }
}

pub open spec fn strip_segs(v: Seq<SegValue>, k: int) -> Seq<SegValue>
    decreases v, v.len() - k,
{
    if k < 0 || k >= v.len() {
        Seq::empty()
    } else {
        seq![strip_seg(v[k])] + strip_segs(v, k + 1)
    }
}

pub open spec fn strip_paths(v: Seq<PathValue>, k: int) -> Seq<PathValue>
    decreases v, v.len() - k,
{
    if k < 0 || k >= v.len() {
        Seq::empty()
    } else {
        seq![strip_path(v[k])] + strip_paths(v, k + 1)
    }
}

pub open spec fn strip_seg(s: SegValue) -> SegValue
    decreases s, 0int,
{
    match s {
        SegValue::Inherent { path, as_trait } => SegValue::Inherent {
            path: strip_path(path),
            as_trait: match as_trait {
                Some(t) => Some(strip_path(t)),
                None => None,
            },
        },
        SegValue::Ident { name, params } => SegValue::Ident {
            name: unversioned(name),
            params: strip_paths(params, 0),
        },
    }
}

/// Whether some name of the path, at any depth, carries a version.
pub open spec fn versioned_path(p: PathValue) -> bool
    decreases p, 0int,
{
    versioned_segs(p.segments, 0)
}

pub open spec fn versioned_segs(v: Seq<SegValue>, k: int) -> bool
    decreases v, v.len() - k,
{
    if k < 0 || k >= v.len() {
        false
    } else {
        versioned_seg(v[k]) || versioned_segs(v, k + 1)
    }
}

pub open spec fn versioned_paths(v: Seq<PathValue>, k: int) -> bool
    decreases v, v.len() - k,
{
    if k < 0 || k >= v.len() {
        false
    } else {
        versioned_path(v[k]) || versioned_paths(v, k + 1)
    }
}

pub open spec fn versioned_seg(s: SegValue) -> bool
    decreases s, 0int,
{
    match s {
        SegValue::Inherent { path, as_trait } => versioned_path(path) || match as_trait {
            Some(t) => versioned_path(t),
            None => false,
        },
        SegValue::Ident { name, params } => bracket_at(name, 0) < name.len() || versioned_paths(params, 0),
    }
}

/// Whether every name of the path, at any depth, is non-empty.
pub open spec fn named_path(p: PathValue) -> bool
    decreases p, 0int,
{
    named_segs(p.segments, 0)
}

pub open spec fn named_segs(v: Seq<SegValue>, k: int) -> bool
    decreases v, v.len() - k,
{
    if k < 0 || k >= v.len() {
        true
    } else {
        named_seg(v[k]) && named_segs(v, k + 1)
    }
}

pub open spec fn named_paths(v: Seq<PathValue>, k: int) -> bool
    decreases v, v.len() - k,
{
    if k < 0 || k >= v.len() {
        true
    } else {
        named_path(v[k]) && named_paths(v, k + 1)
    }
}

pub open spec fn named_seg(s: SegValue) -> bool
    decreases s, 0int,
{
    match s {
        SegValue::Inherent { path, as_trait } => named_path(path) && match as_trait {
            Some(t) => named_path(t),
            None => true,
        },
        SegValue::Ident { name, params } => name.len() > 0 && named_paths(params, 0),
    }
}

/// Whether a segment is the plain name `n`.
pub open spec fn is_ident(s: SegValue, n: Seq<char>) -> bool {
    s matches SegValue::Ident { name, params } && name == n && params.len() == 0
}

/// The poll of a future made from a generator, in the form
/// `<core::future::from_generator::GenFuture<X> as core::future::future::Future>::poll`,
/// gives `X::poll`.
pub open spec fn generator_poll(p: PathValue) -> Option<PathValue> {
    if p.segments.len() == 2 && is_ident(p.segments[1], seq!['p', 'o', 'l', 'l']) {
        match p.segments[0] {
            SegValue::Inherent { path: inst, as_trait: Some(fut) } => {
                if inst.segments.len() == 4 && is_ident(inst.segments[0], seq!['c', 'o', 'r', 'e'])
                    && is_ident(inst.segments[1], seq!['f', 'u', 't', 'u', 'r', 'e']) && is_ident(
                    inst.segments[2],
                    seq!['f', 'r', 'o', 'm', '_', 'g', 'e', 'n', 'e', 'r', 'a', 't', 'o', 'r'],
                ) && fut.segments.len() == 4 && is_ident(fut.segments[0], seq!['c', 'o', 'r', 'e'])
                    && is_ident(fut.segments[1], seq!['f', 'u', 't', 'u', 'r', 'e']) && is_ident(
                    fut.segments[2],
                    seq!['f', 'u', 't', 'u', 'r', 'e'],
                ) && is_ident(fut.segments[3], seq!['F', 'u', 't', 'u', 'r', 'e']) {
                    match inst.segments[3] {
                        SegValue::Ident { name, params } => if name == seq![
                            'G',
                            'e',
                            'n',
                            'F',
                            'u',
                            't',
                            'u',
                            'r',
                            'e',
                        ] && params.len() == 1 {
                            Some(
                                PathValue {
                                    segments: params[0].segments.push(
                                        SegValue::Ident {
                                            name: seq!['p', 'o', 'l', 'l'],
                                            params: Seq::empty(),
                                        },
                                    ),
                                },
                            )
                        } else {
                            None
                        },
                        _ => None,
                    }
                } else {
                    None
                }
            },
            _ => None,
        }
    } else {
        None
    }
}

/// A path after the clean-up that precedes shortening: versions taken
/// off, or, if it had none, its trailing hash; and a generator's poll
/// named after the generator.
pub open spec fn cleaned(p: PathValue) -> PathValue {
    let stripped = strip_path(p);
    let unhashed = if !versioned_path(p) && stripped.segments.len() > 2 {
        PathValue { segments: stripped.segments.drop_last() }
    } else {
        stripped
    };
    match generator_poll(unhashed) {
        Some(g) => g,
        None => unhashed,
    }
}

/// Whether a character is an ASCII letter or digit.
pub open spec fn is_alnum(c: char) -> bool {
    ('0' <= c <= '9') || ('a' <= c <= 'z') || ('A' <= c <= 'Z')
}

/// The first segment that must be shown: a qualified type, or a name in
/// capitals; scanned from `k`.
pub open spec fn first_required(v: Seq<SegValue>, k: int) -> Option<int>
    decreases v.len() - k,
{
    if k < 0 || k >= v.len() {
        None
    } else {
        match v[k] {
            SegValue::Inherent { .. } => Some(k),
            SegValue::Ident { name, .. } => if name.len() > 0 && 'A' <= name[0] <= 'Z' {
                Some(k)
            } else {
                first_required(v, k + 1)
            },
        }
    }
}

/// The last name that starts with a letter or digit, among the first `k` segments.
pub open spec fn last_name(v: Seq<SegValue>, k: int) -> Option<int>
    decreases k,
{
    if k <= 0 || k > v.len() {
        None
    } else {
        match v[k - 1] {
            SegValue::Ident { name, .. } => if name.len() > 0 && is_alnum(name[0]) {
                Some(k - 1)
            } else {
                last_name(v, k - 1)
            },
            _ => last_name(v, k - 1),
        }
    }
}

/// The first segment shown at a stage: from the first stage on, leading
/// modules are left out.
pub open spec fn stage_start(stage: int, v: Seq<SegValue>) -> int {
    if stage >= 1 && last_name(v, v.len() as int) is Some {
        match first_required(v, 0) {
            Some(f) => f,
            None => last_name(v, v.len() as int)->0,
        }
    } else {
        0
    }
}

/// A path written at a stage.
pub open spec fn stage_path(stage: int, p: PathValue) -> Seq<char>
    decreases p, 0int,
{
    let start = stage_start(stage, p.segments);
    (if start > 0 { "…"@ } else { Seq::empty() }) + stage_segs(stage, p.segments, start, p.segments.len() as int)
}

/// Segments `from` up to `to`, joined by `::`.
pub open spec fn stage_segs(stage: int, v: Seq<SegValue>, from: int, to: int) -> Seq<char>
    decreases v, to - from,
{
    if from < 0 || to > v.len() || to <= from {
        Seq::empty()
    } else if to == from + 1 {
        stage_seg(stage, v[from])
    } else {
        stage_segs(stage, v, from, to - 1) + "::"@ + stage_seg(stage, v[to - 1])
    }
}

/// Parameters `from` up to `to`, joined by `,`.
pub open spec fn stage_params(stage: int, v: Seq<PathValue>, from: int, to: int) -> Seq<char>
    decreases v, to - from,
{
    if from < 0 || to > v.len() || to <= from {
        Seq::empty()
    } else if to == from + 1 {
        stage_path(stage, v[from])
    } else {
        stage_params(stage, v, from, to - 1) + ","@ + stage_path(stage, v[to - 1])
    }
}

/// The number of a closure named `{closure#N}`.
pub open spec fn closure_number(name: Seq<char>) -> Option<Seq<char>> {
    let prefix = seq!['{', 'c', 'l', 'o', 's', 'u', 'r', 'e', '#'];
    if name.len() >= prefix.len() + 1 && name.take(prefix.len() as int) == prefix && name.last() == '}' {
        Some(name.subrange(prefix.len() as int, name.len() - 1))
    } else {
        None
    }
}

/// A segment written at a stage: closures as `λN`.
pub open spec fn stage_seg(stage: int, s: SegValue) -> Seq<char>
    decreases s, 0int,
{
    match s {
        SegValue::Inherent { path, as_trait } => match as_trait {
            None => "<"@ + stage_path(stage, path) + ">"@,
            Some(t) => "<"@ + stage_path(stage, path) + ","@ + stage_path(stage, t) + ">"@,
        },
        SegValue::Ident { name, params } => (match closure_number(name) {
            Some(n) => "λ"@ + n,
            None => name,
        }) + (if params.len() > 0 {
            "<"@ + stage_params(stage, params, 0, params.len() as int) + ">"@
        } else {
            Seq::empty()
        }),
    }
}

/// How many bytes a character takes in UTF-8.
pub open spec fn utf8_width(c: char) -> int {
    if (c as u32) < 0x80 {
        1
    } else if (c as u32) < 0x800 {
        2
    } else if (c as u32) < 0x10000 {
        3
    } else {
        4
    }
}

/// How many bytes a text takes in UTF-8.
pub open spec fn utf8_len(s: Seq<char>) -> int
    decreases s.len(),
{
    if s.len() == 0 {
        0
    } else {
        utf8_len(s.drop_last()) + utf8_width(s.last())
    }
}

/// A path shortened to `max_length` bytes: the first stage that fits;
/// else the last stage cut to `max_length - 1` characters and `…`, when it
/// has that many.
pub open spec fn compressed(p: PathValue, max_length: int) -> Seq<char> {
    if utf8_len(stage_path(0, p)) <= max_length {
        stage_path(0, p)
    } else if utf8_len(stage_path(1, p)) <= max_length {
        stage_path(1, p)
    } else if utf8_len(stage_path(2, p)) <= max_length {
        stage_path(2, p)
    } else {
        let last = stage_path(2, p);
        if last.len() > max_length - 1 {
            last.take(max_length - 1) + "…"@
        } else {
            last
        }
    }
}

/// What `remangle` gives for a symbol.
pub open spec fn shortened(s: Seq<char>) -> Seq<char> {
    match symbol_path(s) {
        Some(p) => compressed(cleaned(p), 100),
        None => "[parsed failed]::"@ + s,
    }
}

/// Whether the shortening can take place without a name that is empty
/// once its version is taken off: on such a name the shortening has no
/// first character to look at.
pub open spec fn shortenable(s: Seq<char>) -> bool {
    symbol_path(s) matches Some(p) ==> named_path(cleaned(p))
}

/// Taking a character off the end takes its width off the length.
proof fn lemma_utf8_prefix(s: Seq<char>, k: int)
    requires
        0 <= k <= s.len(),
    ensures
        utf8_len(s.take(k)) <= utf8_len(s),
    decreases s.len() - k,
{
    if k < s.len() {
        lemma_utf8_prefix(s, k + 1);
        assert(s.take(k + 1).drop_last() =~= s.take(k));
    } else {
        assert(s.take(k) =~= s);
    }
}

/// Whether `s` takes at most `max` bytes in UTF-8.
fn fits_in_bytes(s: &str, max: usize) -> (r: bool)
    ensures
        r == (utf8_len(s@) <= max),
{
    let n = s.unicode_len();
    let mut total: usize = 0;
    let mut k: usize = 0;
    while k < n
        invariant
            n == s@.len(),
            k <= n,
            total <= max,
            total == utf8_len(s@.take(k as int)),
        decreases n - k,
    {
        let c = s.get_char(k);
        let code = c as u32;
        let w: usize = if code < 0x80 {
            1
        } else if code < 0x800 {
            2
        } else if code < 0x10000 {
            3
        } else {
            4
        };
        assert(s@.take(k + 1).drop_last() =~= s@.take(k as int));
        assert(w == utf8_width(s@[k as int]));
        if w > max - total {
            proof {
                lemma_utf8_prefix(s@, k + 1);
            }
            return false;
        }
        total = total + w;
        k = k + 1;
    }
    assert(s@.take(n as int) =~= s@);
    true
}

/// Whether `name` spells `w`.
fn name_is(name: &str, w: &[char]) -> (r: bool)
    ensures
        r == (name@ == w@),
{
    crate::remangle::lexer::spells(name, w)
}

/// A name without its version.
fn unversioned_name<'a>(name: &'a str) -> (r: &'a str)
    ensures
        r@ == unversioned(name@),
{
    let n = name.unicode_len();
    let mut k: usize = 0;
    while k < n && name.get_char(k) != '['
        invariant
            n == name@.len(),
            k <= n,
            bracket_at(name@, 0) == bracket_at(name@, k as int),
        decreases n - k,
    {
        k = k + 1;
    }
    let r = name.substring_char(0, k);
    assert(r@ =~= name@.take(k as int));
    r
}

impl<'a> Path<'a> {
    /// Reads a whole symbol.
    pub fn parse(name: &'a str) -> (r: Result<Path<'a>, ParseError>)
        ensures
            match symbol_path(name@) {
                None => r is Err,
                Some(m) => r matches Ok(p) && path_value(p) == m,
            },
    {
        let mut parser = Parser { string: name, pos: 0 };
        let result = match parser.parse_path() {
            Ok(p) => p,
            Err(e) => return Err(e),
        };
        match parser.finish() {
            Ok(()) => Ok(result),
            Err(e) => Err(e),
        }
    }
}

/// Takes the versions off every name; tells whether any name had one.
fn strip_versions<'a>(p: Path<'a>) -> (r: (Path<'a>, bool))
    ensures
        path_value(r.0) == strip_path(path_value(p)),
        r.1 == versioned_path(path_value(p)),
    decreases path_value(p), 1int,
{
    let ghost vals = seg_values(p.segments@);
    proof {
        lemma_seg_values(p.segments@);
    }
    let mut segs = p.segments;
    let mut out: Vec<PathSegment<'a>> = Vec::new();
    let mut changed = false;
    let n = segs.len();
    let mut k: usize = 0;
    assert(seg_values(out@) =~= Seq::empty());
    while k < n
        invariant
            n == vals.len(),
            k <= n,
            segs@.len() == n - k,
            forall|j: int| 0 <= j < segs@.len() ==> #[trigger] seg_value(segs@[j]) == vals[k + j],
            vals == path_value(p).segments,
            seg_values(out@) + strip_segs(vals, k as int) == strip_segs(vals, 0),
            (changed || versioned_segs(vals, k as int)) == versioned_segs(vals, 0),
        decreases n - k,
    {
        let ghost before = out@;
        let seg = segs.remove(0);
        assert(seg_value(seg) == vals[k as int]);
        let (stripped, had) = strip_segment(seg);
        out.push(stripped);
        changed = changed || had;
        proof {
            lemma_seg_values_push(before, stripped);
            assert(seg_values(out@) + strip_segs(vals, k + 1) =~= seg_values(before) + strip_segs(
                vals,
                k as int,
            ));
            assert forall|j: int| 0 <= j < segs@.len() implies #[trigger] seg_value(segs@[j]) == vals[k + 1 + j] by {
                assert(seg_value(old_segs_at(segs@, j)) == seg_value(segs@[j]));
            }
        }
        k = k + 1;
    }
    assert(seg_values(out@) =~= strip_segs(vals, 0));
    (Path { segments: out }, changed)
}

spec fn old_segs_at<'a>(v: Seq<PathSegment<'a>>, j: int) -> PathSegment<'a> {
    v[j]
}

/// Takes the versions off every name of a run of paths.
fn strip_params<'a>(params: Vec<Path<'a>>) -> (r: (Vec<Path<'a>>, bool))
    ensures
        path_values(r.0@) == strip_paths(path_values(params@), 0),
        r.1 == versioned_paths(path_values(params@), 0),
    decreases path_values(params@), 1int,
{
    let ghost vals = path_values(params@);
    proof {
        lemma_path_values(params@);
    }
    let mut ps = params;
    let mut out: Vec<Path<'a>> = Vec::new();
    let mut changed = false;
    let n = ps.len();
    let mut k: usize = 0;
    assert(path_values(out@) =~= Seq::empty());
    while k < n
        invariant
            n == vals.len(),
            k <= n,
            ps@.len() == n - k,
            forall|j: int| 0 <= j < ps@.len() ==> #[trigger] path_value(ps@[j]) == vals[k + j],
            vals == path_values(params@),
            path_values(out@) + strip_paths(vals, k as int) == strip_paths(vals, 0),
            (changed || versioned_paths(vals, k as int)) == versioned_paths(vals, 0),
        decreases n - k,
    {
        let ghost before = out@;
        let q = ps.remove(0);
        assert(path_value(q) == vals[k as int]);
        let (stripped, had) = strip_versions(q);
        out.push(stripped);
        changed = changed || had;
        proof {
            lemma_path_values_push(before, stripped);
            assert(path_values(out@) + strip_paths(vals, k + 1) =~= path_values(before) + strip_paths(
                vals,
                k as int,
            ));
        }
        k = k + 1;
    }
    assert(path_values(out@) =~= strip_paths(vals, 0));
    (out, changed)
}

/// Takes the versions off every name of a segment.
fn strip_segment<'a>(seg: PathSegment<'a>) -> (r: (PathSegment<'a>, bool))
    ensures
        seg_value(r.0) == strip_seg(seg_value(seg)),
        r.1 == versioned_seg(seg_value(seg)),
    decreases seg_value(seg), 1int,
{
    let ghost sv = seg_value(seg);
    match seg {
        PathSegment::Inherent { path, as_trait } => {
            let ghost pv = path_value(path);
            let (path, had_path) = strip_versions(path);
            match as_trait {
                Some(t0) => {
                    let ghost tv = path_value(t0);
                    assert(sv == SegValue::Inherent { path: pv, as_trait: Some(tv) });
                    let (t, had_trait) = strip_versions(t0);
                    assert(versioned_seg(sv) == (versioned_path(pv) || versioned_path(tv)));
                    (PathSegment::Inherent { path, as_trait: Some(t) }, had_path || had_trait)
                },
                None => {
                    assert(sv == SegValue::Inherent { path: pv, as_trait: None });
                    assert(versioned_seg(sv) == versioned_path(pv));
                    (PathSegment::Inherent { path, as_trait: None }, had_path)
                },
            }
        },
        PathSegment::Ident { name, params } => {
            let ghost qv = path_values(params@);
            assert(sv == SegValue::Ident { name: name@, params: qv });
            let short = unversioned_name(name);
            let (params, had_params) = strip_params(params);
            let n = name.unicode_len();
            proof {
                lemma_bracket_at(name@, 0);
            }
            let had_name = short.unicode_len() < n;
            assert(had_name == (bracket_at(name@, 0) < name@.len()));
            assert(versioned_seg(sv) == (bracket_at(name@, 0) < name@.len() || versioned_paths(qv, 0)));
            (PathSegment::Ident { name: short, params }, had_name || had_params)
        },
    }
}

proof fn lemma_bracket_at(n: Seq<char>, k: int)
    requires
        0 <= k <= n.len(),
    ensures
        k <= bracket_at(n, k) <= n.len(),
    decreases n.len() - k,
{
    if k < n.len() && n[k] != '[' {
        lemma_bracket_at(n, k + 1);
    }
}

/// Whether a segment is the plain name `w`.
fn seg_is(seg: &PathSegment, w: &[char]) -> (r: bool)
    ensures
        r == is_ident(seg_value(*seg), w@),
{
    match seg {
        PathSegment::Ident { name, params } => {
            proof {
                lemma_path_values(params@);
            }
            params.len() == 0 && name_is(name, w)
        },
        PathSegment::Inherent { .. } => false,
    }
}

/// Whether the path is the poll of a future made from a generator.
fn generator_shape(p: &Path) -> (r: bool)
    ensures
        r == generator_poll(path_value(*p)) is Some,
{
    let core: [char; 4] = ['c', 'o', 'r', 'e'];
    let future: [char; 6] = ['f', 'u', 't', 'u', 'r', 'e'];
    let from_generator: [char; 14] = ['f', 'r', 'o', 'm', '_', 'g', 'e', 'n', 'e', 'r', 'a', 't', 'o', 'r'];
    let future_trait: [char; 6] = ['F', 'u', 't', 'u', 'r', 'e'];
    let gen_future: [char; 9] = ['G', 'e', 'n', 'F', 'u', 't', 'u', 'r', 'e'];
    let poll: [char; 4] = ['p', 'o', 'l', 'l'];
    assert(core@ =~= seq!['c', 'o', 'r', 'e']);
    assert(future@ =~= seq!['f', 'u', 't', 'u', 'r', 'e']);
    assert(from_generator@ =~= seq!['f', 'r', 'o', 'm', '_', 'g', 'e', 'n', 'e', 'r', 'a', 't', 'o', 'r']);
    assert(future_trait@ =~= seq!['F', 'u', 't', 'u', 'r', 'e']);
    assert(gen_future@ =~= seq!['G', 'e', 'n', 'F', 'u', 't', 'u', 'r', 'e']);
    assert(poll@ =~= seq!['p', 'o', 'l', 'l']);
    proof {
        lemma_seg_values(p.segments@);
    }
    if p.segments.len() != 2 || !seg_is(&p.segments[1], &poll) {
        return false;
    }
    match &p.segments[0] {
        PathSegment::Inherent { path: inst, as_trait: Some(fut) } => {
            proof {
                lemma_seg_values(inst.segments@);
                lemma_seg_values(fut.segments@);
                assert(path_opt_value(Some(*fut)) == Some(path_value(*fut)));
            }
            if inst.segments.len() != 4 || fut.segments.len() != 4 {
                return false;
            }
            if !(seg_is(&inst.segments[0], &core) && seg_is(&inst.segments[1], &future) && seg_is(
                &inst.segments[2],
                &from_generator,
            ) && seg_is(&fut.segments[0], &core) && seg_is(&fut.segments[1], &future) && seg_is(
                &fut.segments[2],
                &future,
            ) && seg_is(&fut.segments[3], &future_trait)) {
                return false;
            }
            match &inst.segments[3] {
                PathSegment::Ident { name, params } => {
                    proof {
                        lemma_path_values(params@);
                    }
                    name_is(name, &gen_future) && params.len() == 1
                },
                PathSegment::Inherent { .. } => false,
            }
        },
        _ => false,
    }
}

/// The poll of a future made from a generator, named after the generator.
fn translate_generator<'a>(p: Path<'a>) -> (r: Path<'a>)
    ensures
        path_value(r) == match generator_poll(path_value(p)) {
            Some(g) => g,
            None => path_value(p),
        },
{
    if !generator_shape(&p) {
        return p;
    }
    let ghost pv = path_value(p);
    proof {
        lemma_seg_values(p.segments@);
    }
    let mut segs = p.segments;
    let first = segs.remove(0);
    match first {
        PathSegment::Inherent { path: inst, as_trait: _ } => {
            proof {
                lemma_seg_values(inst.segments@);
            }
            let mut isegs = inst.segments;
            let generator = isegs.remove(3);
            match generator {
                PathSegment::Ident { name: _, params } => {
                    proof {
                        lemma_path_values(params@);
                    }
                    let mut params = params;
                    let inner = params.remove(0);
                    let mut rs = inner.segments;
                    let ghost before = rs@;
                    let no_params: Vec<Path<'a>> = Vec::new();
                    let poll = PathSegment::Ident { name: "poll", params: no_params };
                    proof {
                        reveal_strlit("poll");
                        assert(path_values(no_params@) =~= Seq::empty());
                        assert("poll"@ =~= seq!['p', 'o', 'l', 'l']);
                    }
                    rs.push(poll);
                    proof {
                        lemma_seg_values_push(before, poll);
                    }
                    Path { segments: rs }
                },
                PathSegment::Inherent { .. } => {
                    assert(false);
                    Path { segments: Vec::new() }
                },
            }
        },
        PathSegment::Ident { .. } => {
            assert(false);
            Path { segments: Vec::new() }
        },
    }
}

/// Leaves out the last segment, a hash, of a path of more than two segments.
fn remove_hash<'a>(p: Path<'a>) -> (r: Path<'a>)
    ensures
        path_value(r) == (if path_value(p).segments.len() > 2 {
            PathValue { segments: path_value(p).segments.drop_last() }
        } else {
            path_value(p)
        }),
{
    proof {
        lemma_seg_values(p.segments@);
    }
    let mut segs = p.segments;
    if segs.len() > 2 {
        let ghost before = segs@;
        segs.pop();
        proof {
            lemma_seg_values(segs@);
            assert(seg_values(segs@) =~= seg_values(before).drop_last());
        }
    }
    Path { segments: segs }
}

proof fn lemma_named_segs(v: Seq<SegValue>, i: int)
    requires
        0 <= i,
        named_segs(v, i),
    ensures
        forall|j: int| i <= j < v.len() ==> named_seg(#[trigger] v[j]),
    decreases v.len() - i,
{
    if i < v.len() {
        lemma_named_segs(v, i + 1);
    }
}

proof fn lemma_named_paths(v: Seq<PathValue>, i: int)
    requires
        0 <= i,
        named_paths(v, i),
    ensures
        forall|j: int| i <= j < v.len() ==> named_path(#[trigger] v[j]),
    decreases v.len() - i,
{
    if i < v.len() {
        lemma_named_paths(v, i + 1);
    }
}

/// The number of a closure named `{closure#N}`.
fn closure_number_of<'a>(name: &'a str) -> (r: Option<&'a str>)
    ensures
        match closure_number(name@) {
            Some(n) => r matches Some(x) && x@ == n,
            None => r is None,
        },
{
    let prefix: [char; 9] = ['{', 'c', 'l', 'o', 's', 'u', 'r', 'e', '#'];
    assert(prefix@ =~= seq!['{', 'c', 'l', 'o', 's', 'u', 'r', 'e', '#']);
    let n = name.unicode_len();
    if n < 10 || !has_chars_at(name, 0, &prefix) || name.get_char(n - 1) != '}' {
        proof {
            if n >= 10 {
                assert(name@.take(9) =~= name@.subrange(0, 9));
            }
        }
        return None;
    }
    assert(name@.take(9) =~= name@.subrange(0, 9));
    Some(name.substring_char(9, n - 1))
}

/// The first segment shown at a stage.
fn stage_start_of(stage: usize, p: &Path) -> (r: usize)
    requires
        named_path(path_value(*p)),
    ensures
        r == stage_start(stage as int, path_value(*p).segments),
{
    let ghost v = path_value(*p).segments;
    proof {
        lemma_seg_values(p.segments@);
        lemma_named_segs(v, 0);
    }
    let n = p.segments.len();
    let mut first: Option<usize> = None;
    let mut last: Option<usize> = None;
    let mut k: usize = 0;
    while k < n
        invariant
            n == v.len(),
            n == p.segments@.len(),
            v == path_value(*p).segments,
            forall|j: int| 0 <= j < n ==> #[trigger] v[j] == seg_value(p.segments@[j]),
            forall|j: int| 0 <= j < n ==> named_seg(#[trigger] v[j]),
            k <= n,
            first_required(v, 0) == match first {
                Some(f) => Some(f as int),
                None => first_required(v, k as int),
            },
            last_name(v, k as int) == match last {
                Some(l) => Some(l as int),
                None => None::<int>,
            },
        decreases n - k,
    {
        assert(v[k as int] == seg_value(p.segments@[k as int]));
        assert(named_seg(v[k as int]));
        match &p.segments[k] {
            PathSegment::Inherent { .. } => {
                if first.is_none() {
                    first = Some(k);
                }
            },
            PathSegment::Ident { name, .. } => {
                let c = name.get_char(0);
                if 'A' <= c && c <= 'Z' && first.is_none() {
                    first = Some(k);
                }
                if ('0' <= c && c <= '9') || ('a' <= c && c <= 'z') || ('A' <= c && c <= 'Z') {
                    last = Some(k);
                }
            },
        }
        k = k + 1;
    }
    if stage >= 1 {
        if let Some(l) = last {
            if let Some(f) = first {
                return f;
            } else {
                return l;
            }
        }
    }
    0
}

/// Writes a path at a stage.
fn write_stage_path(out: &mut String, stage: usize, p: &Path)
    requires
        named_path(path_value(*p)),
    ensures
        final(out)@ == old(out)@ + stage_path(stage as int, path_value(*p)),
    decreases path_value(*p), 2int,
{
    let ghost v = path_value(*p).segments;
    let ghost before = out@;
    proof {
        lemma_seg_values(p.segments@);
        lemma_named_segs(v, 0);
    }
    let start = stage_start_of(stage, p);
    if start > 0 {
        append_str(out, "…");
    }
    let ghost prefix = out@;
    let n = p.segments.len();
    let mut k: usize = start;
    while k < n
        invariant
            n == v.len(),
            n == p.segments@.len(),
            v == path_value(*p).segments,
            forall|j: int| 0 <= j < n ==> #[trigger] v[j] == seg_value(p.segments@[j]),
            forall|j: int| 0 <= j < n ==> named_seg(#[trigger] v[j]),
            start <= k,
            k <= n || k == start,
            out@ == prefix + stage_segs(stage as int, v, start as int, k as int),
        decreases n - k,
    {
        if k > start {
            append_str(out, "::");
        }
        assert(v[k as int] == seg_value(p.segments@[k as int]));
        assert(named_seg(v[k as int]));
        write_stage_seg(out, stage, &p.segments[k]);
        assert(0 <= start && k + 1 <= v.len() && start < k + 1);
        assert(stage_segs(stage as int, v, start as int, k + 1) == (if k == start {
            stage_seg(stage as int, v[k as int])
        } else {
            stage_segs(stage as int, v, start as int, k as int) + "::"@ + stage_seg(stage as int, v[k as int])
        }));
        k = k + 1;
    }
    assert(out@ =~= before + stage_path(stage as int, path_value(*p)));
}

/// Writes generic parameters at a stage, joined by `,`.
fn write_stage_params(out: &mut String, stage: usize, params: &Vec<Path>)
    requires
        named_paths(path_values(params@), 0),
    ensures
        final(out)@ == old(out)@ + stage_params(stage as int, path_values(params@), 0, params@.len() as int),
    decreases path_values(params@), 1int,
{
    let ghost v = path_values(params@);
    proof {
        lemma_path_values(params@);
        lemma_named_paths(v, 0);
    }
    let ghost prefix = out@;
    let n = params.len();
    let mut k: usize = 0;
    while k < n
        invariant
            n == v.len(),
            n == params@.len(),
            v == path_values(params@),
            forall|j: int| 0 <= j < n ==> #[trigger] v[j] == path_value(params@[j]),
            forall|j: int| 0 <= j < n ==> named_path(#[trigger] v[j]),
            k <= n,
            out@ == prefix + stage_params(stage as int, v, 0, k as int),
        decreases n - k,
    {
        if k > 0 {
            append_str(out, ",");
        }
        assert(v[k as int] == path_value(params@[k as int]));
        assert(named_path(v[k as int]));
        write_stage_path(out, stage, &params[k]);
        k = k + 1;
    }
}

/// Writes a segment at a stage.
fn write_stage_seg(out: &mut String, stage: usize, seg: &PathSegment)
    requires
        named_seg(seg_value(*seg)),
    ensures
        final(out)@ == old(out)@ + stage_seg(stage as int, seg_value(*seg)),
    decreases seg_value(*seg), 2int,
{
    let ghost before = out@;
    let ghost sv = seg_value(*seg);
    match seg {
        PathSegment::Inherent { path, as_trait } => {
            append_str(out, "<");
            write_stage_path(out, stage, path);
            match as_trait {
                Some(t) => {
                    assert(path_opt_value(Some(*t)) == Some(path_value(*t)));
                    append_str(out, ",");
                    write_stage_path(out, stage, t);
                },
                None => {},
            }
            append_str(out, ">");
            assert(out@ =~= before + stage_seg(stage as int, sv));
        },
        PathSegment::Ident { name, params } => {
            proof {
                lemma_path_values(params@);
            }
            match closure_number_of(name) {
                Some(n) => {
                    append_str(out, "λ");
                    append_str(out, n);
                },
                None => append_str(out, name),
            }
            if params.len() > 0 {
                append_str(out, "<");
                write_stage_params(out, stage, params);
                append_str(out, ">");
            }
            assert(out@ =~= before + stage_seg(stage as int, sv));
        },
    }
}

/// A path at a stage, as text.
fn stage_text(stage: usize, p: &Path) -> (r: String)
    requires
        named_path(path_value(*p)),
    ensures
        r@ == stage_path(stage as int, path_value(*p)),
{
    let mut out = String::new();
    write_stage_path(&mut out, stage, p);
    assert(out@ =~= Seq::<char>::empty() + stage_path(stage as int, path_value(*p)));
    out
}

/// The path shortened to `max_length` bytes, as `compressed` says.
fn compress(p: &Path, max_length: usize) -> (r: String)
    requires
        max_length >= 1,
        named_path(path_value(*p)),
    ensures
        r@ == compressed(path_value(*p), max_length as int),
{
    let s0 = stage_text(0, p);
    if fits_in_bytes(s0.as_str(), max_length) {
        return s0;
    }
    let s1 = stage_text(1, p);
    if fits_in_bytes(s1.as_str(), max_length) {
        return s1;
    }
    let s2 = stage_text(2, p);
    if fits_in_bytes(s2.as_str(), max_length) {
        return s2;
    }
    let text = s2.as_str();
    let n = text.unicode_len();
    if n > max_length - 1 {
        let cut = text.substring_char(0, max_length - 1);
        let mut result = cut.to_owned();
        append_str(&mut result, "…");
        assert(cut@ =~= s2@.take(max_length - 1));
        result
    } else {
        s2
    }
}

/// Shortens a demangled Rust symbol for display: versions (or else the
/// trailing hash) are left out, a generator's poll is named after the
/// generator, leading modules are left out when the whole does not fit in
/// a hundred bytes, and what still does not fit is cut. A symbol that
/// cannot be read comes back whole behind `[parsed failed]::`.
pub fn remangle(s: &str) -> (r: String)
    requires
        shortenable(s@),
    ensures
        r@ == shortened(s@),
{
    let parsed = match Path::parse(s) {
        Ok(p) => p,
        Err(_) => {
            let mut out = "[parsed failed]::".to_owned();
            append_str(&mut out, s);
            return out;
        },
    };
    let (stripped, had_version) = strip_versions(parsed);
    let unhashed = if !had_version {
        remove_hash(stripped)
    } else {
        stripped
    };
    let translated = translate_generator(unhashed);
    compress(&translated, 100)
}

proof fn lemma_utf8_at_least_chars(s: Seq<char>)
    ensures
        utf8_len(s) >= s.len(),
    decreases s.len(),
{
    if s.len() > 0 {
        lemma_utf8_at_least_chars(s.drop_last());
    }
}

/// A shortened path never has more than `max_length` characters.
pub proof fn compressed_fits(p: PathValue, max_length: int)
    requires
        max_length >= 1,
    ensures
        compressed(p, max_length).len() <= max_length,
{
    lemma_utf8_at_least_chars(stage_path(0, p));
    lemma_utf8_at_least_chars(stage_path(1, p));
    lemma_utf8_at_least_chars(stage_path(2, p));
    reveal_strlit("…");
}

/// Every generic parameter is kept, in order, with `,` between: the
/// parameters `from` up to `to` are those up to `mid` and those from `mid`
/// on, joined by a `,`; one parameter alone is its own text.
pub proof fn params_join(stage: int, v: Seq<PathValue>, from: int, mid: int, to: int)
    requires
        0 <= from < mid < to <= v.len(),
    ensures
        stage_params(stage, v, from, to) == stage_params(stage, v, from, mid) + ","@ + stage_params(stage, v, mid, to),
        stage_params(stage, v, from, from + 1) == stage_path(stage, v[from]),
    decreases to - mid,
{
    if to > mid + 1 {
        params_join(stage, v, from, mid, to - 1);
        assert(stage_params(stage, v, from, to) =~= stage_params(stage, v, from, mid) + ","@ + stage_params(
            stage,
            v,
            mid,
            to,
        ));
    }
}

/// Every segment that is kept is shown in order with `::` between: those
/// `from` up to `to` are those up to `mid` and those from `mid` on, joined
/// by `::`.
pub proof fn segs_joined(stage: int, v: Seq<SegValue>, from: int, mid: int, to: int)
    requires
        0 <= from < mid < to <= v.len(),
    ensures
        stage_segs(stage, v, from, to) == stage_segs(stage, v, from, mid) + "::"@ + stage_segs(stage, v, mid, to),
    decreases to - mid,
{
    reveal_strlit("::");
    if to > mid + 1 {
        segs_joined(stage, v, from, mid, to - 1);
        assert(stage_segs(stage, v, from, to) =~= stage_segs(stage, v, from, mid) + "::"@ + stage_segs(stage, v, mid, to));
    }
}

} // verus!
