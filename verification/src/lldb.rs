use vstd::prelude::*;
use crate::text::{append_str, split_fields, split_str, str_views};

verus! {

/// A line of lldb's backtrace output, in the formats the capture asks for.
pub enum LldbLine<'a> {
    /// `THREAD;index;name;queue;`: a thread starts.
    Thread { index: &'a str, name: &'a str, queue: &'a str },
    /// `FRAME;index;pc;`: a frame at code address `pc`.
    Frame { pc: usize },
}

/// Whether `c` has Unicode's White_Space property, as `char::is_whitespace` tells.
pub open spec fn is_whitespace(c: char) -> bool {
    let x = c as int;
    ||| 9 <= x <= 13
    ||| x == 32
    ||| x == 0x85
    ||| x == 0xA0
    ||| x == 0x1680
    ||| 0x2000 <= x <= 0x200A
    ||| x == 0x2028
    ||| x == 0x2029
    ||| x == 0x202F
    ||| x == 0x205F
    ||| x == 0x3000
}

/// The characters trimmed off both ends of a line: white space and `*`.
pub open spec fn is_trimmed(c: char) -> bool {
    is_whitespace(c) || c == '*'
}

/// `s` without the trimmed characters at its start.
pub open spec fn trim_front(s: Seq<char>) -> Seq<char>
    decreases s.len(),
{
    if s.len() > 0 && is_trimmed(s[0]) {
        trim_front(s.drop_first())
    } else {
        s
    }
}

/// `s` without the trimmed characters at its end.
pub open spec fn trim_back(s: Seq<char>) -> Seq<char>
    decreases s.len(),
{
    if s.len() > 0 && is_trimmed(s.last()) {
        trim_back(s.drop_last())
    } else {
        s
    }
}

/// `s` with every leading `0x` taken off, as `trim_start_matches("0x")` does.
pub open spec fn strip_0x(s: Seq<char>) -> Seq<char>
    decreases s.len(),
{
    if s.len() >= 2 && s[0] == '0' && s[1] == 'x' {
        strip_0x(s.skip(2))
    } else {
        s
    }
}

/// The value of a hexadecimal digit, if `c` is one.
pub open spec fn hex_digit(c: char) -> Option<int> {
    if '0' <= c <= '9' {
        Some(c as int - '0' as int)
    } else if 'a' <= c <= 'f' {
        Some(c as int - 'a' as int + 10)
    } else if 'A' <= c <= 'F' {
        Some(c as int - 'A' as int + 10)
    } else {
        None
    }
}

/// The value of the hexadecimal digits `d`, if all of them are digits.
pub open spec fn hex_value(d: Seq<char>) -> Option<int>
    decreases d.len(),
{
    if d.len() == 0 {
        Some(0)
    } else {
        match (hex_value(d.drop_last()), hex_digit(d.last())) {
            (Some(v), Some(x)) => Some(v * 16 + x),
            _ => None,
        }
    }
}

/// What `usize::from_str_radix(s, 16)` reads: an optional `+`, then at
/// least one hexadecimal digit, to a value that fits in `usize`.
pub open spec fn parse_hex(s: Seq<char>) -> Option<usize> {
    let d = if s.len() > 0 && s[0] == '+' {
        s.drop_first()
    } else {
        s
    };
    if d.len() == 0 {
        None
    } else {
        match hex_value(d) {
            Some(v) => if v <= usize::MAX {
                Some(v as usize)
            } else {
                None
            },
            None => None,
        }
    }
}

/// What a line of lldb's output says: the line is trimmed of white space
/// and `*` at both ends and cut at `;`. A `THREAD` line needs three more
/// fields; a `FRAME` line two, the second a hexadecimal address. Any other
/// line, or one that lacks a field, says nothing that is read.
pub open spec fn line_fields(line: Seq<char>) -> Seq<Seq<char>> {
    split_fields(trim_back(trim_front(line)), ';')
}

pub open spec fn is_thread_line(line: Seq<char>) -> bool {
    line_fields(line)[0] == "THREAD"@ && line_fields(line).len() >= 4
}

pub open spec fn frame_pc(line: Seq<char>) -> Option<usize> {
    if line_fields(line)[0] == "FRAME"@ && line_fields(line).len() >= 3 {
        parse_hex(strip_0x(line_fields(line)[2]))
    } else {
        None
    }
}

/// The text that starts a thread in the translated backtrace.
pub open spec fn thread_text(index: Seq<char>, name: Seq<char>, queue: Seq<char>) -> Seq<char> {
    "\n"@ + "thread index="@ + index + " name="@ + name + " queue="@ + queue + "\n"@
}

fn trimmed_char(c: char) -> (r: bool)
    ensures
        r == is_trimmed(c),
{
    let x = c as u32;
    (9 <= x && x <= 13) || x == 32 || x == 0x85 || x == 0xA0 || x == 0x1680 || (0x2000 <= x && x <= 0x200A)
        || x == 0x2028 || x == 0x2029 || x == 0x202F || x == 0x205F || x == 0x3000 || c == '*'
}

/// `s` trimmed of white space and `*` at both ends.
pub fn trim_line<'a>(s: &'a str) -> (r: &'a str)
    ensures
        r@ == trim_back(trim_front(s@)),
{
    let n = s.unicode_len();
    let mut start: usize = 0;
    assert(s@.skip(0) =~= s@);
    while start < n && trimmed_char(s.get_char(start))
        invariant
            n == s@.len(),
            start <= n,
            trim_front(s@) == trim_front(s@.skip(start as int)),
        decreases n - start,
    {
        assert(s@.skip(start as int).drop_first() =~= s@.skip(start + 1));
        start = start + 1;
    }
    assert(trim_front(s@) == s@.skip(start as int)) by {
        assert(s@.skip(start as int).len() > 0 ==> s@.skip(start as int)[0] == s@[start as int]);
    }
    let mut end: usize = n;
    while end > start && trimmed_char(s.get_char(end - 1))
        invariant
            n == s@.len(),
            start <= end <= n,
            trim_back(s@.skip(start as int)) == trim_back(s@.subrange(start as int, end as int)),
        decreases end,
    {
        assert(s@.subrange(start as int, end as int).drop_last() =~= s@.subrange(start as int, end - 1));
        end = end - 1;
    }
    assert(s@.skip(start as int) =~= s@.subrange(start as int, n as int));
    assert(trim_back(s@.subrange(start as int, end as int)) == s@.subrange(start as int, end as int)) by {
        let t = s@.subrange(start as int, end as int);
        assert(t.len() > 0 ==> t.last() == s@[end - 1]);
    }
    s.substring_char(start, end)
}

/// `s` with every leading `0x` taken off.
fn strip_hex_prefix<'a>(s: &'a str) -> (r: &'a str)
    ensures
        r@ == strip_0x(s@),
{
    let n = s.unicode_len();
    let mut start: usize = 0;
    assert(s@.skip(0) =~= s@);
    while n - start >= 2 && s.get_char(start) == '0' && s.get_char(start + 1) == 'x'
        invariant
            n == s@.len(),
            start <= n,
            strip_0x(s@) == strip_0x(s@.skip(start as int)),
        decreases n - start,
    {
        assert(s@.skip(start as int).skip(2) =~= s@.skip(start + 2));
        start = start + 2;
    }
    let ghost t = s@.skip(start as int);
    assert(t.len() >= 2 ==> t[0] == s@[start as int] && t[1] == s@[start + 1]);
    s.substring_char(start, n)
}

fn hex_digit_of(c: char) -> (r: Option<u32>)
    ensures
        match hex_digit(c) {
            Some(v) => r == Some(v as u32),
            None => r is None,
        },
{
    if '0' <= c && c <= '9' {
        Some(c as u32 - 48)
    } else if 'a' <= c && c <= 'f' {
        Some(c as u32 - 97 + 10)
    } else if 'A' <= c && c <= 'F' {
        Some(c as u32 - 65 + 10)
    } else {
        None
    }
}

proof fn lemma_hex_nonneg(d: Seq<char>)
    ensures
        hex_value(d) is Some ==> hex_value(d)->0 >= 0,
    decreases d.len(),
{
    if d.len() > 0 {
        lemma_hex_nonneg(d.drop_last());
    }
}

proof fn lemma_hex_grows(d: Seq<char>, k: int)
    requires
        0 <= k <= d.len(),
        hex_value(d) is Some,
    ensures
        hex_value(d.take(k)) is Some,
        hex_value(d.take(k))->0 <= hex_value(d)->0,
    decreases d.len() - k,
{
    if k < d.len() {
        assert(d.take(k + 1).drop_last() =~= d.take(k));
        lemma_hex_grows(d, k + 1);
        lemma_hex_nonneg(d.take(k));
    } else {
        assert(d.take(k) =~= d);
    }
}

/// The address `usize::from_str_radix(s, 16)` reads, if it reads one.
pub fn read_hex(s: &str) -> (r: Option<usize>)
    ensures
        r == parse_hex(s@),
{
    let n = s.unicode_len();
    let mut k: usize = 0;
    if n > 0 && s.get_char(0) == '+' {
        k = 1;
    }
    let ghost d = if s@.len() > 0 && s@[0] == '+' {
        s@.drop_first()
    } else {
        s@
    };
    assert(d =~= s@.skip(k as int));
    if k == n {
        return None;
    }
    let mut value: u128 = 0;
    let mut i: usize = k;
    assert(d.take(0) =~= Seq::<char>::empty());
    while i < n
        invariant
            n == s@.len(),
            k <= i <= n,
            d == s@.skip(k as int),
            d == (if s@.len() > 0 && s@[0] == '+' { s@.drop_first() } else { s@ }),
            d.len() > 0,
            hex_value(d.take(i - k)) == Some(value as int),
            value <= usize::MAX,
        decreases n - i,
    {
        let c = s.get_char(i);
        assert(d.take(i - k + 1).drop_last() =~= d.take(i - k));
        assert(d.take(i - k + 1).last() == c);
        match hex_digit_of(c) {
            None => {
                assert(hex_value(d.take(i - k + 1)) is None);
                proof {
                    if hex_value(d) is Some {
                        lemma_hex_grows(d, i - k + 1);
                    }
                }
                assert(hex_value(d) is None);
                return None;
            },
            Some(x) => {
                let next = value * 16 + x as u128;
                if next > usize::MAX as u128 {
                    proof {
                        if hex_value(d) is Some {
                            lemma_hex_grows(d, i - k + 1);
                        }
                    }
                    return None;
                }
                value = next;
            },
        }
        i = i + 1;
    }
    assert(d.take(n - k) =~= d);
    Some(value as usize)
}

/// Reads a line of lldb's output; `None` where the line says nothing that
/// is read: neither a complete `THREAD` line nor a `FRAME` line with an
/// address.
pub fn read_lldb_line<'a>(line: &'a str) -> (r: Option<LldbLine<'a>>)
    ensures
        match r {
            Some(LldbLine::Thread { index, name, queue }) => is_thread_line(line@) && index@ == line_fields(line@)[1]
                && name@ == line_fields(line@)[2] && queue@ == line_fields(line@)[3],
            Some(LldbLine::Frame { pc }) => !is_thread_line(line@) && frame_pc(line@) == Some(pc),
            None => !is_thread_line(line@) && frame_pc(line@) is None,
        },
{
    proof {
        reveal_strlit("THREAD");
        reveal_strlit("FRAME");
    }
    let trimmed = trim_line(line);
    let fields = split_str(trimmed, ';');
    let ghost fs = str_views(fields@);
    assert(fs == line_fields(line@));
    proof {
        crate::text::lemma_split_fields_nonempty(trimmed@, ';');
    }
    assert(fs[0] == fields@[0]@);
    let typ = fields[0];
    let thread = ['T', 'H', 'R', 'E', 'A', 'D'];
    let frame = ['F', 'R', 'A', 'M', 'E'];
    assert(thread@ =~= "THREAD"@);
    assert(frame@ =~= "FRAME"@);
    if crate::remangle::lexer::spells(typ, &thread) {
        if fields.len() >= 4 {
            assert(fs[1] == fields@[1]@ && fs[2] == fields@[2]@ && fs[3] == fields@[3]@);
            return Some(LldbLine::Thread { index: fields[1], name: fields[2], queue: fields[3] });
        }
        return None;
    }
    assert(typ@ != "THREAD"@);
    if crate::remangle::lexer::spells(typ, &frame) {
        if fields.len() >= 3 {
            assert(fs[2] == fields@[2]@);
            let pc = read_hex(strip_hex_prefix(fields[2]));
            return match pc {
                Some(pc) => Some(LldbLine::Frame { pc }),
                None => None,
            };
        }
        return None;
    }
    assert(typ@ != "FRAME"@);
    None
}

/// The text that starts thread `index` in the translated backtrace.
pub fn thread_header(index: &str, name: &str, queue: &str) -> (r: String)
    ensures
        r@ == thread_text(index@, name@, queue@),
{
    let mut out = String::new();
    append_str(&mut out, "\n");
    append_str(&mut out, "thread index=");
    append_str(&mut out, index);
    append_str(&mut out, " name=");
    append_str(&mut out, name);
    append_str(&mut out, " queue=");
    append_str(&mut out, queue);
    append_str(&mut out, "\n");
    assert(out@ =~= thread_text(index@, name@, queue@));
    out
}

} // verus!
