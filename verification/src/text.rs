use vstd::prelude::*;
use vstd::string::StringExecFns;

verus! {

/// The fields of `s` between occurrences of `sep`, as `str::split` yields
/// them: one more field than there are separators, empty ones included.
pub open spec fn split_fields(s: Seq<char>, sep: char) -> Seq<Seq<char>>
    decreases s.len(),
{
    if s.len() == 0 {
        seq![Seq::empty()]
    } else {
        let r = split_fields(s.drop_last(), sep);
        if s.last() == sep {
            r.push(Seq::empty())
        } else {
            r.update(r.len() - 1, r.last().push(s.last()))
        }
    }
}

/// The character views of a run of string slices.
pub open spec fn str_views<'a>(v: Seq<&'a str>) -> Seq<Seq<char>> {
    v.map_values(|s: &'a str| s@)
}

pub proof fn lemma_split_fields_nonempty(s: Seq<char>, sep: char)
    ensures
        split_fields(s, sep).len() >= 1,
    decreases s.len(),
{
    if s.len() > 0 {
        lemma_split_fields_nonempty(s.drop_last(), sep);
    }
}

/// Splits `s` at every `sep`.
pub fn split_str<'a>(s: &'a str, sep: char) -> (r: Vec<&'a str>)
    ensures
        str_views(r@) == split_fields(s@, sep),
{
    let n = s.unicode_len();
    let mut fields: Vec<&'a str> = Vec::new();
    let mut start: usize = 0;
    let mut i: usize = 0;
    assert(s@.take(0) =~= Seq::<char>::empty());
    assert(str_views(fields@).push(s@.subrange(0, 0)) =~= split_fields(s@.take(0), sep));
    while i < n
        invariant
            n == s@.len(),
            start <= i <= n,
            str_views(fields@).push(s@.subrange(start as int, i as int)) == split_fields(
                s@.take(i as int),
                sep,
            ),
        decreases n - i,
    {
        let c = s.get_char(i);
        let ghost prev = str_views(fields@);
        let ghost cur = s@.subrange(start as int, i as int);
        proof {
            lemma_split_fields_nonempty(s@.take(i as int), sep);
            assert(s@.take(i + 1).drop_last() =~= s@.take(i as int));
            assert(s@.take(i + 1).last() == c);
        }
        if c == sep {
            let field = s.substring_char(start, i);
            fields.push(field);
            start = i + 1;
            assert(str_views(fields@) =~= prev.push(cur));
            assert(s@.subrange(start as int, i + 1) =~= Seq::<char>::empty());
        } else {
            assert(s@.subrange(start as int, i + 1) =~= cur.push(c));
            assert(prev.push(cur.push(c)) =~= prev.push(cur).update(prev.len() as int, cur.push(c)));
        }
        i = i + 1;
    }
    let last = s.substring_char(start, n);
    let ghost prev = str_views(fields@);
    fields.push(last);
    assert(str_views(fields@) =~= prev.push(last@));
    assert(s@.take(n as int) =~= s@);
    fields
}

/// `c` is an ASCII letter or digit.
pub open spec fn is_ascii_alnum(c: char) -> bool {
    ('0' <= c && c <= '9') || ('A' <= c && c <= 'Z') || ('a' <= c && c <= 'z')
}

/// Whether `c` is an ASCII letter or digit, as `char::is_ascii_alphanumeric` tells.
pub fn ascii_alnum(c: char) -> (r: bool)
    ensures
        r == is_ascii_alnum(c),
{
    ('0' <= c && c <= '9') || ('A' <= c && c <= 'Z') || ('a' <= c && c <= 'z')
}

/// Appends `s` at the end of `out`.
pub(crate) fn append_str(out: &mut String, s: &str)
    ensures
        final(out)@ == old(out)@ + s@,
{
    out.append(s)
}

/// `String::push`: appends the character `c` at the end of `out`.
#[verifier::external_body]
pub(crate) fn append_char(out: &mut String, c: char)
    ensures
        final(out)@ == old(out)@.push(c),
{
    out.push(c)
}

/// The decimal digit `d`.
pub open spec fn digit(d: nat) -> Seq<char> {
    if d == 0 {
        "0"@
    } else if d == 1 {
        "1"@
    } else if d == 2 {
        "2"@
    } else if d == 3 {
        "3"@
    } else if d == 4 {
        "4"@
    } else if d == 5 {
        "5"@
    } else if d == 6 {
        "6"@
    } else if d == 7 {
        "7"@
    } else if d == 8 {
        "8"@
    } else {
        "9"@
    }
}

/// `n` in decimal, without leading zeros.
pub open spec fn decimal(n: nat) -> Seq<char>
    decreases n,
{
    if n < 10 {
        digit(n)
    } else {
        decimal(n / 10) + digit(n % 10)
    }
}

/// Appends the decimal digit `d`.
fn append_digit(out: &mut String, d: u64)
    requires
        d < 10,
    ensures
        final(out)@ == old(out)@ + digit(d as nat),
{
    if d == 0 {
        append_str(out, "0")
    } else if d == 1 {
        append_str(out, "1")
    } else if d == 2 {
        append_str(out, "2")
    } else if d == 3 {
        append_str(out, "3")
    } else if d == 4 {
        append_str(out, "4")
    } else if d == 5 {
        append_str(out, "5")
    } else if d == 6 {
        append_str(out, "6")
    } else if d == 7 {
        append_str(out, "7")
    } else if d == 8 {
        append_str(out, "8")
    } else {
        append_str(out, "9")
    }
}

/// Appends `n` in decimal.
pub fn append_decimal(out: &mut String, n: u64)
    ensures
        final(out)@ == old(out)@ + decimal(n as nat),
    decreases n,
{
    if n >= 10 {
        append_decimal(out, n / 10);
        append_digit(out, n % 10);
        assert(out@ =~= old(out)@ + (decimal((n / 10) as nat) + digit((n % 10) as nat)));
    } else {
        append_digit(out, n);
    }
}


/// The value of a numeral `s` read in base ten, most significant digit
/// first.
pub open spec fn numeral_value(s: Seq<char>) -> int
    decreases s.len(),
{
    if s.len() == 0 {
        0
    } else {
        numeral_value(s.drop_last()) * 10 + (s.last() as int - '0' as int)
    }
}

proof fn lemma_digit_char(d: nat)
    requires
        d < 10,
    ensures
        digit(d).len() == 1,
        digit(d)[0] as int == '0' as int + d,
{
    reveal_strlit("0");
    reveal_strlit("1");
    reveal_strlit("2");
    reveal_strlit("3");
    reveal_strlit("4");
    reveal_strlit("5");
    reveal_strlit("6");
    reveal_strlit("7");
    reveal_strlit("8");
    reveal_strlit("9");
}

/// A number is written as a base-ten numeral: every character is a digit,
/// the first is not a zero unless the number is zero, and the digits read
/// back, most significant first, to the number.
pub proof fn decimal_reads_back(n: nat)
    ensures
        decimal(n).len() >= 1,
        forall|i: int| 0 <= i < decimal(n).len() ==> '0' <= #[trigger] decimal(n)[i] <= '9',
        decimal(n)[0] == '0' ==> n == 0,
        numeral_value(decimal(n)) == n,
    decreases n,
{
    if n < 10 {
        lemma_digit_char(n);
        let s = decimal(n);
        assert(s.drop_last() =~= Seq::<char>::empty());
        assert(numeral_value(s.drop_last()) == 0);
        assert(numeral_value(s) == n);
    } else {
        decimal_reads_back(n / 10);
        lemma_digit_char(n % 10);
        let s = decimal(n);
        let h = decimal(n / 10);
        assert(s == h + digit(n % 10));
        assert(s.drop_last() =~= h);
        assert(s.last() == digit(n % 10)[0]);
        assert forall|i: int| 0 <= i < s.len() implies '0' <= #[trigger] s[i] <= '9' by {
            if i < h.len() {
                assert(s[i] == h[i]);
            }
        }
        assert(s[0] == h[0]);
        assert(n / 10 > 0);
        assert(n == (n / 10) * 10 + n % 10) by (nonlinear_arith);
        assert(numeral_value(s) == numeral_value(h) * 10 + (n % 10));
    }
}

} // verus!
