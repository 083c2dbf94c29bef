//! Building text: decimal numbers, padding to a column width, joining lines.
use vstd::prelude::*;

verus! {

pub assume_specification[ String::push ](s: &mut String, ch: char)
    ensures
        final(s)@ == old(s)@.push(ch),
;

/// The character of a decimal digit.
pub open spec fn digit(d: int) -> char
    recommends
        0 <= d < 10,
{
    (d + 48) as char
}

/// The decimal notation of a natural number, without leading zeros.
pub open spec fn decimal(n: nat) -> Seq<char>
    decreases n,
{
    if n < 10 {
        seq![digit(n as int)]
    } else {
        decimal(n / 10).push(digit((n % 10) as int))
    }
}

/// `n` spaces.
pub open spec fn spaces(n: nat) -> Seq<char> {
    Seq::new(n, |i: int| ' ')
}

/// `s` followed by spaces up to `width` characters (a left-aligned column).
pub open spec fn pad_right(s: Seq<char>, width: nat) -> Seq<char> {
    if s.len() < width {
        s + spaces((width - s.len()) as nat)
    } else {
        s
    }
}

/// Spaces up to `width` characters followed by `s` (a right-aligned column).
pub open spec fn pad_left(s: Seq<char>, width: nat) -> Seq<char> {
    if s.len() < width {
        spaces((width - s.len()) as nat) + s
    } else {
        s
    }
}

/// The largest of a sequence of naturals, 0 for none.
pub open spec fn seq_max(s: Seq<nat>) -> nat
    decreases s.len(),
{
    if s.len() == 0 {
        0
    } else {
        let m = seq_max(s.drop_last());
        if s.last() > m {
            s.last()
        } else {
            m
        }
    }
}

pub proof fn lemma_decimal_len_pos(n: nat)
    ensures
        decimal(n).len() >= 1,
    decreases n,
{
    if n >= 10 {
        lemma_decimal_len_pos(n / 10);
    }
}

/// Ten to the power `k`.
pub open spec fn pow10(k: nat) -> nat
    decreases k,
{
    if k == 0 {
        1
    } else {
        10 * pow10((k - 1) as nat)
    }
}

pub proof fn lemma_decimal_len_bound(n: nat, k: nat)
    requires
        k >= 1,
        n < pow10(k),
    ensures
        decimal(n).len() <= k,
    decreases n,
{
    if n >= 10 {
        assert(k >= 2) by {
            if k == 1 {
                assert(pow10(1) == 10) by {
                    reveal_with_fuel(pow10, 2);
                }
            }
        }
        lemma_decimal_len_bound(n / 10, (k - 1) as nat);
    }
}

pub proof fn lemma_decimal_len_u64(n: u64)
    ensures
        decimal(n as nat).len() <= 20,
{
    assert(pow10(20) == 100_000_000_000_000_000_000) by {
        reveal_with_fuel(pow10, 21);
    }
    lemma_decimal_len_bound(n as nat, 20);
}

/// The characters of a string slice.
pub fn chars_of(s: &str) -> (v: Vec<char>)
    ensures
        v@ == s@,
{
    let mut v: Vec<char> = Vec::new();
    for c in it: s.chars()
        invariant
            v@ == it.seq().take(it.index() as int),
    {
        v.push(c);
    }
    v
}

fn digit_char(d: u64) -> (c: char)
    requires
        d < 10,
    ensures
        c == digit(d as int),
{
    let b: u8 = d as u8 + 48;
    b as char
}

/// Appends the decimal notation of `n`.
pub fn push_decimal(out: &mut String, n: u64)
    ensures
        final(out)@ == old(out)@ + decimal(n as nat),
{
    let mut digits: Vec<char> = Vec::new();
    let mut rest: u64 = n;
    // digits holds the last digits of n, lowest first
    while rest >= 10
        invariant
            decimal(n as nat) == decimal(rest as nat) + digits@.reverse(),
        decreases rest,
    {
        let d = digit_char(rest % 10);
        proof {
            assert(decimal(rest as nat) == decimal((rest / 10) as nat).push(d));
            assert(digits@.push(d).reverse() =~= seq![d] + digits@.reverse());
        }
        digits.push(d);
        rest = rest / 10;
    }
    let d0 = digit_char(rest);
    out.push(d0);
    proof {
        assert(decimal(rest as nat) == seq![d0]);
    }
    let ghost start = out@;
    let mut i: usize = digits.len();
    while i > 0
        invariant
            i <= digits.len(),
            out@ == start + digits@.reverse().take((digits.len() - i) as int),
            start == old(out)@.push(d0),
            decimal(n as nat) == seq![d0] + digits@.reverse(),
        decreases i,
    {
        i = i - 1;
        out.push(digits[i]);
        proof {
            let r = digits@.reverse();
            assert(r[(digits.len() - i - 1) as int] == digits@[i as int]);
            assert(r.take((digits.len() - i) as int) =~= r.take((digits.len() - i - 1) as int).push(
                digits@[i as int],
            ));
        }
    }
    proof {
        assert(digits@.reverse().take(digits.len() as int) =~= digits@.reverse());
        assert(out@ =~= old(out)@ + decimal(n as nat));
    }
}

/// The decimal notation of `n`.
pub fn decimal_text(n: u64) -> (s: String)
    ensures
        s@ == decimal(n as nat),
{
    let mut s = String::new();
    push_decimal(&mut s, n);
    proof {
        assert(s@ =~= decimal(n as nat));
    }
    s
}

/// The number of digits in the decimal notation of `n`.
pub fn decimal_len(n: u64) -> (len: usize)
    ensures
        len == decimal(n as nat).len(),
{
    let mut len: usize = 1;
    let mut rest: u64 = n;
    proof {
        lemma_decimal_len_u64(n);
        lemma_decimal_len_pos(n as nat);
    }
    while rest >= 10
        invariant
            decimal(n as nat).len() == decimal(rest as nat).len() + len - 1,
            1 <= len <= decimal(n as nat).len(),
            decimal(n as nat).len() <= 20,
        decreases rest,
    {
        proof {
            lemma_decimal_len_pos((rest / 10) as nat);
        }
        rest = rest / 10;
        len = len + 1;
    }
    len
}

/// Appends `n` spaces.
pub fn push_spaces(out: &mut String, n: usize)
    ensures
        final(out)@ == old(out)@ + spaces(n as nat),
{
    let mut i: usize = 0;
    while i < n
        invariant
            i <= n,
            out@ == old(out)@ + spaces(i as nat),
        decreases n - i,
    {
        out.push(' ');
        i = i + 1;
        proof {
            assert(spaces(i as nat) =~= spaces((i - 1) as nat).push(' '));
        }
    }
}

/// Appends the characters of a sequence.
pub fn push_chars(out: &mut String, chars: &[char])
    ensures
        final(out)@ == old(out)@ + chars@,
{
    let mut i: usize = 0;
    while i < chars.len()
        invariant
            i <= chars.len(),
            out@ == old(out)@ + chars@.take(i as int),
        decreases chars.len() - i,
    {
        out.push(chars[i]);
        i = i + 1;
        proof {
            assert(chars@.take(i as int) =~= chars@.take(i - 1).push(chars@[i - 1]));
        }
    }
    proof {
        assert(chars@.take(chars.len() as int) =~= chars@);
    }
}

/// Appends `s` padded with spaces on the right to `width` characters.
pub fn push_padded_right(out: &mut String, s: &[char], width: usize)
    ensures
        final(out)@ == old(out)@ + pad_right(s@, width as nat),
{
    push_chars(out, s);
    if s.len() < width {
        push_spaces(out, width - s.len());
    }
    proof {
        assert(out@ =~= old(out)@ + pad_right(s@, width as nat));
    }
}

/// Appends the decimal notation of `n` padded with spaces on the left to `width`
/// characters.
pub fn push_number_right_aligned(out: &mut String, n: u64, width: usize)
    ensures
        final(out)@ == old(out)@ + pad_left(decimal(n as nat), width as nat),
{
    let len = decimal_len(n);
    if len < width {
        push_spaces(out, width - len);
    }
    push_decimal(out, n);
    proof {
        assert(out@ =~= old(out)@ + pad_left(decimal(n as nat), width as nat));
    }
}


/// The text without the `/` characters at its end.
pub open spec fn trim_trailing_slashes(s: Seq<char>) -> Seq<char>
    decreases s.len(),
{
    if s.len() > 0 && s.last() == '/' {
        trim_trailing_slashes(s.drop_last())
    } else {
        s
    }
}

/// A string of the first `n` characters.
pub fn string_of_prefix(chars: &[char], n: usize) -> (s: String)
    requires
        n <= chars@.len(),
    ensures
        s@ == chars@.take(n as int),
{
    let mut s = String::new();
    for i in 0..n
        invariant
            n <= chars@.len(),
            s@ == chars@.take(i as int),
    {
        s.push(chars[i]);
        proof {
            assert(chars@.take(i + 1) =~= chars@.take(i as int).push(chars@[i as int]));
        }
    }
    s
}

/// A string of the characters from position `from` on.
pub fn string_of_suffix(chars: &[char], from: usize) -> (s: String)
    requires
        from <= chars@.len(),
    ensures
        s@ == chars@.skip(from as int),
{
    let mut s = String::new();
    for i in from..chars.len()
        invariant
            from <= chars@.len(),
            s@ == chars@.subrange(from as int, i as int),
    {
        s.push(chars[i]);
        proof {
            assert(chars@.subrange(from as int, i + 1) =~= chars@.subrange(from as int, i as int).push(
                chars@[i as int],
            ));
        }
    }
    proof {
        assert(chars@.subrange(from as int, chars@.len() as int) =~= chars@.skip(from as int));
    }
    s
}

/// `s` without the `/` characters at its end.
pub fn trim_slashes(s: &str) -> (trimmed: String)
    ensures
        trimmed@ == trim_trailing_slashes(s@),
{
    let chars = chars_of(s);
    let mut end: usize = chars.len();
    proof {
        assert(chars@.take(chars@.len() as int) =~= chars@);
    }
    while end > 0 && chars[end - 1] == '/'
        invariant
            end <= chars@.len(),
            trim_trailing_slashes(chars@) == trim_trailing_slashes(chars@.take(end as int)),
        decreases end,
    {
        proof {
            assert(chars@.take(end as int).drop_last() =~= chars@.take(end - 1));
        }
        end = end - 1;
    }
    proof {
        assert(chars@.take(chars@.len() as int) =~= chars@);
    }
    string_of_prefix(chars.as_slice(), end)
}
} // verus!
