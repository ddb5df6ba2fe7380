//! Unsigned decimal numbers as text: reading them and writing them.
use vstd::prelude::*;

verus! {

/// An ASCII decimal digit.
pub open spec fn is_digit(c: char) -> bool {
    '0' <= c <= '9'
}

/// The value of a decimal digit; zero for any other character.
pub open spec fn digit_value(c: char) -> nat {
    if is_digit(c) {
        (c as u32 - 48) as nat
    } else {
        0
    }
}

/// Whether every character of `d` is a decimal digit.
pub open spec fn all_digits(d: Seq<char>) -> bool {
    forall|k: int| 0 <= k < d.len() ==> is_digit(#[trigger] d[k])
}

/// The number that the digits `d` write in base ten.
pub open spec fn number(d: Seq<char>) -> nat
    decreases d.len(),
{
    if d.len() == 0 {
        0
    } else {
        number(d.drop_last()) * 10 + digit_value(d.last())
    }
}

/// `s` without a leading plus sign.
pub open spec fn unsigned_part(s: Seq<char>) -> Seq<char> {
    if s.len() > 0 && s[0] == '+' {
        s.skip(1)
    } else {
        s
    }
}

/// The number that `s` writes, if it is one and no more than `max`: an
/// optional plus sign, then one or more decimal digits and nothing else.
pub open spec fn parse_unsigned(s: Seq<char>, max: nat) -> Option<nat> {
    let d = unsigned_part(s);
    if d.len() > 0 && all_digits(d) && number(d) <= max {
        Some(number(d))
    } else {
        None
    }
}

/// The 16-bit number that `s` writes, if any.
pub open spec fn parse_u16(s: Seq<char>) -> Option<u16> {
    match parse_unsigned(s, 0xffff) {
        Some(n) => Some(n as u16),
        None => None,
    }
}

/// A longer run of digits writes a number at least as large as any of its
/// prefixes does.
pub proof fn lemma_number_grows(d: Seq<char>, k: int)
    requires
        0 <= k <= d.len(),
    ensures
        number(d.take(k)) <= number(d),
    decreases d.len(),
{
    if k < d.len() {
        lemma_number_grows(d.drop_last(), k);
        assert(d.drop_last().take(k) =~= d.take(k));
    } else {
        assert(d.take(k) =~= d);
    }
}

/// Reads `s[from..]` as an unsigned decimal number no larger than `max`.
pub fn read_unsigned(s: &Vec<char>, from: usize, max: u32) -> (r: Option<u32>)
    requires
        from <= s.len(),
        max <= 0x0fff_ffff,
    ensures
        r == match parse_unsigned(s@.skip(from as int), max as nat) {
            Some(n) => Some(n as u32),
            None => None::<u32>,
        },
{
    let ghost text = s@.skip(from as int);
    let start: usize = if from < s.len() && s[from] == '+' {
        from + 1
    } else {
        from
    };
    let ghost d = unsigned_part(text);
    assert(d =~= s@.skip(start as int));
    if start >= s.len() {
        return None;
    }
    let mut acc: u32 = 0;
    let mut i: usize = start;
    while i < s.len()
        invariant
            start <= i <= s.len(),
            from <= s.len(),
            d == s@.skip(start as int),
            d == unsigned_part(s@.skip(from as int)),
            max <= 0x0fff_ffff,
            acc == number(d.take(i - start)),
            acc <= max,
            forall|k: int| 0 <= k < i - start ==> is_digit(#[trigger] d[k]),
        decreases s.len() - i,
    {
        let c = s[i];
        if !(c >= '0' && c <= '9') {
            assert(!is_digit(d[i - start]));
            return None;
        }
        let v: u32 = c as u32 - 48;
        proof {
            assert(d.take(i - start + 1).drop_last() =~= d.take(i - start));
            assert(d.take(i - start + 1).last() == c);
        }
        acc = acc * 10 + v;
        if acc > max {
            proof {
                lemma_number_grows(d, i - start + 1);
            }
            return None;
        }
        i += 1;
    }
    assert(d.take(i - start) =~= d);
    Some(acc)
}

/// Reads the whole of `s` as a 16-bit unsigned decimal number.
pub fn read_u16(s: &Vec<char>) -> (r: Option<u16>)
    ensures
        r == parse_u16(s@),
{
    assert(s@.skip(0) =~= s@);
    match read_unsigned(s, 0, 0xffff) {
        Some(n) => Some(n as u16),
        None => None,
    }
}

/// The character that writes the digit `d`.
pub open spec fn digit_char(d: nat) -> char {
    (d + 48) as char
}

/// `n` in base ten, without leading zeros.
pub open spec fn decimal(n: nat) -> Seq<char>
    decreases n,
{
    if n < 10 {
        seq![digit_char(n)]
    } else {
        decimal(n / 10).push(digit_char(n % 10))
    }
}

/// Appends `n` in base ten to `out`.
pub fn push_decimal(out: &mut String, n: u32)
    ensures
        final(out)@ == old(out)@ + decimal(n as nat),
    decreases n,
{
    if n >= 10 {
        push_decimal(out, n / 10);
    }
    let d: u8 = (n % 10) as u8;
    out.push((d + 48) as char);
    proof {
        if n >= 10 {
            assert(old(out)@ + decimal(n as nat / 10).push(digit_char(n as nat % 10)) =~= (old(
                out,
            )@ + decimal(n as nat / 10)).push(digit_char(n as nat % 10)));
        } else {
            assert(old(out)@ + seq![digit_char(n as nat)] =~= old(out)@.push(digit_char(n as nat)));
        }
    }
}

/// What is written in base ten reads back as the number that was written.
pub proof fn lemma_decimal_reads_back(n: nat)
    ensures
        decimal(n).len() > 0,
        all_digits(decimal(n)),
        number(decimal(n)) == n,
    decreases n,
{
    if n < 10 {
        assert(decimal(n).drop_last() =~= Seq::<char>::empty());
        assert(number(decimal(n).drop_last()) == 0);
    } else {
        lemma_decimal_reads_back(n / 10);
        assert(decimal(n).drop_last() =~= decimal(n / 10));
        assert(decimal(n).last() == digit_char(n % 10));
    }
}

/// A number of 16 bits, written in base ten, parses as itself.
pub proof fn lemma_u16_round_trip(n: u16)
    ensures
        parse_u16(decimal(n as nat)) == Some(n),
{
    lemma_decimal_reads_back(n as nat);
    assert(decimal(n as nat)[0] != '+');
}

} // verus!
