//! Decimal numerals.

use vstd::prelude::*;

use crate::text;

verus! {

/// The character of a digit.
pub open spec fn digit(d: nat) -> char {
    (48 + d) as char
}

/// The decimal numeral of a natural number.
pub open spec fn decimal(n: nat) -> Seq<char>
    decreases n,
{
    if n < 10 {
        seq![digit(n)]
    } else {
        decimal(n / 10).push(digit(n % 10))
    }
}

/// The decimal numeral of an integer.
pub open spec fn decimal_int(n: int) -> Seq<char> {
    if n < 0 {
        seq!['-'] + decimal((-n) as nat)
    } else {
        decimal(n as nat)
    }
}

/// The numeral of a natural number, filled up with zeros to a width.
pub open spec fn padded(n: nat, width: nat) -> Seq<char> {
    let numeral = decimal(n);
    if numeral.len() >= width {
        numeral
    } else {
        Seq::new((width - numeral.len()) as nat, |i: int| '0') + numeral
    }
}

/// Whether a character is an ASCII digit.
pub open spec fn is_digit(c: char) -> bool {
    '0' <= c <= '9'
}

/// Whether a text is a non-empty row of digits.
pub open spec fn is_numeral(s: Seq<char>) -> bool {
    s.len() > 0 && forall|i: int| 0 <= i < s.len() ==> is_digit(#[trigger] s[i])
}

/// The number that a row of digits denotes.
pub open spec fn value(s: Seq<char>) -> nat
    decreases s.len(),
{
    if s.len() == 0 {
        0
    } else {
        (10 * value(s.drop_last()) + (s.last() as u32 - 48)) as nat
    }
}

fn digit_char(d: u64) -> (c: char)
    requires
        d < 10,
    ensures
        c == digit(d as nat),
{
    if d == 0 {
        '0'
    } else if d == 1 {
        '1'
    } else if d == 2 {
        '2'
    } else if d == 3 {
        '3'
    } else if d == 4 {
        '4'
    } else if d == 5 {
        '5'
    } else if d == 6 {
        '6'
    } else if d == 7 {
        '7'
    } else if d == 8 {
        '8'
    } else {
        '9'
    }
}

/// The decimal numeral of a number.
pub fn numeral(n: u64) -> (s: String)
    ensures
        s@ == decimal(n as nat),
    decreases n,
{
    if n < 10 {
        let mut s = String::new();
        s.push(digit_char(n));
        s
    } else {
        let mut s = numeral(n / 10);
        s.push(digit_char(n % 10));
        s
    }
}

/// The decimal numeral of a signed number.
pub fn numeral_int(n: i64) -> (s: String)
    ensures
        s@ == decimal_int(n as int),
{
    if n < 0 {
        let size: u64 = if n == i64::MIN {
            9223372036854775808
        } else {
            (-n) as u64
        };
        let mut s = String::new();
        s.push('-');
        text::push_text(&mut s, numeral(size).as_str());
        s
    } else {
        numeral(n as u64)
    }
}

/// The numeral of a number, filled up with zeros to a width.
pub fn padded_numeral(n: u64, width: usize) -> (s: String)
    ensures
        s@ == padded(n as nat, width as nat),
{
    let digits = numeral(n);
    let count = text::chars_of(digits.as_str()).len();
    let mut s = String::new();
    let mut missing: usize = if count < width {
        width - count
    } else {
        0
    };
    let ghost all = missing as nat;
    while missing > 0
        invariant
            missing <= all,
            s@ == Seq::new((all - missing) as nat, |i: int| '0'),
        decreases missing,
    {
        s.push('0');
        missing -= 1;
        assert(s@ =~= Seq::new((all - missing) as nat, |i: int| '0'));
    }
    let ghost zeros = s@;
    text::push_text(&mut s, digits.as_str());
    assert(s@ =~= padded(n as nat, width as nat));
    s
}

/// Leaving out digits at the end does not make a number larger.
proof fn lemma_value_take(s: Seq<char>, i: int)
    requires
        is_numeral(s),
        0 <= i <= s.len(),
    ensures
        value(s.take(i)) <= value(s),
    decreases s.len() - i,
{
    if i < s.len() {
        assert(s.take(i + 1).drop_last() =~= s.take(i));
        lemma_value_take(s, i + 1);
    } else {
        assert(s.take(i) =~= s);
    }
}

/// Reads a row of digits that denotes a number below 2^64.
pub fn parse_digits(chars: &[char]) -> (parsed: Option<u64>)
    ensures
        parsed == (if is_numeral(chars@) && value(chars@) <= u64::MAX {
            Some(value(chars@) as u64)
        } else {
            None
        }),
{
    if chars.len() == 0 {
        return None;
    }
    let mut k: usize = 0;
    while k < chars.len()
        invariant
            k <= chars.len(),
            forall|i: int| 0 <= i < k ==> is_digit(#[trigger] chars@[i]),
        decreases chars.len() - k,
    {
        if !('0' <= chars[k] && chars[k] <= '9') {
            assert(!is_digit(chars@[k as int]));
            return None;
        }
        k += 1;
    }
    let mut sum: u64 = 0;
    let mut i: usize = 0;
    assert(chars@.take(0) =~= Seq::<char>::empty());
    while i < chars.len()
        invariant
            i <= chars.len(),
            is_numeral(chars@),
            sum == value(chars@.take(i as int)),
        decreases chars.len() - i,
    {
        assert(is_digit(chars@[i as int]));
        let d: u64 = (chars[i] as u32 - 48) as u64;
        proof {
            assert(chars@.take(i + 1).drop_last() =~= chars@.take(i as int));
            assert(value(chars@.take(i + 1)) == 10 * sum + d);
            lemma_value_take(chars@, i + 1);
        }
        if sum > 1844674407370955161 || (sum == 1844674407370955161 && d > 5) {
            return None;
        }
        sum = sum * 10 + d;
        i += 1;
    }
    assert(chars@.take(i as int) =~= chars@);
    Some(sum)
}

/// The number that an optionally signed numeral denotes, within 64 bits.
pub open spec fn signed_value(s: Seq<char>) -> Option<int> {
    if s.len() > 0 && s[0] == '-' {
        let rest = s.drop_first();
        if is_numeral(rest) && -(value(rest) as int) >= i64::MIN {
            Some(-(value(rest) as int))
        } else {
            None
        }
    } else if is_numeral(s) && value(s) <= i64::MAX {
        Some(value(s) as int)
    } else {
        None
    }
}

/// Reads a numeral with an optional minus sign.
pub fn parse_signed(s: &str) -> (parsed: Option<i64>)
    ensures
        match parsed {
            Some(n) => signed_value(s@) == Some(n as int),
            None => signed_value(s@) is None,
        },
{
    let chars = text::chars_of(s);
    if chars.len() > 0 && chars[0] == '-' {
        let rest = vstd::slice::slice_subrange(chars.as_slice(), 1, chars.len());
        assert(rest@ =~= s@.drop_first());
        match parse_digits(rest) {
            None => None,
            Some(n) => {
                if n <= 9223372036854775807 {
                    Some(-(n as i64))
                } else if n == 9223372036854775808 {
                    Some(i64::MIN)
                } else {
                    None
                }
            },
        }
    } else {
        match parse_digits(chars.as_slice()) {
            None => None,
            Some(n) => if n <= 9223372036854775807 {
                Some(n as i64)
            } else {
                None
            },
        }
    }
}

/// The value of a numeral's digits is the number it was made from.
pub proof fn lemma_decimal_value(n: nat)
    ensures
        is_numeral(decimal(n)),
        value(decimal(n)) == n,
    decreases n,
{
    if n < 10 {
        assert(seq![digit(n)].drop_last() =~= Seq::<char>::empty());
        reveal_with_fuel(value, 2);
    } else {
        lemma_decimal_value(n / 10);
        assert(decimal(n).drop_last() =~= decimal(n / 10));
    }
}

/// Reading a printed number gives the number back.
pub proof fn law_numeral_round_trip(n: i64)
    ensures
        signed_value(decimal_int(n as int)) == Some(n as int),
{
    if n < 0 {
        lemma_decimal_value((-n) as nat);
        assert(decimal_int(n as int).drop_first() =~= decimal((-n) as nat));
    } else {
        lemma_decimal_value(n as nat);
        assert(is_digit(decimal(n as nat)[0]));
    }
}

/// A numeral has no zero in front, but for that of zero itself, so two numbers never share one.
pub proof fn law_numeral_canonical(n: nat, m: nat)
    ensures
        decimal(n).len() > 1 ==> decimal(n)[0] != '0',
        decimal(n) == decimal(m) ==> n == m,
    decreases n,
{
    lemma_decimal_value(n);
    lemma_decimal_value(m);
    if n >= 10 {
        law_numeral_canonical(n / 10, m);
        assert(decimal(n)[0] == decimal(n / 10)[0]);
        if n / 10 < 10 {
            assert(digit(n / 10) != '0');
        } else {
            lemma_decimal_value(n / 10 / 10);
            assert(decimal(n / 10).len() > 1);
        }
    }
}

proof fn lemma_zeros(s: Seq<char>, zeros: nat)
    requires
        is_numeral(s),
    ensures
        is_numeral(Seq::new(zeros, |i: int| '0') + s),
        value(Seq::new(zeros, |i: int| '0') + s) == value(s),
    decreases zeros + s.len(),
{
    let front = Seq::new(zeros, |i: int| '0');
    let all = front + s;
    if s.len() == 1 {
        lemma_all_zeros(zeros);
        assert(all.drop_last() =~= front);
        assert(s.drop_last() =~= Seq::<char>::empty());
        assert(value(s.drop_last()) == 0);
    } else {
        assert forall|i: int| 0 <= i < s.drop_last().len() implies is_digit(
            #[trigger] s.drop_last()[i],
        ) by {
            assert(is_digit(s[i]));
        }
        lemma_zeros(s.drop_last(), zeros);
        assert(all.drop_last() =~= front + s.drop_last());
    }
    assert(all.last() == s.last());
}

proof fn lemma_all_zeros(zeros: nat)
    ensures
        value(Seq::new(zeros, |i: int| '0')) == 0,
    decreases zeros,
{
    let all = Seq::new(zeros, |i: int| '0');
    if zeros > 0 {
        lemma_all_zeros((zeros - 1) as nat);
        assert(all.drop_last() =~= Seq::new((zeros - 1) as nat, |i: int| '0'));
    }
}

/// A padded numeral still denotes its number, and is as wide as asked and no wider than the
/// number needs.
pub proof fn law_padded(n: nat, width: nat)
    ensures
        is_numeral(padded(n, width)),
        value(padded(n, width)) == n,
        padded(n, width).len() == (if decimal(n).len() >= width {
            decimal(n).len()
        } else {
            width
        }),
{
    lemma_decimal_value(n);
    if decimal(n).len() < width {
        lemma_zeros(decimal(n), (width - decimal(n).len()) as nat);
    }
}

} // verus!
