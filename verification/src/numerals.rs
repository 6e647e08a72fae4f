//! Numbers as they are written in ATG: decimal lengths and hexadecimal
//! escapes.

use vstd::prelude::*;

verus! {

/// Whether `c` is one of `0` to `9`.
pub open spec fn is_decimal_digit(c: char) -> bool {
    '0' <= c <= '9'
}

/// The value of a decimal digit.
pub open spec fn decimal_digit_value(c: char) -> nat {
    (c as u32 - '0' as u32) as nat
}

/// The digit that stands for a value below ten.
pub open spec fn decimal_digit(d: nat) -> char {
    (d + '0' as u32) as char
}

/// Whether every scalar of `s` is a decimal digit.
pub open spec fn all_decimal_digits(s: Seq<char>) -> bool {
    forall|i: int| 0 <= i < s.len() ==> is_decimal_digit(#[trigger] s[i])
}

/// The number that a sequence of decimal digits denotes.
pub open spec fn decimal_value(s: Seq<char>) -> nat
    decreases s.len(),
{
    if s.len() == 0 {
        0
    } else {
        decimal_value(s.drop_last()) * 10 + decimal_digit_value(s.last())
    }
}

/// The decimal digits of a number, without leading zeros.
pub open spec fn decimal(n: nat) -> Seq<char>
    decreases n,
{
    if n < 10 {
        seq![decimal_digit(n)]
    } else {
        decimal(n / 10).push(decimal_digit(n % 10))
    }
}

/// The number up to `max` that a text denotes: decimal digits, at least
/// one, after an optional `+`.
pub open spec fn parsed_number(s: Seq<char>, max: nat) -> Option<nat> {
    let digits = if s.len() > 0 && s[0] == '+' {
        s.drop_first()
    } else {
        s
    };
    number_of_digits(digits, max)
}

/// The number up to `max` that a sequence of decimal digits denotes.
pub open spec fn number_of_digits(digits: Seq<char>, max: nat) -> Option<nat> {
    if digits.len() > 0 && all_decimal_digits(digits) && decimal_value(digits) <= max {
        Some(decimal_value(digits))
    } else {
        None
    }
}

/// The number below 256 that a text denotes.
pub open spec fn parsed_u8(s: Seq<char>) -> Option<u8> {
    match parsed_number(s, u8::MAX as nat) {
        Some(n) => Some(n as u8),
        None => None,
    }
}

/// The number below 65536 that a text denotes.
pub open spec fn parsed_u16(s: Seq<char>) -> Option<u16> {
    match parsed_number(s, u16::MAX as nat) {
        Some(n) => Some(n as u16),
        None => None,
    }
}

/// The first digits of a number denote no more than the number.
pub proof fn lemma_decimal_value_prefix(s: Seq<char>, k: int)
    requires
        0 <= k <= s.len(),
    ensures
        decimal_value(s.take(k)) <= decimal_value(s),
    decreases s.len() - k,
{
    if k < s.len() {
        assert(s.take(k + 1).drop_last() =~= s.take(k));
        lemma_decimal_value_prefix(s, k + 1);
    } else {
        assert(s.take(k) =~= s);
    }
}

/// The digits of a number are digits, and denote the number.
pub proof fn lemma_decimal_value_of_decimal(n: nat)
    ensures
        decimal(n).len() > 0,
        all_decimal_digits(decimal(n)),
        decimal_value(decimal(n)) == n,
        decimal(n)[0] != '+',
    decreases n,
{
    if n < 10 {
        let s = seq![decimal_digit(n)];
        assert(s.drop_last() =~= Seq::<char>::empty());
        assert(decimal_value(s.drop_last()) == 0);
    } else {
        lemma_decimal_value_of_decimal(n / 10);
        let s = decimal(n / 10).push(decimal_digit(n % 10));
        assert(s.drop_last() =~= decimal(n / 10));
        assert forall|i: int| 0 <= i < s.len() implies is_decimal_digit(#[trigger] s[i]) by {
            if i < s.len() - 1 {
                assert(s[i] == decimal(n / 10)[i]);
            }
        }
    }
}

/// A number is read back from its decimal digits.
pub proof fn lemma_parsed_number_of_decimal(n: nat, max: nat)
    requires
        n <= max,
    ensures
        parsed_number(decimal(n), max) == Some(n),
{
    lemma_decimal_value_of_decimal(n);
}

/// Appends the decimal digits of `n`.
pub fn push_decimal(s: &mut String, n: usize)
    ensures
        final(s)@ == old(s)@ + decimal(n as nat),
    decreases n,
{
    if n >= 10 {
        push_decimal(s, n / 10);
    }
    let d: u8 = (n % 10) as u8;
    let c: char = (d + 48u8) as char;
    s.push(c);
    proof {
        assert(c == decimal_digit((n % 10) as nat));
        if n < 10 {
            assert(old(s)@.push(c) =~= old(s)@ + seq![c]);
        } else {
            assert((old(s)@ + decimal((n / 10) as nat)).push(c) =~= old(s)@ + decimal(
                (n / 10) as nat,
            ).push(c));
        }
    }
}

/// The decimal digits of `n` as a string.
pub fn decimal_string(n: usize) -> (s: String)
    ensures
        s@ == decimal(n as nat),
{
    let mut s = String::new();
    push_decimal(&mut s, n);
    proof {
        assert(Seq::<char>::empty() + decimal(n as nat) =~= decimal(n as nat));
    }
    s
}

/// Reads a number up to `max` from its decimal digits.
pub fn parse_number(v: &Vec<char>, max: usize) -> (r: Option<usize>)
    requires
        max <= u16::MAX,
    ensures
        match (parsed_number(v@, max as nat), r) {
            (Some(n), Some(m)) => n == m,
            (None, None) => true,
            _ => false,
        },
{
    let start: usize = if v.len() > 0 && v[0] == '+' {
        1
    } else {
        0
    };
    let ghost digits = v@.skip(start as int);
    proof {
        if start == 1 {
            assert(v@.drop_first() =~= v@.skip(1));
        } else {
            assert(v@.skip(0) =~= v@);
        }
        assert(parsed_number(v@, max as nat) == number_of_digits(digits, max as nat));
    }
    if start == v.len() {
        return None;
    }
    let mut acc: usize = 0;
    let mut i: usize = start;
    while i < v.len()
        invariant
            start <= i <= v.len(),
            max <= u16::MAX,
            digits == v@.skip(start as int),
            parsed_number(v@, max as nat) == number_of_digits(digits, max as nat),
            all_decimal_digits(digits.take(i - start)),
            acc == decimal_value(digits.take(i - start)),
            acc <= max,
        decreases v.len() - i,
    {
        let c = v[i];
        if !('0' <= c && c <= '9') {
            assert(!is_decimal_digit(digits[i - start]));
            return None;
        }
        let d: usize = (c as u32 - '0' as u32) as usize;
        proof {
            assert(digits.take(i - start + 1).drop_last() =~= digits.take(i - start));
            assert(digits.take(i - start + 1).last() == c);
            assert forall|j: int| 0 <= j < i - start + 1 implies is_decimal_digit(
                #[trigger] digits.take(i - start + 1)[j],
            ) by {
                if j < i - start {
                    assert(digits.take(i - start)[j] == digits[j]);
                }
            }
        }
        let next = acc * 10 + d;
        if next > max {
            proof {
                lemma_decimal_value_prefix(digits, i - start + 1);
            }
            return None;
        }
        acc = next;
        i += 1;
    }
    proof {
        assert(digits.take(i - start) =~= digits);
    }
    Some(acc)
}

/// Reads a number below 256 from its decimal digits.
pub fn parse_u8(v: &Vec<char>) -> (r: Option<u8>)
    ensures
        r == parsed_u8(v@),
{
    match parse_number(v, 255) {
        Some(n) => Some(n as u8),
        None => None,
    }
}

/// Reads a number below 65536 from its decimal digits.
pub fn parse_u16(v: &Vec<char>) -> (r: Option<u16>)
    ensures
        r == parsed_u16(v@),
{
    match parse_number(v, 65535) {
        Some(n) => Some(n as u16),
        None => None,
    }
}

/// Whether `c` is a hexadecimal digit, of either case.
pub open spec fn is_hex_digit(c: char) -> bool {
    ||| '0' <= c <= '9'
    ||| 'a' <= c <= 'f'
    ||| 'A' <= c <= 'F'
}

/// The value of a hexadecimal digit.
pub open spec fn hex_digit_value(c: char) -> nat {
    if '0' <= c <= '9' {
        (c as u32 - '0' as u32) as nat
    } else if 'a' <= c <= 'f' {
        (c as u32 - 'a' as u32 + 10) as nat
    } else {
        (c as u32 - 'A' as u32 + 10) as nat
    }
}

/// The number that a sequence of hexadecimal digits denotes.
pub open spec fn hex_value(s: Seq<char>) -> nat
    decreases s.len(),
{
    if s.len() == 0 {
        0
    } else {
        hex_value(s.drop_last()) * 16 + hex_digit_value(s.last())
    }
}

/// Whether `s` holds `n` scalars from index `i` on, all of them hexadecimal
/// digits.
pub open spec fn hex_run(s: Seq<char>, i: int, n: int) -> bool {
    &&& i + n <= s.len()
    &&& forall|j: int| i <= j < i + n ==> is_hex_digit(#[trigger] s[j])
}

/// Whether `c` is a hexadecimal digit.
pub fn is_hex(c: char) -> (b: bool)
    ensures
        b == is_hex_digit(c),
{
    ('0' <= c && c <= '9') || ('a' <= c && c <= 'f') || ('A' <= c && c <= 'F')
}

/// Whether `v` holds `n` hexadecimal digits from index `i` on.
pub fn has_hex_run(v: &Vec<char>, i: usize, n: usize) -> (b: bool)
    requires
        i <= v.len(),
        n <= 6,
    ensures
        b == hex_run(v@, i as int, n as int),
{
    if v.len() - i < n {
        return false;
    }
    let mut k: usize = 0;
    while k < n
        invariant
            k <= n <= 6,
            i + n <= v.len(),
            forall|j: int| i <= j < i + k ==> is_hex_digit(#[trigger] v@[j]),
        decreases n - k,
    {
        if !is_hex(v[i + k]) {
            return false;
        }
        k += 1;
    }
    true
}

/// The number that the `n` hexadecimal digits from index `i` on denote.
pub fn read_hex(v: &Vec<char>, i: usize, n: usize) -> (r: u32)
    requires
        n <= 6,
        hex_run(v@, i as int, n as int),
    ensures
        r == hex_value(v@.subrange(i as int, i + n)),
        r < 0x1000000,
{
    let mut acc: u32 = 0;
    let mut k: usize = 0;
    let ghost run = v@.subrange(i as int, i + n);
    proof {
        assert(run.take(0) =~= Seq::<char>::empty());
    }
    while k < n
        invariant
            k <= n <= 6,
            i + n <= v.len(),
            hex_run(v@, i as int, n as int),
            run == v@.subrange(i as int, i + n),
            acc == hex_value(run.take(k as int)),
            acc < pow16(k as nat),
        decreases n - k,
    {
        let c = v[i + k];
        assert(is_hex_digit(v@[i + k]));
        let d: u32 = if '0' <= c && c <= '9' {
            c as u32 - '0' as u32
        } else if 'a' <= c && c <= 'f' {
            c as u32 - 'a' as u32 + 10
        } else {
            c as u32 - 'A' as u32 + 10
        };
        proof {
            assert(run.take(k + 1).drop_last() =~= run.take(k as int));
            assert(run.take(k + 1).last() == c);
            lemma_pow16_bounds(k as nat);
            lemma_pow16_bounds((k + 1) as nat);
        }
        acc = acc * 16 + d;
        k += 1;
    }
    proof {
        assert(run.take(n as int) =~= run);
        lemma_pow16_bounds(n as nat);
    }
    acc
}

/// Sixteen to the power of `k`.
pub open spec fn pow16(k: nat) -> nat
    decreases k,
{
    if k == 0 {
        1
    } else {
        16 * pow16((k - 1) as nat)
    }
}

/// The powers of sixteen are positive, grow by the factor sixteen, and stay
/// below `0x1000000` up to the sixth.
pub proof fn lemma_pow16_bounds(k: nat)
    ensures
        pow16(k) >= 1,
        k <= 6 ==> pow16(k) <= 0x1000000,
        pow16(k + 1) == 16 * pow16(k),
    decreases k,
{
    reveal_with_fuel(pow16, 8);
    if k > 0 {
        lemma_pow16_bounds((k - 1) as nat);
    }
}

} // verus!
