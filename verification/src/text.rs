//! Decimal and hexadecimal text.

use vstd::arithmetic::power::{lemma_pow0, pow};
use vstd::prelude::*;

verus! {

/// The value of a decimal digit.
pub open spec fn digit_value(c: char) -> nat {
    (c as nat - '0' as nat) as nat
}

/// The decimal digit of a value below ten.
pub open spec fn digit_char(d: nat) -> char {
    ('0' as nat + d) as char
}

pub open spec fn is_digit(c: char) -> bool {
    '0' <= c && c <= '9'
}

pub open spec fn all_digits(s: Seq<char>) -> bool {
    forall|i: int| 0 <= i < s.len() ==> is_digit(#[trigger] s[i])
}

/// The number that a sequence of decimal digits writes.
pub open spec fn digits_value(s: Seq<char>) -> nat
    decreases s.len(),
{
    if s.len() == 0 {
        0
    } else {
        10 * digits_value(s.drop_last()) + digit_value(s.last())
    }
}

/// A number in decimal, without leading zeros.
pub open spec fn decimal(n: nat) -> Seq<char>
    decreases n,
{
    if n < 10 {
        seq![digit_char(n)]
    } else {
        decimal(n / 10).push(digit_char(n % 10))
    }
}

/// `s` without the plus sign that may stand in front of it.
pub open spec fn unsigned_part(s: Seq<char>) -> Seq<char> {
    if s.len() > 0 && s[0] == '+' {
        s.drop_first()
    } else {
        s
    }
}

/// The `u64` that `s` writes: an optional plus sign and then decimal digits
/// only, at least one of them.
pub open spec fn u64_of_text(s: Seq<char>) -> Option<u64> {
    let digits = unsigned_part(s);
    if digits.len() > 0 && all_digits(digits) && digits_value(digits) <= u64::MAX {
        Some(digits_value(digits) as u64)
    } else {
        None
    }
}

/// `String::push`: appends one character.
pub assume_specification[ String::push ](s: &mut String, c: char)
    ensures
        final(s)@ == old(s)@.push(c),
;

pub(crate) fn is_ascii_digit(c: char) -> (r: bool)
    ensures
        r == is_digit(c),
{
    '0' <= c && c <= '9'
}

/// The characters of a string, one by one.
pub(crate) fn chars_of(s: &str) -> (r: Vec<char>)
    ensures
        r@ == s@,
{
    let n: usize = s.unicode_len();
    let mut r: Vec<char> = Vec::new();
    let mut i: usize = 0;
    while i < n
        invariant
            i <= n,
            n == s@.len(),
            r@ == s@.take(i as int),
        decreases n - i,
    {
        r.push(s.get_char(i));
        proof {
            assert(s@.take(i + 1) =~= s@.take(i as int).push(s@[i as int]));
        }
        i = i + 1;
    }
    proof {
        assert(s@.take(n as int) =~= s@);
    }
    r
}

/// A number in decimal.
pub fn decimal_string(n: u64) -> (r: String)
    ensures
        r@ == decimal(n as nat),
    decreases n,
{
    let c: char = (48u8 + (n % 10) as u8) as char;
    if n < 10 {
        let mut r = String::new();
        r.push(c);
        r
    } else {
        let mut r = decimal_string(n / 10);
        r.push(c);
        r
    }
}

/// A prefix of digits writes a number no greater than the whole does.
proof fn lemma_prefix_value(s: Seq<char>, k: int)
    requires
        0 <= k <= s.len(),
    ensures
        digits_value(s.take(k)) <= digits_value(s),
    decreases s.len() - k,
{
    if k == s.len() {
        assert(s.take(k) =~= s);
    } else {
        lemma_prefix_value(s, k + 1);
        assert(s.take(k + 1).drop_last() =~= s.take(k));
    }
}

/// Reads `chars[lo..hi]` as a `u64`; `None` where it is not one.
pub fn parse_u64(chars: &Vec<char>, lo: usize, hi: usize) -> (r: Option<u64>)
    requires
        lo <= hi <= chars.len(),
    ensures
        r == u64_of_text(chars@.subrange(lo as int, hi as int)),
{
    let ghost s = chars@.subrange(lo as int, hi as int);
    let start: usize = if lo < hi && chars[lo] == '+' {
        lo + 1
    } else {
        lo
    };
    let ghost digits = unsigned_part(s);
    proof {
        assert(digits =~= chars@.subrange(start as int, hi as int));
    }
    if start == hi {
        return None;
    }
    let mut value: u64 = 0;
    let mut i: usize = start;
    while i < hi
        invariant
            start <= i <= hi <= chars.len(),
            digits == chars@.subrange(start as int, hi as int),
            digits == unsigned_part(s),
            s == chars@.subrange(lo as int, hi as int),
            all_digits(digits.take(i - start)),
            value == digits_value(digits.take(i - start)),
        decreases hi - i,
    {
        let c: char = chars[i];
        let ghost k = i - start;
        proof {
            assert(digits[k] == c);
        }
        if !is_ascii_digit(c) {
            return None;
        }
        let d: u64 = (c as u32 - 48) as u64;
        proof {
            assert(digits.take(k + 1).drop_last() =~= digits.take(k));
            lemma_prefix_value(digits, k + 1);
        }
        let scaled: u64 = match value.checked_mul(10) {
            Some(x) => x,
            None => {
                return None;
            },
        };
        value = match scaled.checked_add(d) {
            Some(x) => x,
            None => {
                return None;
            },
        };
        proof {
            assert forall|j: int| 0 <= j < k + 1 implies is_digit(#[trigger] digits.take(k + 1)[j]) by {
                if j < k {
                    assert(is_digit(digits.take(k)[j]));
                }
            }
        }
        i = i + 1;
    }
    proof {
        assert(digits.take(hi - start) =~= digits);
    }
    Some(value)
}

/// The decimal text of a number consists of digits, at least one, and writes
/// that number.
pub proof fn lemma_decimal_value(n: nat)
    ensures
        decimal(n).len() > 0,
        all_digits(decimal(n)),
        digits_value(decimal(n)) == n,
    decreases n,
{
    if n < 10 {
        reveal_with_fuel(digits_value, 2);
        assert(seq![digit_char(n)].drop_last() =~= Seq::<char>::empty());
    } else {
        lemma_decimal_value(n / 10);
        assert(decimal(n).drop_last() =~= decimal(n / 10));
        assert forall|i: int| 0 <= i < decimal(n).len() implies is_digit(#[trigger] decimal(n)[i]) by {
            if i < decimal(n / 10).len() {
                assert(is_digit(decimal(n / 10)[i]));
            }
        }
    }
}

/// Reading back the decimal text of a `u64` gives that `u64`.
pub proof fn lemma_decimal_reads_back(n: u64)
    ensures
        u64_of_text(decimal(n as nat)) == Some(n),
{
    lemma_decimal_value(n as nat);
    assert(is_digit(decimal(n as nat)[0]));
}

/// The decimal digits are ten characters, each with its own value.
pub proof fn lemma_digits(c: char)
    ensures
        ({
            let ten = seq!['0', '1', '2', '3', '4', '5', '6', '7', '8', '9'];
            &&& is_digit(c) <==> exists|d: int| 0 <= d < 10 && #[trigger] ten[d] == c
            &&& forall|d: int|
                0 <= d < 10 ==> digit_value(#[trigger] ten[d]) == d && digit_char(d as nat) == ten[d]
        }),
{
    let ten = seq!['0', '1', '2', '3', '4', '5', '6', '7', '8', '9'];
    if is_digit(c) {
        assert(ten[c as int - '0' as int] == c);
    }
}

/// A digit writes its own value, and digits in front of others count for a
/// power of ten more.
pub proof fn lemma_digits_joined(c: char, front: Seq<char>, back: Seq<char>)
    ensures
        digits_value(seq![c]) == digit_value(c),
        digits_value(front + back) == digits_value(front) * pow(10, back.len()) + digits_value(
            back,
        ),
    decreases back.len(),
{
    reveal_with_fuel(digits_value, 2);
    assert(seq![c].drop_last() =~= Seq::<char>::empty());
    if back.len() == 0 {
        assert(front + back =~= front);
        lemma_pow0(10);
    } else {
        let shorter = back.drop_last();
        lemma_digits_joined(c, front, shorter);
        assert((front + back).drop_last() =~= front + shorter);
        reveal(pow);
        let v = digits_value(front) as int;
        let p = pow(10, shorter.len());
        assert(pow(10, back.len()) == 10 * p);
        assert(10 * (v * p) == v * (10 * p)) by (nonlinear_arith);
    }
}

/// The decimal text of a number is the one without leading zeros that writes
/// it.
pub proof fn lemma_decimal_is_shortest(n: nat, s: Seq<char>)
    requires
        s.len() > 0,
        forall|i: int| 0 <= i < s.len() ==> '0' <= #[trigger] s[i] <= '9',
        s.len() == 1 || s[0] != '0',
        digits_value(s) == n,
    ensures
        decimal(n) == s,
    decreases s.len(),
{
    reveal_with_fuel(digits_value, 2);
    let front = s.drop_last();
    assert('0' <= s.last() <= '9');
    if s.len() == 1 {
        assert(front =~= Seq::<char>::empty());
        assert(decimal(n) =~= s);
    } else {
        lemma_leading_digit(front);
        lemma_decimal_is_shortest(digits_value(front), front);
        assert(n / 10 == digits_value(front) && n % 10 == digit_value(s.last()));
        assert(decimal(n) =~= s);
    }
}

/// Digits that do not begin with a zero write a number above zero.
proof fn lemma_leading_digit(s: Seq<char>)
    requires
        s.len() > 0,
        all_digits(s),
        s[0] != '0',
    ensures
        digits_value(s) > 0,
    decreases s.len(),
{
    if s.len() > 1 {
        assert(is_digit(s[0]));
        lemma_leading_digit(s.drop_last());
    } else {
        reveal_with_fuel(digits_value, 2);
        assert(is_digit(s[0]));
        assert(s.drop_last() =~= Seq::<char>::empty());
    }
}

/// A number is read from digits alone, or from digits behind a plus, and from
/// nothing else; it is read as what the digits write, within 64 bits.
pub proof fn lemma_u64_texts(s: Seq<char>, digits: Seq<char>)
    requires
        digits.len() > 0,
        forall|i: int| 0 <= i < digits.len() ==> '0' <= #[trigger] digits[i] <= '9',
    ensures
        u64_of_text(digits) == if digits_value(digits) <= u64::MAX {
            Some(digits_value(digits) as u64)
        } else {
            None
        },
        u64_of_text(seq!['+'] + digits) == u64_of_text(digits),
        u64_of_text(s) is Some ==> {
            &&& s.len() > 0
            &&& s[0] == '+' ==> s.len() > 1
            &&& forall|i: int|
                0 <= i < s.len() ==> '0' <= #[trigger] s[i] <= '9' || (i == 0 && s[i] == '+')
        },
{
    assert(digits[0] != '+');
    assert(all_digits(digits));
    assert((seq!['+'] + digits).drop_first() =~= digits);
    if u64_of_text(s) is Some {
        assert forall|i: int| 0 <= i < s.len() implies '0' <= #[trigger] s[i] <= '9' || (i == 0
            && s[i] == '+') by {
            if s[0] == '+' {
                if i > 0 {
                    assert(is_digit(s.drop_first()[i - 1]));
                }
            } else {
                assert(is_digit(s[i]));
            }
        }
    }
}

/// The lower-case hexadecimal digit of a value below sixteen.
pub open spec fn hex_char(d: nat) -> char {
    if d < 10 {
        ('0' as nat + d) as char
    } else {
        ('a' as nat + d - 10) as char
    }
}

/// Bytes in hexadecimal, two digits each.
pub open spec fn hex(bytes: Seq<u8>) -> Seq<char> {
    Seq::new(
        2 * bytes.len(),
        |i: int|
            if i % 2 == 0 {
                hex_char((bytes[i / 2] / 16) as nat)
            } else {
                hex_char((bytes[i / 2] % 16) as nat)
            },
    )
}

fn hex_digit(d: u8) -> (r: char)
    requires
        d < 16,
    ensures
        r == hex_char(d as nat),
{
    if d < 10 {
        (48u8 + d) as char
    } else {
        (87u8 + d) as char
    }
}

/// Appends `bytes[lo..hi]` in hexadecimal.
pub(crate) fn push_hex(s: &mut String, bytes: &[u8], lo: usize, hi: usize)
    requires
        lo <= hi <= bytes.len(),
    ensures
        final(s)@ == old(s)@ + hex(bytes@.subrange(lo as int, hi as int)),
{
    let ghost start = s@;
    let mut i: usize = lo;
    proof {
        assert(start + hex(bytes@.subrange(lo as int, lo as int)) =~= start);
    }
    while i < hi
        invariant
            lo <= i <= hi <= bytes.len(),
            s@ == start + hex(bytes@.subrange(lo as int, i as int)),
        decreases hi - i,
    {
        let b: u8 = bytes[i];
        s.push(hex_digit(b / 16));
        s.push(hex_digit(b % 16));
        proof {
            let before = bytes@.subrange(lo as int, i as int);
            let after = bytes@.subrange(lo as int, i + 1);
            assert(after =~= before.push(b));
            assert(hex(after) =~= hex(before).push(hex_char((b / 16) as nat)).push(
                hex_char((b % 16) as nat),
            ));
            assert(start + hex(after) =~= (start + hex(before)).push(
                hex_char((b / 16) as nat),
            ).push(hex_char((b % 16) as nat)));
        }
        i = i + 1;
    }
}

proof fn lemma_hex_char_injective(a: nat, b: nat)
    requires
        a < 16,
        b < 16,
        hex_char(a) == hex_char(b),
    ensures
        a == b,
{
}

/// A byte is written as two of sixteen digits, the one for its sixteens first.
pub proof fn lemma_hex_digits(bytes: Seq<u8>, i: int)
    requires
        0 <= i < bytes.len(),
    ensures
        ({
            let sixteen = seq![
                '0', '1', '2', '3', '4', '5', '6', '7', '8', '9', 'a', 'b', 'c', 'd', 'e', 'f',
            ];
            &&& hex(bytes).len() == 2 * bytes.len()
            &&& exists|high: int, low: int|
                {
                    &&& 0 <= high < 16
                    &&& 0 <= low < 16
                    &&& bytes[i] == 16 * high + low
                    &&& hex(bytes)[2 * i] == #[trigger] sixteen[high]
                    &&& hex(bytes)[2 * i + 1] == #[trigger] sixteen[low]
                }
        }),
{
    let sixteen = seq![
        '0', '1', '2', '3', '4', '5', '6', '7', '8', '9', 'a', 'b', 'c', 'd', 'e', 'f',
    ];
    let high = bytes[i] as int / 16;
    let low = bytes[i] as int % 16;
    let j = 2 * i;
    assert(j / 2 == i && j % 2 == 0 && (j + 1) / 2 == i && (j + 1) % 2 == 1);
    assert(hex(bytes)[j] == hex_char(high as nat));
    assert(hex(bytes)[j + 1] == hex_char(low as nat));
    assert(hex_char(high as nat) == sixteen[high]);
    assert(hex_char(low as nat) == sixteen[low]);
}

/// Different bytes have different hexadecimal texts.
pub proof fn lemma_hex_injective(a: Seq<u8>, b: Seq<u8>)
    requires
        hex(a) == hex(b),
    ensures
        a == b,
{
    assert(hex(a).len() == 2 * a.len());
    assert(hex(b).len() == 2 * b.len());
    assert forall|i: int| 0 <= i < a.len() implies a[i] == b[i] by {
        let j = 2 * i;
        assert(j / 2 == i && j % 2 == 0 && (j + 1) / 2 == i && (j + 1) % 2 == 1);
        assert(hex(a)[j] == hex_char((a[i] / 16) as nat));
        assert(hex(b)[j] == hex_char((b[i] / 16) as nat));
        assert(hex(a)[j + 1] == hex_char((a[i] % 16) as nat));
        assert(hex(b)[j + 1] == hex_char((b[i] % 16) as nat));
        lemma_hex_char_injective((a[i] / 16) as nat, (b[i] / 16) as nat);
        lemma_hex_char_injective((a[i] % 16) as nat, (b[i] % 16) as nat);
    }
    assert(a =~= b);
}

/// Calls write and read numbers as stated.
pub proof fn lemma_number_calls(
    n: u64,
    text: String,
    chars: Vec<char>,
    lo: usize,
    hi: usize,
    r: Option<u64>,
)
    ensures
        call_requires(decimal_string, (n,)),
        call_ensures(decimal_string, (n,), text) ==> text@ == decimal(n as nat),
        lo <= hi <= chars@.len() ==> call_requires(parse_u64, (&chars, lo, hi)),
        call_ensures(parse_u64, (&chars, lo, hi), r) ==> r == u64_of_text(
            chars@.subrange(lo as int, hi as int),
        ),
{
}

} // verus!
