//! Text helpers: trimming, case folding, splitting, and numbers in decimal
//! and hexadecimal.

use vstd::prelude::*;
use vstd::string::*;

verus! {

/// `String::push`: appends one character.
pub assume_specification[ String::push ](s: &mut String, c: char)
    ensures
        final(s)@ == old(s)@.push(c),
;

/// The characters of `s`.
pub fn chars_of(s: &str) -> (r: Vec<char>)
    ensures
        r@ == s@,
{
    let mut out: Vec<char> = Vec::new();
    for c in it: s.chars()
        invariant
            it.seq() == s@,
            out@ == s@.take(it.index() as int),
    {
        out.push(c);
        assert(out@ =~= s@.take(it.index() as int + 1));
    }
    assert(out@ =~= s@);
    out
}

/// Are the two texts equal?
pub fn same(a: &str, b: &str) -> (r: bool)
    ensures
        r == (a@ == b@),
{
    let left = chars_of(a);
    let right = chars_of(b);
    if left.len() != right.len() {
        return false;
    }
    let mut i: usize = 0;
    while i < left.len()
        invariant
            i <= left.len(),
            left.len() == right.len(),
            left@ == a@,
            right@ == b@,
            forall|j: int| 0 <= j < i ==> a@[j] == b@[j],
        decreases left.len() - i,
    {
        if left[i] != right[i] {
            assert(a@[i as int] != b@[i as int]);
            return false;
        }
        i += 1;
    }
    assert(a@ =~= b@);
    true
}

/// The white space of Unicode.
pub open spec fn is_space(c: char) -> bool {
    let u = c as u32;
    ||| 0x9 <= u <= 0xD
    ||| u == 0x20
    ||| u == 0x85
    ||| u == 0xA0
    ||| u == 0x1680
    ||| 0x2000 <= u <= 0x200A
    ||| u == 0x2028
    ||| u == 0x2029
    ||| u == 0x202F
    ||| u == 0x205F
    ||| u == 0x3000
}

fn space(c: char) -> (r: bool)
    ensures
        r == is_space(c),
{
    let u: u32 = c as u32;
    (0x9 <= u && u <= 0xD) || u == 0x20 || u == 0x85 || u == 0xA0 || u == 0x1680 || (0x2000 <= u && u
        <= 0x200A) || u == 0x2028 || u == 0x2029 || u == 0x202F || u == 0x205F || u == 0x3000
}

/// `s` without the white space at its start.
pub open spec fn trimmed_start(s: Seq<char>) -> Seq<char>
    decreases s.len(),
{
    if s.len() > 0 && is_space(s[0]) {
        trimmed_start(s.skip(1))
    } else {
        s
    }
}

/// `s` without the white space at its end.
pub open spec fn trimmed_end(s: Seq<char>) -> Seq<char>
    decreases s.len(),
{
    if s.len() > 0 && is_space(s.last()) {
        trimmed_end(s.drop_last())
    } else {
        s
    }
}

/// `s` without the white space at either end.
pub open spec fn trimmed(s: Seq<char>) -> Seq<char> {
    trimmed_end(trimmed_start(s))
}

pub fn trim(s: &str) -> (r: String)
    ensures
        r@ == trimmed(s@),
{
    let chars = chars_of(s);
    let mut from: usize = 0;
    assert(chars@.skip(0) =~= chars@);
    while from < chars.len() && space(chars[from])
        invariant
            from <= chars.len(),
            trimmed_start(chars@.skip(from as int)) == trimmed_start(chars@),
        decreases chars.len() - from,
    {
        assert(chars@.skip(from as int).skip(1) =~= chars@.skip(from + 1));
        from += 1;
    }
    let ghost rest = chars@.skip(from as int);
    assert(trimmed_start(chars@) == rest);
    let mut to: usize = chars.len();
    assert(chars@.subrange(from as int, to as int) =~= rest);
    while to > from && space(chars[to - 1])
        invariant
            from <= to <= chars.len(),
            trimmed_end(chars@.subrange(from as int, to as int)) == trimmed_end(rest),
        decreases to,
    {
        assert(chars@.subrange(from as int, to as int).drop_last() =~= chars@.subrange(
            from as int,
            to - 1,
        ));
        to -= 1;
    }
    let mut out = String::new();
    let mut i: usize = from;
    assert(out@ =~= chars@.subrange(from as int, from as int));
    while i < to
        invariant
            from <= i <= to <= chars.len(),
            out@ == chars@.subrange(from as int, i as int),
        decreases to - i,
    {
        out.push(chars[i]);
        assert(out@ =~= chars@.subrange(from as int, i + 1));
        i += 1;
    }
    out
}

/// ASCII capital letters in lower case; every other character unchanged.
pub open spec fn lower(c: char) -> char {
    if 0x41 <= c as u32 <= 0x5A {
        ((c as u32 + 32) as u8) as char
    } else {
        c
    }
}

pub open spec fn lowered(s: Seq<char>) -> Seq<char> {
    s.map_values(|c: char| lower(c))
}

/// Do the texts agree, the case of ASCII letters aside?
pub open spec fn same_ignoring_case(a: Seq<char>, b: Seq<char>) -> bool {
    lowered(a) == lowered(b)
}

fn lower_char(c: char) -> (r: char)
    ensures
        r == lower(c),
{
    let u: u32 = c as u32;
    if 0x41 <= u && u <= 0x5A {
        ((u + 32) as u8) as char
    } else {
        c
    }
}

pub fn to_lower(s: &str) -> (r: String)
    ensures
        r@ == lowered(s@),
{
    let chars = chars_of(s);
    let mut out = String::new();
    let mut i: usize = 0;
    while i < chars.len()
        invariant
            i <= chars.len(),
            out@ == lowered(chars@.take(i as int)),
        decreases chars.len() - i,
    {
        out.push(lower_char(chars[i]));
        assert(out@ =~= lowered(chars@.take(i + 1)));
        i += 1;
    }
    assert(chars@.take(i as int) =~= s@);
    out
}

pub fn eq_ignore_case(a: &str, b: &str) -> (r: bool)
    ensures
        r == same_ignoring_case(a@, b@),
{
    let a = to_lower(a);
    let b = to_lower(b);
    same(a.as_str(), b.as_str())
}

/// `s` in lower case by the rules of Unicode.
pub uninterp spec fn lowercase(s: Seq<char>) -> Seq<char>;

/// `str::to_lowercase`: the text in lower case. What that is of a given text
/// is the Unicode standard's to say; here it only has a name.
#[verifier::external_body]
pub(crate) fn to_lowercase(s: &str) -> (r: String)
    ensures
        r@ == lowercase(s@),
{
    s.to_lowercase()
}

/// The digit `d` as a character, `a`..`f` above nine.
pub open spec fn digit_char(d: int) -> char {
    if d < 10 {
        ((0x30 + d) as u8) as char
    } else {
        ((0x57 + d) as u8) as char
    }
}

/// The digit `d` as a character, `A`..`F` above nine.
pub open spec fn upper_digit_char(d: int) -> char {
    if d < 10 {
        ((0x30 + d) as u8) as char
    } else {
        ((0x37 + d) as u8) as char
    }
}

/// `n` in decimal, without leading zeros.
pub open spec fn dec(n: nat) -> Seq<char>
    decreases n,
{
    if n < 10 {
        seq![digit_char(n as int)]
    } else {
        dec(n / 10).push(digit_char((n % 10) as int))
    }
}

/// `n` in decimal, with a minus sign where it is negative.
pub open spec fn signed_dec(n: int) -> Seq<char> {
    if n < 0 {
        seq!['-'] + dec((-n) as nat)
    } else {
        dec(n as nat)
    }
}

/// `n` in decimal with at least two digits.
pub open spec fn dec2(n: nat) -> Seq<char> {
    if n < 10 {
        seq!['0'] + dec(n)
    } else {
        dec(n)
    }
}

/// A byte as two hexadecimal digits in lower case.
pub open spec fn hex2(n: u8) -> Seq<char> {
    seq![digit_char((n / 16) as int), digit_char((n % 16) as int)]
}

/// A byte as two hexadecimal digits in upper case.
pub open spec fn upper_hex2(n: u8) -> Seq<char> {
    seq![upper_digit_char((n / 16) as int), upper_digit_char((n % 16) as int)]
}

pub fn decimal(n: u64) -> (r: String)
    ensures
        r@ == dec(n as nat),
    decreases n,
{
    let mut out = if n < 10 {
        String::new()
    } else {
        decimal(n / 10)
    };
    out.push((0x30 + (n % 10) as u8) as char);
    assert(out@ =~= dec(n as nat));
    out
}

pub fn signed_decimal(n: i64) -> (r: String)
    ensures
        r@ == signed_dec(n as int),
{
    if n < 0 {
        let mut out = String::new();
        out.push('-');
        let magnitude: u64 = if n == i64::MIN {
            0x8000_0000_0000_0000
        } else {
            (-n) as u64
        };
        out.append(decimal(magnitude).as_str());
        assert(out@ =~= signed_dec(n as int));
        out
    } else {
        decimal(n as u64)
    }
}

pub fn decimal2(n: u64) -> (r: String)
    ensures
        r@ == dec2(n as nat),
{
    if n < 10 {
        let mut out = String::new();
        out.push('0');
        out.append(decimal(n).as_str());
        assert(out@ =~= dec2(n as nat));
        out
    } else {
        decimal(n)
    }
}

pub fn push_hex2(out: &mut String, n: u8)
    ensures
        final(out)@ == old(out)@ + hex2(n),
{
    let high: u8 = n / 16;
    let low: u8 = n % 16;
    out.push((if high < 10 { 0x30 + high } else { 0x57 + high }) as char);
    out.push((if low < 10 { 0x30 + low } else { 0x57 + low }) as char);
    assert(out@ =~= old(out)@ + hex2(n));
}

pub fn push_upper_hex2(out: &mut String, n: u8)
    ensures
        final(out)@ == old(out)@ + upper_hex2(n),
{
    let high: u8 = n / 16;
    let low: u8 = n % 16;
    out.push((if high < 10 { 0x30 + high } else { 0x37 + high }) as char);
    out.push((if low < 10 { 0x30 + low } else { 0x37 + low }) as char);
    assert(out@ =~= old(out)@ + upper_hex2(n));
}

/// Is `c` an ASCII digit?
pub open spec fn is_digit(c: char) -> bool {
    0x30 <= c as u32 <= 0x39
}

pub fn digit(c: char) -> (r: bool)
    ensures
        r == is_digit(c),
{
    let u: u32 = c as u32;
    0x30 <= u && u <= 0x39
}

/// The value of the digit `c` in `radix`, if it is one.
pub open spec fn digit_value(c: char, radix: nat) -> Option<nat> {
    let u = c as u32;
    let v: int = if 0x30 <= u <= 0x39 {
        u - 0x30
    } else if 0x41 <= u <= 0x5A {
        u - 0x37
    } else if 0x61 <= u <= 0x7A {
        u - 0x57
    } else {
        radix as int
    };
    if v < radix {
        Some(v as nat)
    } else {
        None
    }
}

/// The number that `s` writes in `radix`; `None` where a character is no
/// digit. The empty text is zero.
pub open spec fn digits_value(s: Seq<char>, radix: nat) -> Option<nat>
    decreases s.len(),
{
    if s.len() == 0 {
        Some(0)
    } else {
        match (digits_value(s.drop_last(), radix), digit_value(s.last(), radix)) {
            (Some(v), Some(d)) => Some(v * radix + d),
            _ => None,
        }
    }
}

/// `s` read as an unsigned number: an optional `+`, at least one digit, and
/// a value of at most `max`.
pub open spec fn unsigned(s: Seq<char>, radix: nat, max: nat) -> Option<nat> {
    let digits = if s.len() > 0 && s[0] == '+' {
        s.skip(1)
    } else {
        s
    };
    if digits.len() == 0 {
        None
    } else {
        match digits_value(digits, radix) {
            Some(v) if v <= max => Some(v),
            _ => None,
        }
    }
}

/// `s` read as a signed decimal number between `min` and `max`.
pub open spec fn signed(s: Seq<char>, min: int, max: int) -> Option<int> {
    if s.len() > 0 && s[0] == '-' {
        if s.len() == 1 {
            None
        } else {
            match digits_value(s.skip(1), 10) {
                Some(v) if -(v as int) >= min => Some(-(v as int)),
                _ => None,
            }
        }
    } else {
        match unsigned(s, 10, max as nat) {
            Some(v) => Some(v as int),
            None => None,
        }
    }
}

fn value_of_digit(c: char, radix: u64) -> (r: Option<u64>)
    requires
        radix <= 36,
    ensures
        match r {
            Some(v) => digit_value(c, radix as nat) == Some(v as nat) && v < radix,
            None => digit_value(c, radix as nat) is None,
        },
{
    let u: u32 = c as u32;
    let v: u64 = if 0x30 <= u && u <= 0x39 {
        (u - 0x30) as u64
    } else if 0x41 <= u && u <= 0x5A {
        (u - 0x37) as u64
    } else if 0x61 <= u && u <= 0x7A {
        (u - 0x57) as u64
    } else {
        radix
    };
    if v < radix {
        Some(v)
    } else {
        None
    }
}

/// A number only grows as digits are added.
proof fn more_digits(s: Seq<char>, i: int, radix: nat)
    requires
        0 <= i <= s.len(),
        radix >= 1,
    ensures
        match (digits_value(s.take(i), radix), digits_value(s, radix)) {
            (Some(a), Some(b)) => a <= b,
            (None, b) => b is None,
            _ => true,
        },
    decreases s.len() - i,
{
    if i < s.len() {
        more_digits(s, i + 1, radix);
        assert(s.take(i + 1).drop_last() =~= s.take(i));
        assert(s.take(i + 1).last() == s[i]);
        match digits_value(s.take(i), radix) {
            Some(a) => assert(a <= a * radix) by (nonlinear_arith)
                requires
                    radix >= 1,
                    a >= 0,
            ,
            None => {},
        }
    } else {
        assert(s.take(i) =~= s);
    }
}

fn parse_digits(chars: &[char], from: usize, radix: u64, max: u64) -> (r: Option<u64>)
    requires
        from <= chars@.len(),
        1 <= radix <= 36,
    ensures
        match r {
            Some(v) => digits_value(chars@.skip(from as int), radix as nat) == Some(v as nat) && v <= max,
            None => match digits_value(chars@.skip(from as int), radix as nat) {
                Some(v) => v > max,
                None => true,
            },
        },
{
    let ghost s = chars@.skip(from as int);
    let mut value: u64 = 0;
    let mut i: usize = from;
    while i < chars.len()
        invariant
            from <= i <= chars@.len(),
            s == chars@.skip(from as int),
            1 <= radix <= 36,
            value <= max,
            digits_value(s.take(i - from), radix as nat) == Some(value as nat),
        decreases chars@.len() - i,
    {
        proof {
            more_digits(s, i - from + 1, radix as nat);
            assert(s.take(i - from + 1).drop_last() =~= s.take(i - from));
            assert(s.take(i - from + 1).last() == chars@[i as int]);
        }
        match value_of_digit(chars[i], radix) {
            None => return None,
            Some(d) => {
                let scaled: u64 = match value.checked_mul(radix) {
                    Some(scaled) => scaled,
                    None => return None,
                };
                let next: u64 = match scaled.checked_add(d) {
                    Some(next) => next,
                    None => return None,
                };
                if next > max {
                    return None;
                }
                value = next;
            },
        }
        i += 1;
    }
    assert(s.take(i - from) =~= s);
    Some(value)
}

/// Parse an unsigned number, `max` at most.
pub fn parse_unsigned(s: &str, radix: u64, max: u64) -> (r: Option<u64>)
    requires
        1 <= radix <= 36,
    ensures
        match r {
            Some(v) => unsigned(s@, radix as nat, max as nat) == Some(v as nat) && v <= max,
            None => unsigned(s@, radix as nat, max as nat) is None,
        },
{
    let chars = chars_of(s);
    let from: usize = if chars.len() > 0 && chars[0] == '+' {
        1
    } else {
        0
    };
    assert(chars@.skip(0) =~= chars@);
    if from == chars.len() {
        return None;
    }
    parse_digits(chars.as_slice(), from, radix, max)
}

/// Parse a signed 32-bit number.
pub fn parse_i32(s: &str) -> (r: Option<i32>)
    ensures
        match r {
            Some(v) => signed(s@, i32::MIN as int, i32::MAX as int) == Some(v as int),
            None => signed(s@, i32::MIN as int, i32::MAX as int) is None,
        },
{
    let chars = chars_of(s);
    if chars.len() > 0 && chars[0] == '-' {
        if chars.len() == 1 {
            return None;
        }
        match parse_digits(chars.as_slice(), 1, 10, 0x8000_0000) {
            Some(v) => Some((-(v as i64)) as i32),
            None => None,
        }
    } else {
        match parse_unsigned(s, 10, 0x7FFF_FFFF) {
            Some(v) => Some(v as i32),
            None => None,
        }
    }
}

proof fn digit_reads_back(d: int, radix: nat)
    requires
        0 <= d < radix <= 16,
    ensures
        digit_value(digit_char(d), radix) == Some(d as nat),
        digit_value(upper_digit_char(d), radix) == Some(d as nat),
        !is_space(digit_char(d)),
        digit_char(d) != '+' && digit_char(d) != '-',
{
}

/// A number that is written down reads back as the same number.
pub proof fn decimals_read_back(n: nat)
    ensures
        dec(n).len() > 0,
        digits_value(dec(n), 10) == Some(n),
        forall|i: int| 0 <= i < dec(n).len() ==> is_digit(#[trigger] dec(n)[i]),
        n > 0 ==> dec(n)[0] != '0',
    decreases n,
{
    digit_reads_back((n % 10) as int, 10);
    reveal_with_fuel(digits_value, 2);
    if n < 10 {
        assert(dec(n).drop_last() =~= seq![]);
    } else {
        decimals_read_back(n / 10);
        assert(dec(n).drop_last() =~= dec(n / 10));
        assert(dec(n)[0] == dec(n / 10)[0]);
        assert forall|i: int| 0 <= i < dec(n).len() implies is_digit(#[trigger] dec(n)[i]) by {
            if i < dec(n / 10).len() {
                assert(dec(n)[i] == dec(n / 10)[i]);
            }
        }
    }
}

/// So it does where a number is expected, up to the limit that is set.
pub proof fn numbers_read_back(n: nat, max: nat)
    ensures
        n <= max ==> unsigned(dec(n), 10, max) == Some(n),
        n > max ==> unsigned(dec(n), 10, max) is None,
        trimmed(dec(n)) == dec(n),
{
    decimals_read_back(n);
    let s = dec(n);
    assert(is_digit(s[0]) && is_digit(s[s.len() - 1]));
}

/// A number with a sign reads back as well.
pub proof fn signed_numbers_read_back(n: int, min: int, max: int)
    requires
        min <= n <= max,
        0 <= max,
    ensures
        signed(signed_dec(n), min, max) == Some(n),
{
    if n < 0 {
        decimals_read_back((-n) as nat);
        assert(signed_dec(n).skip(1) =~= dec((-n) as nat));
    } else {
        numbers_read_back(n as nat, max as nat);
        decimals_read_back(n as nat);
        assert(is_digit(dec(n as nat)[0]));
    }
}

/// Two hexadecimal digits, small or capital, read back as the byte.
pub proof fn hex_reads_back(b: u8)
    ensures
        hex2(b).len() == 2,
        upper_hex2(b).len() == 2,
        digits_value(hex2(b), 16) == Some(b as nat),
        digits_value(upper_hex2(b), 16) == Some(b as nat),
        unsigned(hex2(b), 16, 255) == Some(b as nat),
{
    digit_reads_back((b / 16) as int, 16);
    digit_reads_back((b % 16) as int, 16);
    reveal_with_fuel(digits_value, 3);
    assert(hex2(b).drop_last() =~= seq![digit_char((b / 16) as int)]);
    assert(upper_hex2(b).drop_last() =~= seq![upper_digit_char((b / 16) as int)]);
    assert(hex2(b).drop_last().drop_last() =~= seq![]);
    assert(upper_hex2(b).drop_last().drop_last() =~= seq![]);
}

/// Two digits at least: a leading zero does not change the number.
pub proof fn two_digits_read_back(n: nat)
    ensures
        dec2(n).len() >= 2,
        digits_value(dec2(n), 10) == Some(n),
{
    decimals_read_back(n);
    reveal_with_fuel(digits_value, 3);
    if n < 10 {
        assert(dec2(n).drop_last() =~= seq!['0']);
        assert(seq!['0'].drop_last() =~= seq![]);
    } else {
        decimals_read_back(n / 10);
    }
}

/// Reading a letter in lower case changes capitals only, and doing it again
/// changes nothing.
pub proof fn lowering_keeps_small_letters(c: char)
    ensures
        lower(lower(c)) == lower(c),
        !('A' <= c && c <= 'Z') ==> lower(c) == c,
        'A' <= c && c <= 'Z' ==> 'a' <= lower(c) && lower(c) <= 'z' && lower(c) as u32 - 'a' as u32 == c as u32
            - 'A' as u32,
{
}

/// Index of the first `c` in `s` at or after `from`; the length if there is
/// none.
pub open spec fn position(s: Seq<char>, c: char, from: nat) -> nat
    decreases s.len() - from,
{
    if from >= s.len() {
        s.len()
    } else if s[from as int] == c {
        from
    } else {
        position(s, c, from + 1)
    }
}

pub proof fn position_bounds(s: Seq<char>, c: char, from: nat)
    requires
        from <= s.len(),
    ensures
        from <= position(s, c, from) <= s.len(),
        position(s, c, from) < s.len() ==> s[position(s, c, from) as int] == c,
        forall|i: int| from <= i < position(s, c, from) ==> s[i] != c,
    decreases s.len() - from,
{
    if from < s.len() && s[from as int] != c {
        position_bounds(s, c, from + 1);
    }
}

/// Index of the first `c` in `chars` at or after `from`.
pub fn find_char(chars: &[char], c: char, from: usize) -> (r: usize)
    requires
        from <= chars@.len(),
    ensures
        r == position(chars@, c, from as nat),
        from <= r <= chars@.len(),
{
    let mut i: usize = from;
    while i < chars.len() && chars[i] != c
        invariant
            from <= i <= chars@.len(),
            position(chars@, c, from as nat) == position(chars@, c, i as nat),
        decreases chars@.len() - i,
    {
        i += 1;
    }
    i
}

/// The characters `from..to` as text.
pub fn slice_text(chars: &[char], from: usize, to: usize) -> (r: String)
    requires
        from <= to <= chars@.len(),
    ensures
        r@ == chars@.subrange(from as int, to as int),
{
    let mut out = String::new();
    let mut i: usize = from;
    assert(out@ =~= chars@.subrange(from as int, from as int));
    while i < to
        invariant
            from <= i <= to <= chars@.len(),
            out@ == chars@.subrange(from as int, i as int),
        decreases to - i,
    {
        out.push(chars[i]);
        assert(out@ =~= chars@.subrange(from as int, i + 1));
        i += 1;
    }
    out
}

/// `s` cut at every `c`. There is one part more than there are cuts.
pub open spec fn split(s: Seq<char>, c: char) -> Seq<Seq<char>>
    decreases s.len(),
    via split_decreases
{
    let at = position(s, c, 0);
    if at >= s.len() {
        seq![s]
    } else {
        seq![s.take(at as int)] + split(s.skip(at as int + 1), c)
    }
}

#[via_fn]
proof fn split_decreases(s: Seq<char>, c: char) {
    position_bounds(s, c, 0);
}

/// The texts in `parts`.
pub open spec fn views(parts: Seq<String>) -> Seq<Seq<char>> {
    parts.map_values(|p: String| p@)
}

proof fn position_in_rest(s: Seq<char>, c: char, cut: nat, from: nat)
    requires
        cut <= from <= s.len(),
    ensures
        position(s, c, from) == cut + position(s.skip(cut as int), c, (from - cut) as nat),
    decreases s.len() - from,
{
    if from < s.len() && s[from as int] != c {
        position_in_rest(s, c, cut, from + 1);
    }
}

pub fn split_at_char(s: &str, c: char) -> (parts: Vec<String>)
    ensures
        views(parts@) == split(s@, c),
{
    let chars = chars_of(s);
    let mut parts: Vec<String> = Vec::new();
    let mut from: usize = 0;
    assert(chars@.skip(0) =~= chars@);
    assert(views(parts@) + split(chars@, c) =~= split(chars@, c));
    loop
        invariant
            from <= chars.len(),
            views(parts@) + split(chars@.skip(from as int), c) == split(chars@, c),
            chars@ == s@,
        decreases chars.len() - from,
    {
        let ghost rest = chars@.skip(from as int);
        let at: usize = find_char(chars.as_slice(), c, from);
        proof {
            position_in_rest(chars@, c, from as nat, from as nat);
        }
        let ghost before = views(parts@);
        let part = slice_text(chars.as_slice(), from, at);
        let ghost text = part@;
        parts.push(part);
        assert(views(parts@) =~= before.push(text));
        if at >= chars.len() {
            assert(text =~= rest);
            assert(views(parts@) =~= before + seq![rest]);
            return parts;
        }
        proof {
            assert(text =~= rest.take(at - from));
            assert(rest.skip(at - from + 1) =~= chars@.skip(at + 1));
            assert(before + (seq![text] + split(chars@.skip(at + 1), c)) =~= before.push(text) + split(
                chars@.skip(at + 1),
                c,
            ));
        }
        from = at + 1;
    }
}

/// A line without the carriage return that belongs to its end.
pub open spec fn without_cr(line: Seq<char>) -> Seq<char> {
    if line.len() > 0 && line.last() == '\r' {
        line.drop_last()
    } else {
        line
    }
}

/// The lines of `s`. A line feed, with or without a carriage return before
/// it, ends a line; one at the very end opens no further line.
pub open spec fn lines(s: Seq<char>) -> Seq<Seq<char>>
    decreases s.len(),
    via lines_decreases
{
    let at = position(s, '\n', 0);
    if s.len() == 0 {
        seq![]
    } else if at >= s.len() {
        seq![s]
    } else {
        seq![without_cr(s.take(at as int))] + lines(s.skip(at as int + 1))
    }
}

#[via_fn]
proof fn lines_decreases(s: Seq<char>) {
    position_bounds(s, '\n', 0);
}

pub fn lines_of(s: &str) -> (r: Vec<String>)
    ensures
        views(r@) == lines(s@),
{
    let chars = chars_of(s);
    let mut out: Vec<String> = Vec::new();
    let mut from: usize = 0;
    assert(chars@.skip(0) =~= chars@);
    assert(views(out@) + lines(chars@) =~= lines(chars@));
    while from < chars.len()
        invariant
            from <= chars.len(),
            views(out@) + lines(chars@.skip(from as int)) == lines(chars@),
            chars@ == s@,
        decreases chars.len() - from,
    {
        let ghost rest = chars@.skip(from as int);
        let at: usize = find_char(chars.as_slice(), '\n', from);
        proof {
            position_in_rest(chars@, '\n', from as nat, from as nat);
        }
        let ghost before = views(out@);
        if at >= chars.len() {
            let line = slice_text(chars.as_slice(), from, at);
            let ghost text = line@;
            out.push(line);
            assert(text =~= rest);
            assert(views(out@) =~= before + seq![rest]);
            assert(before + seq![rest] =~= before + lines(rest));
            return out;
        }
        let end: usize = if at > from && chars[at - 1] == '\r' {
            at - 1
        } else {
            at
        };
        let line = slice_text(chars.as_slice(), from, end);
        let ghost text = line@;
        out.push(line);
        proof {
            assert(views(out@) =~= before.push(text));
            assert(text =~= without_cr(rest.take(at - from)));
            assert(rest.skip(at - from + 1) =~= chars@.skip(at + 1));
            assert(before + (seq![text] + lines(chars@.skip(at + 1))) =~= before.push(text) + lines(
                chars@.skip(at + 1),
            ));
        }
        from = at + 1;
    }
    assert(chars@.skip(from as int) =~= seq![]);
    assert(views(out@) + lines(seq![]) =~= views(out@));
    out
}

/// Does `s` begin with `prefix`?
pub open spec fn begins_with(s: Seq<char>, prefix: Seq<char>) -> bool {
    prefix.len() <= s.len() && s.take(prefix.len() as int) == prefix
}

pub fn starts_with(s: &str, prefix: &str) -> (r: bool)
    ensures
        r == begins_with(s@, prefix@),
{
    let chars = chars_of(s);
    let want = chars_of(prefix);
    if want.len() > chars.len() {
        return false;
    }
    let head = slice_text(chars.as_slice(), 0, want.len());
    assert(head@ =~= s@.take(prefix@.len() as int));
    same(head.as_str(), prefix)
}

/// `parts` one after the other, `sep` between them.
pub open spec fn joined(parts: Seq<Seq<char>>, sep: Seq<char>) -> Seq<char>
    decreases parts.len(),
{
    if parts.len() == 0 {
        seq![]
    } else if parts.len() == 1 {
        parts[0]
    } else {
        joined(parts.drop_last(), sep) + sep + parts.last()
    }
}

pub fn join(parts: &Vec<String>, sep: &str) -> (r: String)
    ensures
        r@ == joined(views(parts@), sep@),
{
    let mut out = String::new();
    let mut i: usize = 0;
    assert(out@ =~= joined(views(parts@).take(0), sep@));
    while i < parts.len()
        invariant
            i <= parts.len(),
            out@ == joined(views(parts@).take(i as int), sep@),
        decreases parts.len() - i,
    {
        let ghost all = views(parts@);
        assert(all.take(i + 1).drop_last() =~= all.take(i as int));
        if i > 0 {
            out.append(sep);
        }
        out.append(parts[i].as_str());
        assert(all.take(i + 1).last() == parts@[i as int]@);
        assert(out@ =~= joined(all.take(i + 1), sep@));
        i += 1;
    }
    assert(views(parts@).take(i as int) =~= views(parts@));
    out
}

/// The first `c` of a text is where a part without `c` ends.
proof fn position_is(head: Seq<char>, c: char, tail: Seq<char>)
    requires
        !head.contains(c),
    ensures
        position(head + seq![c] + tail, c, 0) == head.len(),
        position(head, c, 0) == head.len(),
{
    let all = head + seq![c] + tail;
    position_bounds(all, c, 0);
    position_bounds(head, c, 0);
    assert(all[head.len() as int] == c);
    let at = position(all, c, 0) as int;
    if at < head.len() {
        assert(head[at] == c);
    }
    let within = position(head, c, 0) as int;
    if within < head.len() {
        assert(head[within] == c);
    }
}

/// A text is split where the mark stands: what is before the first mark is the
/// first part, and the rest is split in the same way. A text without a mark is
/// one part.
pub proof fn texts_are_split_at_the_mark(head: Seq<char>, c: char, tail: Seq<char>)
    requires
        !head.contains(c),
    ensures
        split(head + seq![c] + tail, c) == seq![head] + split(tail, c),
        split(head, c) == seq![head],
{
    position_is(head, c, tail);
    let all = head + seq![c] + tail;
    assert(all.take(head.len() as int) =~= head);
    assert(all.skip(head.len() as int + 1) =~= tail);
}

/// A line ends at a line feed, and a carriage return before it belongs to the
/// end; the last line needs none, and an empty text has no lines.
pub proof fn lines_end_at_line_feeds(head: Seq<char>, tail: Seq<char>)
    requires
        !head.contains('\n'),
    ensures
        head.len() == 0 || head.last() != '\r' ==> lines(head + seq!['\n'] + tail) == seq![head] + lines(tail),
        lines(head.push('\r') + seq!['\n'] + tail) == seq![head] + lines(tail),
        head.len() > 0 ==> lines(head) == seq![head],
        lines(seq![]).len() == 0,
{
    position_is(head, '\n', tail);
    let all = head + seq!['\n'] + tail;
    assert(all.take(head.len() as int) =~= head);
    assert(all.skip(head.len() as int + 1) =~= tail);
    let longer = head.push('\r');
    assert(!longer.contains('\n')) by {
        if longer.contains('\n') {
            let i = choose|i: int| 0 <= i < longer.len() && longer[i] == '\n';
            assert(head[i] == '\n');
        }
    }
    position_is(longer, '\n', tail);
    let other = longer + seq!['\n'] + tail;
    assert(other.take(longer.len() as int) =~= longer);
    assert(other.skip(longer.len() as int + 1) =~= tail);
    assert(longer.drop_last() =~= head);
}

/// Parts are joined one behind the other, with the separator between two.
pub proof fn parts_are_joined_in_order(parts: Seq<Seq<char>>, part: Seq<char>, sep: Seq<char>)
    ensures
        parts.len() > 0 ==> joined(parts.push(part), sep) == joined(parts, sep) + sep + part,
        joined(seq![part], sep) == part,
        joined(seq![], sep).len() == 0,
{
    assert(parts.push(part).drop_last() =~= parts);
}

/// A text begins with another if something can be put behind that other to get
/// the text.
pub proof fn beginnings_are_found(s: Seq<char>, prefix: Seq<char>, rest: Seq<char>)
    ensures
        begins_with(prefix + rest, prefix),
        begins_with(s, prefix) ==> s == prefix + s.skip(prefix.len() as int),
        s.len() < prefix.len() ==> !begins_with(s, prefix),
{
    assert((prefix + rest).take(prefix.len() as int) =~= prefix);
    if begins_with(s, prefix) {
        assert(s =~= s.take(prefix.len() as int) + s.skip(prefix.len() as int));
    }
}

/// White space is dropped at the ends and nowhere else: blanks, tabs and line
/// ends are, letters, digits and punctuation are not.
pub proof fn blanks_are_dropped_at_the_ends(s: Seq<char>, c: char)
    ensures
        is_space(c) ==> trimmed_start(seq![c] + s) == trimmed_start(s) && trimmed_end(s.push(c)) == trimmed_end(s),
        !is_space(c) ==> trimmed_start(seq![c] + s) == seq![c] + s && trimmed_end(s.push(c)) == s.push(c),
        !is_space(c) ==> trimmed(seq![c]) == seq![c],
        is_space(' ') && is_space('\t') && is_space('\n') && is_space('\r'),
        '!' <= c <= '~' ==> !is_space(c),
{
    assert((seq![c] + s).skip(1) =~= s);
    assert(s.push(c).drop_last() =~= s);
}

} // verus!
