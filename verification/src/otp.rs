use vstd::prelude::*;

use crate::text::chars_of;

verus! {

/// The Erlang/OTP major release that the build tool works with.
pub const REQUIRED_OTP_MAJOR: u32 = 28;

/// Whether `c` is one of the ASCII digits `0` to `9`.
pub open spec fn is_ascii_digit(c: char) -> bool {
    0x30 <= (c as u32) <= 0x39
}

/// The number that the ASCII digit `c` stands for.
pub open spec fn digit_value(c: char) -> nat {
    ((c as u32) - 0x30) as nat
}

/// The longest prefix of `s` made of ASCII digits.
pub open spec fn leading_digits(s: Seq<char>) -> Seq<char>
    decreases s.len(),
{
    if s.len() == 0 || !is_ascii_digit(s[0]) {
        Seq::empty()
    } else {
        seq![s[0]] + leading_digits(s.drop_first())
    }
}

/// The number written by the decimal digits `d`, most significant first.
pub open spec fn decimal_value(d: Seq<char>) -> nat
    decreases d.len(),
{
    if d.len() == 0 {
        0
    } else {
        10 * decimal_value(d.drop_last()) + digit_value(d.last())
    }
}

/// The OTP major release read from a release string: the number written by its
/// leading ASCII digits, when there is at least one and it fits in a `u32`.
pub open spec fn otp_major(release: Seq<char>) -> Option<u32> {
    let digits = leading_digits(release);
    if digits.len() == 0 || decimal_value(digits) > u32::MAX {
        None
    } else {
        Some(decimal_value(digits) as u32)
    }
}

/// When the first `k` characters of `s` are digits and the one after them (if any)
/// is not, those `k` characters are exactly the leading digits.
proof fn lemma_leading_digits_prefix(s: Seq<char>, k: int)
    requires
        0 <= k <= s.len(),
        forall|j: int| 0 <= j < k ==> is_ascii_digit(#[trigger] s[j]),
        k == s.len() || !is_ascii_digit(s[k]),
    ensures
        leading_digits(s) == s.take(k),
    decreases k,
{
    if k == 0 {
        assert(s.take(0) =~= Seq::<char>::empty());
    } else {
        let t = s.drop_first();
        assert forall|j: int| 0 <= j < k - 1 implies is_ascii_digit(#[trigger] t[j]) by {
            assert(t[j] == s[j + 1]);
        }
        if k - 1 < t.len() {
            assert(t[k - 1] == s[k]);
        }
        lemma_leading_digits_prefix(t, k - 1);
        assert(s.take(k) =~= seq![s[0]] + t.take(k - 1));
    }
}

/// Adding a digit at the end never makes a decimal number smaller.
proof fn lemma_decimal_value_grows(d: Seq<char>, c: char)
    ensures
        decimal_value(d.push(c)) >= decimal_value(d),
        decimal_value(d.push(c)) == 10 * decimal_value(d) + digit_value(c),
{
    assert(d.push(c).drop_last() =~= d);
}

/// Reads the OTP major release from the output of `erl`: the leading ASCII
/// digits of `release`, as a `u32`. `None` when `release` does not start with
/// a digit or the number does not fit in a `u32`.
pub fn parse_otp_major(release: &str) -> (major: Option<u32>)
    ensures
        major == otp_major(release@),
{
    let chars = chars_of(release);
    let mut i: usize = 0;
    let mut value: u64 = 0;
    let mut overflow = false;
    while i < chars.len() && 0x30 <= (chars[i] as u32) && (chars[i] as u32) <= 0x39
        invariant
            chars@ == release@,
            i <= chars.len(),
            forall|j: int| 0 <= j < i ==> is_ascii_digit(#[trigger] chars@[j]),
            !overflow ==> value == decimal_value(chars@.take(i as int)) && value <= u32::MAX,
            overflow ==> decimal_value(chars@.take(i as int)) > u32::MAX,
        decreases chars.len() - i,
    {
        let c = chars[i];
        proof {
            assert(chars@.take(i + 1) =~= chars@.take(i as int).push(c));
            lemma_decimal_value_grows(chars@.take(i as int), c);
        }
        if !overflow {
            let next = value * 10 + ((c as u32) - 0x30) as u64;
            if next > 0xffff_ffff {
                overflow = true;
            } else {
                value = next;
            }
        }
        i = i + 1;
    }
    proof {
        lemma_leading_digits_prefix(chars@, i as int);
    }
    if i == 0 || overflow {
        None
    } else {
        Some(value as u32)
    }
}

/// The ASCII digit for `d`, when `d < 10`.
pub open spec fn digit_char(d: nat) -> char {
    (0x30 + d) as char
}

/// The decimal digits of `n`, most significant first, without leading zeros.
pub open spec fn decimal_digits(n: nat) -> Seq<char>
    decreases n,
{
    if n < 10 {
        seq![digit_char(n)]
    } else {
        decimal_digits(n / 10).push(digit_char(n % 10))
    }
}

proof fn lemma_decimal_digits(n: nat)
    ensures
        decimal_digits(n).len() >= 1,
        forall|j: int| 0 <= j < decimal_digits(n).len() ==> is_ascii_digit(#[trigger] decimal_digits(n)[j]),
        decimal_value(decimal_digits(n)) == n,
    decreases n,
{
    assert(digit_value(digit_char(n % 10)) == n % 10);
    if n >= 10 {
        lemma_decimal_digits(n / 10);
        let d = decimal_digits(n / 10);
        lemma_decimal_value_grows(d, digit_char(n % 10));
        assert forall|j: int| 0 <= j < decimal_digits(n).len() implies is_ascii_digit(#[trigger] decimal_digits(n)[j]) by {
            if j < d.len() {
                assert(decimal_digits(n)[j] == d[j]);
            }
        }
        assert(decimal_digits(n) == d.push(digit_char(n % 10)));
        assert(10 * (n / 10) + n % 10 == n);
    } else {
        assert(decimal_digits(n).drop_last() =~= Seq::<char>::empty());
        assert(decimal_digits(n).last() == digit_char(n));
        assert(decimal_value(Seq::<char>::empty()) == 0);
    }
}

/// Appends the decimal digits of `n` to `out`.
fn push_decimal(n: u32, out: &mut Vec<char>)
    ensures
        final(out)@ == old(out)@ + decimal_digits(n as nat),
    decreases n,
{
    if n >= 10 {
        push_decimal(n / 10, out);
    }
    let d: u8 = (n % 10) as u8;
    let c = (0x30u8 + d) as char;
    out.push(c);
    proof {
        if n >= 10 {
            assert(old(out)@ + decimal_digits(n as nat) =~= old(out)@ + decimal_digits((n / 10) as nat) + seq![c]);
        } else {
            assert(old(out)@ + decimal_digits(n as nat) =~= old(out)@.push(c));
        }
    }
}

/// `n` written in decimal.
pub fn decimal_string(n: u32) -> (s: String)
    ensures
        s@ == decimal_digits(n as nat),
{
    let mut chars: Vec<char> = Vec::new();
    push_decimal(n, &mut chars);
    assert(chars@ =~= decimal_digits(n as nat));
    crate::text::string_from_chars(&chars)
}

/// A release that starts with a `u32` written in decimal, followed by nothing
/// or by a character that is not a digit, gives back that number as its major
/// release (so "28" and "28.0.2" both give 28).
pub proof fn law_major_reads_back_decimal(n: u32, rest: Seq<char>)
    requires
        rest.len() == 0 || !is_ascii_digit(rest[0]),
    ensures
        otp_major(decimal_digits(n as nat) + rest) == Some(n),
{
    let d = decimal_digits(n as nat);
    lemma_decimal_digits(n as nat);
    let s = d + rest;
    assert forall|j: int| 0 <= j < d.len() implies is_ascii_digit(#[trigger] s[j]) by {
        assert(s[j] == d[j]);
    }
    if d.len() < s.len() {
        assert(s[d.len() as int] == rest[0]);
    }
    lemma_leading_digits_prefix(s, d.len() as int);
    assert(s.take(d.len() as int) =~= d);
}

/// A release that does not start with an ASCII digit has no major release.
pub proof fn law_no_leading_digit_no_major(release: Seq<char>)
    requires
        release.len() == 0 || !is_ascii_digit(release[0]),
    ensures
        otp_major(release) is None,
{
}

/// Whether `c` is one of the characters `0` to `9`, named one by one.
pub open spec fn is_decimal_digit_char(c: char) -> bool {
    c == '0' || c == '1' || c == '2' || c == '3' || c == '4' || c == '5' || c == '6' || c == '7'
        || c == '8' || c == '9'
}

proof fn lemma_digit_chars(c: char)
    ensures
        is_ascii_digit(c) <==> is_decimal_digit_char(c),
{
}

/// When `d` is made of the characters `0` to `9` and `rest` does not start with
/// one, the leading digits of `d + rest` are `d`.
proof fn lemma_digits_then_rest(d: Seq<char>, rest: Seq<char>)
    requires
        forall|j: int| 0 <= j < d.len() ==> is_decimal_digit_char(#[trigger] d[j]),
        rest.len() == 0 || !is_decimal_digit_char(rest[0]),
    ensures
        leading_digits(d + rest) == d,
{
    let s = d + rest;
    assert forall|j: int| 0 <= j < d.len() implies is_ascii_digit(#[trigger] s[j]) by {
        assert(s[j] == d[j]);
        lemma_digit_chars(d[j]);
    }
    if d.len() < s.len() {
        assert(s[d.len() as int] == rest[0]);
        lemma_digit_chars(rest[0]);
    }
    lemma_leading_digits_prefix(s, d.len() as int);
    assert(s.take(d.len() as int) =~= d);
}

/// A release whose first character is one of `0` to `9`, followed by nothing or
/// by a character that is not one of them, has that digit's value as its major
/// release.
pub proof fn law_single_digit_major(c: char, rest: Seq<char>)
    requires
        is_decimal_digit_char(c),
        rest.len() == 0 || !is_decimal_digit_char(rest[0]),
    ensures
        otp_major(seq![c] + rest) == Some(((c as u32) - ('0' as u32)) as u32),
{
    lemma_digits_then_rest(seq![c], rest);
    assert(seq![c].drop_last() =~= Seq::<char>::empty());
    lemma_decimal_value_grows(Seq::<char>::empty(), c);
    assert(Seq::<char>::empty().push(c) =~= seq![c]);
    assert(decimal_value(Seq::<char>::empty()) == 0);
    assert(decimal_value(seq![c]) == digit_value(c));
    assert(('0' as u32) == 0x30);
    lemma_digit_chars(c);
}

/// Writing one more digit after the leading digits of a release multiplies its
/// major release by ten and adds the digit's value (as long as it fits).
pub proof fn law_digit_appended(d: Seq<char>, c: char, rest: Seq<char>)
    requires
        d.len() > 0,
        forall|j: int| 0 <= j < d.len() ==> is_decimal_digit_char(#[trigger] d[j]),
        is_decimal_digit_char(c),
        rest.len() == 0 || !is_decimal_digit_char(rest[0]),
        otp_major(d.push(c) + rest) is Some,
    ensures
        otp_major(d + rest) is Some,
        otp_major(d.push(c) + rest)->0 == 10 * otp_major(d + rest)->0 + ((c as u32) - ('0' as u32)),
{
    lemma_digits_then_rest(d, rest);
    let dc = d.push(c);
    assert forall|j: int| 0 <= j < dc.len() implies is_decimal_digit_char(#[trigger] dc[j]) by {
        if j < d.len() {
            assert(dc[j] == d[j]);
        }
    }
    lemma_digits_then_rest(dc, rest);
    lemma_decimal_value_grows(d, c);
}

/// A release whose first character is not one of `0` to `9` has no major
/// release.
pub proof fn law_no_digit_first_no_major(release: Seq<char>)
    requires
        release.len() == 0 || !is_decimal_digit_char(release[0]),
    ensures
        otp_major(release) is None,
{
    if release.len() > 0 {
        lemma_digit_chars(release[0]);
    }
}

} // verus!
