//! Decimal numbers, written and read.

use vstd::prelude::*;

use crate::text::chars_of;

verus! {

broadcast use vstd::string::group_string_axioms;

// ---------------------------------------------------------------------------
// Writing
// ---------------------------------------------------------------------------

/// The character for a digit below ten.
pub open spec fn digit(d: nat) -> char {
    (48 + d) as u8 as char
}

/// `n` in decimal, without leading zeros.
pub open spec fn decimal(n: nat) -> Seq<char>
    decreases n,
{
    if n < 10 {
        seq![digit(n)]
    } else {
        decimal(n / 10).push(digit(n % 10))
    }
}

/// Tenths as a decimal number with one digit behind the point.
pub open spec fn with_one_decimal(tenths: nat) -> Seq<char> {
    decimal(tenths / 10) + seq!['.', digit(tenths % 10)]
}

/// Writes a digit below ten.
pub fn digit_char(d: u64) -> (c: char)
    requires
        d < 10,
    ensures
        c == digit(d as nat),
{
    (48 + d as u8) as char
}

/// Writes `n` in decimal.
pub fn decimal_text(n: u64) -> (text: String)
    ensures
        text@ == decimal(n as nat),
    decreases n,
{
    if n < 10 {
        let mut text: String = String::new();
        text.push(digit_char(n));
        assert(text@ =~= decimal(n as nat));
        text
    } else {
        let mut text: String = decimal_text(n / 10);
        text.push(digit_char(n % 10));
        text
    }
}

/// `n` in decimal, with a minus sign where it is negative.
pub open spec fn signed_decimal(n: int) -> Seq<char> {
    if n < 0 {
        seq!['-'] + decimal((-n) as nat)
    } else {
        decimal(n as nat)
    }
}

/// Writes `n` in decimal, with its sign where it is negative.
pub fn signed_text(n: i32) -> (text: String)
    ensures
        text@ == signed_decimal(n as int),
{
    if n < 0 {
        let mut text: String = String::new();
        text.push('-');
        text.append(decimal_text((0 - n as i64) as u64).as_str());
        assert(text@ =~= signed_decimal(n as int));
        text
    } else {
        decimal_text(n as u64)
    }
}

/// Writes tenths with one digit behind the point.
pub fn one_decimal_text(tenths: u32) -> (text: String)
    ensures
        text@ == with_one_decimal(tenths as nat),
{
    let n: u64 = tenths as u64;
    let mut text: String = decimal_text(n / 10);
    text.push('.');
    text.push(digit_char(n % 10));
    assert(text@ =~= with_one_decimal(tenths as nat));
    text
}

// ---------------------------------------------------------------------------
// Reading
// ---------------------------------------------------------------------------

/// A character from `0` to `9`.
pub open spec fn is_digit(c: char) -> bool {
    '0' <= c <= '9'
}

/// What a digit counts.
pub open spec fn digit_value(c: char) -> nat {
    (c as nat - 48) as nat
}

/// At least one character, and nothing but digits.
pub open spec fn all_digits(s: Seq<char>) -> bool {
    s.len() > 0 && forall|i: int| 0 <= i < s.len() ==> is_digit(#[trigger] s[i])
}

/// What a row of digits counts.
pub open spec fn digits_value(s: Seq<char>) -> nat
    decreases s.len(),
{
    if s.len() == 0 {
        0
    } else {
        digits_value(s.drop_last()) * 10 + digit_value(s.last())
    }
}

/// What a whole number with an optional sign counts, if `s` is one.
pub open spec fn signed_value(s: Seq<char>) -> Option<int> {
    if s.len() > 0 && s[0] == '-' {
        if all_digits(s.skip(1)) {
            Some(-digits_value(s.skip(1)))
        } else {
            None
        }
    } else if s.len() > 0 && s[0] == '+' {
        if all_digits(s.skip(1)) {
            Some(digits_value(s.skip(1)) as int)
        } else {
            None
        }
    } else if all_digits(s) {
        Some(digits_value(s) as int)
    } else {
        None
    }
}

/// What `s` counts as an `i32`: nothing where it is no whole number or does
/// not fit.
pub open spec fn i32_value(s: Seq<char>) -> Option<i32> {
    match signed_value(s) {
        Some(v) => if i32::MIN <= v <= i32::MAX {
            Some(v as i32)
        } else {
            None
        },
        None => None,
    }
}

/// More digits never count less.
proof fn lemma_digits_value_grows(s: Seq<char>, k: int)
    requires
        0 <= k <= s.len(),
    ensures
        digits_value(s.take(k)) <= digits_value(s),
    decreases s.len() - k,
{
    if k == s.len() {
        assert(s.take(k) =~= s);
    } else {
        lemma_digits_value_grows(s, k + 1);
        assert(s.take(k + 1).drop_last() =~= s.take(k));
    }
}

/// Reads `chars[from..to]` as a row of digits that counts at most `limit`.
pub fn read_digits(chars: &Vec<char>, from: usize, to: usize, limit: u64) -> (value: Option<u64>)
    requires
        from <= to <= chars.len(),
        limit <= 0xffff_ffff_ffff,
    ensures
        value == ({
            let s = chars@.subrange(from as int, to as int);
            if all_digits(s) && digits_value(s) <= limit {
                Some(digits_value(s) as u64)
            } else {
                None
            }
        }),
{
    let ghost s = chars@.subrange(from as int, to as int);
    if from == to {
        return None;
    }
    let mut value: u64 = 0;
    let mut i: usize = from;
    assert(s.take(0) =~= Seq::<char>::empty());
    while i < to
        invariant
            from <= i <= to <= chars.len(),
            limit <= 0xffff_ffff_ffff,
            s == chars@.subrange(from as int, to as int),
            value == digits_value(s.take(i - from)),
            value <= limit,
            forall|k: int| 0 <= k < i - from ==> is_digit(#[trigger] s[k]),
        decreases to - i,
    {
        let c: char = chars[i];
        assert(s[i - from] == c);
        if !('0' <= c && c <= '9') {
            return None;
        }
        value = value * 10 + ((c as u32) - 48) as u64;
        proof {
            let next = s.take(i - from + 1);
            assert(next.drop_last() =~= s.take(i - from));
            assert(next.last() == c);
            lemma_digits_value_grows(s, i - from + 1);
        }
        if value > limit {
            return None;
        }
        i = i + 1;
    }
    assert(s.take(i - from) =~= s);
    Some(value)
}

/// Decides whether `chars[from..to]` is a row of digits.
pub fn are_digits(chars: &Vec<char>, from: usize, to: usize) -> (yes: bool)
    requires
        from <= to <= chars.len(),
    ensures
        yes == all_digits(chars@.subrange(from as int, to as int)),
{
    let ghost s = chars@.subrange(from as int, to as int);
    let mut i: usize = from;
    while i < to
        invariant
            from <= i <= to <= chars.len(),
            s == chars@.subrange(from as int, to as int),
            forall|k: int| 0 <= k < i - from ==> is_digit(#[trigger] s[k]),
        decreases to - i,
    {
        let c: char = chars[i];
        assert(s[i - from] == c);
        if !('0' <= c && c <= '9') {
            return false;
        }
        i = i + 1;
    }
    from < to
}

/// Reads an `i32`: an optional sign and digits.
pub fn parse_i32(s: &str) -> (value: Option<i32>)
    ensures
        value == i32_value(s@),
{
    let chars: Vec<char> = chars_of(s);
    let len: usize = chars.len();
    assert(chars@.subrange(0, len as int) =~= chars@);
    assert(len > 0 ==> chars@.subrange(1, len as int) =~= chars@.skip(1));
    if len > 0 && chars[0] == '-' {
        match read_digits(&chars, 1, len, 2147483648) {
            Some(v) => Some((0 - (v as i64)) as i32),
            None => None,
        }
    } else if len > 0 && chars[0] == '+' {
        match read_digits(&chars, 1, len, 2147483647) {
            Some(v) => Some(v as i32),
            None => None,
        }
    } else {
        match read_digits(&chars, 0, len, 2147483647) {
            Some(v) => Some(v as i32),
            None => None,
        }
    }
}

/// What is written in decimal reads back as itself.
pub proof fn decimal_reads_back(n: nat)
    ensures
        all_digits(decimal(n)),
        digits_value(decimal(n)) == n,
    decreases n,
{
    if n < 10 {
        let s = seq![digit(n)];
        assert(s.drop_last() =~= Seq::<char>::empty());
        assert(digits_value(s.drop_last()) == 0);
        assert(digits_value(s) == digit_value(digit(n)));
    } else {
        decimal_reads_back(n / 10);
        let s = decimal(n);
        assert(s.drop_last() =~= decimal(n / 10));
        assert forall|i: int| 0 <= i < s.len() implies is_digit(#[trigger] s[i]) by {
            if i < decimal(n / 10).len() {
                assert(s[i] == decimal(n / 10)[i]);
            }
        }
    }
}

/// An `i32` that is written in decimal reads back as itself.
pub proof fn signed_decimal_reads_back(n: i32)
    ensures
        i32_value(signed_decimal(n as int)) == Some(n),
{
    let s = signed_decimal(n as int);
    if n < 0 {
        decimal_reads_back((-n) as nat);
        assert(s.skip(1) =~= decimal((-n) as nat));
    } else {
        decimal_reads_back(n as nat);
        assert(is_digit(s[0]));
    }
}

/// Two numbers that are written alike are the same.
pub proof fn decimal_is_injective(a: nat, b: nat)
    requires
        decimal(a) == decimal(b),
    ensures
        a == b,
{
    decimal_reads_back(a);
    decimal_reads_back(b);
}

// ---------------------------------------------------------------------------
// Numbers with a decimal point
// ---------------------------------------------------------------------------

/// Where the first decimal point of `s` stands, or its end.
pub open spec fn point_at(s: Seq<char>) -> nat
    decreases s.len(),
{
    if s.len() == 0 || s[0] == '.' {
        0
    } else {
        point_at(s.drop_first()) + 1
    }
}

/// The tenths that a row of digits behind a decimal point counts, rounded by
/// the second digit.
pub open spec fn rounded_tenths(fraction: Seq<char>) -> nat {
    digit_value(fraction[0]) + if fraction.len() > 1 && digit_value(fraction[1]) >= 5 {
        1nat
    } else {
        0nat
    }
}

/// How many tenths `s` counts: digits, and perhaps a decimal point with more
/// digits behind it.
pub open spec fn tenths_value(s: Seq<char>) -> Option<nat> {
    let at = point_at(s) as int;
    if at == s.len() {
        if all_digits(s) {
            Some(digits_value(s) * 10)
        } else {
            None
        }
    } else if all_digits(s.take(at)) && all_digits(s.skip(at + 1)) {
        Some(digits_value(s.take(at)) * 10 + rounded_tenths(s.skip(at + 1)))
    } else {
        None
    }
}

/// How many tenths `s` counts, where they fit a `u32`.
pub open spec fn u32_tenths_value(s: Seq<char>) -> Option<u32> {
    match tenths_value(s) {
        Some(v) => if v <= u32::MAX {
            Some(v as u32)
        } else {
            None
        },
        None => None,
    }
}

proof fn lemma_point_at(s: Seq<char>, at: int)
    requires
        0 <= at <= s.len(),
        forall|k: int| 0 <= k < at ==> #[trigger] s[k] != '.',
        at < s.len() ==> s[at] == '.',
    ensures
        point_at(s) == at,
    decreases s.len(),
{
    if at > 0 {
        assert(s[0] != '.');
        lemma_point_at(s.drop_first(), at - 1);
    }
}

/// Reads a number of tenths.
pub fn parse_tenths(s: &Vec<char>) -> (value: Option<u32>)
    ensures
        value == u32_tenths_value(s@),
{
    let len: usize = s.len();
    let mut at: usize = 0;
    while at < len && s[at] != '.'
        invariant
            at <= len,
            len == s.len(),
            forall|k: int| 0 <= k < at ==> #[trigger] s@[k] != '.',
        decreases len - at,
    {
        at = at + 1;
    }
    proof {
        lemma_point_at(s@, at as int);
        assert(s@.subrange(0, at as int) =~= s@.take(at as int));
        assert(at == len ==> s@.take(at as int) =~= s@);
    }
    let whole: u64 = match read_digits(s, 0, at, 429496729) {
        Some(v) => v,
        None => {
            return None;
        },
    };
    if at == len {
        return Some((whole * 10) as u32);
    }
    proof {
        assert(s@.subrange(at + 1, len as int) =~= s@.skip(at + 1));
    }
    if !are_digits(s, at + 1, len) {
        return None;
    }
    let ghost fraction = s@.skip(at + 1);
    assert(fraction.len() > 0);
    assert(is_digit(fraction[0]));
    let first: u64 = ((s[at + 1] as u32) - 48) as u64;
    let mut tenths: u64 = whole * 10 + first;
    if len - at > 2 {
        assert(is_digit(fraction[1]));
        if (s[at + 2] as u32) - 48 >= 5 {
            tenths = tenths + 1;
        }
    }
    if tenths <= 4294967295 {
        Some(tenths as u32)
    } else {
        None
    }
}

/// What is written with one decimal reads back as itself.
pub proof fn one_decimal_reads_back(tenths: nat)
    ensures
        tenths_value(with_one_decimal(tenths)) == Some(tenths),
{
    let s = with_one_decimal(tenths);
    let whole = decimal(tenths / 10);
    let at = whole.len() as int;
    decimal_reads_back(tenths / 10);
    assert forall|k: int| 0 <= k < at implies #[trigger] s[k] != '.' by {
        assert(s[k] == whole[k]);
    }
    lemma_point_at(s, at);
    assert(s.take(at) =~= whole);
    assert(s.skip(at + 1) =~= seq![digit(tenths % 10)]);
}

// ---------------------------------------------------------------------------
// What the numerals stand for
// ---------------------------------------------------------------------------

/// A row of the characters `0` to `9`, at least one.
pub open spec fn is_numeral(s: Seq<char>) -> bool {
    s.len() > 0 && forall|i: int| 0 <= i < s.len() ==> '0' <= #[trigger] s[i] <= '9'
}

/// What a numeral stands for: each place counts ten times the place behind it.
pub open spec fn place_value(s: Seq<char>) -> int
    decreases s.len(),
{
    if s.len() == 0 {
        0
    } else {
        10 * place_value(s.take(s.len() - 1)) + (s[s.len() - 1] as u32 - 48)
    }
}

proof fn lemma_place_value(s: Seq<char>)
    requires
        all_digits(s),
    ensures
        place_value(s) == digits_value(s),
    decreases s.len(),
{
    let front = s.drop_last();
    assert(front =~= s.take(s.len() - 1));
    assert(is_digit(s[s.len() - 1]));
    if front.len() > 0 {
        assert forall|i: int| 0 <= i < front.len() implies is_digit(#[trigger] front[i]) by {
            assert(is_digit(s[i]));
        }
        lemma_place_value(front);
    }
}

/// Numbers are written as the numeral that stands for them, without a leading
/// zero.
pub proof fn decimals_are_numerals(n: nat)
    ensures
        is_numeral(decimal(n)),
        place_value(decimal(n)) == n,
        decimal(n)[0] == '0' ==> n == 0 && decimal(n).len() == 1,
    decreases n,
{
    decimal_reads_back(n);
    lemma_place_value(decimal(n));
    let s = decimal(n);
    assert forall|i: int| 0 <= i < s.len() implies '0' <= #[trigger] s[i] <= '9' by {
        assert(is_digit(s[i]));
    }
    if n >= 10 {
        decimals_are_numerals(n / 10);
        assert(s[0] == decimal(n / 10)[0]);
    }
}

/// Tenths are written as the whole number, a point and the one digit that is left.
pub proof fn tenths_are_written_with_a_point(tenths: nat)
    ensures
        ({
            let s = with_one_decimal(tenths);
            let point = s.len() - 2;
            &&& point > 0
            &&& s[point] == '.'
            &&& is_numeral(s.take(point))
            &&& is_numeral(s.skip(point + 1))
            &&& 10 * place_value(s.take(point)) + place_value(s.skip(point + 1)) == tenths
            &&& s[0] == '0' ==> tenths < 10
        }),
{
    let s = with_one_decimal(tenths);
    let whole = decimal(tenths / 10);
    let point = s.len() - 2;
    decimals_are_numerals(tenths / 10);
    assert(s.take(point) =~= whole);
    let last = s.skip(point + 1);
    assert(last =~= seq![digit(tenths % 10)]);
    assert(last.take(0) =~= Seq::<char>::empty());
    assert(place_value(last.take(0)) == 0);
    assert(s[0] == whole[0]);
}

/// A text reads as a whole number of thirty-two bits exactly where it is a
/// numeral, or a plus or a minus and a numeral, and what it stands for fits.
pub proof fn whole_numbers_read_as_they_stand(s: Seq<char>, v: i32)
    ensures
        i32_value(s) == Some(v) <==> {
            ||| is_numeral(s) && place_value(s) == v
            ||| s.len() > 0 && s[0] == '+' && is_numeral(s.skip(1)) && place_value(s.skip(1)) == v
            ||| s.len() > 0 && s[0] == '-' && is_numeral(s.skip(1)) && -place_value(s.skip(1)) == v
        },
{
    lemma_numeral_is_digits(s);
    lemma_numeral_is_digits(s.skip(1));
    if is_numeral(s) {
        assert('0' <= s[0] <= '9');
    }
}

proof fn lemma_numeral_is_digits(s: Seq<char>)
    ensures
        is_numeral(s) <==> all_digits(s),
        is_numeral(s) ==> place_value(s) == digits_value(s),
{
    if is_numeral(s) {
        assert forall|i: int| 0 <= i < s.len() implies is_digit(#[trigger] s[i]) by {
            assert('0' <= s[i] <= '9');
        }
        lemma_place_value(s);
    }
    if all_digits(s) {
        assert forall|i: int| 0 <= i < s.len() implies '0' <= #[trigger] s[i] <= '9' by {
            assert(is_digit(s[i]));
        }
    }
}

/// Negative numbers are written with a minus sign, others without a sign.
pub proof fn signs_are_written(n: int)
    ensures
        n >= 0 ==> signed_decimal(n) == decimal(n as nat),
        n < 0 ==> signed_decimal(n) == seq!['-'] + decimal((-n) as nat),
{
}

/// A size is read to the tenth: a numeral stands for that many points, and a
/// numeral, a point and another numeral for the tenths that they make, rounded by
/// the second digit behind the point.
pub proof fn sizes_read_to_the_tenth(whole: Seq<char>, fraction: Seq<char>)
    requires
        is_numeral(whole),
        is_numeral(fraction),
    ensures
        tenths_value(whole) == Some((10 * place_value(whole)) as nat),
        tenths_value(whole + seq!['.'] + fraction) == Some(
            (10 * place_value(whole) + place_value(fraction.take(1)) + if fraction.len() > 1
                && fraction[1] >= '5' {
                1int
            } else {
                0
            }) as nat,
        ),
{
    let s = whole + seq!['.'] + fraction;
    lemma_numeral_is_digits(whole);
    lemma_numeral_is_digits(fraction);
    assert forall|k: int| 0 <= k < whole.len() implies #[trigger] whole[k] != '.' by {
        assert('0' <= whole[k] <= '9');
    }
    assert forall|k: int| 0 <= k < whole.len() implies #[trigger] s[k] != '.' by {
        assert(s[k] == whole[k]);
    }
    lemma_point_at(whole, whole.len() as int);
    lemma_point_at(s, whole.len() as int);
    assert(s.take(whole.len() as int) =~= whole);
    assert(s.skip(whole.len() as int + 1) =~= fraction);
    let first = fraction.take(1);
    assert(first.take(0) =~= Seq::<char>::empty());
    assert(place_value(first.take(0)) == 0);
    assert('0' <= fraction[0] <= '9');
    if fraction.len() > 1 {
        assert('0' <= fraction[1] <= '9');
    }
}

} // verus!
