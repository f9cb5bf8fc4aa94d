//! The numerals of a scene description.
//!
//! A real number is written as a decimal numeral with an optional fraction
//! and exponent, or as one of the words `inf`, `infinity` and `nan`, in any
//! mix of upper and lower case. The library checks the form of such a numeral
//! and keeps its text; it never computes with its value.

use vstd::prelude::*;
use crate::text::chars_of;

verus! {

/// One of the ten digits.
pub open spec fn is_digit(c: char) -> bool {
    '0' <= c && c <= '9'
}

/// Whether a text holds digits only. The empty text does.
pub open spec fn all_digits(s: Seq<char>) -> bool {
    forall|i: int| 0 <= i < s.len() ==> is_digit(#[trigger] s[i])
}

/// The lower-case form of an ASCII capital; any other character unchanged.
pub open spec fn fold(c: char) -> char {
    if 'A' <= c && c <= 'Z' {
        ((c as u8) + 32) as char
    } else {
        c
    }
}

/// The text with every ASCII capital in lower case.
pub open spec fn folded(s: Seq<char>) -> Seq<char> {
    Seq::new(s.len(), |i: int| fold(s[i]))
}

fn fold_char(c: char) -> (r: char)
    ensures
        r == fold(c),
{
    if c >= 'A' && c <= 'Z' {
        ((c as u8) + 32u8) as char
    } else {
        c
    }
}

/// Where the first `c` at or after `from` stands in `s`; the length of `s`
/// where there is none.
pub open spec fn position_from(s: Seq<char>, c: char, from: int) -> int
    decreases s.len() - from,
{
    if from < 0 || from >= s.len() {
        s.len() as int
    } else if s[from] == c {
        from
    } else {
        position_from(s, c, from + 1)
    }
}

/// Where the first `c` stands in `s`; the length of `s` where there is none.
pub open spec fn position(s: Seq<char>, c: char) -> int {
    position_from(s, c, 0)
}

/// Digits with at most one point among them, and at least one digit.
pub open spec fn is_mantissa(m: Seq<char>) -> bool {
    let point = position(m, '.');
    if point == m.len() {
        m.len() > 0 && all_digits(m)
    } else {
        m.len() > 1 && all_digits(m.take(point)) && all_digits(m.skip(point + 1))
    }
}

/// An optional sign and then at least one digit.
pub open spec fn is_exponent(x: Seq<char>) -> bool {
    x.len() > 0 && {
        let digits = if x[0] == '+' || x[0] == '-' {
            x.skip(1)
        } else {
            x
        };
        digits.len() > 0 && all_digits(digits)
    }
}

/// A mantissa, and after it possibly the letter `e` and an exponent. The
/// text is taken in lower case.
pub open spec fn is_decimal(b: Seq<char>) -> bool {
    let mark = position(b, 'e');
    is_mantissa(b.take(mark)) && (mark == b.len() || is_exponent(b.skip(mark + 1)))
}

/// The text without the sign that it may begin with.
pub open spec fn unsigned_part(s: Seq<char>) -> Seq<char> {
    if s.len() > 0 && (s[0] == '+' || s[0] == '-') {
        s.skip(1)
    } else {
        s
    }
}

/// Whether `s` is the numeral of a real number: an optional sign, and then
/// a decimal or one of the words for infinity and for no number, where
/// capitals count as small letters.
pub open spec fn is_number(s: Seq<char>) -> bool {
    let body = folded(unsigned_part(s));
    body == "inf"@ || body == "infinity"@ || body == "nan"@ || is_decimal(body)
}

/// The number that a digit stands for.
pub open spec fn digit_value(c: char) -> nat {
    (c as int - '0' as int) as nat
}

/// The number that a row of digits stands for in base ten.
pub open spec fn decimal_value(d: Seq<char>) -> nat
    decreases d.len(),
{
    if d.len() == 0 {
        0
    } else {
        decimal_value(d.drop_last()) * 10 + digit_value(d.last())
    }
}

/// The digits of a whole number, without the plus sign that may precede them.
pub open spec fn whole_digits(s: Seq<char>) -> Seq<char> {
    if s.len() > 0 && s[0] == '+' {
        s.skip(1)
    } else {
        s
    }
}

/// The value of the numeral of a whole number that is at most `max`: an
/// optional plus sign and at least one digit. `None` for any other text and
/// for a value above `max`.
pub open spec fn whole_value(s: Seq<char>, max: nat) -> Option<nat> {
    let d = whole_digits(s);
    if d.len() > 0 && all_digits(d) && decimal_value(d) <= max {
        Some(decimal_value(d))
    } else {
        None
    }
}

/// A longer row of digits stands for no smaller number than its beginning.
pub proof fn lemma_value_grows(d: Seq<char>, k: int)
    requires
        0 <= k <= d.len(),
    ensures
        decimal_value(d.take(k)) <= decimal_value(d),
    decreases d.len() - k,
{
    if k < d.len() {
        lemma_value_grows(d, k + 1);
        assert(d.take(k + 1).drop_last() =~= d.take(k));
    } else {
        assert(d.take(k) =~= d);
    }
}

/// A digit, a point and a digit are the numeral of a real number.
pub proof fn lemma_short_decimal(s: Seq<char>)
    requires
        s.len() == 3,
        is_digit(s[0]),
        s[1] == '.',
        is_digit(s[2]),
    ensures
        is_number(s),
{
    reveal_with_fuel(position_from, 4);
    let body = folded(unsigned_part(s));
    assert(body =~= s);
    assert(position(body, 'e') == 3);
    let mantissa = body.take(3);
    assert(mantissa =~= s);
    assert(position(mantissa, '.') == 1);
    assert(is_digit(mantissa.take(1)[0]));
    assert(is_digit(mantissa.skip(2)[0]));
    assert(is_mantissa(mantissa));
}

fn piece(chars: &Vec<char>, from: usize, to: usize) -> (out: Vec<char>)
    requires
        from <= to <= chars.len(),
    ensures
        out@ == chars@.subrange(from as int, to as int),
{
    let mut out: Vec<char> = Vec::new();
    let mut i: usize = from;
    while i < to
        invariant
            from <= i <= to <= chars.len(),
            out@ == chars@.subrange(from as int, i as int),
        decreases to - i,
    {
        out.push(chars[i]);
        i += 1;
        assert(out@ =~= chars@.subrange(from as int, i as int));
    }
    out
}

fn fold_all(chars: &Vec<char>) -> (out: Vec<char>)
    ensures
        out@ == folded(chars@),
{
    let mut out: Vec<char> = Vec::new();
    let mut i: usize = 0;
    while i < chars.len()
        invariant
            i <= chars.len(),
            out@ == folded(chars@.take(i as int)),
        decreases chars.len() - i,
    {
        out.push(fold_char(chars[i]));
        i += 1;
        assert(out@ =~= folded(chars@.take(i as int)));
    }
    assert(chars@.take(chars.len() as int) =~= chars@);
    out
}

fn find(chars: &Vec<char>, c: char) -> (at: usize)
    ensures
        at == position(chars@, c),
        at <= chars.len(),
{
    let mut i: usize = 0;
    while i < chars.len() && chars[i] != c
        invariant
            i <= chars.len(),
            position(chars@, c) == position_from(chars@, c, i as int),
        decreases chars.len() - i,
    {
        i += 1;
    }
    i
}

fn only_digits(chars: &Vec<char>) -> (r: bool)
    ensures
        r == all_digits(chars@),
{
    let mut i: usize = 0;
    while i < chars.len()
        invariant
            i <= chars.len(),
            forall|k: int| 0 <= k < i ==> is_digit(#[trigger] chars@[k]),
        decreases chars.len() - i,
    {
        let c = chars[i];
        if !(c >= '0' && c <= '9') {
            return false;
        }
        i += 1;
    }
    true
}

fn spells(chars: &Vec<char>, word: &str) -> (r: bool)
    ensures
        r == (chars@ == word@),
{
    let w = chars_of(word);
    if w.len() != chars.len() {
        return false;
    }
    let mut i: usize = 0;
    while i < w.len()
        invariant
            w@ == word@,
            w.len() == chars.len(),
            i <= w.len(),
            forall|k: int| 0 <= k < i ==> chars@[k] == w@[k],
        decreases w.len() - i,
    {
        if chars[i] != w[i] {
            return false;
        }
        i += 1;
    }
    assert(chars@ =~= word@);
    true
}

fn check_mantissa(m: &Vec<char>) -> (r: bool)
    ensures
        r == is_mantissa(m@),
{
    let point = find(m, '.');
    if point == m.len() {
        m.len() > 0 && only_digits(m)
    } else {
        let whole = piece(m, 0, point);
        let fraction = piece(m, point + 1, m.len());
        m.len() > 1 && only_digits(&whole) && only_digits(&fraction)
    }
}

fn check_exponent(x: &Vec<char>) -> (r: bool)
    ensures
        r == is_exponent(x@),
{
    if x.len() == 0 {
        return false;
    }
    let start: usize = if x[0] == '+' || x[0] == '-' {
        1
    } else {
        0
    };
    let digits = piece(x, start, x.len());
    assert(x@.subrange(0, x.len() as int) =~= x@);
    digits.len() > 0 && only_digits(&digits)
}

fn check_decimal(b: &Vec<char>) -> (r: bool)
    ensures
        r == is_decimal(b@),
{
    let mark = find(b, 'e');
    let mantissa = piece(b, 0, mark);
    if !check_mantissa(&mantissa) {
        return false;
    }
    if mark == b.len() {
        return true;
    }
    let exponent = piece(b, mark + 1, b.len());
    check_exponent(&exponent)
}

/// Whether a string is the numeral of a real number.
pub fn is_number_text(token: &str) -> (r: bool)
    ensures
        r == is_number(token@),
{
    let chars = chars_of(token);
    let start: usize = if chars.len() > 0 && (chars[0] == '+' || chars[0] == '-') {
        1
    } else {
        0
    };
    let unsigned = piece(&chars, start, chars.len());
    assert(chars@.subrange(0, chars.len() as int) =~= chars@);
    let body = fold_all(&unsigned);
    spells(&body, "inf") || spells(&body, "infinity") || spells(&body, "nan") || check_decimal(
        &body,
    )
}

fn parse_whole(token: &str, max: u64) -> (r: Option<u64>)
    requires
        max <= 0xffff_ffff,
    ensures
        r matches Some(v) ==> whole_value(token@, max as nat) == Some(v as nat),
        r is None ==> whole_value(token@, max as nat) is None,
{
    let chars = chars_of(token);
    let start: usize = if chars.len() > 0 && chars[0] == '+' {
        1
    } else {
        0
    };
    let d = piece(&chars, start, chars.len());
    assert(chars@.subrange(0, chars.len() as int) =~= chars@);
    if d.len() == 0 {
        return None;
    }
    let mut acc: u64 = 0;
    let mut i: usize = 0;
    assert(d@.take(0) =~= Seq::<char>::empty());
    assert(d@ == whole_digits(token@));
    while i < d.len()
        invariant
            i <= d.len(),
            max <= 0xffff_ffff,
            d@ == whole_digits(token@),
            forall|k: int| 0 <= k < i ==> is_digit(#[trigger] d@[k]),
            acc == decimal_value(d@.take(i as int)),
            acc <= max,
        decreases d.len() - i,
    {
        let c = d[i];
        if !(c >= '0' && c <= '9') {
            assert(!is_digit(d@[i as int]));
            return None;
        }
        let v: u64 = ((c as u32) - ('0' as u32)) as u64;
        let next: u64 = acc * 10 + v;
        proof {
            assert(d@.take(i + 1).drop_last() =~= d@.take(i as int));
            assert(d@.take(i + 1).last() == c);
        }
        if next > max {
            proof {
                lemma_value_grows(d@, i + 1);
            }
            return None;
        }
        acc = next;
        i += 1;
    }
    assert(d@.take(d.len() as int) =~= d@);
    Some(acc)
}

/// Reads the numeral of a whole number that fits in 32 bits.
pub fn parse_u32(token: &str) -> (r: Option<u32>)
    ensures
        r matches Some(v) ==> whole_value(token@, u32::MAX as nat) == Some(v as nat),
        r is None ==> whole_value(token@, u32::MAX as nat) is None,
{
    match parse_whole(token, 0xffff_ffff) {
        Some(v) => Some(v as u32),
        None => None,
    }
}

/// Reads the numeral of a whole number that fits in 16 bits.
pub fn parse_u16(token: &str) -> (r: Option<u16>)
    ensures
        r matches Some(v) ==> whole_value(token@, u16::MAX as nat) == Some(v as nat),
        r is None ==> whole_value(token@, u16::MAX as nat) is None,
{
    match parse_whole(token, 0xffff) {
        Some(v) => Some(v as u16),
        None => None,
    }
}

/// The numeral of a real number, kept as it was written.
#[derive(Debug)]
pub struct Number {
    text: String,
}

impl View for Number {
    type V = Seq<char>;

    closed spec fn view(&self) -> Seq<char> {
        self.text@
    }
}

impl Number {
    #[verifier::type_invariant]
    spec fn well_formed(self) -> bool {
        is_number(self.text@)
    }

    /// Keeps a string as a number where it is the numeral of one.
    pub fn parse(token: &str) -> (r: Option<Number>)
        ensures
            r is Some <==> is_number(token@),
            r matches Some(n) ==> n@ == token@,
    {
        if is_number_text(token) {
            Some(Number { text: token.to_owned() })
        } else {
            None
        }
    }

    /// The numeral of one.
    pub fn one() -> (r: Number)
        ensures
            r@ == "1.0"@,
    {
        proof {
            reveal_strlit("1.0");
            lemma_short_decimal("1.0"@);
        }
        Number { text: "1.0".to_owned() }
    }

    /// The numeral of zero.
    pub fn zero() -> (r: Number)
        ensures
            r@ == "0.0"@,
    {
        proof {
            reveal_strlit("0.0");
            lemma_short_decimal("0.0"@);
        }
        Number { text: "0.0".to_owned() }
    }

    /// The numeral as it was written.
    pub fn as_str(&self) -> (r: &str)
        ensures
            r@ == self@,
            is_number(r@),
    {
        proof {
            use_type_invariant(self);
        }
        self.text.as_str()
    }
}

impl Clone for Number {
    fn clone(&self) -> (r: Self)
        ensures
            r@ == self@,
    {
        proof {
            use_type_invariant(self);
        }
        Number { text: self.text.clone() }
    }
}

} // verus!
