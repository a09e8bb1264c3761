//! The text form of a problem instance: six header lines, then one line for
//! every city, `<index> <x> <y>` with one or more spaces between the fields,
//! then a line that holds `EOF`.
//!
//! A coordinate is a decimal numeral: an optional sign, digits with an
//! optional point among them, and an optional exponent (`e` or `E`, an
//! optional sign, digits). It is read exactly and cut off after the ninth
//! decimal place.

use crate::coordinates::COORDINATE_LIMIT;
use vstd::prelude::*;

verus! {

/// A class of bytes.
#[derive(Clone, Copy, Debug, PartialEq, Eq)]
pub enum Class {
    /// The space that separates fields.
    Space,
    /// Any byte but the space.
    Solid,
    /// White space: the space, the tab, and the line and page breaks.
    Blank,
    /// A decimal digit.
    Digit,
}

impl Class {
    /// The byte belongs to the class.
    pub open spec fn holds(self, b: u8) -> bool {
        match self {
            Class::Space => b == 32,
            Class::Solid => b != 32,
            Class::Blank => b == 32 || 9 <= b <= 13,
            Class::Digit => 48 <= b <= 57,
        }
    }

    /// Tests whether the byte belongs to the class.
    pub fn test(self, b: u8) -> (r: bool)
        ensures
            r == self.holds(b),
    {
        match self {
            Class::Space => b == 32,
            Class::Solid => b != 32,
            Class::Blank => b == 32 || (9 <= b && b <= 13),
            Class::Digit => 48 <= b && b <= 57,
        }
    }
}

/// The first position from `i` on, and before `to`, whose byte is not of the
/// class; `to` where there is none.
pub open spec fn scan(s: Seq<u8>, i: int, to: int, class: Class) -> int
    decreases to - i,
{
    if 0 <= i < to <= s.len() && class.holds(s[i]) {
        scan(s, i + 1, to, class)
    } else {
        i
    }
}

/// The end of `from..j` without the bytes of the class that it ends in.
pub open spec fn scan_back(s: Seq<u8>, from: int, j: int, class: Class) -> int
    decreases j - from,
{
    if 0 <= from < j <= s.len() && class.holds(s[j - 1]) {
        scan_back(s, from, j - 1, class)
    } else {
        j
    }
}

/// Skips the bytes of the class from `i` on.
pub fn skip(s: &[u8], i: usize, to: usize, class: Class) -> (r: usize)
    requires
        i <= to <= s@.len(),
    ensures
        r == scan(s@, i as int, to as int, class),
        i <= r <= to,
{
    let mut r: usize = i;
    while r < to && class.test(s[r])
        invariant
            i <= r <= to <= s@.len(),
            scan(s@, i as int, to as int, class) == scan(s@, r as int, to as int, class),
        decreases to - r,
    {
        r = r + 1;
    }
    r
}

/// Drops the bytes of the class that `from..j` ends in.
pub fn skip_back(s: &[u8], from: usize, j: usize, class: Class) -> (r: usize)
    requires
        from <= j <= s@.len(),
    ensures
        r == scan_back(s@, from as int, j as int, class),
        from <= r <= j,
{
    let mut r: usize = j;
    while from < r && class.test(s[r - 1])
        invariant
            from <= r <= j <= s@.len(),
            scan_back(s@, from as int, j as int, class) == scan_back(
                s@,
                from as int,
                r as int,
                class,
            ),
        decreases r - from,
    {
        r = r - 1;
    }
    r
}

/// 10 to the power `n`.
pub open spec fn pow10(n: nat) -> nat
    decreases n,
{
    if n == 0 {
        1
    } else {
        10 * pow10((n - 1) as nat)
    }
}

/// What the digit `b` is worth at the decimal place `place`: nothing below
/// the last place that is kept.
pub open spec fn worth(b: u8, place: int) -> nat {
    if place < 0 || b == 48 {
        0
    } else {
        ((b - 48) * pow10(place as nat)) as nat
    }
}

/// What the digits at `i..j` are worth together, the first of them standing
/// at the place `top` and each next one a place lower.
pub open spec fn placed(s: Seq<u8>, i: int, j: int, top: int) -> nat
    decreases j - i,
{
    if j <= i {
        0
    } else {
        placed(s, i, j - 1, top) + worth(s[j - 1], top - (j - 1 - i))
    }
}

/// The number that the digits at `i..j` spell.
pub open spec fn spelled(s: Seq<u8>, i: int, j: int) -> nat
    decreases j - i,
{
    if j <= i {
        0
    } else {
        (10 * spelled(s, i, j - 1) + (s[j - 1] - 48)) as nat
    }
}

/// 1 where a sign stands at `i`, else 0.
pub open spec fn sign_len(s: Seq<u8>, i: int, to: int) -> int {
    if 0 <= i < to <= s.len() && (s[i] == 43 || s[i] == 45) {
        1
    } else {
        0
    }
}

/// A minus sign stands at `i`.
pub open spec fn is_minus(s: Seq<u8>, i: int, to: int) -> bool {
    0 <= i < to <= s.len() && s[i] == 45
}

/// The parts of a numeral at `from..to`.
pub struct Numeral {
    /// Where the digits before the point start.
    pub whole: int,
    /// Where the digits before the point end.
    pub point: int,
    /// Where the digits after the point start.
    pub fraction: int,
    /// Where the digits after the point end.
    pub mark: int,
    /// Whether an exponent follows.
    pub has_exponent: bool,
    /// Where the digits of the exponent start.
    pub power: int,
    /// Where the numeral ends.
    pub end: int,
}

/// The parts that a numeral at `from..to` falls into.
pub open spec fn numeral(s: Seq<u8>, from: int, to: int) -> Numeral {
    let whole = from + sign_len(s, from, to);
    let point = scan(s, whole, to, Class::Digit);
    let fraction = if point < to && s[point] == 46 {
        point + 1
    } else {
        point
    };
    let mark = scan(s, fraction, to, Class::Digit);
    let has_exponent = mark < to && (s[mark] == 101 || s[mark] == 69);
    let power = mark + 1 + sign_len(s, mark + 1, to);
    let end = if has_exponent {
        scan(s, power, to, Class::Digit)
    } else {
        mark
    };
    Numeral { whole, point, fraction, mark, has_exponent, power, end }
}

/// The exponent of the numeral.
pub open spec fn exponent(s: Seq<u8>, n: Numeral, to: int) -> int {
    if !n.has_exponent {
        0
    } else if is_minus(s, n.mark + 1, to) {
        -(spelled(s, n.power, n.end) as int)
    } else {
        spelled(s, n.power, n.end) as int
    }
}

/// The magnitude of the numeral in billionths, cut off below the last one.
pub open spec fn magnitude(s: Seq<u8>, n: Numeral, to: int) -> nat {
    placed(s, n.whole, n.point, 8 + exponent(s, n, to) + (n.point - n.whole)) + placed(
        s,
        n.fraction,
        n.mark,
        8 + exponent(s, n, to),
    )
}

/// The bytes at `from..to` are a numeral: they hold a digit before the
/// exponent, a digit in the exponent if there is one, and nothing else.
pub open spec fn is_numeral(s: Seq<u8>, from: int, to: int) -> bool {
    let n = numeral(s, from, to);
    &&& (n.point - n.whole) + (n.mark - n.fraction) >= 1
    &&& n.has_exponent ==> n.end > n.power
    &&& n.end == to
}

/// The coordinate that the bytes at `from..to` spell, in billionths; none
/// where they are no numeral or spell a magnitude beyond the limit.
pub open spec fn number_of(s: Seq<u8>, from: int, to: int) -> Option<i64> {
    let n = numeral(s, from, to);
    if !is_numeral(s, from, to) || magnitude(s, n, to) > COORDINATE_LIMIT {
        None
    } else if is_minus(s, from, to) {
        Some((-(magnitude(s, n, to) as int)) as i64)
    } else {
        Some(magnitude(s, n, to) as i64)
    }
}

/// The first powers of 10.
pub proof fn lemma_pow10_values()
    ensures
        pow10(0) == 1,
        pow10(1) == 10,
        pow10(2) == 100,
        pow10(3) == 1_000,
        pow10(4) == 10_000,
        pow10(5) == 100_000,
        pow10(6) == 1_000_000,
        pow10(7) == 10_000_000,
        pow10(8) == 100_000_000,
        pow10(9) == 1_000_000_000,
        pow10(10) == 10_000_000_000,
        pow10(11) == 100_000_000_000,
        pow10(12) == 1_000_000_000_000,
        pow10(13) == 10_000_000_000_000,
        pow10(14) == 100_000_000_000_000,
        pow10(15) == 1_000_000_000_000_000,
        pow10(16) == 10_000_000_000_000_000,
        pow10(17) == 100_000_000_000_000_000,
        pow10(18) == 1_000_000_000_000_000_000,
        pow10(19) == 10_000_000_000_000_000_000,
{
    reveal_with_fuel(pow10, 21);
}

/// A greater power of 10 is a greater number.
pub proof fn lemma_pow10_monotone(a: nat, b: nat)
    requires
        a <= b,
    ensures
        pow10(a) <= pow10(b),
    decreases b,
{
    if a < b {
        lemma_pow10_monotone(a, (b - 1) as nat);
    }
}

/// More digits are worth no less.
pub proof fn lemma_placed_monotone(s: Seq<u8>, i: int, k: int, j: int, top: int)
    requires
        k <= j,
    ensures
        placed(s, i, k, top) <= placed(s, i, j, top),
    decreases j - k,
{
    if k < j {
        lemma_placed_monotone(s, i, k, j - 1, top);
        if j <= i {
            assert(placed(s, i, k, top) == 0);
        }
    }
}

/// 10 to the power `n`, for `n` up to 18.
fn ten_to(n: u32) -> (r: u64)
    requires
        n <= 18,
    ensures
        r == pow10(n as nat),
{
    proof {
        lemma_pow10_values();
    }
    match n {
        0 => 1,
        1 => 10,
        2 => 100,
        3 => 1_000,
        4 => 10_000,
        5 => 100_000,
        6 => 1_000_000,
        7 => 10_000_000,
        8 => 100_000_000,
        9 => 1_000_000_000,
        10 => 10_000_000_000,
        11 => 100_000_000_000,
        12 => 1_000_000_000_000,
        13 => 10_000_000_000_000,
        14 => 100_000_000_000_000,
        15 => 1_000_000_000_000_000,
        16 => 10_000_000_000_000_000,
        17 => 100_000_000_000_000_000,
        _ => 1_000_000_000_000_000_000,
    }
}

/// The number that saturated counts stop at.
const FAR: u128 = 1_000_000_000_000_000_000_000_000_000_000;

/// `count` stands for `truth`: it is `truth`, or both are beyond [`FAR`].
spec fn stands_for(count: int, truth: int) -> bool {
    count == truth || (count >= FAR && truth >= FAR)
}

/// `top` stands for the place `truth`: it is `truth`, or both are so far
/// from 0, on the same side, that no digit of a slice comes near a place that
/// counts.
spec fn place_for(top: int, truth: int) -> bool {
    ||| top == truth
    ||| (top >= FAR / 2 && truth >= FAR / 2)
    ||| (top <= -(FAR / 2) && truth <= -(FAR / 2))
}

/// The number that the digits at `i..j` spell, as far as it matters.
fn spell(s: &[u8], i: usize, j: usize) -> (r: u128)
    requires
        i <= j <= s@.len(),
        forall|k: int| i <= k < j ==> Class::Digit.holds(#[trigger] s@[k]),
    ensures
        stands_for(r as int, spelled(s@, i as int, j as int) as int),
        r <= 10 * FAR + 9,
{
    let mut r: u128 = 0;
    let mut k: usize = i;
    while k < j
        invariant
            i <= k <= j <= s@.len(),
            forall|k: int| i <= k < j ==> Class::Digit.holds(#[trigger] s@[k]),
            stands_for(r as int, spelled(s@, i as int, k as int) as int),
            r <= 10 * FAR + 9,
        decreases j - k,
    {
        assert(Class::Digit.holds(s@[k as int]));
        if r < FAR {
            r = r * 10 + (s[k] - 48) as u128;
        }
        k = k + 1;
    }
    r
}

/// What the digits at `i..j` are worth together, as long as that is within
/// the limit of a coordinate.
fn place(s: &[u8], i: usize, j: usize, top: i128, Ghost(truth): Ghost<int>) -> (r: Option<u128>)
    requires
        i <= j <= s@.len(),
        forall|k: int| i <= k < j ==> Class::Digit.holds(#[trigger] s@[k]),
        place_for(top as int, truth),
        -(20 * FAR) <= top <= 20 * FAR,
    ensures
        match r {
            Some(sum) => sum == placed(s@, i as int, j as int, truth) && sum <= COORDINATE_LIMIT,
            None => placed(s@, i as int, j as int, truth) > COORDINATE_LIMIT,
        },
{
    let mut sum: u128 = 0;
    let mut k: usize = i;
    while k < j
        invariant
            i <= k <= j <= s@.len(),
            forall|k: int| i <= k < j ==> Class::Digit.holds(#[trigger] s@[k]),
            place_for(top as int, truth),
            -(20 * FAR) <= top <= 20 * FAR,
            sum == placed(s@, i as int, k as int, truth),
            sum <= COORDINATE_LIMIT,
        decreases j - k,
    {
        assert(Class::Digit.holds(s@[k as int]));
        let digit: u8 = s[k] - 48;
        let at: i128 = top - (k - i) as i128;
        proof {
            lemma_pow10_values();
            lemma_placed_monotone(s@, i as int, k + 1, j as int, truth);
            if truth - (k - i) >= 19 {
                lemma_pow10_monotone(19, (truth - (k - i)) as nat);
                assert(digit >= 1 ==> digit * pow10((truth - (k - i)) as nat) >= pow10(19))
                    by (nonlinear_arith)
                    requires
                        pow10((truth - (k - i)) as nat) >= pow10(19),
                ;
            }
        }
        if digit != 0 && at >= 0 {
            if at >= 19 {
                return None;
            }
            let unit: u64 = ten_to(at as u32);
            proof {
                lemma_pow10_monotone(at as nat, 18);
                assert(digit * unit <= 9 * pow10(18)) by (nonlinear_arith)
                    requires
                        0 <= digit <= 9,
                        0 <= unit <= pow10(18),
                ;
            }
            sum = sum + (digit as u128) * (unit as u128);
            if sum > COORDINATE_LIMIT as u128 {
                return None;
            }
        }
        k = k + 1;
    }
    Some(sum)
}

/// Every byte of a run of digits is a digit.
proof fn lemma_scan_holds(s: Seq<u8>, i: int, to: int, class: Class)
    requires
        0 <= i <= to <= s.len(),
    ensures
        i <= scan(s, i, to, class) <= to,
        forall|k: int| i <= k < scan(s, i, to, class) ==> class.holds(#[trigger] s[k]),
        scan(s, i, to, class) < to ==> !class.holds(s[scan(s, i, to, class)]),
    decreases to - i,
{
    if i < to && class.holds(s[i]) {
        lemma_scan_holds(s, i + 1, to, class);
    }
}

/// Reads the coordinate that the bytes at `from..to` spell.
#[verifier::rlimit(60)]
pub fn parse_number(s: &[u8], from: usize, to: usize) -> (r: Option<i64>)
    requires
        from <= to <= s@.len(),
    ensures
        r == number_of(s@, from as int, to as int),
{
    let ghost n = numeral(s@, from as int, to as int);
    let signed: bool = from < to && (s[from] == 43 || s[from] == 45);
    let minus: bool = from < to && s[from] == 45;
    let whole: usize = if signed {
        from + 1
    } else {
        from
    };
    let point: usize = skip(s, whole, to, Class::Digit);
    let fraction: usize = if point < to && s[point] == 46 {
        point + 1
    } else {
        point
    };
    let mark: usize = skip(s, fraction, to, Class::Digit);
    proof {
        lemma_scan_holds(s@, whole as int, to as int, Class::Digit);
        lemma_scan_holds(s@, fraction as int, to as int, Class::Digit);
    }
    if (point - whole) + (mark - fraction) < 1 {
        return None;
    }
    let has_exponent: bool = mark < to && (s[mark] == 101 || s[mark] == 69);
    let mut shift: i128 = 0;
    let ghost mut truth: int = 0;
    if has_exponent {
        let falls: bool = mark + 1 < to && s[mark + 1] == 45;
        let power: usize = if mark + 1 < to && (s[mark + 1] == 43 || s[mark + 1] == 45) {
            mark + 2
        } else {
            mark + 1
        };
        let end: usize = skip(s, power, to, Class::Digit);
        proof {
            lemma_scan_holds(s@, power as int, to as int, Class::Digit);
        }
        if end == power || end != to {
            return None;
        }
        let size: u128 = spell(s, power, end);
        shift = if falls {
            -(size as i128)
        } else {
            size as i128
        };
        proof {
            truth = exponent(s@, n, to as int);
        }
    } else if mark != to {
        return None;
    }
    assert(is_numeral(s@, from as int, to as int));
    assert(truth == exponent(s@, n, to as int));
    let first: i128 = 8 + shift + (point - whole) as i128;
    let second: i128 = 8 + shift;
    let before: u128 = match place(s, whole, point, first, Ghost(8 + truth + (point - whole))) {
        Some(sum) => sum,
        None => {
            return None;
        },
    };
    let after: u128 = match place(s, fraction, mark, second, Ghost(8 + truth)) {
        Some(sum) => sum,
        None => {
            return None;
        },
    };
    let sum: u128 = before + after;
    if sum > COORDINATE_LIMIT as u128 {
        return None;
    }
    if minus {
        Some(-(sum as i64))
    } else {
        Some(sum as i64)
    }
}

/// What is wrong with the text of an instance.
#[derive(Debug, Clone, Copy, PartialEq, Eq, Structural)]
pub enum FormatError {
    /// The line at this position, counted from 0, lacks a coordinate.
    MissingField(usize),
    /// The line at this position, counted from 0, holds a coordinate that is
    /// no numeral or lies beyond the limit.
    BadNumber(usize),
    /// No line holds `EOF`.
    MissingEof,
}

/// What is wrong with the line of a city.
#[derive(Debug, Clone, Copy, PartialEq, Eq, Structural)]
pub enum Flaw {
    /// A coordinate is missing.
    MissingField,
    /// A coordinate is no numeral or lies beyond the limit.
    BadNumber,
}

/// The number of lines before the first city.
pub const HEADER_LINES: usize = 6;

/// The line without the white space at its ends.
pub open spec fn body(s: Seq<u8>) -> (int, int) {
    (
        scan(s, 0, s.len() as int, Class::Blank),
        scan_back(s, scan(s, 0, s.len() as int, Class::Blank), s.len() as int, Class::Blank),
    )
}

/// The line holds `EOF` and, around it, white space only.
pub open spec fn is_eof(s: Seq<u8>) -> bool {
    &&& body(s).1 - body(s).0 == 3
    &&& s[body(s).0] == 69
    &&& s[body(s).0 + 1] == 79
    &&& s[body(s).0 + 2] == 70
}

/// The next field from `from` on: the spaces before it are skipped, and it
/// ends before the next space. It is empty where no field is left.
pub open spec fn field_after(s: Seq<u8>, from: int, to: int) -> (int, int) {
    (scan(s, from, to, Class::Space), scan(s, scan(s, from, to, Class::Space), to, Class::Solid))
}

/// The field without the white space at its ends.
pub open spec fn token(s: Seq<u8>, field: (int, int)) -> (int, int) {
    (
        scan(s, field.0, field.1, Class::Blank),
        scan_back(s, scan(s, field.0, field.1, Class::Blank), field.1, Class::Blank),
    )
}

/// The second field of the line.
pub open spec fn x_field(s: Seq<u8>) -> (int, int) {
    field_after(s, field_after(s, body(s).0, body(s).1).1, body(s).1)
}

/// The third field of the line.
pub open spec fn y_field(s: Seq<u8>) -> (int, int) {
    field_after(s, x_field(s).1, body(s).1)
}

/// The coordinate in a field.
pub open spec fn coordinate_in(s: Seq<u8>, field: (int, int)) -> Option<i64> {
    number_of(s, token(s, field).0, token(s, field).1)
}

/// The city that a line holds: its second and third field, read as
/// coordinates. The first flaw found, from left to right, fails the line.
pub open spec fn city_of(s: Seq<u8>) -> Result<(i64, i64), Flaw> {
    if x_field(s).0 == x_field(s).1 {
        Err(Flaw::MissingField)
    } else if coordinate_in(s, x_field(s)) is None {
        Err(Flaw::BadNumber)
    } else if y_field(s).0 == y_field(s).1 {
        Err(Flaw::MissingField)
    } else if coordinate_in(s, y_field(s)) is None {
        Err(Flaw::BadNumber)
    } else {
        Ok((coordinate_in(s, x_field(s))->0, coordinate_in(s, y_field(s))->0))
    }
}

/// The cities that the lines from position `i` on hold, up to the line that
/// holds `EOF`.
pub open spec fn load_from(lines: Seq<Seq<u8>>, i: int) -> Result<Seq<(int, int)>, FormatError>
    decreases lines.len() - i,
{
    if i < 0 || i >= lines.len() {
        Err(FormatError::MissingEof)
    } else if is_eof(lines[i]) {
        Ok(Seq::empty())
    } else {
        match city_of(lines[i]) {
            Err(Flaw::MissingField) => Err(FormatError::MissingField(i as usize)),
            Err(Flaw::BadNumber) => Err(FormatError::BadNumber(i as usize)),
            Ok(city) => match load_from(lines, i + 1) {
                Ok(rest) => Ok(seq![(city.0 as int, city.1 as int)] + rest),
                Err(e) => Err(e),
            },
        }
    }
}

/// The cities of an instance in text form.
pub open spec fn load(lines: Seq<Seq<u8>>) -> Result<Seq<(int, int)>, FormatError> {
    load_from(lines, HEADER_LINES as int)
}

/// Tests whether the line holds `EOF`.
pub fn holds_eof(s: &[u8]) -> (r: bool)
    ensures
        r == is_eof(s@),
{
    let low: usize = skip(s, 0, s.len(), Class::Blank);
    let high: usize = skip_back(s, low, s.len(), Class::Blank);
    high - low == 3 && s[low] == 69 && s[low + 1] == 79 && s[low + 2] == 70
}

/// Reads the coordinate in the field `from..to`.
fn parse_field(s: &[u8], from: usize, to: usize) -> (r: Option<i64>)
    requires
        from <= to <= s@.len(),
    ensures
        r == coordinate_in(s@, (from as int, to as int)),
{
    let low: usize = skip(s, from, to, Class::Blank);
    let high: usize = skip_back(s, low, to, Class::Blank);
    parse_number(s, low, high)
}

/// Reads the city that a line holds.
pub fn parse_city(s: &[u8]) -> (r: Result<(i64, i64), Flaw>)
    ensures
        r == city_of(s@),
        r matches Ok(city) ==> -COORDINATE_LIMIT <= city.0 <= COORDINATE_LIMIT && -COORDINATE_LIMIT
            <= city.1 <= COORDINATE_LIMIT,
{
    let low: usize = skip(s, 0, s.len(), Class::Blank);
    let high: usize = skip_back(s, low, s.len(), Class::Blank);
    let index_start: usize = skip(s, low, high, Class::Space);
    let index_end: usize = skip(s, index_start, high, Class::Solid);
    let x_start: usize = skip(s, index_end, high, Class::Space);
    let x_end: usize = skip(s, x_start, high, Class::Solid);
    if x_start == x_end {
        return Err(Flaw::MissingField);
    }
    let x: i64 = match parse_field(s, x_start, x_end) {
        Some(x) => x,
        None => {
            return Err(Flaw::BadNumber);
        },
    };
    let y_start: usize = skip(s, x_end, high, Class::Space);
    let y_end: usize = skip(s, y_start, high, Class::Solid);
    if y_start == y_end {
        return Err(Flaw::MissingField);
    }
    let y: i64 = match parse_field(s, y_start, y_end) {
        Some(y) => y,
        None => {
            return Err(Flaw::BadNumber);
        },
    };
    Ok((x, y))
}

} // verus!
