//! Exact decimal numbers read from text, as providers write measurements and
//! coordinates.
use vstd::prelude::*;

verus! {

/// The most digits a decimal may have, so that its digits fit in an `i128`.
pub const MAX_DIGITS: usize = 38;

/// The number `mantissa * 10^-scale`, kept as it was written: `18.5` and
/// `18.50` are different decimals of one value, and `1e3` has scale `-3`.
#[derive(Debug, Clone, Copy, PartialEq, Eq, Structural)]
pub struct Decimal {
    pub mantissa: i128,
    pub scale: i32,
}

pub open spec fn pow10(n: nat) -> int
    decreases n,
{
    if n == 0 {
        1
    } else {
        10 * pow10((n - 1) as nat)
    }
}

pub open spec fn is_digit(c: char) -> bool {
    '0' <= c && c <= '9'
}

pub open spec fn all_digits(s: Seq<char>) -> bool {
    forall|i: int| 0 <= i < s.len() ==> is_digit(#[trigger] s[i])
}

/// The value of a string of decimal digits.
pub open spec fn digits_value(s: Seq<char>) -> int
    decreases s.len(),
{
    if s.len() == 0 {
        0
    } else {
        digits_value(s.drop_last()) * 10 + (s.last() as int - '0' as int)
    }
}

/// The most digits an exponent may have.
pub const MAX_EXPONENT_DIGITS: usize = 9;

/// `b` has a decimal point at `k`, with digits on either side of it and at
/// least one digit in all.
pub open spec fn point_at(b: Seq<char>, k: int) -> bool {
    &&& 0 <= k < b.len()
    &&& b.len() >= 2
    &&& b[k] == '.'
    &&& all_digits(b.take(k))
    &&& all_digits(b.skip(k + 1))
}

/// The digits and scale of an unsigned decimal text: digits with at most
/// one `.` among them (`5`, `5.25`, `.5`, `5.`), at least one digit, and at
/// most `MAX_DIGITS` digits in all.
pub open spec fn unsigned_of(b: Seq<char>) -> Option<(int, nat)> {
    if exists|k: int| point_at(b, k) {
        let k = choose|k: int| point_at(b, k);
        let ds = b.take(k) + b.skip(k + 1);
        if ds.len() <= MAX_DIGITS {
            Some((digits_value(ds), (b.len() - k - 1) as nat))
        } else {
            None
        }
    } else if 0 < b.len() <= MAX_DIGITS && all_digits(b) {
        Some((digits_value(b), 0))
    } else {
        None
    }
}

pub open spec fn is_exp_mark(c: char) -> bool {
    c == 'e' || c == 'E'
}

/// `b` has its first exponent mark at `k`.
pub open spec fn exp_at(b: Seq<char>, k: int) -> bool {
    &&& 0 <= k < b.len()
    &&& is_exp_mark(b[k])
    &&& forall|i: int| 0 <= i < k ==> !is_exp_mark(#[trigger] b[i])
}

/// The value of an exponent text: an optional sign, then one to
/// `MAX_EXPONENT_DIGITS` digits.
pub open spec fn exponent_of(x: Seq<char>) -> Option<int> {
    let neg = x.len() > 0 && x[0] == '-';
    let signed = x.len() > 0 && (x[0] == '-' || x[0] == '+');
    let d = if signed { x.drop_first() } else { x };
    if 0 < d.len() <= MAX_EXPONENT_DIGITS && all_digits(d) {
        Some(if neg { -digits_value(d) } else { digits_value(d) })
    } else {
        None
    }
}

/// The decimal of magnitude `a * 10^(e - frac)`, with sign.
pub open spec fn scaled(neg: bool, a: int, frac: int, e: int) -> Decimal {
    Decimal { mantissa: (if neg { -a } else { a }) as i128, scale: (frac - e) as i32 }
}

/// The digits, scale and exponent of an unsigned number text: an unsigned
/// decimal text, optionally followed by `e` or `E` and an exponent.
pub open spec fn parts_of(b: Seq<char>) -> Option<(int, nat, int)> {
    if exists|k: int| exp_at(b, k) {
        let k = choose|k: int| exp_at(b, k);
        match (unsigned_of(b.take(k)), exponent_of(b.skip(k + 1))) {
            (Some((v, f)), Some(e)) => Some((v, f, e)),
            _ => None,
        }
    } else {
        match unsigned_of(b) {
            Some((v, f)) => Some((v, f, 0)),
            None => None,
        }
    }
}

/// The decimal that a text denotes: an optional `-` or `+` before an
/// unsigned number text, whose value fits. Any other text denotes no
/// decimal.
pub open spec fn decimal_of(s: Seq<char>) -> Option<Decimal> {
    let neg = s.len() > 0 && s[0] == '-';
    let signed = s.len() > 0 && (s[0] == '-' || s[0] == '+');
    let b = if signed { s.drop_first() } else { s };
    match parts_of(b) {
        Some((v, f, e)) => Some(scaled(neg, v, f as int, e)),
        None => None,
    }
}

pub(crate) proof fn lemma_pow10_38()
    ensures
        pow10(38) == 100_000_000_000_000_000_000_000_000_000_000_000_000int,
{
    reveal_with_fuel(pow10, 39);
}

/// Powers of ten grow with the exponent.
pub(crate) proof fn lemma_pow10_mono(a: nat, b: nat)
    requires
        a <= b,
    ensures
        pow10(a) <= pow10(b),
        pow10(a) >= 1,
    decreases b,
{
    if a < b {
        lemma_pow10_mono(a, (b - 1) as nat);
    } else if a > 0 {
        lemma_pow10_mono((a - 1) as nat, (a - 1) as nat);
    }
}

proof fn lemma_digits_push(s: Seq<char>, c: char)
    ensures
        digits_value(s.push(c)) == digits_value(s) * 10 + (c as int - '0' as int),
{
    assert(s.push(c).drop_last() =~= s);
}

/// Appends the digits of `b` from `from` to `to` to a number whose digits so
/// far are `prev`, with value `acc`.
fn append_digits(b: &str, from: usize, to: usize, acc: i128, Ghost(prev): Ghost<Seq<char>>) -> (r: i128)
    requires
        from <= to <= b@.len(),
        all_digits(b@.subrange(from as int, to as int)),
        all_digits(prev),
        acc == digits_value(prev),
        0 <= acc < pow10(prev.len()),
        prev.len() + (to - from) <= MAX_DIGITS,
    ensures
        r == digits_value(prev + b@.subrange(from as int, to as int)),
        0 <= r < pow10((prev.len() + (to - from)) as nat),
        r < 100_000_000_000_000_000_000_000_000_000_000_000_000int,
{
    let mut i = from;
    let mut v: i128 = acc;
    while i < to
        invariant
            from <= i <= to <= b@.len(),
            all_digits(b@.subrange(from as int, to as int)),
            prev.len() + (to - from) <= MAX_DIGITS,
            v == digits_value(prev + b@.subrange(from as int, i as int)),
            0 <= v < pow10((prev.len() + (i - from)) as nat),
        decreases to - i,
    {
        let c = b.get_char(i);
        assert(b@.subrange(from as int, to as int)[i - from] == c);
        let d = (c as u32 - '0' as u32) as i128;
        let ghost done = prev + b@.subrange(from as int, i as int);
        proof {
            lemma_digits_push(done, c);
            assert(prev + b@.subrange(from as int, i + 1) =~= done.push(c));
            let n = (prev.len() + (i - from)) as nat;
            lemma_pow10_mono(n + 1, MAX_DIGITS as nat);
            lemma_pow10_38();
            assert(pow10(n + 1) == 10 * pow10(n));
            assert(v * 10 + d < 10 * pow10(n)) by (nonlinear_arith)
                requires v < pow10(n), 0 <= d < 10;
        }
        v = v * 10 + d;
        i = i + 1;
    }
    proof {
        lemma_pow10_mono((prev.len() + (to - from)) as nat, MAX_DIGITS as nat);
        lemma_pow10_38();
    }
    v
}

fn digit_at(b: &str, j: usize) -> (r: bool)
    requires
        j < b@.len(),
    ensures
        r == is_digit(b@[j as int]),
{
    let c = b.get_char(j);
    '0' <= c && c <= '9'
}

/// The first position at or after `from` that holds no digit, or the length.
fn digits_end(b: &str, from: usize) -> (j: usize)
    requires
        from <= b@.len(),
    ensures
        from <= j <= b@.len(),
        all_digits(b@.subrange(from as int, j as int)),
        j < b@.len() ==> !is_digit(b@[j as int]),
{
    let m = b.unicode_len();
    let mut j = from;
    while j < m && digit_at(b, j)
        invariant
            from <= j <= m == b@.len(),
            all_digits(b@.subrange(from as int, j as int)),
        decreases m - j,
    {
        assert(b@.subrange(from as int, j + 1) =~= b@.subrange(from as int, j as int).push(b@[j as int]));
        j = j + 1;
    }
    j
}

/// Reads an unsigned decimal text; see `unsigned_of`.
fn parse_unsigned(b: &str) -> (r: Option<(u128, u32)>)
    ensures
        match unsigned_of(b@) {
            Some((v, f)) => r == Some((v as u128, f as u32))
                && 0 <= v < 100_000_000_000_000_000_000_000_000_000_000_000_000int
                && f <= MAX_DIGITS,
            None => r is None,
        },
{
    let ghost bs = b@;
    let m = b.unicode_len();
    let j = digits_end(b, 0);
    assert(bs.subrange(0, j as int) =~= bs.take(j as int));
    proof {
        lemma_pow10_38();
    }
    if j == m {
        assert(bs =~= bs.take(j as int));
        assert forall|k: int| !point_at(bs, k) by {
            if point_at(bs, k) {
                assert(is_digit(bs.take(j as int)[k]));
            }
        }
        if 0 < m && m <= MAX_DIGITS {
            let v = append_digits(b, 0, m, 0, Ghost(Seq::empty()));
            assert(Seq::<char>::empty() + bs.subrange(0, m as int) =~= bs);
            Some((v as u128, 0))
        } else {
            None
        }
    } else if m >= 2 && b.get_char(j) == '.' {
        let e = digits_end(b, j + 1);
        assert(bs.subrange(j + 1, m as int) =~= bs.skip(j + 1));
        if e == m {
            assert(bs.subrange(j + 1, e as int) =~= bs.skip(j + 1));
            assert(point_at(bs, j as int));
            assert forall|k: int| point_at(bs, k) implies k == j by {
                if k < j {
                    assert(is_digit(bs.take(j as int)[k]));
                } else if k > j {
                    assert(is_digit(bs.take(k)[j as int]));
                }
            }
            if m - 1 <= MAX_DIGITS {
                let v1 = append_digits(b, 0, j, 0, Ghost(Seq::empty()));
                assert(Seq::<char>::empty() + bs.subrange(0, j as int) =~= bs.take(j as int));
                let v = append_digits(b, j + 1, m, v1, Ghost(bs.take(j as int)));
                let ghost k = choose|k: int| point_at(bs, k);
                assert(k == j);
                assert(bs.take(k) + bs.skip(k + 1) =~= bs.take(j as int) + bs.subrange(j + 1, m as int));
                assert(unsigned_of(bs) == Some((v as int, (m - j - 1) as nat)));
                Some((v as u128, (m - j - 1) as u32))
            } else {
                assert((bs.take(j as int) + bs.skip(j + 1)).len() == m - 1);
                None
            }
        } else {
            assert(!is_digit(bs.skip(j + 1)[e - j - 1]));
            assert forall|k: int| !point_at(bs, k) by {
                if point_at(bs, k) {
                    if k < j {
                        assert(is_digit(bs.take(j as int)[k]));
                    } else if k > j {
                        assert(is_digit(bs.take(k)[j as int]));
                    }
                }
            }
            None
        }
    } else {
        assert forall|k: int| !point_at(bs, k) by {
            if point_at(bs, k) {
                if k < j {
                    assert(is_digit(bs.take(j as int)[k]));
                } else if k > j {
                    assert(is_digit(bs.take(k)[j as int]));
                }
            }
        }
        assert(!all_digits(bs));
        None
    }
}

/// The first position of an exponent mark in `b`, or its length.
fn mark_at(b: &str) -> (k: usize)
    ensures
        k <= b@.len(),
        forall|i: int| 0 <= i < k ==> !is_exp_mark(#[trigger] b@[i]),
        k < b@.len() ==> is_exp_mark(b@[k as int]),
{
    let m = b.unicode_len();
    let mut k: usize = 0;
    while k < m && !is_mark_char(b.get_char(k))
        invariant
            k <= m == b@.len(),
            forall|i: int| 0 <= i < k ==> !is_exp_mark(#[trigger] b@[i]),
        decreases m - k,
    {
        k = k + 1;
    }
    k
}

fn is_mark_char(c: char) -> (r: bool)
    ensures
        r == is_exp_mark(c),
{
    c == 'e' || c == 'E'
}

/// Reads an exponent text; see `exponent_of`.
fn parse_exponent(x: &str) -> (r: Option<i64>)
    ensures
        match exponent_of(x@) {
            Some(e) => r == Some(e as i64) && -1_000_000_000 < e < 1_000_000_000,
            None => r is None,
        },
{
    let n = x.unicode_len();
    let neg = n > 0 && x.get_char(0) == '-';
    let signed = n > 0 && (x.get_char(0) == '-' || x.get_char(0) == '+');
    let d = if signed { x.substring_char(1, n) } else { x.substring_char(0, n) };
    let ghost ds = d@;
    assert(ds =~= (if signed { x@.drop_first() } else { x@ }));
    let m = d.unicode_len();
    if m == 0 || m > MAX_EXPONENT_DIGITS {
        return None;
    }
    let j = digits_end(d, 0);
    if j < m {
        assert(!all_digits(ds));
        return None;
    }
    assert(ds.subrange(0, m as int) =~= ds);
    let v = append_digits(d, 0, m, 0, Ghost(Seq::empty()));
    assert(Seq::<char>::empty() + ds.subrange(0, m as int) =~= ds);
    proof {
        lemma_pow10_mono(m as nat, MAX_EXPONENT_DIGITS as nat);
        reveal_with_fuel(pow10, 10);
    }
    let w = v as i64;
    Some(if neg { -w } else { w })
}

/// Signs digits of magnitude `a` and scales them by `10^(e - frac)`; see
/// `scaled`.
fn scale_decimal(neg: bool, a: u128, frac: u32, e: i64) -> (r: Decimal)
    requires
        a < 100_000_000_000_000_000_000_000_000_000_000_000_000u128,
        frac <= MAX_DIGITS,
        -1_000_000_000 < e < 1_000_000_000,
    ensures
        r == scaled(neg, a as int, frac as int, e as int),
{
    let scale: i64 = frac as i64 - e;
    let v = a as i128;
    Decimal { mantissa: if neg { -v } else { v }, scale: scale as i32 }
}

/// Reads a decimal from its text; see `decimal_of` for the forms accepted.
pub fn parse_decimal(s: &str) -> (r: Option<Decimal>)
    ensures
        r == decimal_of(s@),
{
    let n = s.unicode_len();
    let neg = n > 0 && s.get_char(0) == '-';
    let signed = n > 0 && (s.get_char(0) == '-' || s.get_char(0) == '+');
    let b = if signed { s.substring_char(1, n) } else { s.substring_char(0, n) };
    let ghost bs = b@;
    assert(bs =~= (if signed { s@.drop_first() } else { s@ }));
    let m = b.unicode_len();
    let k = mark_at(b);
    if k < m {
        assert(exp_at(bs, k as int));
        assert forall|i: int| exp_at(bs, i) implies i == k by {
            if i < k {
                assert(!is_exp_mark(bs[i]));
            } else if i > k {
                assert(!is_exp_mark(bs[k as int]));
            }
        }
        let mant = b.substring_char(0, k);
        let expo = b.substring_char(k + 1, m);
        assert(mant@ =~= bs.take(k as int));
        assert(expo@ =~= bs.skip(k + 1));
        match (parse_unsigned(mant), parse_exponent(expo)) {
            (Some((v, f)), Some(e)) => Some(scale_decimal(neg, v, f, e)),
            _ => None,
        }
    } else {
        assert forall|i: int| !exp_at(bs, i) by {
            if exp_at(bs, i) {
                assert(!is_exp_mark(bs[i]));
            }
        }
        match parse_unsigned(b) {
            Some((v, f)) => Some(scale_decimal(neg, v, f, 0)),
            None => None,
        }
    }
}

/// The character of a decimal digit.
pub open spec fn digit_char(d: int) -> char {
    ('0' as int + d) as char
}

/// The decimal digits of `n`, without leading zeros (`0` for zero).
pub open spec fn digits_of(n: nat) -> Seq<char>
    decreases n,
{
    if n < 10 {
        seq![digit_char(n as int)]
    } else {
        digits_of(n / 10).push(digit_char((n % 10) as int))
    }
}

/// The last `width` decimal digits of `n`, with leading zeros.
pub open spec fn padded_digits(n: nat, width: nat) -> Seq<char>
    decreases width,
{
    if width == 0 {
        Seq::empty()
    } else {
        padded_digits(n / 10, (width - 1) as nat).push(digit_char((n % 10) as int))
    }
}

/// How a decimal is written: its sign, the digits of its whole part, and
/// for a positive scale a point and exactly `scale` digits after it; for a
/// negative scale the digits are followed by `-scale` zeros (none for zero).
pub open spec fn decimal_text(d: Decimal) -> Seq<char> {
    let a: nat = if d.mantissa < 0 { (-d.mantissa) as nat } else { d.mantissa as nat };
    let p = pow10(d.scale as nat) as nat;
    let sign = if d.mantissa < 0 { seq!['-'] } else { Seq::empty() };
    if d.scale <= 0 {
        sign + digits_of(a) + (if a == 0 { Seq::empty() } else { padded_digits(0, (-d.scale) as nat) })
    } else {
        sign + digits_of(a / p) + seq!['.'] + padded_digits(a % p, d.scale as nat)
    }
}

fn digit_text(d: u128) -> (r: &'static str)
    requires
        d < 10,
    ensures
        r@ == seq![digit_char(d as int)],
{
    if d == 0 {
        proof {
            reveal_strlit("0");
        }
        "0"
    } else if d == 1 {
        proof {
            reveal_strlit("1");
        }
        "1"
    } else if d == 2 {
        proof {
            reveal_strlit("2");
        }
        "2"
    } else if d == 3 {
        proof {
            reveal_strlit("3");
        }
        "3"
    } else if d == 4 {
        proof {
            reveal_strlit("4");
        }
        "4"
    } else if d == 5 {
        proof {
            reveal_strlit("5");
        }
        "5"
    } else if d == 6 {
        proof {
            reveal_strlit("6");
        }
        "6"
    } else if d == 7 {
        proof {
            reveal_strlit("7");
        }
        "7"
    } else if d == 8 {
        proof {
            reveal_strlit("8");
        }
        "8"
    } else {
        proof {
            reveal_strlit("9");
        }
        "9"
    }
}

fn write_digits(out: &mut String, n: u128)
    ensures
        final(out)@ == old(out)@ + digits_of(n as nat),
    decreases n,
{
    if n >= 10 {
        write_digits(out, n / 10);
    }
    let ghost before = out@;
    out.append(digit_text(n % 10));
    proof {
        if n >= 10 {
            assert(before + seq![digit_char((n % 10) as int)] =~= old(out)@ + digits_of(n as nat));
        } else {
            assert(digits_of(n as nat) == seq![digit_char(n as int)]);
        }
    }
}

fn write_padded(out: &mut String, n: u128, width: u32)
    ensures
        final(out)@ == old(out)@ + padded_digits(n as nat, width as nat),
    decreases width,
{
    if width == 0 {
        assert(old(out)@ + padded_digits(n as nat, 0) =~= old(out)@);
        return;
    }
    write_padded(out, n / 10, width - 1);
    let ghost before = out@;
    out.append(digit_text(n % 10));
    assert(before + seq![digit_char((n % 10) as int)] =~= old(out)@ + padded_digits(n as nat, width as nat));
}

proof fn lemma_padded_split(n: nat, w1: nat, w2: nat)
    ensures
        padded_digits(n, w1 + w2) == padded_digits((n as int / pow10(w2)) as nat, w1) + padded_digits(n, w2),
    decreases w2,
{
    if w2 == 0 {
        assert(n / 1 == n);
        assert(padded_digits(n, w1) + padded_digits(n, 0) =~= padded_digits(n, w1));
    } else {
        lemma_padded_split(n / 10, w1, (w2 - 1) as nat);
        lemma_pow10_mono(0, (w2 - 1) as nat);
        vstd::arithmetic::div_mod::lemma_div_denominator(n as int, 10, pow10((w2 - 1) as nat));
        assert(pow10(w2) == 10 * pow10((w2 - 1) as nat));
        assert((w1 + w2 - 1) as nat == w1 + (w2 - 1) as nat);
        assert(padded_digits(n, w1 + w2) == padded_digits(n / 10, (w1 + w2 - 1) as nat).push(digit_char((n % 10) as int)));
        assert(padded_digits((n as int / pow10(w2)) as nat, w1) + padded_digits(n, w2) =~= (padded_digits(
            (((n / 10) as int) / pow10((w2 - 1) as nat)) as nat,
            w1,
        ) + padded_digits(n / 10, (w2 - 1) as nat)).push(digit_char((n % 10) as int)));
    }
}

pub(crate) proof fn lemma_pow10_39()
    ensures
        pow10(39) == 1_000_000_000_000_000_000_000_000_000_000_000_000_000int,
{
    reveal_with_fuel(pow10, 40);
}

/// Writes `width` zeros.
fn write_zeros(out: &mut String, width: u32)
    ensures
        final(out)@ == old(out)@ + padded_digits(0, width as nat),
{
    let mut i: u32 = 0;
    assert(old(out)@ + padded_digits(0, 0) =~= old(out)@);
    while i < width
        invariant
            i <= width,
            out@ == old(out)@ + padded_digits(0, i as nat),
        decreases width - i,
    {
        proof {
            reveal_strlit("0");
        }
        let ghost before = out@;
        out.append("0");
        assert(before + seq!['0'] =~= old(out)@ + padded_digits(0, (i + 1) as nat));
        i = i + 1;
    }
}

/// Writes the last `width` digits of `n`, of any width.
fn write_fraction(out: &mut String, n: u128, width: u32)
    ensures
        final(out)@ == old(out)@ + padded_digits(n as nat, width as nat),
{
    if width <= 39 {
        write_padded(out, n, width);
    } else {
        write_zeros(out, width - 39);
        write_padded(out, n, 39);
        proof {
            lemma_padded_split(n as nat, (width - 39) as nat, 39);
            lemma_pow10_39();
            vstd::arithmetic::div_mod::lemma_basic_div_specific_divisor(pow10(39));
            assert(n as int / pow10(39) == 0);
        }
        assert(old(out)@ + padded_digits(0, (width - 39) as nat) + padded_digits(n as nat, 39)
            =~= old(out)@ + padded_digits(n as nat, width as nat));
    }
}

impl Decimal {
    /// Writes the decimal with its own scale: `-3.25`, `18.50`, `7`, and
    /// `1200` for the digits `12` at scale `-2`.
    pub fn to_text(&self) -> (r: String)
        ensures
            r@ == decimal_text(*self),
    {
        let a: u128 = if self.mantissa < 0 {
            if self.mantissa == i128::MIN {
                170_141_183_460_469_231_731_687_303_715_884_105_728u128
            } else {
                (-self.mantissa) as u128
            }
        } else {
            self.mantissa as u128
        };
        let ghost an: nat = if self.mantissa < 0 { (-self.mantissa) as nat } else { self.mantissa as nat };
        assert(an == a as nat);
        let mut out = String::new();
        if self.mantissa < 0 {
            proof {
                reveal_strlit("-");
            }
            out.append("-");
        }
        let ghost sign = if self.mantissa < 0 { seq!['-'] } else { Seq::<char>::empty() };
        assert(out@ == sign);
        if self.scale <= 0 {
            write_digits(&mut out, a);
            if a != 0 && self.scale < 0 {
                write_zeros(&mut out, (-(self.scale as i64)) as u32);
            } else {
                assert(out@ + Seq::<char>::empty() =~= out@);
                assert(self.scale == 0 ==> padded_digits(0, (-self.scale) as nat) == Seq::<char>::empty());
            }
            return out;
        }
        let whole: u128;
        let frac: u128;
        if self.scale >= 39 {
            proof {
                lemma_pow10_mono(39, self.scale as nat);
                lemma_pow10_39();
                vstd::arithmetic::div_mod::lemma_basic_div_specific_divisor(pow10(self.scale as nat));
                vstd::arithmetic::div_mod::lemma_small_mod(a as nat, pow10(self.scale as nat) as nat);
            }
            whole = 0;
            frac = a;
        } else {
            let mut p: u128 = 1;
            let mut i: i32 = 0;
            proof {
                lemma_pow10_mono(0, 38);
                lemma_pow10_38();
            }
            while i < self.scale
                invariant
                    0 <= i <= self.scale < 39,
                    p == pow10(i as nat),
                    1 <= p <= 100_000_000_000_000_000_000_000_000_000_000_000_000u128,
                decreases self.scale - i,
            {
                proof {
                    lemma_pow10_mono((i + 1) as nat, 38);
                    lemma_pow10_38();
                    assert(pow10((i + 1) as nat) == 10 * pow10(i as nat));
                }
                p = p * 10;
                i = i + 1;
            }
            whole = a / p;
            frac = a % p;
        }
        let ghost pn = pow10(self.scale as nat) as nat;
        assert(whole as nat == an / pn);
        assert(frac as nat == an % pn);
        write_digits(&mut out, whole);
        proof {
            reveal_strlit(".");
        }
        out.append(".");
        write_fraction(&mut out, frac, self.scale as u32);
        out
    }
}

} // verus!
