//! `Real`, the decimal floating-point numbers that hold lengths and angles, and
//! the reading of numerals into them.

use vstd::prelude::*;
use vstd::arithmetic::div_mod::{
    lemma_div_denominator, lemma_div_multiples_vanish_fancy, lemma_fundamental_div_mod,
    lemma_fundamental_div_mod_converse, lemma_mod_pos_bound,
};

use crate::text::{chars_of, trim, trim_chars};

verus! {

/// A real number of a drawing: a decimal floating-point number, an infinity or
/// not a number.
///
/// `Finite { negative, digits, exponent }` is `digits * 10^exponent`, negated
/// where `negative` says so. Reading and arithmetic give it in a canonical
/// form (see `fit`): at most `REAL_PRECISION` digits, none of them a trailing
/// zero, zero always as `digits == 0, exponent == 0`, not negative.
#[derive(Clone, Copy, Debug, PartialEq, Eq, Structural)]
pub enum Real {
    Finite { negative: bool, digits: u64, exponent: i32 },
    Infinite { negative: bool },
    NotANumber,
}

/// The number of significant decimal digits that a real keeps; further digits
/// are dropped (rounding towards zero).
pub const REAL_PRECISION: u64 = 17;

/// The highest power of ten that a finite real's leading digit may stand at;
/// greater values become infinite.
pub const REAL_TOP_MAX: i64 = 308;

/// The lowest power of ten that a finite real's leading digit may stand at;
/// smaller values become zero.
pub const REAL_TOP_MIN: i64 = -324;

/// The bound to which a numeral's exponent is read exactly; a larger one is
/// held at it, since the value is then zero or infinite either way.
pub const REAL_WHOLE_LIMIT: u128 = 100_000_000_000_000_000_000;

/// `10^n`.
pub open spec fn pow10(n: nat) -> nat
    decreases n,
{
    if n == 0 {
        1
    } else {
        10 * pow10((n - 1) as nat)
    }
}

/// The number of decimal digits of `n` (none for zero).
pub open spec fn num_digits(n: nat) -> nat
    decreases n,
{
    if n == 0 {
        0
    } else {
        1 + num_digits(n / 10)
    }
}

/// `m * 10^e` with the trailing zeros of `m` moved into the exponent.
pub open spec fn strip_zeros(m: nat, e: int) -> (nat, int)
    decreases m,
{
    if m > 0 && m % 10 == 0 {
        strip_zeros(m / 10, e + 1)
    } else {
        (m, e)
    }
}

/// Zero.
pub open spec fn real_zero() -> Real {
    Real::Finite { negative: false, digits: 0, exponent: 0 }
}

/// The real that stands for `n * 10^e`, negated where `negative` says so: zero
/// for zero; infinite where the leading digit stands above `10^REAL_TOP_MAX`;
/// zero where it stands below `10^REAL_TOP_MIN`; else the number cut to its
/// first `REAL_PRECISION` digits, in canonical form.
pub open spec fn fit(n: nat, e: int, negative: bool) -> Real {
    if n == 0 {
        real_zero()
    } else {
        let k = num_digits(n);
        let top = e + k - 1;
        if top > REAL_TOP_MAX {
            Real::Infinite { negative }
        } else if top < REAL_TOP_MIN {
            real_zero()
        } else {
            let cut: nat = if k > REAL_PRECISION { (k - REAL_PRECISION) as nat } else { 0 };
            let s = strip_zeros(n / pow10(cut), e + cut);
            Real::Finite { negative, digits: s.0 as u64, exponent: s.1 as i32 }
        }
    }
}

/// The signed whole number of a finite real's digits.
pub open spec fn signed_digits(negative: bool, digits: u64) -> int {
    if negative {
        -(digits as int)
    } else {
        digits as int
    }
}

/// The sum of two reals: not a number where either is, or where infinities of
/// both signs meet; an infinity where one is; else the exact sum, fitted as
/// `fit` describes.
pub open spec fn real_add(a: Real, b: Real) -> Real {
    match (a, b) {
        (Real::NotANumber, _) => Real::NotANumber,
        (_, Real::NotANumber) => Real::NotANumber,
        (Real::Infinite { negative: x }, Real::Infinite { negative: y }) => if x == y {
            a
        } else {
            Real::NotANumber
        },
        (Real::Infinite { .. }, _) => a,
        (_, Real::Infinite { .. }) => b,
        (
            Real::Finite { negative: na, digits: da, exponent: ea },
            Real::Finite { negative: nb, digits: db, exponent: eb },
        ) => {
            let emin: int = if ea <= eb { ea as int } else { eb as int };
            let s = signed_digits(na, da) * pow10((ea - emin) as nat) + signed_digits(nb, db) * pow10(
                (eb - emin) as nat,
            );
            fit((if s < 0 { -s } else { s }) as nat, emin, s < 0)
        },
    }
}

/// The absolute value of a real.
pub open spec fn real_abs(r: Real) -> Real {
    match r {
        Real::Finite { digits, exponent, .. } => Real::Finite { negative: false, digits, exponent },
        Real::Infinite { .. } => Real::Infinite { negative: false },
        Real::NotANumber => Real::NotANumber,
    }
}

/// Whether a real is zero or below it (never so for not a number).
pub open spec fn at_most_zero(r: Real) -> bool {
    match r {
        Real::Finite { negative, digits, .. } => negative || digits == 0,
        Real::Infinite { negative } => negative,
        Real::NotANumber => false,
    }
}

/// Whether a real is below zero.
pub open spec fn below_zero(r: Real) -> bool {
    match r {
        Real::Finite { negative, digits, .. } => negative && digits > 0,
        Real::Infinite { negative } => negative,
        Real::NotANumber => false,
    }
}

/// The whole number `n` as a real.
pub open spec fn whole(n: int) -> Real {
    fit((if n < 0 { -n } else { n }) as nat, 0, n < 0)
}

impl Real {
    /// Zero.
    pub fn zero() -> (r: Real)
        ensures
            r == real_zero(),
    {
        Real::Finite { negative: false, digits: 0, exponent: 0 }
    }

    /// The real `digits * 10^exponent`, negated where `negative` says so, in
    /// canonical form.
    pub fn new(negative: bool, digits: u64, exponent: i32) -> (r: Real)
        ensures
            r == fit(digits as nat, exponent as int, negative),
    {
        fit_real(digits as u128, exponent as i64, negative)
    }

    /// The whole number `n` as a real.
    pub fn from_int(n: i64) -> (r: Real)
        ensures
            r == whole(n as int),
    {
        let m: u128 = if n < 0 {
            (-(n as i128)) as u128
        } else {
            n as u128
        };
        fit_real(m, 0, n < 0)
    }

    /// Whether the real is zero or below it.
    pub fn at_most_zero(self) -> (b: bool)
        ensures
            b == at_most_zero(self),
    {
        match self {
            Real::Finite { negative, digits, .. } => negative || digits == 0,
            Real::Infinite { negative } => negative,
            Real::NotANumber => false,
        }
    }

    /// Whether the real is below zero.
    pub fn below_zero(self) -> (b: bool)
        ensures
            b == below_zero(self),
    {
        match self {
            Real::Finite { negative, digits, .. } => negative && digits > 0,
            Real::Infinite { negative } => negative,
            Real::NotANumber => false,
        }
    }

    /// The absolute value.
    pub fn abs(self) -> (r: Real)
        ensures
            r == real_abs(self),
    {
        match self {
            Real::Finite { digits, exponent, .. } => Real::Finite { negative: false, digits, exponent },
            Real::Infinite { .. } => Real::Infinite { negative: false },
            Real::NotANumber => Real::NotANumber,
        }
    }

    /// The sum of two reals that are not below zero, as `real_add` describes.
    pub fn add_magnitudes(self, other: Real) -> (r: Real)
        requires
            !below_zero(self),
            !below_zero(other),
        ensures
            r == real_add(self, other),
    {
        add_nonneg(self, other)
    }
}

/// Whether `c` is an ASCII decimal digit.
pub open spec fn is_digit(c: char) -> bool {
    '0' <= c && c <= '9'
}

/// Whether every character of `s` is a decimal digit.
pub open spec fn all_digits(s: Seq<char>) -> bool {
    forall|i: int| 0 <= i < s.len() ==> is_digit(#[trigger] s[i])
}

/// The value of the decimal digit `c`.
pub open spec fn digit_value(c: char) -> nat {
    (c as nat - '0' as nat) as nat
}

/// The value of a decimal numeral.
pub open spec fn decimal_value(s: Seq<char>) -> nat
    decreases s.len(),
{
    if s.len() == 0 {
        0
    } else {
        decimal_value(s.drop_last()) * 10 + digit_value(s.last())
    }
}

/// The digit of `d` at position `k`, or `'0'` past its end.
pub open spec fn padded_digit(d: Seq<char>, k: int) -> char {
    if k < d.len() {
        d[k]
    } else {
        '0'
    }
}

/// The position of the first `a` or `b` in `s`, or its length when it has
/// neither.
pub open spec fn first_of(s: Seq<char>, a: char, b: char) -> int
    decreases s.len(),
{
    if s.len() == 0 {
        0
    } else if s[0] == a || s[0] == b {
        0
    } else {
        1 + first_of(s.drop_first(), a, b)
    }
}

/// Whether the text starts with a sign.
pub open spec fn has_sign(t: Seq<char>) -> bool {
    t.len() > 0 && (t[0] == '-' || t[0] == '+')
}

/// The text after its sign, if any.
pub open spec fn unsigned_part(t: Seq<char>) -> Seq<char> {
    if has_sign(t) {
        t.drop_first()
    } else {
        t
    }
}

/// The numeral before the exponent mark (`e` or `E`), without its sign.
pub open spec fn mantissa(t: Seq<char>) -> Seq<char> {
    let u = unsigned_part(t);
    u.subrange(0, first_of(u, 'e', 'E'))
}

/// Whether the text has an exponent mark.
pub open spec fn has_exponent(t: Seq<char>) -> bool {
    let u = unsigned_part(t);
    first_of(u, 'e', 'E') < u.len()
}

/// The text after the exponent mark (empty where there is none).
pub open spec fn exponent_text(t: Seq<char>) -> Seq<char> {
    let u = unsigned_part(t);
    if has_exponent(t) {
        u.subrange(first_of(u, 'e', 'E') + 1, u.len() as int)
    } else {
        Seq::empty()
    }
}

/// The digits before the decimal point.
pub open spec fn whole_digits(t: Seq<char>) -> Seq<char> {
    let m = mantissa(t);
    m.subrange(0, first_of(m, '.', '.'))
}

/// The digits after the decimal point (empty when there is none).
pub open spec fn frac_digits(t: Seq<char>) -> Seq<char> {
    let m = mantissa(t);
    if first_of(m, '.', '.') < m.len() {
        m.subrange(first_of(m, '.', '.') + 1, m.len() as int)
    } else {
        Seq::empty()
    }
}

/// Whether an exponent is an optional sign followed by at least one digit.
pub open spec fn exponent_ok(x: Seq<char>) -> bool {
    unsigned_part(x).len() > 0 && all_digits(unsigned_part(x))
}

/// The value of an exponent.
pub open spec fn exponent_value(x: Seq<char>) -> int {
    if x.len() > 0 && x[0] == '-' {
        -(decimal_value(unsigned_part(x)) as int)
    } else {
        decimal_value(unsigned_part(x)) as int
    }
}

/// The power of ten that the text's exponent gives (zero without one).
pub open spec fn text_exponent(t: Seq<char>) -> int {
    if has_exponent(t) {
        exponent_value(exponent_text(t))
    } else {
        0
    }
}

proof fn lemma_first_of_at(s: Seq<char>, a: char, b: char, k: int)
    requires
        0 <= k <= s.len(),
        forall|j: int| 0 <= j < k ==> s[j] != a && s[j] != b,
        k < s.len() ==> s[k] == a || s[k] == b,
    ensures
        first_of(s, a, b) == k,
    decreases s.len(),
{
    if s.len() > 0 && s[0] != a && s[0] != b {
        assert forall|j: int| 0 <= j < k - 1 implies s.drop_first()[j] != a && s.drop_first()[j] != b by {
            assert(s.drop_first()[j] == s[j + 1]);
        }
        lemma_first_of_at(s.drop_first(), a, b, k - 1);
    }
}

proof fn lemma_pow10_le(a: nat, b: nat)
    requires
        a <= b,
    ensures
        pow10(a) <= pow10(b),
    decreases b,
{
    if a < b {
        lemma_pow10_le(a, (b - 1) as nat);
    }
}


/// A numeral of zeros has the value zero.
proof fn lemma_zeros_value(s: Seq<char>)
    requires
        forall|i: int| 0 <= i < s.len() ==> s[i] == '0',
    ensures
        decimal_value(s) == 0,
    decreases s.len(),
{
    if s.len() > 0 {
        lemma_zeros_value(s.drop_last());
    }
}

/// A numeral with a digit other than zero at position `z` is at least
/// `10^(len - 1 - z)`.
proof fn lemma_decimal_lower(s: Seq<char>, z: int)
    requires
        all_digits(s),
        0 <= z < s.len(),
        s[z] != '0',
    ensures
        decimal_value(s) >= pow10((s.len() - 1 - z) as nat),
    decreases s.len(),
{
    assert(is_digit(s[s.len() - 1]));
    if z < s.len() - 1 {
        assert(all_digits(s.drop_last())) by {
            assert forall|i: int| 0 <= i < s.drop_last().len() implies is_digit(
                #[trigger] s.drop_last()[i],
            ) by {
                assert(s.drop_last()[i] == s[i]);
            }
        }
        lemma_decimal_lower(s.drop_last(), z);
        assert(pow10((s.len() - 1 - z) as nat) == 10 * pow10((s.len() - 2 - z) as nat));
    } else {
        assert(is_digit(s[z]));
    }
}

/// Reads the decimal numeral `s[from..to]`, all of whose characters are known to be
/// digits, giving `None` once its value reaches `limit`.
fn read_decimal(s: &[char], from: usize, to: usize, limit: u128) -> (r: Option<u128>)
    requires
        from <= to <= s@.len(),
        all_digits(s@.subrange(from as int, to as int)),
        0 < limit <= REAL_WHOLE_LIMIT,
    ensures
        r matches Some(v) ==> v == decimal_value(s@.subrange(from as int, to as int)) && v < limit,
        r is None ==> decimal_value(s@.subrange(from as int, to as int)) >= limit,
{
    let mut acc: u128 = 0;
    let mut i: usize = from;
    while i < to
        invariant
            from <= i <= to <= s@.len(),
            all_digits(s@.subrange(from as int, to as int)),
            acc == decimal_value(s@.subrange(from as int, i as int)),
            acc < limit,
            limit <= REAL_WHOLE_LIMIT,
        decreases to - i,
    {
        let ghost prefix = s@.subrange(from as int, i as int);
        let ghost next = s@.subrange(from as int, i + 1);
        proof {
            assert(next.drop_last() =~= prefix);
            assert(s@.subrange(from as int, to as int)[i - from] == s@[i as int]);
            assert(is_digit(s@[i as int]));
        }
        let d = (s[i] as u32 - '0' as u32) as u128;
        acc = acc * 10 + d;
        i = i + 1;
        if acc >= limit {
            proof {
                lemma_decimal_prefix_grows(s@.subrange(from as int, to as int), i - from);
                assert(s@.subrange(from as int, to as int).subrange(0, i - from) =~= s@.subrange(
                    from as int,
                    i as int,
                ));
            }
            return None;
        }
    }
    Some(acc)
}

proof fn lemma_decimal_prefix_grows(s: Seq<char>, k: int)
    requires
        0 <= k <= s.len(),
        all_digits(s),
    ensures
        decimal_value(s.subrange(0, k)) <= decimal_value(s),
    decreases s.len(),
{
    if k < s.len() {
        assert(all_digits(s.drop_last())) by {
            assert forall|i: int| 0 <= i < s.drop_last().len() implies is_digit(
                #[trigger] s.drop_last()[i],
            ) by {
                assert(s.drop_last()[i] == s[i]);
            }
        }
        lemma_decimal_prefix_grows(s.drop_last(), k);
        assert(s.drop_last().subrange(0, k) =~= s.subrange(0, k));
    } else {
        assert(s.subrange(0, k) =~= s);
    }
}

/// The digit at position `k` of the whole digits `t[ws..we]` followed by the
/// fraction digits `t[fs..fe]`, or `'0'` past their end.
fn digit_at(t: &[char], ws: usize, we: usize, fs: usize, fe: usize, k: u128) -> (c: char)
    requires
        ws <= we <= t@.len(),
        fs <= fe <= t@.len(),
    ensures
        c == padded_digit(t@.subrange(ws as int, we as int) + t@.subrange(fs as int, fe as int), k as int),
{
    let ghost w = t@.subrange(ws as int, we as int);
    let ghost f = t@.subrange(fs as int, fe as int);
    let wl = we - ws;
    let fl = fe - fs;
    if k < wl as u128 {
        proof {
            assert((w + f)[k as int] == w[k as int]);
        }
        t[ws + k as usize]
    } else {
        let kf: u128 = k - wl as u128;
        if kf < fl as u128 {
            proof {
                assert((w + f)[k as int] == f[kf as int]);
            }
            t[fs + kf as usize]
        } else {
            '0'
        }
    }
}

/// Whether every character of `t[from..to]` is a digit.
fn all_digits_in(t: &[char], from: usize, to: usize) -> (r: bool)
    requires
        from <= to <= t@.len(),
    ensures
        r == all_digits(t@.subrange(from as int, to as int)),
{
    let mut i: usize = from;
    while i < to
        invariant
            from <= i <= to <= t@.len(),
            forall|j: int| from <= j < i ==> is_digit(t@[j]),
        decreases to - i,
    {
        if !(t[i] >= '0' && t[i] <= '9') {
            proof {
                assert(t@.subrange(from as int, to as int)[i - from] == t@[i as int]);
            }
            return false;
        }
        i = i + 1;
    }
    proof {
        assert forall|j: int| 0 <= j < t@.subrange(from as int, to as int).len() implies is_digit(
            #[trigger] t@.subrange(from as int, to as int)[j],
        ) by {
            assert(t@.subrange(from as int, to as int)[j] == t@[from + j]);
        }
    }
    true
}

/// The parts of a trimmed numeral: where its unsigned part starts, whether it
/// is negative, where its exponent mark, its point and its fraction are.
fn numeral_parts(t: &[char]) -> (r: (usize, bool, usize, usize, usize))
    ensures
        ({
            let (start, negative, epos, dot, fs) = r;
            &&& start <= dot <= epos <= t@.len()
            &&& fs == if dot < epos { dot + 1 } else { epos as int }
            &&& negative == (t@.len() > 0 && t@[0] == '-')
            &&& unsigned_part(t@) == t@.subrange(start as int, t@.len() as int)
            &&& whole_digits(t@) == t@.subrange(start as int, dot as int)
            &&& frac_digits(t@) == t@.subrange(fs as int, epos as int)
            &&& has_exponent(t@) == (epos < t@.len())
            &&& has_exponent(t@) ==> exponent_text(t@) == t@.subrange(epos + 1, t@.len() as int)
        }),
{
    let len = t.len();
    let mut start: usize = 0;
    let mut negative = false;
    if len > 0 && (t[0] == '-' || t[0] == '+') {
        negative = t[0] == '-';
        start = 1;
    }
    let ghost u = unsigned_part(t@);
    proof {
        if has_sign(t@) {
            assert(u =~= t@.subrange(1, t@.len() as int));
        } else {
            assert(u =~= t@.subrange(0, t@.len() as int));
        }
    }
    let mut epos: usize = start;
    while epos < len && t[epos] != 'e' && t[epos] != 'E'
        invariant
            start <= epos <= t@.len(),
            len == t@.len(),
            u == t@.subrange(start as int, t@.len() as int),
            forall|j: int| 0 <= j < epos - start ==> u[j] != 'e' && u[j] != 'E',
        decreases len - epos,
    {
        epos = epos + 1;
    }
    proof {
        lemma_first_of_at(u, 'e', 'E', epos - start);
    }
    let ghost m = mantissa(t@);
    proof {
        assert(m =~= t@.subrange(start as int, epos as int));
    }
    let mut dot: usize = start;
    while dot < epos && t[dot] != '.'
        invariant
            start <= dot <= epos <= t@.len(),
            m == t@.subrange(start as int, epos as int),
            forall|j: int| 0 <= j < dot - start ==> m[j] != '.' && m[j] != '.',
        decreases epos - dot,
    {
        dot = dot + 1;
    }
    proof {
        lemma_first_of_at(m, '.', '.', dot - start);
    }
    let fs: usize = if dot < epos {
        dot + 1
    } else {
        epos
    };
    proof {
        assert(whole_digits(t@) =~= t@.subrange(start as int, dot as int));
        assert(frac_digits(t@) =~= t@.subrange(fs as int, epos as int));
        if epos < len {
            assert(exponent_text(t@) =~= t@.subrange(epos + 1, t@.len() as int));
        }
    }
    (start, negative, epos, dot, fs)
}

/// Reads the exponent `t[from..]`: `None` where it is not an optional sign
/// followed by digits; else its value, held to `REAL_WHOLE_LIMIT` in size, and
/// whether it was held.
fn read_exponent(t: &[char], from: usize) -> (r: Option<(i128, bool)>)
    requires
        from <= t@.len(),
    ensures
        r is None <==> !exponent_ok(t@.subrange(from as int, t@.len() as int)),
        r matches Some((e, big)) ==> {
            let x = t@.subrange(from as int, t@.len() as int);
            &&& -(REAL_WHOLE_LIMIT as int) <= e <= REAL_WHOLE_LIMIT
            &&& !big ==> e == exponent_value(x)
            &&& big ==> (e == REAL_WHOLE_LIMIT && exponent_value(x) >= e) || (e == -(
                REAL_WHOLE_LIMIT as int) && exponent_value(x) <= e)
        },
{
    let len = t.len();
    let ghost x = t@.subrange(from as int, t@.len() as int);
    let mut ds: usize = from;
    let mut negative = false;
    if ds < len && (t[ds] == '+' || t[ds] == '-') {
        negative = t[ds] == '-';
        ds = ds + 1;
    }
    let ghost xd = unsigned_part(x);
    proof {
        assert(xd =~= t@.subrange(ds as int, t@.len() as int));
        assert(negative == (x.len() > 0 && x[0] == '-'));
    }
    if ds == len {
        return None;
    }
    if !all_digits_in(t, ds, len) {
        return None;
    }
    match read_decimal(t, ds, len, REAL_WHOLE_LIMIT) {
        Some(v) => {
            let e: i128 = if negative {
                -(v as i128)
            } else {
                v as i128
            };
            Some((e, false))
        },
        None => {
            let e: i128 = if negative {
                -(REAL_WHOLE_LIMIT as i128)
            } else {
                REAL_WHOLE_LIMIT as i128
            };
            Some((e, true))
        },
    }
}

/// The letters `inf`, in lower and in upper case.
pub open spec fn inf_lower() -> Seq<char> {
    seq!['i', 'n', 'f']
}

pub open spec fn inf_upper() -> Seq<char> {
    seq!['I', 'N', 'F']
}

/// The letters `infinity`, in lower and in upper case.
pub open spec fn infinity_lower() -> Seq<char> {
    seq!['i', 'n', 'f', 'i', 'n', 'i', 't', 'y']
}

pub open spec fn infinity_upper() -> Seq<char> {
    seq!['I', 'N', 'F', 'I', 'N', 'I', 'T', 'Y']
}

/// The letters `nan`, in lower and in upper case.
pub open spec fn nan_lower() -> Seq<char> {
    seq!['n', 'a', 'n']
}

pub open spec fn nan_upper() -> Seq<char> {
    seq!['N', 'A', 'N']
}

/// Whether `u` spells the word whose letters are `lower` (in lower case) and
/// `upper` (in upper case), each letter in either case.
pub open spec fn same_word(u: Seq<char>, lower: Seq<char>, upper: Seq<char>) -> bool {
    u.len() == lower.len() && forall|i: int| 0 <= i < lower.len() ==> (u[i] == lower[i] || u[i] == upper[i])
}

/// Whether a trimmed text is a decimal numeral: an optional sign, decimal
/// digits, optionally a point followed by more digits, with at least one digit
/// in all, and optionally an exponent (`e` or `E`, an optional sign and at
/// least one digit).
pub open spec fn numeral_ok(t: Seq<char>) -> bool {
    let w = whole_digits(t);
    let f = frac_digits(t);
    &&& all_digits(w)
    &&& all_digits(f)
    &&& w.len() + f.len() > 0
    &&& has_exponent(t) ==> exponent_ok(exponent_text(t))
}

/// The real that a text denotes, after trimming white space, for every text
/// that Rust reads as an `f64`: a decimal numeral (see `numeral_ok`) gives its
/// exact value fitted as `fit` describes (at most `REAL_PRECISION` significant
/// digits, the rest dropped; infinite past `10^(REAL_TOP_MAX + 1)`, zero below
/// `10^REAL_TOP_MIN`); `inf` and `infinity` with an optional sign give an
/// infinity and `nan` gives not a number, their letters in either case; other
/// texts give `None`.
pub open spec fn real_of_text(s: Seq<char>) -> Option<Real> {
    let t = trim(s);
    let u = unsigned_part(t);
    let negative = t.len() > 0 && t[0] == '-';
    if same_word(u, inf_lower(), inf_upper()) || same_word(u, infinity_lower(), infinity_upper()) {
        Some(Real::Infinite { negative })
    } else if same_word(u, nan_lower(), nan_upper()) {
        Some(Real::NotANumber)
    } else if numeral_ok(t) {
        Some(
            fit(
                decimal_value(whole_digits(t) + frac_digits(t)),
                text_exponent(t) - frac_digits(t).len(),
                negative,
            ),
        )
    } else {
        None
    }
}

proof fn lemma_pow10_pos(n: nat)
    ensures
        pow10(n) >= 1,
    decreases n,
{
    if n > 0 {
        lemma_pow10_pos((n - 1) as nat);
    }
}

proof fn lemma_pow10_add(a: nat, b: nat)
    ensures
        pow10(a + b) == pow10(a) * pow10(b),
    decreases b,
{
    if b == 0 {
        assert(pow10(0) == 1);
        assert(a + b == a);
    } else {
        lemma_pow10_add(a, (b - 1) as nat);
        let p = pow10((b - 1) as nat);
        let q = pow10(a);
        assert((a + b - 1) as nat == a + (b - 1) as nat);
        assert(pow10(a + b) == 10 * pow10((a + b - 1) as nat));
        assert(pow10(b) == 10 * p);
        assert(q * (10 * p) == 10 * (q * p)) by (nonlinear_arith);
    }
}

proof fn lemma_pow10_values()
    ensures
        pow10(17) == 100_000_000_000_000_000,
        pow10(19) == 10_000_000_000_000_000_000,
        pow10(20) == 100_000_000_000_000_000_000,
        pow10(38) == 100_000_000_000_000_000_000_000_000_000_000_000_000,
        pow10(39) == 1_000_000_000_000_000_000_000_000_000_000_000_000_000,
{
    reveal_with_fuel(pow10, 40);
}

/// A positive number lies between `10^(k - 1)` and `10^k` for `k` its number of
/// digits.
proof fn lemma_num_digits_bounds(n: nat)
    requires
        n > 0,
    ensures
        num_digits(n) >= 1,
        pow10((num_digits(n) - 1) as nat) <= n < pow10(num_digits(n)),
    decreases n,
{
    if n < 10 {
        assert(n / 10 == 0);
        assert(num_digits(0) == 0);
        assert(num_digits(n) == 1);
        assert(pow10(1) == 10) by {
            reveal_with_fuel(pow10, 2);
        }
    } else {
        lemma_num_digits_bounds(n / 10);
        let k1 = num_digits(n / 10);
        assert(num_digits(n) == 1 + k1);
        assert(pow10(k1) == 10 * pow10((k1 - 1) as nat));
        assert(pow10(k1 + 1) == 10 * pow10(k1));
    }
}

/// A number between `10^(k - 1)` and `10^k` has `k` digits.
proof fn lemma_num_digits_of(n: nat, k: nat)
    requires
        k >= 1,
        pow10((k - 1) as nat) <= n < pow10(k),
    ensures
        num_digits(n) == k,
    decreases k,
{
    if k == 1 {
        assert(pow10(1) == 10) by {
            reveal_with_fuel(pow10, 2);
        }
        assert(n / 10 == 0);
        assert(num_digits(0) == 0);
        assert(pow10(0) == 1);
    } else {
        assert(pow10((k - 1) as nat) == 10 * pow10((k - 2) as nat));
        assert(pow10(k) == 10 * pow10((k - 1) as nat));
        lemma_num_digits_of(n / 10, (k - 1) as nat);
    }
}

/// A number of at least `10^m` has more than `m` digits.
proof fn lemma_num_digits_at_least(n: nat, m: nat)
    requires
        n >= pow10(m),
    ensures
        num_digits(n) >= m + 1,
{
    lemma_pow10_pos(m);
    lemma_num_digits_bounds(n);
    if num_digits(n) <= m {
        lemma_pow10_le(num_digits(n), m);
    }
}

/// A positive number below `10^m` has at most `m` digits.
proof fn lemma_num_digits_below(n: nat, m: nat)
    requires
        0 < n < pow10(m),
    ensures
        num_digits(n) <= m,
{
    lemma_num_digits_bounds(n);
    if num_digits(n) > m {
        lemma_pow10_le(m, (num_digits(n) - 1) as nat);
    }
}

proof fn lemma_div_bounds(n: int, q: int, lo: int, hi: int)
    requires
        q > 0,
        0 <= n,
        lo * q <= n,
        n < hi * q,
    ensures
        lo <= n / q < hi,
{
    lemma_fundamental_div_mod(n, q);
    lemma_mod_pos_bound(n, q);
    let d = n / q;
    let r = n % q;
    assert(lo <= d && d < hi) by (nonlinear_arith)
        requires
            n == q * d + r,
            0 <= r < q,
            lo * q <= n,
            n < hi * q,
            q > 0,
    ;
}

/// Dropping `j` of a number's digits leaves the others.
proof fn lemma_num_digits_div(n: nat, j: nat)
    requires
        n > 0,
        j < num_digits(n),
    ensures
        num_digits(n / pow10(j)) == num_digits(n) - j,
{
    let k = num_digits(n);
    lemma_num_digits_bounds(n);
    lemma_pow10_add((k - 1 - j) as nat, j);
    lemma_pow10_add((k - j) as nat, j);
    assert((k - 1 - j) as nat + j == (k - 1) as nat);
    assert((k - j) as nat + j == k);
    lemma_pow10_pos(j);
    lemma_div_bounds(n as int, pow10(j) as int, pow10((k - 1 - j) as nat) as int, pow10((k - j) as nat) as int);
    lemma_num_digits_of(n / pow10(j), (k - j) as nat);
}

/// Dropping digits that `fit` drops anyway changes nothing.
proof fn lemma_fit_cut(n: nat, e: int, j: nat, negative: bool)
    requires
        n > 0,
        j == 0 || j + REAL_PRECISION <= num_digits(n),
    ensures
        fit(n, e, negative) == fit(n / pow10(j), e + j, negative),
{
    if j == 0 {
        assert(pow10(0) == 1);
        assert(n / 1 == n);
    } else {
        let k = num_digits(n);
        lemma_num_digits_div(n, j);
        let n2 = n / pow10(j);
        assert(num_digits(n2) == k - j);
        assert(n2 != 0);
        let cut: nat = (k - REAL_PRECISION) as nat;
        let cut2: nat = (cut - j) as nat;
        lemma_pow10_add(j, cut2);
        assert(j + cut2 == cut);
        lemma_pow10_pos(j);
        lemma_pow10_pos(cut2);
        lemma_div_denominator(n as int, pow10(j) as int, pow10(cut2) as int);
        assert(n2 / pow10(cut2) == n / pow10(cut));
    }
}

/// A numeral splits into its first `c` digits, scaled, and the rest.
proof fn lemma_decimal_split(s: Seq<char>, c: int)
    requires
        0 <= c <= s.len(),
        all_digits(s),
    ensures
        decimal_value(s) == decimal_value(s.take(c)) * pow10((s.len() - c) as nat) + decimal_value(s.skip(c)),
        decimal_value(s.skip(c)) < pow10((s.len() - c) as nat),
    decreases s.len(),
{
    if c == s.len() {
        assert(s.take(c) =~= s);
        assert(s.skip(c) =~= Seq::<char>::empty());
        assert(decimal_value(Seq::<char>::empty()) == 0);
        assert(pow10(0) == 1);
        assert(decimal_value(s) * 1 == decimal_value(s));
    } else {
        let s1 = s.drop_last();
        assert(all_digits(s1)) by {
            assert forall|i: int| 0 <= i < s1.len() implies is_digit(#[trigger] s1[i]) by {
                assert(s1[i] == s[i]);
            }
        }
        assert(is_digit(s[s.len() - 1]));
        lemma_decimal_split(s1, c);
        assert(s.take(c) =~= s1.take(c));
        assert(s.skip(c).drop_last() =~= s1.skip(c));
        assert(s.skip(c).last() == s.last());
        let a = decimal_value(s.take(c));
        let p1 = pow10((s1.len() - c) as nat);
        let b1 = decimal_value(s1.skip(c));
        assert(pow10((s.len() - c) as nat) == 10 * p1);
        assert((a * p1) * 10 == a * (10 * p1)) by (nonlinear_arith);
        let t = s.skip(c);
        assert(decimal_value(t) == decimal_value(t.drop_last()) * 10 + digit_value(t.last()));
        assert(decimal_value(s) == decimal_value(s1) * 10 + digit_value(s.last()));
        assert(decimal_value(s1) == a * p1 + b1);
        assert(decimal_value(t) == b1 * 10 + digit_value(s.last()));
        let g = digit_value(s.last());
        let big_p = pow10((s.len() - c) as nat);
        let dv_s = decimal_value(s);
        let dv_t = decimal_value(t);
        let dv_s1 = decimal_value(s1);
        assert(dv_s == a * big_p + dv_t) by (nonlinear_arith)
            requires
                dv_s == dv_s1 * 10 + g,
                dv_s1 == a * p1 + b1,
                dv_t == b1 * 10 + g,
                big_p == 10 * p1,
        ;
    }
}

/// Leading zeros do not change a numeral's value.
proof fn lemma_decimal_skip_zeros(d: Seq<char>, z: int)
    requires
        0 <= z <= d.len(),
        all_digits(d),
        forall|k: int| 0 <= k < z ==> d[k] == '0',
    ensures
        decimal_value(d) == decimal_value(d.skip(z)),
{
    lemma_decimal_split(d, z);
    lemma_zeros_value(d.take(z));
}

/// The sum of two reals that are not below zero is not below zero.
pub proof fn lemma_add_not_below(a: Real, b: Real)
    requires
        !below_zero(a),
        !below_zero(b),
    ensures
        !below_zero(real_add(a, b)),
{
    match (a, b) {
        (
            Real::Finite { negative: na, digits: da, exponent: ea },
            Real::Finite { negative: nb, digits: db, exponent: eb },
        ) => {
            let emin: int = if ea <= eb { ea as int } else { eb as int };
            let x = signed_digits(na, da);
            let y = signed_digits(nb, db);
            let pa = pow10((ea - emin) as nat);
            let pb = pow10((eb - emin) as nat);
            assert(x >= 0 && y >= 0);
            assert(x * pa + y * pb >= 0) by (nonlinear_arith)
                requires
                    x >= 0,
                    y >= 0,
                    pa >= 0,
                    pb >= 0,
            ;
        },
        _ => {},
    }
}

/// The whole numbers that defaults use: zero is `real_zero()`, and one and
/// fifty are above zero.
pub proof fn lemma_small_wholes()
    ensures
        whole(0) == real_zero(),
        !at_most_zero(whole(1)),
        !at_most_zero(whole(50)),
        !below_zero(whole(0)),
        whole(1) == (Real::Finite { negative: false, digits: 1, exponent: 0 }),
        whole(50) == (Real::Finite { negative: false, digits: 5, exponent: 1 }),
{
    reveal_with_fuel(num_digits, 3);
    reveal_with_fuel(pow10, 2);
    reveal_with_fuel(strip_zeros, 3);
    assert(num_digits(1) == 1);
    assert(num_digits(50) == 2);
    assert(pow10(0) == 1);
    assert(1nat / 1nat == 1);
    assert(50nat / 1nat == 50);
    assert(strip_zeros(1, 0) == (1nat, 0int));
    assert(strip_zeros(50, 0) == (5nat, 1int));
}

/// `10^c` for `c <= 38`.
fn pow10_u128(c: u64) -> (r: u128)
    requires
        c <= 38,
    ensures
        r == pow10(c as nat),
{
    let mut r: u128 = 1;
    let mut i: u64 = 0;
    while i < c
        invariant
            i <= c <= 38,
            r == pow10(i as nat),
        decreases c - i,
    {
        proof {
            lemma_pow10_le((i + 1) as nat, 38);
            lemma_pow10_values();
        }
        r = r * 10;
        i = i + 1;
    }
    r
}

/// The real for `n * 10^e`, negated where `negative` says so, as `fit`
/// describes.
fn fit_real(n: u128, e: i64, negative: bool) -> (r: Real)
    requires
        -1_000_000_000_000 <= e <= 1_000_000_000_000,
    ensures
        r == fit(n as nat, e as int, negative),
{
    if n == 0 {
        return Real::zero();
    }
    proof {
        lemma_pow10_values();
        lemma_num_digits_below(n as nat, 39);
    }
    let mut k: i64 = 0;
    let mut x: u128 = n;
    while x > 0
        invariant
            0 <= k,
            k + num_digits(x as nat) == num_digits(n as nat),
            num_digits(n as nat) <= 39,
        decreases x,
    {
        x = x / 10;
        k = k + 1;
    }
    let top: i64 = e + k - 1;
    if top > REAL_TOP_MAX {
        return Real::Infinite { negative };
    }
    if top < REAL_TOP_MIN {
        return Real::zero();
    }
    let cut: u64 = if k > 17 {
        (k - 17) as u64
    } else {
        0
    };
    proof {
        assert(num_digits(0) == 0);
        assert(k == num_digits(n as nat));
    }
    let p: u128 = pow10_u128(cut);
    proof {
        lemma_pow10_pos(cut as nat);
    }
    let mut m: u128 = n / p;
    let mut x_e: i64 = e + cut as i64;
    proof {
        lemma_pow10_pos(cut as nat);
        if cut > 0 {
            lemma_num_digits_div(n as nat, cut as nat);
        } else {
            assert(pow10(0) == 1);
            assert(m == n);
        }
        assert(num_digits(m as nat) == k - cut);
        assert(m > 0);
        lemma_num_digits_bounds(m as nat);
        lemma_pow10_le(num_digits(m as nat), 17);
    }
    let ghost target = strip_zeros((n as nat) / pow10(cut as nat), e + cut);
    while m % 10 == 0
        invariant
            m > 0,
            m < 100_000_000_000_000_000,
            strip_zeros(m as nat, x_e as int) == target,
            num_digits(m as nat) + x_e == top + 1,
            top - 16 <= x_e,
            REAL_TOP_MIN <= top <= REAL_TOP_MAX,
        decreases m,
    {
        m = m / 10;
        x_e = x_e + 1;
    }
    Real::Finite { negative, digits: m as u64, exponent: x_e as i32 }
}

/// The sum of `hi * 10^(he - le)` and `lo`, at the power `le`, fitted.
fn add_ordered(hi: u64, he: i32, lo: u64, le: i32) -> (r: Real)
    requires
        he >= le,
    ensures
        r == fit((hi as nat) * pow10((he - le) as nat) + lo as nat, le as int, false),
{
    let dd: i64 = he as i64 - le as i64;
    proof {
        lemma_pow10_values();
    }
    if dd <= 19 {
        let p: u128 = pow10_u128(dd as u64);
        proof {
            lemma_pow10_le(dd as nat, 19);
            assert((hi as int) * (p as int) + lo as int <= 340_282_366_920_938_463_463_374_607_431_768_211_455)
                by (nonlinear_arith)
                requires
                    hi <= 18_446_744_073_709_551_615u64,
                    lo <= 18_446_744_073_709_551_615u64,
                    p <= 10_000_000_000_000_000_000u128,
            ;
        }
        let n: u128 = hi as u128 * p + lo as u128;
        fit_real(n, le as i64, false)
    } else if hi == 0 {
        fit_real(lo as u128, le as i64, false)
    } else {
        let j: i64 = dd - 19;
        let ghost q: int = pow10(j as nat) as int;
        let ghost big_n: int = (hi as int) * pow10(dd as nat) + lo as int;
        let low: u128 = if j >= 20 {
            0
        } else {
            let pj: u128 = pow10_u128(j as u64);
            proof {
                lemma_pow10_pos(j as nat);
            }
            lo as u128 / pj
        };
        proof {
            lemma_pow10_pos(j as nat);
            lemma_pow10_add(19, j as nat);
            assert(19 + j as nat == dd as nat);
            if j >= 20 {
                lemma_pow10_le(20, j as nat);
                lemma_div_bounds(lo as int, q, 0, 1);
            }
            assert(low == (lo as int) / q);
            let x = (hi as int) * (pow10(19) as int);
            lemma_fundamental_div_mod(lo as int, q);
            lemma_mod_pos_bound(lo as int, q);
            assert(big_n == q * (x + (lo as int) / q) + (lo as int) % q) by (nonlinear_arith)
                requires
                    big_n == (hi as int) * pow10(dd as nat) + lo as int,
                    pow10(dd as nat) == pow10(19) * pow10(j as nat),
                    q == pow10(j as nat),
                    x == (hi as int) * (pow10(19) as int),
                    lo as int == q * ((lo as int) / q) + (lo as int) % q,
            ;
            lemma_fundamental_div_mod_converse(big_n, q, x + (lo as int) / q, (lo as int) % q);
            assert(big_n >= pow10(dd as nat)) by (nonlinear_arith)
                requires
                    big_n == (hi as int) * pow10(dd as nat) + lo as int,
                    hi >= 1,
                    pow10(dd as nat) >= 1,
            ;
            lemma_pow10_pos(dd as nat);
            lemma_num_digits_at_least(big_n as nat, dd as nat);
            lemma_fit_cut(big_n as nat, le as int, j as nat, false);
            assert((hi as int) * 10_000_000_000_000_000_000 + low <= 340_282_366_920_938_463_463_374_607_431_768_211_455)
                by (nonlinear_arith)
                requires
                    hi <= 18_446_744_073_709_551_615u64,
                    low <= 18_446_744_073_709_551_615u64,
            ;
            assert(low <= lo) by {
                if j < 20 {
                    assert((lo as int + 1) * q >= lo as int + 1) by (nonlinear_arith)
                        requires
                            q >= 1,
                            lo >= 0,
                    ;
                    lemma_div_bounds(lo as int, q, 0, (lo as int) + 1);
                }
            }
        }
        let n: u128 = hi as u128 * 10_000_000_000_000_000_000 + low;
        fit_real(n, le as i64 + j, false)
    }
}

/// The sum of two reals that are not below zero, as `real_add` describes.
fn add_nonneg(a: Real, b: Real) -> (r: Real)
    requires
        !below_zero(a),
        !below_zero(b),
    ensures
        r == real_add(a, b),
{
    match a {
        Real::NotANumber => {
            assert(real_add(a, b) == Real::NotANumber);
            Real::NotANumber
        },
        Real::Infinite { .. } => match b {
            Real::NotANumber => {
                assert(real_add(a, b) == Real::NotANumber);
                Real::NotANumber
            },
            _ => {
                assert(real_add(a, b) == a);
                a
            },
        },
        Real::Finite { negative: na, digits: da, exponent: ea } => match b {
            Real::NotANumber => {
                assert(real_add(a, b) == Real::NotANumber);
                Real::NotANumber
            },
            Real::Infinite { .. } => {
                assert(real_add(a, b) == b);
                b
            },
            Real::Finite { negative: nb, digits: db, exponent: eb } => {
                proof {
                    assert(pow10(0) == 1);
                    assert(signed_digits(na, da) == da as int);
                    assert(signed_digits(nb, db) == db as int);
                    let emin: int = if ea <= eb { ea as int } else { eb as int };
                    let pa = pow10((ea - emin) as nat);
                    let pb = pow10((eb - emin) as nat);
                    assert((da as int) * pa >= 0 && (db as int) * pb >= 0) by (nonlinear_arith)
                        requires
                            pa >= 0,
                            pb >= 0,
                    ;
                    assert((db as int) * 1 == db as int);
                    assert((da as int) * 1 == da as int);
                }
                if ea >= eb {
                    add_ordered(da, ea, db, eb)
                } else {
                    add_ordered(db, eb, da, ea)
                }
            },
        },
    }
}

/// Whether `t[from..]` spells the word with letters `lower` and `upper`, each
/// in either case.
fn word_at(t: &[char], from: usize, lower: &Vec<char>, upper: &Vec<char>) -> (r: bool)
    requires
        from <= t@.len(),
        lower@.len() == upper@.len(),
    ensures
        r == same_word(t@.subrange(from as int, t@.len() as int), lower@, upper@),
{
    let ghost u = t@.subrange(from as int, t@.len() as int);
    let tl: usize = t.len();
    if tl - from != lower.len() {
        return false;
    }
    let mut i: usize = 0;
    while i < lower.len()
        invariant
            i <= lower@.len(),
            lower@.len() == upper@.len(),
            from + lower@.len() == t@.len(),
            tl == t@.len(),
            u == t@.subrange(from as int, t@.len() as int),
            forall|k: int| 0 <= k < i ==> (u[k] == lower@[k] || u[k] == upper@[k]),
        decreases lower.len() - i,
    {
        if t[from + i] != lower[i] && t[from + i] != upper[i] {
            proof {
                assert(u[i as int] == t@[from + i]);
            }
            return false;
        }
        proof {
            assert(u[i as int] == t@[from + i]);
        }
        i = i + 1;
    }
    true
}

/// Reads a real from its text, as `real_of_text` describes; `None` where
/// Rust would not read the text as an `f64`.
pub fn parse_real(s: &[char]) -> (r: Option<Real>)
    ensures
        r == real_of_text(s@),
{
    let t = trim_chars(s);
    let ghost tv = t@;
    let (start, negative, epos, dot, fs) = numeral_parts(t.as_slice());
    let inf_lo = chars_of("inf");
    let inf_up = chars_of("INF");
    let infinity_lo = chars_of("infinity");
    let infinity_up = chars_of("INFINITY");
    let nan_lo = chars_of("nan");
    let nan_up = chars_of("NAN");
    proof {
        reveal_strlit("inf");
        reveal_strlit("INF");
        reveal_strlit("infinity");
        reveal_strlit("INFINITY");
        reveal_strlit("nan");
        reveal_strlit("NAN");
        assert(inf_lo@ =~= inf_lower());
        assert(inf_up@ =~= inf_upper());
        assert(infinity_lo@ =~= infinity_lower());
        assert(infinity_up@ =~= infinity_upper());
        assert(nan_lo@ =~= nan_lower());
        assert(nan_up@ =~= nan_upper());
    }
    if word_at(t.as_slice(), start, &inf_lo, &inf_up) || word_at(
        t.as_slice(),
        start,
        &infinity_lo,
        &infinity_up,
    ) {
        return Some(Real::Infinite { negative });
    }
    if word_at(t.as_slice(), start, &nan_lo, &nan_up) {
        return Some(Real::NotANumber);
    }
    if !all_digits_in(t.as_slice(), start, dot) || !all_digits_in(t.as_slice(), fs, epos) {
        return None;
    }
    if (dot - start) + (epos - fs) == 0 {
        return None;
    }
    let mut exp: i128 = 0;
    let mut big = false;
    if epos < t.len() {
        match read_exponent(t.as_slice(), epos + 1) {
            Some((e, b)) => {
                exp = e;
                big = b;
            },
            None => {
                return None;
            },
        }
    }
    let ghost w = whole_digits(tv);
    let ghost f = frac_digits(tv);
    let ghost d = w + f;
    let ghost ev = text_exponent(tv);
    proof {
        assert(t@.subrange(start as int, dot as int) + t@.subrange(fs as int, epos as int) == d);
        assert(all_digits(d)) by {
            assert forall|j: int| 0 <= j < d.len() implies is_digit(#[trigger] d[j]) by {
                if j < w.len() {
                    assert(is_digit(w[j]));
                } else {
                    assert(is_digit(f[j - w.len()]));
                }
            }
        }
        if epos < t@.len() {
            assert(ev == exponent_value(t@.subrange(epos + 1, t@.len() as int)));
        } else {
            assert(ev == 0);
        }
        assert(numeral_ok(tv));
    }
    Some(numeral_value(t.as_slice(), start, dot, fs, epos, exp, big, negative, Ghost(ev)))
}

/// The value of the numeral whose digits are `t[ws..we]` then `t[fs..fe]`, at
/// the power `ev` less the number of fraction digits, as `fit` describes; `e`
/// is `ev` or, where `big` says so, stands in for it.
fn numeral_value(
    t: &[char],
    ws: usize,
    we: usize,
    fs: usize,
    fe: usize,
    e: i128,
    big: bool,
    negative: bool,
    Ghost(ev): Ghost<int>,
) -> (r: Real)
    requires
        ws <= we <= t@.len(),
        fs <= fe <= t@.len(),
        (we - ws) + (fe - fs) <= t@.len(),
        all_digits(t@.subrange(ws as int, we as int) + t@.subrange(fs as int, fe as int)),
        -(REAL_WHOLE_LIMIT as int) <= e <= REAL_WHOLE_LIMIT,
        !big ==> ev == e,
        big ==> (e == REAL_WHOLE_LIMIT && ev >= e) || (e == -(REAL_WHOLE_LIMIT as int) && ev <= e),
    ensures
        r == fit(
            decimal_value(t@.subrange(ws as int, we as int) + t@.subrange(fs as int, fe as int)),
            ev - (fe - fs),
            negative,
        ),
{
    let ghost d = t@.subrange(ws as int, we as int) + t@.subrange(fs as int, fe as int);
    let ghost big_n = decimal_value(d);
    let tlen = t.len();
    assert((we - ws) + (fe - fs) <= tlen);
    let fl: usize = fe - fs;
    let len: usize = (we - ws) + fl;
    let mut z: usize = 0;
    while z < len && digit_at(t, ws, we, fs, fe, z as u128) == '0'
        invariant
            z <= len,
            len == d.len(),
            d == t@.subrange(ws as int, we as int) + t@.subrange(fs as int, fe as int),
            ws <= we <= t@.len(),
            fs <= fe <= t@.len(),
            forall|k: int| 0 <= k < z ==> d[k] == '0',
        decreases len - z,
    {
        z = z + 1;
    }
    if z == len {
        proof {
            lemma_zeros_value(d);
        }
        return Real::zero();
    }
    let n: usize = len - z;
    proof {
        lemma_significant_digits(d, z as int);
    }
    if big {
        if e > 0 {
            return Real::Infinite { negative };
        } else {
            return Real::zero();
        }
    }
    let top: i128 = e - fl as i128 + n as i128 - 1;
    if top > REAL_TOP_MAX as i128 {
        return Real::Infinite { negative };
    }
    if top < REAL_TOP_MIN as i128 {
        return Real::zero();
    }
    let c: usize = if n > 38 {
        38
    } else {
        n
    };
    let m = leading_digits(t, ws, we, fs, fe, z, c);
    proof {
        lemma_leading_digits_value(d, z as int, c as int, negative, ev - fl);
    }
    let e_arg: i64 = (top - c as i128 + 1) as i64;
    fit_real(m, e_arg, negative)
}

/// What the digits of a numeral from its first that is not a zero tell: its
/// value is theirs, and it has as many digits as they are.
proof fn lemma_significant_digits(d: Seq<char>, z: int)
    requires
        0 <= z < d.len(),
        all_digits(d),
        forall|k: int| 0 <= k < z ==> d[k] == '0',
        d[z] != '0',
    ensures
        decimal_value(d) == decimal_value(d.skip(z)),
        all_digits(d.skip(z)),
        decimal_value(d) > 0,
        num_digits(decimal_value(d)) == d.len() - z,
{
    let sig = d.skip(z);
    lemma_decimal_skip_zeros(d, z);
    assert(all_digits(sig)) by {
        assert forall|j: int| 0 <= j < sig.len() implies is_digit(#[trigger] sig[j]) by {
            assert(sig[j] == d[z + j]);
        }
    }
    assert(sig[0] == d[z]);
    lemma_decimal_lower(sig, 0);
    lemma_pow10_pos((sig.len() - 1) as nat);
    lemma_decimal_split(sig, 0);
    assert(sig.skip(0) =~= sig);
    lemma_num_digits_of(decimal_value(sig), sig.len());
}

/// Fitting a numeral's value is fitting its first `c` significant digits, at
/// the power of the last of them.
proof fn lemma_leading_digits_value(d: Seq<char>, z: int, c: int, negative: bool, e: int)
    requires
        0 <= z < d.len(),
        all_digits(d.skip(z)),
        decimal_value(d) == decimal_value(d.skip(z)),
        decimal_value(d) > 0,
        num_digits(decimal_value(d)) == d.len() - z,
        0 < c <= d.len() - z,
        c == 38 || c == d.len() - z,
    ensures
        fit(decimal_value(d), e, negative) == fit(
            decimal_value(d.skip(z).take(c)),
            e + (d.len() - z - c),
            negative,
        ),
{
    let sig = d.skip(z);
    let j: nat = (sig.len() - c) as nat;
    lemma_decimal_split(sig, c);
    lemma_pow10_pos(j);
    let m = decimal_value(sig.take(c));
    let b = decimal_value(sig.skip(c));
    assert(decimal_value(d) == pow10(j) * m + b) by (nonlinear_arith)
        requires
            decimal_value(d) == m * pow10(j) + b,
    ;
    lemma_div_multiples_vanish_fancy(m as int, b as int, pow10(j) as int);
    lemma_fit_cut(decimal_value(d), e, j, negative);
}

/// The first `c` significant digits (from position `z`) of the digits
/// `t[ws..we]` then `t[fs..fe]`, as a number.
fn leading_digits(t: &[char], ws: usize, we: usize, fs: usize, fe: usize, z: usize, c: usize) -> (m: u128)
    requires
        ws <= we <= t@.len(),
        fs <= fe <= t@.len(),
        all_digits((t@.subrange(ws as int, we as int) + t@.subrange(fs as int, fe as int)).skip(z as int)),
        z + c <= (we - ws) + (fe - fs),
        c <= 38,
    ensures
        m == decimal_value((t@.subrange(ws as int, we as int) + t@.subrange(fs as int, fe as int)).skip(z as int).take(c as int)),
{
    let ghost d = t@.subrange(ws as int, we as int) + t@.subrange(fs as int, fe as int);
    let ghost sig = d.skip(z as int);
    let mut m: u128 = 0;
    let mut i: usize = 0;
    proof {
        lemma_pow10_values();
        assert(sig.take(0) =~= Seq::<char>::empty());
    }
    while i < c
        invariant
            i <= c <= 38,
            z + c <= d.len(),
            d == t@.subrange(ws as int, we as int) + t@.subrange(fs as int, fe as int),
            sig == d.skip(z as int),
            all_digits(sig),
            ws <= we <= t@.len(),
            fs <= fe <= t@.len(),
            m == decimal_value(sig.take(i as int)),
            m < pow10(i as nat),
            pow10(38) == 100_000_000_000_000_000_000_000_000_000_000_000_000,
        decreases c - i,
    {
        let ch = digit_at(t, ws, we, fs, fe, z as u128 + i as u128);
        proof {
            assert(sig[i as int] == d[z + i]);
            assert(ch == sig[i as int]);
            assert(is_digit(sig[i as int]));
            assert(sig.take(i + 1).drop_last() =~= sig.take(i as int));
            assert(sig.take(i + 1).last() == sig[i as int]);
            assert(pow10((i + 1) as nat) == 10 * pow10(i as nat));
            lemma_pow10_le((i + 1) as nat, 38);
        }
        m = m * 10 + (ch as u32 - '0' as u32) as u128;
        i = i + 1;
    }
    m
}

/// Adding reals does not depend on their order.
pub proof fn real_add_commutes_law(a: Real, b: Real)
    ensures
        real_add(a, b) == real_add(b, a),
{
}

/// A number with at most `REAL_PRECISION` digits whose leading digit stands
/// within range is kept exactly: its real holds the same sign and the same
/// value, only trailing zeros moved into the exponent, and its last digit is
/// not a zero.
pub proof fn fit_exact_law(n: nat, e: int, negative: bool)
    requires
        0 < n,
        num_digits(n) <= REAL_PRECISION,
        REAL_TOP_MIN <= e + num_digits(n) - 1 <= REAL_TOP_MAX,
    ensures
        fit(n, e, negative) matches Real::Finite { negative: neg, digits: d, exponent: x } && {
            &&& neg == negative
            &&& x >= e
            &&& (d as int) * pow10((x - e) as nat) == n
            &&& d % 10 != 0
        },
{
    assert(pow10(0) == 1);
    assert(n / 1 == n);
    lemma_strip_zeros_exact(n, e);
    lemma_num_digits_bounds(n);
    lemma_pow10_le(num_digits(n), 17);
    lemma_pow10_values();
    let r = strip_zeros(n, e);
    let j = (r.1 - e) as nat;
    lemma_pow10_pos(j);
    assert(r.0 * pow10(j) >= pow10(j)) by (nonlinear_arith)
        requires
            r.0 >= 1,
            pow10(j) >= 1,
    ;
    if j >= num_digits(n) {
        lemma_pow10_le(num_digits(n), j);
    }
    assert(r.1 <= e + num_digits(n) - 1);
}

/// Moving trailing zeros into the exponent keeps the value.
proof fn lemma_strip_zeros_exact(m: nat, e: int)
    requires
        m > 0,
    ensures
        strip_zeros(m, e).1 >= e,
        strip_zeros(m, e).0 * pow10((strip_zeros(m, e).1 - e) as nat) == m,
        strip_zeros(m, e).0 % 10 != 0,
        0 < strip_zeros(m, e).0 <= m,
    decreases m,
{
    if m % 10 == 0 {
        lemma_strip_zeros_exact(m / 10, e + 1);
        let r = strip_zeros(m / 10, e + 1);
        assert(strip_zeros(m, e) == r);
        assert(m == 10 * (m / 10));
        let k = (r.1 - (e + 1)) as nat;
        assert((r.1 - e) as nat == k + 1);
        assert(pow10(k + 1) == 10 * pow10(k));
        assert(r.0 * pow10(k + 1) == 10 * (r.0 * pow10(k))) by (nonlinear_arith)
            requires
                pow10(k + 1) == 10 * pow10(k),
        ;
        assert(r.0 * pow10((r.1 - e) as nat) == m);
    } else {
        assert(strip_zeros(m, e) == (m, e));
        assert(pow10(0) == 1);
        assert(m * 1 == m);
    }
}

} // verus!
