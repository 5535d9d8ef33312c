//! Exact decimal numbers as scaled integers.
//!
//! The exchange transmits prices, quantities and balances as decimal strings
//! such as `"0.010"`. A [`Decimal`] keeps the digits as an integer mantissa
//! together with the count of fractional digits, so nothing is lost to binary
//! floating point: `"0.010"` becomes mantissa 10 at scale 3, and the
//! trailing-zero information that precision formatting depends on survives.

use vstd::arithmetic::div_mod::lemma_fundamental_div_mod;
use vstd::prelude::*;

verus! {

/// A signed decimal number: the value is `mantissa / 10^scale`, negated when
/// `neg` is set. `neg` with a zero mantissa is a negative zero and denotes
/// the same value as zero.
#[derive(Clone, Copy, Debug, PartialEq, Eq, Structural)]
pub struct Decimal {
    pub neg: bool,
    pub mantissa: u64,
    pub scale: u32,
}

pub open spec fn pow10(e: nat) -> nat
    decreases e,
{
    if e == 0 {
        1
    } else {
        10 * pow10((e - 1) as nat)
    }
}

pub proof fn lemma_pow10_pos(e: nat)
    ensures
        pow10(e) >= 1,
    decreases e,
{
    if e > 0 {
        lemma_pow10_pos((e - 1) as nat);
    }
}

impl Decimal {
    /// The signed numerator of the value; the value itself is
    /// `numer / 10^scale`.
    pub open spec fn numer(self) -> int {
        if self.neg {
            -(self.mantissa as int)
        } else {
            self.mantissa as int
        }
    }

    pub open spec fn denom(self) -> int {
        pow10(self.scale as nat) as int
    }

    /// Whether two decimals denote the same number, scales aside:
    /// `a/10^s == b/10^t` exactly when `a * 10^t == b * 10^s`.
    pub open spec fn same_value(self, other: Decimal) -> bool {
        self.numer() * other.denom() == other.numer() * self.denom()
    }

    pub open spec fn spec_is_zero(self) -> bool {
        self.mantissa == 0
    }

    /// A decimal denotes zero exactly when its mantissa is zero.
    pub fn is_zero(&self) -> (r: bool)
        ensures
            r == self.spec_is_zero(),
    {
        self.mantissa == 0
    }

    pub fn zero() -> (r: Decimal)
        ensures
            r == (Decimal { neg: false, mantissa: 0, scale: 0 }),
    {
        Decimal { neg: false, mantissa: 0, scale: 0 }
    }
}

pub open spec fn is_digit(c: char) -> bool {
    48 <= c as u32 && c as u32 <= 57
}

pub open spec fn digit_val(c: char) -> nat {
    (c as u32 - 48) as nat
}

pub open spec fn all_digits(s: Seq<char>) -> bool {
    forall|i: int| 0 <= i < s.len() ==> is_digit(#[trigger] s[i])
}

/// The number a digit string denotes, most significant digit first.
pub open spec fn digits_val(s: Seq<char>) -> nat
    decreases s.len(),
{
    if s.len() == 0 {
        0
    } else {
        digits_val(s.drop_last()) * 10 + digit_val(s.last())
    }
}

pub proof fn lemma_digits_val_concat(a: Seq<char>, b: Seq<char>)
    ensures
        digits_val(a + b) == digits_val(a) * pow10(b.len()) + digits_val(b),
    decreases b.len(),
{
    if b.len() == 0 {
        assert(a + b =~= a);
        assert(digits_val(a) * 1 == digits_val(a)) by (nonlinear_arith);
    } else {
        lemma_digits_val_concat(a, b.drop_last());
        assert((a + b).drop_last() =~= a + b.drop_last());
        assert((a + b).last() == b.last());
        lemma_pow10_pos((b.len() - 1) as nat);
        assert(digits_val(a) * (10 * pow10((b.len() - 1) as nat)) == (digits_val(a) * pow10(
            (b.len() - 1) as nat,
        )) * 10) by (nonlinear_arith);
    }
}

/// Index of the first `.` in `s`, or `s.len()` when there is none.
pub open spec fn first_dot(s: Seq<char>) -> int
    decreases s.len(),
{
    if s.len() == 0 {
        0
    } else if s[0] == '.' {
        0
    } else {
        1 + first_dot(s.drop_first())
    }
}

pub proof fn lemma_first_dot_props(s: Seq<char>)
    ensures
        0 <= first_dot(s) <= s.len(),
        first_dot(s) < s.len() ==> s[first_dot(s)] == '.',
        forall|t: int| 0 <= t < first_dot(s) ==> #[trigger] s[t] != '.',
    decreases s.len(),
{
    if s.len() > 0 && s[0] != '.' {
        lemma_first_dot_props(s.drop_first());
        assert forall|t: int| 0 <= t < first_dot(s) implies #[trigger] s[t] != '.' by {
            if t >= 1 {
                assert(s.drop_first()[t - 1] != '.');
            }
        }
    }
}

/// The digit characters of an unsigned decimal string: everything but the
/// first dot, if any.
pub open spec fn unsigned_digits(s: Seq<char>) -> Seq<char> {
    let d = first_dot(s);
    if d == s.len() {
        s
    } else {
        s.take(d) + s.skip(d + 1)
    }
}

/// How many characters follow the first dot; zero when there is no dot.
pub open spec fn unsigned_scale(s: Seq<char>) -> nat {
    let d = first_dot(s);
    if d == s.len() {
        0
    } else {
        (s.len() - d - 1) as nat
    }
}

/// An unsigned decimal string: at least one digit, at most one dot, and
/// nothing else. Covers forms like `5`, `1.`, `.25` and `0.010`.
pub open spec fn valid_unsigned(s: Seq<char>) -> bool {
    unsigned_digits(s).len() >= 1 && all_digits(unsigned_digits(s))
}

/// `(negative, rest)` after stripping one optional leading sign.
pub open spec fn sign_split(s: Seq<char>) -> (bool, Seq<char>) {
    if s.len() > 0 && s[0] == '-' {
        (true, s.drop_first())
    } else if s.len() > 0 && s[0] == '+' {
        (false, s.drop_first())
    } else {
        (false, s)
    }
}

/// What [`parse_decimal`] returns: the mantissa is the digit string with the
/// dot removed, the scale is the number of digits after the dot. `None` for
/// anything that is not a plain signed decimal string, and for mantissas
/// beyond `u64`.
pub open spec fn spec_parse_decimal(s: Seq<char>) -> Option<Decimal> {
    let (neg, u) = sign_split(s);
    if valid_unsigned(u) && digits_val(unsigned_digits(u)) <= u64::MAX && unsigned_scale(u)
        <= u32::MAX {
        Some(
            Decimal {
                neg,
                mantissa: digits_val(unsigned_digits(u)) as u64,
                scale: unsigned_scale(u) as u32,
            },
        )
    } else {
        None
    }
}

/// One parsing step keeps the mantissa within `u64::MAX` exactly when the
/// guard `m <= (u64::MAX - d) / 10` holds.
proof fn lemma_mul10_guard(m: u64, d: u64)
    requires
        d <= 9,
    ensures
        m <= (u64::MAX - d) / 10 <==> m * 10 + d <= u64::MAX,
{
    lemma_fundamental_div_mod((u64::MAX - d) as int, 10);
}

/// The dot position within the unsigned part as the parsing loop tracks it;
/// `-1` means no dot seen yet.
pub open spec fn dot_pos_spec(dot: Option<usize>, i: int) -> int {
    match dot {
        Option::None => -1,
        Option::Some(dp) => dp - i,
    }
}

/// The digit characters among the first `k` characters of `u`, skipping the
/// dot at `dp` when `0 <= dp < k`.
pub open spec fn processed_digits(u: Seq<char>, k: int, dp: int) -> Seq<char> {
    if 0 <= dp < k {
        u.take(dp) + u.subrange(dp + 1, k)
    } else {
        u.take(k)
    }
}

proof fn reject_second_dot(u: Seq<char>, dp: int, k: int)
    requires
        0 <= dp < k < u.len(),
        u[dp] == '.',
        forall|t: int| 0 <= t < dp ==> #[trigger] u[t] != '.',
        u[k] == '.',
    ensures
        !valid_unsigned(u),
{
    lemma_first_dot_props(u);
    assert(first_dot(u) == dp);
    assert(unsigned_digits(u)[k - 1] == u[k]);
    assert(!is_digit(u[k]));
}

proof fn reject_bad_char(u: Seq<char>, k: int, dp: int)
    requires
        0 <= k < u.len(),
        u[k] != '.',
        !is_digit(u[k]),
        dp >= -1,
        dp == -1 ==> forall|t: int| 0 <= t < k ==> #[trigger] u[t] != '.',
        dp >= 0 ==> 0 <= dp < k && u[dp] == '.' && (forall|t: int|
            0 <= t < dp ==> #[trigger] u[t] != '.'),
    ensures
        !valid_unsigned(u),
{
    lemma_first_dot_props(u);
    let fd = first_dot(u);
    if dp >= 0 {
        assert(fd == dp);
        assert(unsigned_digits(u)[k - 1] == u[k]);
    } else {
        assert(fd != k);
        if fd == u.len() {
            assert(unsigned_digits(u)[k] == u[k]);
        } else {
            assert(u[fd] == '.');
            if fd < k {
                assert(u[fd] != '.');
            }
            assert(fd > k);
            assert(unsigned_digits(u)[k] == u.take(fd)[k]);
        }
    }
}

proof fn step_digit(u: Seq<char>, k: int, dp: int, c: char)
    requires
        0 <= k < u.len(),
        u[k] == c,
        dp == -1 || (0 <= dp < k),
    ensures
        processed_digits(u, k + 1, dp) == processed_digits(u, k, dp).push(c),
        digits_val(processed_digits(u, k + 1, dp)) == digits_val(processed_digits(u, k, dp)) * 10
            + digit_val(c),
{
    let p = processed_digits(u, k, dp);
    let q = processed_digits(u, k + 1, dp);
    assert(q =~= p.push(c));
    assert(q.drop_last() =~= p);
    assert(q.last() == c);
}

proof fn reject_overflow(u: Seq<char>, k: int, dp: int, c: char)
    requires
        0 <= k < u.len(),
        u[k] == c,
        is_digit(c),
        dp == -1 || (0 <= dp < k),
        dp == -1 ==> forall|t: int| 0 <= t < k ==> #[trigger] u[t] != '.',
        dp >= 0 ==> u[dp] == '.' && (forall|t: int| 0 <= t < dp ==> #[trigger] u[t] != '.'),
        digits_val(processed_digits(u, k, dp)) * 10 + digit_val(c) > u64::MAX,
    ensures
        !valid_unsigned(u) || digits_val(unsigned_digits(u)) > u64::MAX,
{
    lemma_first_dot_props(u);
    let fd = first_dot(u);
    step_digit(u, k, dp, c);
    let p = processed_digits(u, k + 1, dp);
    let rest: Seq<char> = if dp >= 0 {
        assert(fd == dp);
        u.subrange(k + 1, u.len() as int)
    } else if fd == u.len() {
        u.subrange(k + 1, u.len() as int)
    } else {
        assert(fd > k) by {
            if fd <= k {
                assert(u[fd] == '.');
            }
        }
        u.subrange(k + 1, fd) + u.skip(fd + 1)
    };
    assert(unsigned_digits(u) =~= p + rest);
    lemma_digits_val_concat(p, rest);
    lemma_pow10_pos(rest.len());
    assert(digits_val(p) * pow10(rest.len()) >= digits_val(p) * 1) by (nonlinear_arith)
        requires
            pow10(rest.len()) >= 1,
    ;
    assert(digits_val(p) * 1 == digits_val(p)) by (nonlinear_arith);
}

proof fn finish_scan(u: Seq<char>, dp: int)
    requires
        dp >= -1,
        dp == -1 ==> forall|t: int| 0 <= t < u.len() ==> #[trigger] u[t] != '.',
        dp >= 0 ==> 0 <= dp < u.len() && u[dp] == '.' && (forall|t: int|
            0 <= t < dp ==> #[trigger] u[t] != '.'),
    ensures
        dp == -1 ==> first_dot(u) == u.len() && unsigned_digits(u) == processed_digits(
            u,
            u.len() as int,
            dp,
        ) && unsigned_scale(u) == 0,
        dp >= 0 ==> first_dot(u) == dp && unsigned_digits(u) == processed_digits(
            u,
            u.len() as int,
            dp,
        ) && unsigned_scale(u) == u.len() - dp - 1,
{
    lemma_first_dot_props(u);
    let fd = first_dot(u);
    if dp == -1 {
        assert(fd == u.len()) by {
            if fd < u.len() {
                assert(u[fd] == '.');
            }
        }
        assert(unsigned_digits(u) =~= processed_digits(u, u.len() as int, dp));
    } else {
        assert(fd == dp) by {
            if fd < dp {
                assert(u[fd] == '.');
                assert(u[fd] != '.');
            }
            if fd > dp {
                assert(u[dp] != '.');
            }
        }
        assert(unsigned_digits(u) =~= processed_digits(u, u.len() as int, dp));
    }
}

/// Parse a plain signed decimal string (`[+-]? digits [. digits]?`, with at
/// least one digit) into an exact [`Decimal`]. Exponent forms and non-finite
/// spellings are rejected, as are numbers whose digits exceed a `u64`
/// mantissa.
pub fn parse_decimal(s: &str) -> (r: Option<Decimal>)
    ensures
        r == spec_parse_decimal(s@),
{
    let len = s.unicode_len();
    let mut i: usize = 0;
    let mut neg = false;
    if len > 0 {
        let c0 = s.get_char(0);
        if c0 == '-' {
            neg = true;
            i = 1;
        } else if c0 == '+' {
            i = 1;
        }
    }
    let ghost u = s@.skip(i as int);
    proof {
        assert(sign_split(s@) == (neg, u));
    }
    let mut mantissa: u64 = 0;
    let mut dot: Option<usize> = None;
    let mut j = i;
    while j < len
        invariant
            i <= j <= len,
            len == s@.len(),
            u == s@.skip(i as int),
            u.len() == len - i,
            sign_split(s@) == (neg, u),
            match dot {
                Option::None => forall|t: int| 0 <= t < j - i ==> #[trigger] u[t] != '.',
                Option::Some(dp) => i <= dp < j && u[dp as int - i as int] == '.' && (forall|
                    t: int,
                |
                    0 <= t < dp as int - i as int ==> #[trigger] u[t] != '.'),
            },
            forall|t: int|
                0 <= t < j - i && t != dot_pos_spec(dot, i as int) ==> is_digit(#[trigger] u[t]),
            mantissa == digits_val(processed_digits(u, j as int - i as int, dot_pos_spec(dot, i as int))),
        decreases len - j,
    {
        let c = s.get_char(j);
        let ghost k = j as int - i as int;
        if c == '.' {
            match dot {
                Option::Some(dp0) => {
                    proof {
                        reject_second_dot(u, dp0 as int - i as int, k);
                    }
                    return Option::None;
                },
                Option::None => {
                    dot = Some(j);
                    proof {
                        assert(processed_digits(u, k + 1, k) =~= processed_digits(u, k, -1));
                    }
                },
            }
        } else {
            let cu = c as u32;
            if 48 <= cu && cu <= 57 {
                let d = (cu - 48) as u64;
                proof {
                    lemma_mul10_guard(mantissa, d);
                }
                if mantissa > (u64::MAX - d) / 10 {
                    proof {
                        reject_overflow(u, k, dot_pos_spec(dot, i as int), c);
                    }
                    return Option::None;
                }
                mantissa = mantissa * 10 + d;
                proof {
                    step_digit(u, k, dot_pos_spec(dot, i as int), c);
                }
            } else {
                proof {
                    reject_bad_char(u, k, dot_pos_spec(dot, i as int));
                }
                return Option::None;
            }
        }
        j += 1;
    }
    let ulen = len - i;
    proof {
        finish_scan(u, dot_pos_spec(dot, i as int));
    }
    let (digits_len, scale): (usize, usize) = match dot {
        Option::None => (ulen, 0),
        Option::Some(dp) => (ulen - 1, len - dp - 1),
    };
    proof {
        assert(unsigned_digits(u).len() == digits_len);
        assert(all_digits(unsigned_digits(u)));
    }
    if digits_len == 0 {
        return Option::None;
    }
    if scale > u32::MAX as usize {
        return Option::None;
    }
    Some(Decimal { neg, mantissa, scale: scale as u32 })
}

/// What [`parse_u64_digits`] returns: the value of a plain unsigned digit
/// string, `None` for anything else or for values beyond `u64`.
pub open spec fn spec_parse_u64(s: Seq<char>) -> Option<u64> {
    if s.len() >= 1 && all_digits(s) && digits_val(s) <= u64::MAX {
        Some(digits_val(s) as u64)
    } else {
        None
    }
}

/// Parse a plain unsigned decimal integer: digits only, no sign, no dot.
pub fn parse_u64_digits(s: &str) -> (r: Option<u64>)
    ensures
        r == spec_parse_u64(s@),
{
    let len = s.unicode_len();
    if len == 0 {
        return Option::None;
    }
    let mut acc: u64 = 0;
    let mut j: usize = 0;
    proof {
        assert(s@.take(0) =~= Seq::<char>::empty());
    }
    while j < len
        invariant
            j <= len,
            len == s@.len(),
            forall|t: int| 0 <= t < j ==> is_digit(#[trigger] s@[t]),
            acc == digits_val(s@.take(j as int)),
        decreases len - j,
    {
        let c = s.get_char(j);
        let cu = c as u32;
        if !(48 <= cu && cu <= 57) {
            return Option::None;
        }
        let d = (cu - 48) as u64;
        proof {
            lemma_mul10_guard(acc, d);
            assert(s@.take(j + 1).drop_last() =~= s@.take(j as int));
            assert(s@.take(j + 1).last() == s@[j as int]);
        }
        if acc > (u64::MAX - d) / 10 {
            proof {
                let p = s@.take(j + 1);
                let rest = s@.skip(j + 1);
                assert(s@ =~= p + rest);
                lemma_digits_val_concat(p, rest);
                lemma_pow10_pos(rest.len());
                assert(digits_val(p) * pow10(rest.len()) >= digits_val(p) * 1) by (nonlinear_arith)
                    requires
                        pow10(rest.len()) >= 1,
                ;
                assert(digits_val(p) * 1 == digits_val(p)) by (nonlinear_arith);
            }
            return Option::None;
        }
        acc = acc * 10 + d;
        j += 1;
    }
    proof {
        assert(s@.take(len as int) =~= s@);
    }
    Some(acc)
}

pub open spec fn digit_char(d: nat) -> char {
    if d == 0 {
        '0'
    } else if d == 1 {
        '1'
    } else if d == 2 {
        '2'
    } else if d == 3 {
        '3'
    } else if d == 4 {
        '4'
    } else if d == 5 {
        '5'
    } else if d == 6 {
        '6'
    } else if d == 7 {
        '7'
    } else if d == 8 {
        '8'
    } else {
        '9'
    }
}

pub proof fn lemma_digit_char(d: nat)
    requires
        d <= 9,
    ensures
        is_digit(digit_char(d)),
        digit_val(digit_char(d)) == d,
        digit_char(d) != '.',
{
}

fn digit_to_char(d: u64) -> (c: char)
    requires
        d <= 9,
    ensures
        c == digit_char(d as nat),
{
    match d {
        0 => '0',
        1 => '1',
        2 => '2',
        3 => '3',
        4 => '4',
        5 => '5',
        6 => '6',
        7 => '7',
        8 => '8',
        _ => '9',
    }
}

/// The decimal digit string of `n`, most significant digit first, with no
/// leading zeros except for `n == 0` itself.
pub open spec fn dec_digits(n: nat) -> Seq<char>
    decreases n,
{
    if n < 10 {
        seq![digit_char(n)]
    } else {
        dec_digits(n / 10).push(digit_char(n % 10))
    }
}

pub proof fn lemma_dec_digits(n: nat)
    ensures
        dec_digits(n).len() >= 1,
        all_digits(dec_digits(n)),
        digits_val(dec_digits(n)) == n,
    decreases n,
{
    if n < 10 {
        lemma_digit_char(n);
        assert(dec_digits(n).drop_last() =~= Seq::<char>::empty());
        assert(dec_digits(n).last() == digit_char(n));
        assert(digits_val(dec_digits(n)) == digits_val(Seq::<char>::empty()) * 10 + digit_val(
            digit_char(n),
        ));
    } else {
        lemma_dec_digits(n / 10);
        lemma_digit_char(n % 10);
        let a = dec_digits(n / 10);
        let c = digit_char(n % 10);
        assert(a.push(c).drop_last() =~= a);
        assert(a.push(c).last() == c);
        assert(digits_val(a.push(c)) == digits_val(a) * 10 + digit_val(c));
        lemma_fundamental_div_mod(n as int, 10);
        assert forall|i: int| 0 <= i < a.push(c).len() implies is_digit(#[trigger] a.push(c)[i]) by {
            if i < a.len() {
                assert(is_digit(a[i]));
            }
        }
    }
}

/// The last `w` decimal digits of `n`, zero-padded on the left to exactly
/// width `w`.
pub open spec fn dec_digits_padded(n: nat, w: nat) -> Seq<char>
    decreases w,
{
    if w == 0 {
        Seq::empty()
    } else {
        dec_digits_padded(n / 10, (w - 1) as nat).push(digit_char(n % 10))
    }
}

pub proof fn lemma_dec_digits_padded(n: nat, w: nat)
    ensures
        dec_digits_padded(n, w).len() == w,
        all_digits(dec_digits_padded(n, w)),
        n < pow10(w) ==> digits_val(dec_digits_padded(n, w)) == n,
    decreases w,
{
    if w > 0 {
        lemma_dec_digits_padded(n / 10, (w - 1) as nat);
        lemma_digit_char(n % 10);
        let a = dec_digits_padded(n / 10, (w - 1) as nat);
        let c = digit_char(n % 10);
        assert(a.push(c).drop_last() =~= a);
        assert(a.push(c).last() == c);
        lemma_fundamental_div_mod(n as int, 10);
        if n < pow10(w) {
            assert(n / 10 < pow10((w - 1) as nat));
        }
        assert forall|i: int| 0 <= i < a.push(c).len() implies is_digit(#[trigger] a.push(c)[i]) by {
            if i < a.len() {
                assert(is_digit(a[i]));
            }
        }
    }
}

/// Relies on `String::push`: it appends exactly the one given character.
#[verifier::external_body]
fn push_char(s: &mut String, c: char)
    ensures
        final(s)@ == old(s)@.push(c),
{
    s.push(c);
}

fn chars_to_string(v: &Vec<char>) -> (s: String)
    ensures
        s@ == v@,
{
    let mut s = String::new();
    proof {
        assert(v@.take(0) =~= Seq::<char>::empty());
    }
    let mut idx: usize = 0;
    while idx < v.len()
        invariant
            idx <= v.len(),
            s@ == v@.take(idx as int),
        decreases v.len() - idx,
    {
        push_char(&mut s, v[idx]);
        proof {
            assert(v@.take(idx + 1) =~= v@.take(idx as int).push(v@[idx as int]));
        }
        idx += 1;
    }
    proof {
        assert(v@.take(v.len() as int) =~= v@);
    }
    s
}

/// The decimal digits of `n`, most significant first, as characters.
fn u64_to_digits(n: u64) -> (v: Vec<char>)
    ensures
        v@ == dec_digits(n as nat),
{
    if n == 0 {
        let v = vec!['0'];
        proof {
            assert(v@ =~= dec_digits(0));
        }
        return v;
    }
    let mut rev: Vec<char> = Vec::new();
    let mut m = n;
    proof {
        assert(rev@.reverse() =~= Seq::<char>::empty());
        assert(dec_digits(n as nat) =~= dec_digits(n as nat) + rev@.reverse());
    }
    while m > 0
        invariant
            n > 0,
            if m > 0 {
                dec_digits(n as nat) == dec_digits(m as nat) + rev@.reverse()
            } else {
                dec_digits(n as nat) == rev@.reverse()
            },
        decreases m,
    {
        let d = m % 10;
        let c = digit_to_char(d);
        let ghost old_rev = rev@;
        rev.push(c);
        proof {
            assert(rev@.reverse() =~= seq![c] + old_rev.reverse());
            if m >= 10 {
                assert(dec_digits(m as nat) == dec_digits((m / 10) as nat).push(c));
                assert(dec_digits((m / 10) as nat).push(c) + old_rev.reverse() =~= dec_digits(
                    (m / 10) as nat,
                ) + (seq![c] + old_rev.reverse()));
            } else {
                assert(dec_digits(m as nat) =~= seq![c]);
                assert(seq![c] + old_rev.reverse() =~= rev@.reverse());
            }
        }
        m = m / 10;
    }
    reverse_chars(rev)
}

/// The characters of `rev`, last to first.
fn reverse_chars(rev: Vec<char>) -> (out: Vec<char>)
    ensures
        out@ == rev@.reverse(),
{
    let mut out: Vec<char> = Vec::new();
    let mut idx = rev.len();
    proof {
        assert(rev@.skip(rev.len() as int).reverse() =~= Seq::<char>::empty());
    }
    while idx > 0
        invariant
            idx <= rev.len(),
            out@ == rev@.skip(idx as int).reverse(),
        decreases idx,
    {
        idx -= 1;
        out.push(rev[idx]);
        proof {
            assert(rev@.skip(idx as int).reverse() =~= rev@.skip(idx + 1).reverse().push(
                rev@[idx as int],
            ));
        }
    }
    proof {
        assert(rev@.skip(0) =~= rev@);
    }
    out
}

/// Render `n` in decimal.
pub fn u64_to_string(n: u64) -> (s: String)
    ensures
        s@ == dec_digits(n as nat),
{
    let v = u64_to_digits(n);
    chars_to_string(&v)
}

/// The decimal rendering of a signed 64-bit integer.
pub open spec fn spec_i64_digits(n: int) -> Seq<char> {
    if n < 0 {
        seq!['-'] + dec_digits((-n) as nat)
    } else {
        dec_digits(n as nat)
    }
}

/// Render a signed 64-bit integer in decimal.
pub fn i64_to_string(n: i64) -> (s: String)
    ensures
        s@ == spec_i64_digits(n as int),
{
    if n >= 0 {
        u64_to_string(n as u64)
    } else {
        let mag: u64 = if n == i64::MIN {
            9223372036854775808u64
        } else {
            (-n) as u64
        };
        let mut s = String::new();
        push_char(&mut s, '-');
        let digits = u64_to_string(mag);
        s.append(digits.as_str());
        proof {
            assert(s@ =~= seq!['-'] + dec_digits(mag as nat));
        }
        s
    }
}

pub proof fn lemma_pow10_mono(a: nat, b: nat)
    requires
        a <= b,
    ensures
        pow10(a) <= pow10(b),
    decreases b,
{
    if a < b {
        lemma_pow10_mono(a, (b - 1) as nat);
    }
}

/// `10^e` as a `u64`, or `None` when that overflows.
fn pow10_u64(e: usize) -> (r: Option<u64>)
    ensures
        match r {
            Option::Some(v) => v as nat == pow10(e as nat),
            Option::None => pow10(e as nat) > u64::MAX,
        },
{
    let mut acc: u64 = 1;
    let mut j: usize = 0;
    while j < e
        invariant
            j <= e,
            acc as nat == pow10(j as nat),
        decreases e - j,
    {
        if acc > u64::MAX / 10 {
            proof {
                lemma_fundamental_div_mod(u64::MAX as int, 10);
                lemma_pow10_mono((j + 1) as nat, e as nat);
            }
            return Option::None;
        }
        acc = acc * 10;
        j += 1;
    }
    Some(acc)
}

/// The mantissa of `m / 10^s` rescaled to `p` fractional digits, rounding
/// half away from zero when digits are dropped.
pub open spec fn spec_round_mantissa(m: nat, s: nat, p: nat) -> nat {
    if p >= s {
        m * pow10((p - s) as nat)
    } else {
        let div = pow10((s - p) as nat);
        m / div + if 2 * (m % div) >= div {
            1 as nat
        } else {
            0 as nat
        }
    }
}

/// The fixed-point rendering of a non-negative mantissa `m` at precision `p`:
/// the integer digits, then for positive `p` a dot and exactly `p` fractional
/// digits. A minus sign is prepended only for a negative, non-zero value.
pub open spec fn spec_render_fixed(neg: bool, m: nat, p: nat) -> Seq<char> {
    let sign: Seq<char> = if neg && m > 0 {
        seq!['-']
    } else {
        Seq::empty()
    };
    if p == 0 {
        sign + dec_digits(m)
    } else {
        sign + dec_digits(m / pow10(p)) + seq!['.'] + dec_digits_padded(m % pow10(p), p)
    }
}

/// What [`format_decimal`] returns: the value of `d` rendered with exactly
/// `p` fractional digits, rounding half away from zero, or `None` when the
/// rescaled mantissa exceeds `u64`.
pub open spec fn spec_format_decimal(d: Decimal, p: nat) -> Option<Seq<char>> {
    let r = spec_round_mantissa(d.mantissa as nat, d.scale as nat, p);
    if r <= u64::MAX {
        Some(spec_render_fixed(d.neg, r, p))
    } else {
        None
    }
}

proof fn lemma_mul_guard(m: u64, pw: u64)
    requires
        pw >= 1,
    ensures
        m <= u64::MAX / pw <==> m as nat * pw as nat <= u64::MAX,
{
    lemma_fundamental_div_mod(u64::MAX as int, pw as int);
    vstd::arithmetic::div_mod::lemma_mod_bound(u64::MAX as int, pw as int);
    let q = u64::MAX as int / pw as int;
    let r = u64::MAX as int % pw as int;
    assert((m as int <= q) <==> (m as int * pw as int <= u64::MAX as int)) by (nonlinear_arith)
        requires
            u64::MAX as int == pw as int * q + r,
            0 <= r < pw as int,
            pw >= 1,
    ;
}

/// Render the exact decimal `d` with exactly `p` fractional digits, rounding
/// half away from zero, as the exchange's order fields require. Fails only
/// when the rescaled mantissa no longer fits in 64 bits.
pub fn format_decimal(d: &Decimal, p: usize) -> (r: Result<String, crate::errors::ApiError>)
    ensures
        match r {
            Result::Ok(s) => spec_format_decimal(*d, p as nat) == Some(s@),
            Result::Err(e) => e == crate::errors::ApiError::NumberOverflow && spec_format_decimal(
                *d,
                p as nat,
            ) is None,
        },
{
    let scale = d.scale as usize;
    let m = d.mantissa;
    let rounded: u64 = if p >= scale {
        let diff = p - scale;
        if m == 0 {
            proof {
                assert(0 * pow10((p - scale) as nat) == 0) by (nonlinear_arith);
            }
            0
        } else {
            match pow10_u64(diff) {
                Option::None => {
                    proof {
                        lemma_pow10_pos((p - scale) as nat);
                        assert(m as nat * pow10((p - scale) as nat) >= 1 * pow10(
                            (p - scale) as nat,
                        )) by (nonlinear_arith)
                            requires
                                m >= 1,
                        ;
                    }
                    return Result::Err(crate::errors::ApiError::NumberOverflow);
                },
                Option::Some(pw) => {
                    proof {
                        lemma_pow10_pos((p - scale) as nat);
                        lemma_mul_guard(m, pw);
                    }
                    if m > u64::MAX / pw {
                        return Result::Err(crate::errors::ApiError::NumberOverflow);
                    }
                    m * pw
                },
            }
        }
    } else {
        let sp = scale - p;
        match pow10_u64(sp) {
            Option::None => {
                proof {
                    let div = pow10((scale - p) as nat);
                    assert(pow10(19) <= u64::MAX && pow10(20) > 2 * (u64::MAX as nat)) by {
                        reveal_with_fuel(pow10, 21);
                    }
                    assert(scale - p >= 20) by {
                        if scale - p <= 19 {
                            lemma_pow10_mono((scale - p) as nat, 19);
                        }
                    }
                    lemma_pow10_mono(20, (scale - p) as nat);
                    assert(m < div);
                    vstd::arithmetic::div_mod::lemma_basic_div(m as int, div as int);
                    vstd::arithmetic::div_mod::lemma_small_mod(m as nat, div);
                    assert(2 * (m as nat % div) < div);
                }
                0
            },
            Option::Some(pw) => {
                proof {
                    lemma_pow10_pos((scale - p) as nat);
                }
                let q = m / pw;
                let rm = m % pw;
                proof {
                    lemma_fundamental_div_mod(m as int, pw as int);
                    assert(q < u64::MAX) by {
                        assert(pw >= 10) by {
                            assert(pow10((scale - p) as nat) >= pow10(1)) by {
                                lemma_pow10_mono(1, (scale - p) as nat);
                            }
                        }
                        assert(q * pw as int <= m as int) by (nonlinear_arith)
                            requires
                                m as int == pw as int * (q as int) + rm as int,
                                rm >= 0,
                        ;
                        assert(q * 10 <= q * pw as int) by (nonlinear_arith)
                            requires
                                pw >= 10,
                                q >= 0,
                        ;
                    }
                }
                if rm >= pw - rm {
                    q + 1
                } else {
                    q
                }
            },
        }
    };
    // rounded == spec_round_mantissa and it fits in u64
    let mut out = String::new();
    if d.neg && rounded > 0 {
        push_char(&mut out, '-');
    }
    if p == 0 {
        let digits = u64_to_string(rounded);
        out.append(digits.as_str());
        proof {
            assert(out@ =~= spec_render_fixed(d.neg, rounded as nat, p as nat));
        }
    } else {
        let (ipart, fpart): (u64, u64) = match pow10_u64(p) {
            Option::None => {
                proof {
                    vstd::arithmetic::div_mod::lemma_basic_div(
                        rounded as int,
                        pow10(p as nat) as int,
                    );
                    vstd::arithmetic::div_mod::lemma_small_mod(rounded as nat, pow10(p as nat));
                }
                (0, rounded)
            },
            Option::Some(pwp) => {
                proof {
                    lemma_pow10_pos(p as nat);
                }
                (rounded / pwp, rounded % pwp)
            },
        };
        let idigits = u64_to_string(ipart);
        out.append(idigits.as_str());
        push_char(&mut out, '.');
        let fchars = pad_digits(fpart, p);
        let fstr = chars_to_string(&fchars);
        out.append(fstr.as_str());
        proof {
            assert(out@ =~= spec_render_fixed(d.neg, rounded as nat, p as nat));
        }
    }
    Result::Ok(out)
}

/// The last `w` decimal digits of `n`, zero-padded to width `w`.
fn pad_digits(n: u64, w: usize) -> (v: Vec<char>)
    ensures
        v@ == dec_digits_padded(n as nat, w as nat),
{
    let mut rev: Vec<char> = Vec::new();
    let mut m = n;
    let mut j: usize = 0;
    proof {
        assert(rev@.reverse() =~= Seq::<char>::empty());
        assert(dec_digits_padded(n as nat, w as nat) =~= dec_digits_padded(n as nat, w as nat)
            + rev@.reverse());
    }
    while j < w
        invariant
            j <= w,
            dec_digits_padded(n as nat, w as nat) == dec_digits_padded(m as nat, (w - j) as nat)
                + rev@.reverse(),
        decreases w - j,
    {
        let d = m % 10;
        let c = digit_to_char(d);
        let ghost old_rev = rev@;
        rev.push(c);
        proof {
            assert(rev@.reverse() =~= seq![c] + old_rev.reverse());
            assert(dec_digits_padded(m as nat, (w - j) as nat) == dec_digits_padded(
                (m / 10) as nat,
                (w - j - 1) as nat,
            ).push(c));
            assert(dec_digits_padded((m / 10) as nat, (w - j - 1) as nat).push(c)
                + old_rev.reverse() =~= dec_digits_padded((m / 10) as nat, (w - j - 1) as nat) + (
            seq![c] + old_rev.reverse()));
        }
        m = m / 10;
        j += 1;
    }
    proof {
        assert(dec_digits_padded(m as nat, 0) =~= Seq::<char>::empty());
        assert(Seq::<char>::empty() + rev@.reverse() =~= rev@.reverse());
    }
    reverse_chars(rev)
}

/// The fractional-digit count an instrument reference string demands:
/// one less than the character count to the right of the first dot, the dot
/// position defaulting to zero when there is none. `None` only for the empty
/// string, which has no usable digit count at all.
pub open spec fn spec_precision_of(s: Seq<char>) -> Option<nat> {
    if s.len() == 0 {
        None
    } else {
        let d = if first_dot(s) < s.len() {
            first_dot(s)
        } else {
            0
        };
        Some((s.len() - 1 - d) as nat)
    }
}

/// Derive the order-field precision from a tick- or lot-size string, as
/// `length - 1 - dot_index` with the dot index defaulting to zero. An empty
/// reference has no usable precision and is rejected rather than defaulted.
pub fn precision_of(reference: &str) -> (r: Result<usize, crate::errors::ApiError>)
    ensures
        match r {
            Result::Ok(p) => spec_precision_of(reference@) == Some(p as nat),
            Result::Err(e) => e == crate::errors::ApiError::PrecisionError && spec_precision_of(
                reference@,
            ) is None,
        },
{
    let len = reference.unicode_len();
    if len == 0 {
        return Result::Err(crate::errors::ApiError::PrecisionError);
    }
    let mut j: usize = 0;
    let mut dot: usize = 0;
    let mut found = false;
    while j < len
        invariant
            j <= len,
            len == reference@.len(),
            !found ==> dot == 0 && (forall|t: int| 0 <= t < j ==> #[trigger] reference@[t] != '.'),
            found ==> dot < j && reference@[dot as int] == '.' && (forall|t: int|
                0 <= t < dot ==> #[trigger] reference@[t] != '.'),
        decreases len - j,
    {
        if !found && reference.get_char(j) == '.' {
            dot = j;
            found = true;
        }
        j += 1;
    }
    proof {
        lemma_first_dot_props(reference@);
        if found {
            assert(first_dot(reference@) == dot) by {
                let fd = first_dot(reference@);
                if fd < dot {
                    assert(reference@[fd] == '.');
                    assert(reference@[fd] != '.');
                }
                if fd > dot {
                    assert(reference@[dot as int] != '.');
                }
            }
        } else {
            assert(first_dot(reference@) == len) by {
                let fd = first_dot(reference@);
                if fd < len {
                    assert(reference@[fd] == '.');
                    assert(reference@[fd] != '.');
                }
            }
        }
    }
    Result::Ok(len - 1 - dot)
}

/// Digit characters are not signs and not dots.
pub proof fn lemma_digits_plain(q: Seq<char>)
    requires
        all_digits(q),
    ensures
        forall|i: int| 0 <= i < q.len() ==> #[trigger] q[i] != '.',
        forall|i: int| 0 <= i < q.len() ==> #[trigger] q[i] != '-',
        forall|i: int| 0 <= i < q.len() ==> #[trigger] q[i] != '+',
{
    assert('.' as u32 == 46);
    assert('-' as u32 == 45);
    assert('+' as u32 == 43);
    assert forall|i: int| 0 <= i < q.len() implies #[trigger] q[i] != '.' && q[i] != '-' && q[i]
        != '+' by {
        assert(is_digit(q[i]));
        if q[i] == '.' {
            assert(q[i] as u32 == 46);
        }
        if q[i] == '-' {
            assert(q[i] as u32 == 45);
        }
        if q[i] == '+' {
            assert(q[i] as u32 == 43);
        }
    }
}

/// A formatted value carries exactly the demanded count of fractional
/// digits: at precision zero the rendering holds no dot at all; at a
/// positive precision the dot stands followed by exactly that many digits,
/// whatever rounding did to the value.
pub proof fn lemma_format_fraction_digits(d: Decimal, p: nat, s: Seq<char>)
    requires
        spec_format_decimal(d, p) == Some(s),
    ensures
        p == 0 ==> forall|i: int| 0 <= i < s.len() ==> #[trigger] s[i] != '.',
        p > 0 ==> s.len() > p && s[s.len() - 1 - p] == '.' && (forall|i: int|
            s.len() - p <= i < s.len() ==> is_digit(#[trigger] s[i])),
{
    let m = spec_round_mantissa(d.mantissa as nat, d.scale as nat, p);
    let sign: Seq<char> = if d.neg && m > 0 {
        seq!['-']
    } else {
        Seq::empty()
    };
    if p == 0 {
        let a = dec_digits(m);
        lemma_dec_digits(m);
        lemma_digits_plain(a);
        assert(s == sign + a);
        assert forall|i: int| 0 <= i < s.len() implies #[trigger] s[i] != '.' by {
            if i >= sign.len() {
                assert(s[i] == a[i - sign.len()]);
            }
        }
    } else {
        let a = dec_digits(m / pow10(p));
        let b = dec_digits_padded(m % pow10(p), p);
        lemma_dec_digits(m / pow10(p));
        lemma_dec_digits_padded(m % pow10(p), p);
        assert(s == sign + a + seq!['.'] + b);
        assert(s.len() == sign.len() + a.len() + 1 + p);
        assert(s[s.len() - 1 - p] == '.');
        assert forall|i: int| s.len() - p <= i < s.len() implies is_digit(#[trigger] s[i]) by {
            assert(s[i] == b[i - (s.len() - p)]);
            assert(is_digit(b[i - (s.len() - p)]));
        }
    }
}

/// Parsing a decimal string and re-rendering the parsed value at its own
/// scale yields a string that parses back to the same decimal value: the
/// numeric fields of a candle row survive a parse/serialize round trip.
pub proof fn lemma_parse_format_round_trip(s: Seq<char>, d: Decimal)
    requires
        spec_parse_decimal(s) == Some(d),
    ensures
        spec_format_decimal(d, d.scale as nat) matches Some(out) && spec_parse_decimal(out)
            matches Some(back) && back.same_value(d),
{
    let p = d.scale as nat;
    let m = d.mantissa as nat;
    assert(spec_round_mantissa(m, p, p) == m * pow10(0));
    assert(m * 1 == m) by (nonlinear_arith);
    let out = spec_render_fixed(d.neg, m, p);
    assert(spec_format_decimal(d, p) == Some(out));
    let sign: Seq<char> = if d.neg && m > 0 {
        seq!['-']
    } else {
        Seq::empty()
    };
    let u = if p == 0 {
        dec_digits(m)
    } else {
        dec_digits(m / pow10(p)) + seq!['.'] + dec_digits_padded(m % pow10(p), p)
    };
    assert(out =~= sign + u);
    // stripping the sign leaves exactly `u`
    if d.neg && m > 0 {
        assert(out[0] == '-');
        assert(sign_split(out) == (true, out.drop_first()));
        assert(out.drop_first() =~= u);
    } else {
        if p == 0 {
            lemma_dec_digits(m);
            lemma_digits_plain(u);
            assert(out[0] == u[0]);
        } else {
            lemma_dec_digits(m / pow10(p));
            lemma_digits_plain(dec_digits(m / pow10(p)));
            assert(out[0] == dec_digits(m / pow10(p))[0]);
        }
        assert(out[0] != '-' && out[0] != '+');
        assert(sign_split(out) == (false, out));
        assert(out =~= u);
    }
    // `u` is a valid unsigned decimal string with mantissa `m`, scale `p`
    if p == 0 {
        lemma_dec_digits(m);
        lemma_digits_plain(u);
        lemma_first_dot_props(u);
        assert(first_dot(u) == u.len()) by {
            if first_dot(u) < u.len() {
                assert(u[first_dot(u)] == '.');
            }
        }
        assert(unsigned_digits(u) == u);
        assert(valid_unsigned(u));
        assert(digits_val(unsigned_digits(u)) == m);
        assert(unsigned_scale(u) == 0);
    } else {
        let a = dec_digits(m / pow10(p));
        let b = dec_digits_padded(m % pow10(p), p);
        lemma_dec_digits(m / pow10(p));
        lemma_dec_digits_padded(m % pow10(p), p);
        lemma_digits_plain(a);
        lemma_digits_plain(b);
        lemma_first_dot_props(u);
        let alen = a.len() as int;
        assert(u[alen] == '.');
        assert(forall|t: int| 0 <= t < alen ==> #[trigger] u[t] != '.') by {
            assert forall|t: int| 0 <= t < alen implies #[trigger] u[t] != '.' by {
                assert(u[t] == a[t]);
            }
        }
        assert(first_dot(u) == alen) by {
            let fd = first_dot(u);
            if fd < alen {
                assert(u[fd] == '.');
                assert(u[fd] != '.');
            }
            if fd > alen {
                assert(u[alen] != '.');
            }
        }
        assert(unsigned_digits(u) =~= a + b);
        assert forall|i: int| 0 <= i < (a + b).len() implies is_digit(#[trigger] (a + b)[i]) by {
            if i < a.len() {
                assert((a + b)[i] == a[i]);
            } else {
                assert((a + b)[i] == b[i - a.len()]);
            }
        }
        assert(valid_unsigned(u));
        lemma_digits_val_concat(a, b);
        lemma_pow10_pos(p);
        lemma_fundamental_div_mod(m as int, pow10(p) as int);
        vstd::arithmetic::div_mod::lemma_mod_bound(m as int, pow10(p) as int);
        assert(digits_val(a) * pow10(b.len()) == (m / pow10(p)) * pow10(p));
        assert(digits_val(unsigned_digits(u)) == m);
        assert(unsigned_scale(u) == u.len() - alen - 1);
        assert(u.len() == alen + 1 + p);
    }
    let back = Decimal {
        neg: d.neg && m > 0,
        mantissa: digits_val(unsigned_digits(u)) as u64,
        scale: unsigned_scale(u) as u32,
    };
    assert(spec_parse_decimal(out) == Some(back));
    assert(back.mantissa == d.mantissa && back.scale == d.scale);
    assert(back.same_value(d)) by {
        if back.neg != d.neg {
            assert(m == 0);
        }
    }
}

} // verus!
