use vstd::prelude::*;

use crate::ParseError;
use crate::text::{
    find_char, lemma_find_char_absent, lemma_find_char_at, lemma_find_char_characterizes,
    split_whitespace_str, tokens_spec,
};

verus! {

/// An ASCII decimal digit.
pub open spec fn is_digit_char(c: char) -> bool {
    ||| c == '0'
    ||| c == '1'
    ||| c == '2'
    ||| c == '3'
    ||| c == '4'
    ||| c == '5'
    ||| c == '6'
    ||| c == '7'
    ||| c == '8'
    ||| c == '9'
}

/// The numeric value of a decimal digit; other characters count as zero.
pub open spec fn digit_val(c: char) -> int {
    if c == '0' {
        0
    } else if c == '1' {
        1
    } else if c == '2' {
        2
    } else if c == '3' {
        3
    } else if c == '4' {
        4
    } else if c == '5' {
        5
    } else if c == '6' {
        6
    } else if c == '7' {
        7
    } else if c == '8' {
        8
    } else if c == '9' {
        9
    } else {
        0
    }
}

/// Every character of `s` is a decimal digit.
pub open spec fn all_digits(s: Seq<char>) -> bool {
    forall|i: int| 0 <= i < s.len() ==> is_digit_char(s[i])
}

/// The value of `s` read as a big-endian string of decimal digits.
pub open spec fn digits_val(s: Seq<char>) -> int
    decreases s.len(),
{
    if s.len() == 0 {
        0
    } else {
        digits_val(s.drop_last()) * 10 + digit_val(s.last())
    }
}

/// Ten to the power `n`.
pub open spec fn pow10(n: nat) -> int
    decreases n,
{
    if n == 0 {
        1
    } else {
        10 * pow10((n - 1) as nat)
    }
}

pub proof fn lemma_pow10_pos(n: nat)
    ensures
        pow10(n) >= 1,
    decreases n,
{
    if n > 0 {
        lemma_pow10_pos((n - 1) as nat);
    }
}

pub proof fn lemma_pow10_le(a: nat, b: nat)
    requires
        a <= b,
    ensures
        pow10(a) <= pow10(b),
    decreases b,
{
    if a < b {
        lemma_pow10_le(a, (b - 1) as nat);
        lemma_pow10_pos((b - 1) as nat);
    }
}

/// The concrete value of `pow10(24)`, the largest power the decoder needs.
pub proof fn lemma_pow10_24()
    ensures
        pow10(24) == 1000000000000000000000000int,
{
    assert(pow10(0) == 1);
    assert(pow10(1) == 10);
    assert(pow10(2) == 100);
    assert(pow10(3) == 1000);
    assert(pow10(4) == 10000);
    assert(pow10(5) == 100000);
    assert(pow10(6) == 1000000);
    assert(pow10(7) == 10000000);
    assert(pow10(8) == 100000000);
    assert(pow10(9) == 1000000000);
    assert(pow10(10) == 10000000000);
    assert(pow10(11) == 100000000000);
    assert(pow10(12) == 1000000000000);
    assert(pow10(13) == 10000000000000);
    assert(pow10(14) == 100000000000000);
    assert(pow10(15) == 1000000000000000);
    assert(pow10(16) == 10000000000000000);
    assert(pow10(17) == 100000000000000000);
    assert(pow10(18) == 1000000000000000000);
    assert(pow10(19) == 10000000000000000000);
    assert(pow10(20) == 100000000000000000000);
    assert(pow10(21) == 1000000000000000000000);
    assert(pow10(22) == 10000000000000000000000);
    assert(pow10(23) == 100000000000000000000000);
    assert(pow10(24) == 1000000000000000000000000int);
}

/// A digit string's value is non-negative and below ten to its length.
pub proof fn lemma_digits_val_bounds(s: Seq<char>)
    ensures
        0 <= digits_val(s) < pow10(s.len()),
    decreases s.len(),
{
    if s.len() > 0 {
        lemma_digits_val_bounds(s.drop_last());
    }
}

/// Reading more digits never shrinks the value.
pub proof fn lemma_digits_val_prefix_le(s: Seq<char>, i: int)
    requires
        0 <= i <= s.len(),
    ensures
        digits_val(s.subrange(0, i)) <= digits_val(s),
    decreases s.len() - i,
{
    if i < s.len() {
        lemma_digits_val_prefix_le(s, i + 1);
        let a = s.subrange(0, i);
        let b = s.subrange(0, i + 1);
        assert(b.drop_last() =~= a);
        lemma_digits_val_bounds(a);
    } else {
        assert(s.subrange(0, i) =~= s);
    }
}

/// A plain integer token: all digits, and its value fits in a `u64`.
pub open spec fn plain_u64_spec(t: Seq<char>) -> Option<int> {
    if all_digits(t) && t.len() > 0 && digits_val(t) <= u64::MAX {
        Some(digits_val(t))
    } else {
        None
    }
}

/// A well-formed decimal-point magnitude: one dot with only digits around
/// it, at least one digit, and a bounded width.
pub open spec fn valid_decimal(t: Seq<char>) -> bool {
    &&& find_char(t, '.') is Some
    &&& t.len() >= 2
    &&& t.len() <= 25
    &&& {
        let i = find_char(t, '.')->Some_0;
        all_digits(t.subrange(0, i)) && all_digits(t.subrange(i + 1, t.len() as int))
    }
}

/// The digits of a decimal-point token with the dot removed.
pub open spec fn dec_digits(t: Seq<char>) -> Seq<char> {
    let i = find_char(t, '.')->Some_0;
    t.subrange(0, i) + t.subrange(i + 1, t.len() as int)
}

/// The number of digits after the dot.
pub open spec fn frac_len(t: Seq<char>) -> int {
    t.len() - 1 - find_char(t, '.')->Some_0
}

/// The magnitude scaled by `scale` and truncated toward zero: with digits
/// `d`, dot position giving `f` fractional digits, this is
/// `(d * scale) / 10^f` in integer division.
pub open spec fn decimal_scaled(t: Seq<char>, scale: int) -> int {
    (digits_val(dec_digits(t)) * scale) / pow10(frac_len(t) as nat)
}

/// The base-1024 scale of a binary-prefix unit letter, if recognized.
pub open spec fn unit_scale(u: Seq<char>) -> Option<int> {
    if u.len() == 1 {
        if u[0] == 'k' {
            Some(1024)
        } else if u[0] == 'm' {
            Some(1048576)
        } else if u[0] == 'g' {
            Some(1073741824)
        } else if u[0] == 't' {
            Some(1099511627776)
        } else {
            None
        }
    } else {
        None
    }
}

/// Decoding one counter field at token position `i`: a plain integer token
/// consumes one token; a decimal-point token must be followed by a unit
/// token and consumes two. The result pairs the decoded value with the
/// position of the next unconsumed token.
pub open spec fn field_decode_spec(toks: Seq<Seq<char>>, i: int) -> Result<(int, int), ParseError> {
    if !(0 <= i < toks.len()) {
        Err(ParseError::InsufficientFields)
    } else {
        let t = toks[i];
        if find_char(t, '.') is Some {
            if !valid_decimal(t) {
                Err(ParseError::MalformedCounterBlock)
            } else if !(i + 1 < toks.len()) {
                Err(ParseError::InsufficientFields)
            } else {
                match unit_scale(toks[i + 1]) {
                    Some(k) => {
                        if decimal_scaled(t, k) <= u64::MAX {
                            Ok((decimal_scaled(t, k), i + 2))
                        } else {
                            Err(ParseError::MalformedCounterBlock)
                        }
                    },
                    None => Err(ParseError::MalformedCounterBlock),
                }
            }
        } else {
            match plain_u64_spec(t) {
                Some(v) => Ok((v, i + 1)),
                None => Err(ParseError::MalformedCounterBlock),
            }
        }
    }
}

/// The position of the first occurrence of `c` in `s`, as `find_char`
/// describes it.
fn find_char_in_str(s: &str, c: char) -> (r: Option<usize>)
    ensures
        match r {
            Some(i) => find_char(s@, c) == Some(i as int),
            None => find_char(s@, c) is None,
        },
{
    let n = s.unicode_len();
    let mut i: usize = 0;
    while i < n && s.get_char(i) != c
        invariant
            0 <= i <= n,
            n == s@.len(),
            forall|j: int| 0 <= j < i ==> s@[j] != c,
        decreases n - i,
    {
        i += 1;
    }
    if i == n {
        proof {
            lemma_find_char_absent(s@, c);
        }
        None
    } else {
        proof {
            lemma_find_char_at(s@, c, i as int);
        }
        Some(i)
    }
}

/// The numeric value of a decimal digit character.
fn digit_of(c: char) -> (r: Option<u64>)
    ensures
        match r {
            Some(d) => is_digit_char(c) && d as int == digit_val(c),
            None => !is_digit_char(c),
        },
{
    if c == '0' {
        Some(0)
    } else if c == '1' {
        Some(1)
    } else if c == '2' {
        Some(2)
    } else if c == '3' {
        Some(3)
    } else if c == '4' {
        Some(4)
    } else if c == '5' {
        Some(5)
    } else if c == '6' {
        Some(6)
    } else if c == '7' {
        Some(7)
    } else if c == '8' {
        Some(8)
    } else if c == '9' {
        Some(9)
    } else {
        None
    }
}

/// Parses a token of plain decimal digits into a `u64`, detecting overflow.
fn parse_plain_u64(t: &str) -> (r: Option<u64>)
    ensures
        match r {
            Some(v) => plain_u64_spec(t@) == Some(v as int),
            None => plain_u64_spec(t@) is None,
        },
{
    let n = t.unicode_len();
    if n == 0 {
        return None;
    }
    let mut acc: u64 = 0;
    let mut i: usize = 0;
    while i < n
        invariant
            0 <= i <= n,
            n == t@.len(),
            forall|j: int| 0 <= j < i ==> is_digit_char(t@[j]),
            acc as int == digits_val(t@.subrange(0, i as int)),
        decreases n - i,
    {
        let c = t.get_char(i);
        let d = match digit_of(c) {
            Some(d) => d,
            None => {
                return None;
            },
        };
        proof {
            let p = t@.subrange(0, i as int);
            let q = t@.subrange(0, i as int + 1);
            assert(q.drop_last() =~= p);
            assert(q.last() == t@[i as int]);
        }
        if acc > 1844674407370955161 || (acc == 1844674407370955161 && d > 5) {
            proof {
                if all_digits(t@) {
                    lemma_digits_val_prefix_le(t@, i as int + 1);
                }
            }
            return None;
        }
        acc = acc * 10 + d;
        i += 1;
    }
    proof {
        assert(t@.subrange(0, n as int) =~= t@);
    }
    Some(acc)
}

/// Checks the decimal-point grammar of a token whose first dot is at `dot`.
fn check_decimal(t: &str, dot: usize) -> (r: bool)
    requires
        find_char(t@, '.') == Some(dot as int),
    ensures
        r == valid_decimal(t@),
{
    proof {
        lemma_find_char_characterizes(t@, '.');
    }
    let n = t.unicode_len();
    if n < 2 || n > 25 {
        return false;
    }
    let mut j: usize = 0;
    while j < n
        invariant
            0 <= j <= n,
            n == t@.len(),
            2 <= n <= 25,
            dot < n,
            find_char(t@, '.') == Some(dot as int),
            forall|k: int| 0 <= k < j && k != dot ==> is_digit_char(t@[k]),
        decreases n - j,
    {
        if j != dot {
            let c = t.get_char(j);
            if digit_of(c).is_none() {
                proof {
                    if valid_decimal(t@) {
                        let i0 = find_char(t@, '.')->Some_0;
                        if j < dot {
                            assert(is_digit_char(t@.subrange(0, i0)[j as int]));
                            assert(t@.subrange(0, i0)[j as int] == t@[j as int]);
                        } else {
                            assert(is_digit_char(
                                t@.subrange(i0 + 1, t@.len() as int)[j - dot - 1],
                            ));
                            assert(t@.subrange(i0 + 1, t@.len() as int)[j - dot - 1] == t@[
                            j as int]);
                        }
                    }
                }
                return false;
            }
        }
        j += 1;
    }
    proof {
        let a = t@.subrange(0, dot as int);
        let b = t@.subrange(dot as int + 1, n as int);
        assert forall|k: int| 0 <= k < a.len() implies is_digit_char(a[k]) by {
            assert(a[k] == t@[k]);
        }
        assert forall|k: int| 0 <= k < b.len() implies is_digit_char(b[k]) by {
            assert(b[k] == t@[k + dot + 1]);
        }
    }
    true
}

/// Ten to the power `d`, computed in a `u128`.
fn pow10_u128(d: usize) -> (r: u128)
    requires
        d <= 24,
    ensures
        r as int == pow10(d as nat),
{
    let mut r: u128 = 1;
    let mut i: usize = 0;
    while i < d
        invariant
            0 <= i <= d <= 24,
            r as int == pow10(i as nat),
        decreases d - i,
    {
        proof {
            lemma_pow10_pos(i as nat);
            lemma_pow10_le(i as nat + 1, 24);
            lemma_pow10_24();
            assert(pow10(i as nat + 1) == 10 * pow10(i as nat));
        }
        r = r * 10;
        i += 1;
        proof {
            assert(pow10(i as nat) == 10 * pow10((i - 1) as nat));
        }
    }
    r
}

/// Computes the scaled, truncated value of a valid decimal-point token.
fn scaled_decimal_value(t: &str, dot: usize, scale: u64) -> (r: Option<u64>)
    requires
        find_char(t@, '.') == Some(dot as int),
        valid_decimal(t@),
        1 <= scale <= 1099511627776,
    ensures
        match r {
            Some(v) => decimal_scaled(t@, scale as int) == v as int,
            None => decimal_scaled(t@, scale as int) > u64::MAX,
        },
{
    proof {
        lemma_find_char_characterizes(t@, '.');
    }
    let n = t.unicode_len();
    let ghost ds = dec_digits(t@);
    proof {
        assert(ds.len() == n - 1);
        assert forall|k: int| 0 <= k < ds.len() implies is_digit_char(ds[k]) by {
            if k < dot {
                assert(ds[k] == t@.subrange(0, dot as int)[k]);
            } else {
                assert(ds[k] == t@.subrange(dot as int + 1, n as int)[k - dot]);
                assert(t@.subrange(dot as int + 1, n as int)[k - dot] == t@[k + 1]);
            }
        }
    }
    let mut acc: u128 = 0;
    let mut j: usize = 0;
    while j < n
        invariant
            0 <= j <= n,
            n == t@.len(),
            2 <= n <= 25,
            dot < n,
            ds == dec_digits(t@),
            ds.len() == n - 1,
            all_digits(ds),
            find_char(t@, '.') == Some(dot as int),
            valid_decimal(t@),
            acc as int == digits_val(ds.subrange(0, if j <= dot { j as int } else { j - 1 })),
        decreases n - j,
    {
        if j != dot {
            let c = t.get_char(j);
            proof {
                if j < dot {
                    assert(t@[j as int] == t@.subrange(0, dot as int)[j as int]);
                } else {
                    assert(t@[j as int] == t@.subrange(dot as int + 1, n as int)[j - dot - 1]);
                }
            }
            let d = digit_of(c).unwrap();
            proof {
                let cnt: int = if j <= dot {
                    j as int
                } else {
                    j - 1
                };
                let p = ds.subrange(0, cnt);
                let q = ds.subrange(0, cnt + 1);
                assert(q.drop_last() =~= p);
                if j < dot {
                    assert(ds[cnt] == t@.subrange(0, dot as int)[cnt]);
                } else {
                    assert(ds[cnt] == t@.subrange(dot as int + 1, n as int)[cnt - dot]);
                    assert(t@.subrange(dot as int + 1, n as int)[cnt - dot] == t@[cnt + 1]);
                }
                assert(q.last() == ds[cnt]);
                lemma_digits_val_bounds(p);
                lemma_pow10_le(p.len(), 24);
                lemma_pow10_24();
            }
            acc = acc * 10 + (d as u128);
        }
        j += 1;
    }
    proof {
        assert(ds.subrange(0, ds.len() as int) =~= ds);
        lemma_digits_val_bounds(ds);
        lemma_pow10_le(ds.len(), 24);
        lemma_pow10_24();
        assert(acc as int * scale as int <= 1099511627776000000000000000000000000int)
            by (nonlinear_arith)
            requires
                0 <= (acc as int),
                (acc as int) < 1000000000000000000000000int,
                0 <= (scale as int),
                (scale as int) <= 1099511627776int,
        ;
    }
    let prod: u128 = acc * (scale as u128);
    let fl: usize = n - 1 - dot;
    let den: u128 = pow10_u128(fl);
    proof {
        lemma_pow10_pos(fl as nat);
        assert(frac_len(t@) == fl as int);
    }
    let q: u128 = prod / den;
    if q > 18446744073709551615u128 {
        None
    } else {
        Some(q as u64)
    }
}

/// The mathematical content of a `FooterDetail`: its six counters as
/// unbounded integers.
pub struct CounterV {
    pub total: int,
    pub copied: int,
    pub skipped: int,
    pub mismatch: int,
    pub failed: int,
    pub extras: int,
}

/// The all-zero counter block, the state before any footer line is decoded.
pub open spec fn counter_zero() -> CounterV {
    CounterV { total: 0, copied: 0, skipped: 0, mismatch: 0, failed: 0, extras: 0 }
}

/// One decoded six-field roll-up line of a run's footer: totals for the
/// directories, files or bytes of one copy run.
#[derive(Clone, Copy, PartialEq, Eq, Structural, Debug)]
pub struct FooterDetail {
    pub total: u64,
    pub copied: u64,
    pub skipped: u64,
    pub mismatch: u64,
    pub failed: u64,
    pub extras: u64,
}

impl View for FooterDetail {
    type V = CounterV;

    open spec fn view(&self) -> CounterV {
        CounterV {
            total: self.total as int,
            copied: self.copied as int,
            skipped: self.skipped as int,
            mismatch: self.mismatch as int,
            failed: self.failed as int,
            extras: self.extras as int,
        }
    }
}

impl DeepView for FooterDetail {
    type V = CounterV;

    open spec fn deep_view(&self) -> CounterV {
        self.view()
    }
}

impl Default for FooterDetail {
    /// The all-zero counter block.
    fn default() -> (r: Self)
        ensures
            r@ == counter_zero(),
    {
        FooterDetail { total: 0, copied: 0, skipped: 0, mismatch: 0, failed: 0, extras: 0 }
    }
}

/// Decoding a whole counter-block value string: six fields decoded in
/// order from its whitespace-separated tokens; tokens left over after the
/// sixth field are ignored.
pub open spec fn decode_block_spec(v: Seq<char>) -> Result<CounterV, ParseError> {
    let toks = tokens_spec(v);
    match field_decode_spec(toks, 0) {
        Err(e) => Err(e),
        Ok((total, i1)) => match field_decode_spec(toks, i1) {
            Err(e) => Err(e),
            Ok((copied, i2)) => match field_decode_spec(toks, i2) {
                Err(e) => Err(e),
                Ok((skipped, i3)) => match field_decode_spec(toks, i3) {
                    Err(e) => Err(e),
                    Ok((mismatch, i4)) => match field_decode_spec(toks, i4) {
                        Err(e) => Err(e),
                        Ok((failed, i5)) => match field_decode_spec(toks, i5) {
                            Err(e) => Err(e),
                            Ok((extras, _i6)) => Ok(
                                CounterV { total, copied, skipped, mismatch, failed, extras },
                            ),
                        },
                    },
                },
            },
        },
    }
}

impl FooterDetail {
    /// The base-1024 scale factor of a binary-prefix unit letter: `k`, `m`,
    /// `g` or `t`; any other token is a malformed counter block.
    pub fn get_prefix(prefix: &str) -> (r: Result<u64, ParseError>)
        ensures
            r matches Ok(k) ==> unit_scale(prefix@) == Some(k as int),
            r matches Err(e) ==> unit_scale(prefix@) is None && e
                == ParseError::MalformedCounterBlock,
    {
        let n = prefix.unicode_len();
        if n != 1 {
            return Err(ParseError::MalformedCounterBlock);
        }
        let c = prefix.get_char(0);
        if c == 'k' {
            Ok(1024)
        } else if c == 'm' {
            Ok(1048576)
        } else if c == 'g' {
            Ok(1073741824)
        } else if c == 't' {
            Ok(1099511627776)
        } else {
            Err(ParseError::MalformedCounterBlock)
        }
    }

    /// Decodes the counter field that starts at token `*index`, advancing
    /// `*index` past the consumed tokens; on an error `*index` is unchanged.
    pub fn local_from_str_value(columns: &Vec<String>, index: &mut usize) -> (r: Result<
        u64,
        ParseError,
    >)
        ensures
            r matches Ok(v) ==> field_decode_spec(columns.deep_view(), *old(index) as int)
                == Ok::<(int, int), ParseError>((v as int, *final(index) as int)),
            r matches Err(e) ==> field_decode_spec(columns.deep_view(), *old(index) as int)
                == Err::<(int, int), ParseError>(e) && *final(index) == *old(index),
    {
        let i = *index;
        if i >= columns.len() {
            return Err(ParseError::InsufficientFields);
        }
        let t: &str = columns[i].as_str();
        proof {
            assert(columns.deep_view()[i as int] == columns@[i as int]@);
        }
        match find_char_in_str(t, '.') {
            Some(dot) => {
                if !check_decimal(t, dot) {
                    return Err(ParseError::MalformedCounterBlock);
                }
                if i + 1 >= columns.len() {
                    return Err(ParseError::InsufficientFields);
                }
                let u: &str = columns[i + 1].as_str();
                proof {
                    assert(columns.deep_view()[i as int + 1] == columns@[i as int + 1]@);
                }
                let k = match Self::get_prefix(u) {
                    Ok(k) => k,
                    Err(e) => {
                        return Err(e);
                    },
                };
                match scaled_decimal_value(t, dot, k) {
                    Some(v) => {
                        *index = i + 2;
                        Ok(v)
                    },
                    None => Err(ParseError::MalformedCounterBlock),
                }
            },
            None => {
                match parse_plain_u64(t) {
                    Some(v) => {
                        *index = i + 1;
                        Ok(v)
                    },
                    None => Err(ParseError::MalformedCounterBlock),
                }
            },
        }
    }

    /// Decodes a footer counter-block value string into its six counters:
    /// total, copied, skipped, mismatch, failed, extras, in that order.
    pub fn from_str(v: &str) -> (r: Result<FooterDetail, ParseError>)
        ensures
            r matches Ok(fd) ==> decode_block_spec(v@) == Ok::<CounterV, ParseError>(fd@),
            r matches Err(e) ==> decode_block_spec(v@) == Err::<CounterV, ParseError>(e),
    {
        let columns = split_whitespace_str(v);
        let mut index: usize = 0;
        let total = match Self::local_from_str_value(&columns, &mut index) {
            Ok(x) => x,
            Err(e) => {
                return Err(e);
            },
        };
        let copied = match Self::local_from_str_value(&columns, &mut index) {
            Ok(x) => x,
            Err(e) => {
                return Err(e);
            },
        };
        let skipped = match Self::local_from_str_value(&columns, &mut index) {
            Ok(x) => x,
            Err(e) => {
                return Err(e);
            },
        };
        let mismatch = match Self::local_from_str_value(&columns, &mut index) {
            Ok(x) => x,
            Err(e) => {
                return Err(e);
            },
        };
        let failed = match Self::local_from_str_value(&columns, &mut index) {
            Ok(x) => x,
            Err(e) => {
                return Err(e);
            },
        };
        let extras = match Self::local_from_str_value(&columns, &mut index) {
            Ok(x) => x,
            Err(e) => {
                return Err(e);
            },
        };
        Ok(FooterDetail { total, copied, skipped, mismatch, failed, extras })
    }
}

} // verus!
