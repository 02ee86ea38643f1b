//! Decimal rendering and parsing of integers as ASCII bytes.
//!
//! RESP frames and the INFO report carry integers in decimal ASCII; the
//! codec needs both directions together with proofs that they are inverse
//! to one another.

use vstd::prelude::*;

verus! {

/// ASCII '0'..='9'.
pub open spec fn is_digit(b: u8) -> bool {
    0x30 <= b <= 0x39
}

pub open spec fn all_digits(s: Seq<u8>) -> bool {
    forall|i: int| 0 <= i < s.len() ==> is_digit(#[trigger] s[i])
}

/// Decimal rendering of a natural number, most significant digit first,
/// without leading zeros (a single '0' for zero).
pub open spec fn spec_dec_u(n: nat) -> Seq<u8>
    decreases n,
{
    if n < 10 {
        seq![(n + 0x30) as u8]
    } else {
        spec_dec_u(n / 10) + seq![((n % 10) + 0x30) as u8]
    }
}

/// Decimal rendering of an integer: a '-' sign for negatives, then digits.
pub open spec fn spec_dec_i(v: int) -> Seq<u8> {
    if v < 0 {
        seq![0x2Du8] + spec_dec_u((-v) as nat)
    } else {
        spec_dec_u(v as nat)
    }
}

/// Value of a digit string, most significant digit first.
pub open spec fn dec_val(s: Seq<u8>) -> int
    decreases s.len(),
{
    if s.len() == 0 {
        0
    } else {
        dec_val(s.drop_last()) * 10 + (s.last() - 0x30)
    }
}

/// The integer a line of bytes denotes: an optional '-' sign followed by
/// one or more digits. Leading zeros are accepted; anything else is not.
pub open spec fn parse_dec(s: Seq<u8>) -> Option<int> {
    if s.len() == 0 {
        None
    } else if s[0] == 0x2D {
        if s.len() > 1 && all_digits(s.skip(1)) {
            Some(-dec_val(s.skip(1)))
        } else {
            None
        }
    } else if all_digits(s) {
        Some(dec_val(s))
    } else {
        None
    }
}

pub proof fn lemma_dec_u_digits(n: nat)
    ensures
        spec_dec_u(n).len() >= 1,
        all_digits(spec_dec_u(n)),
    decreases n,
{
    if n >= 10 {
        lemma_dec_u_digits(n / 10);
    }
}

pub proof fn lemma_dec_val_of_dec_u(n: nat)
    ensures
        dec_val(spec_dec_u(n)) == n,
    decreases n,
{
    if n < 10 {
        assert(spec_dec_u(n).drop_last() =~= Seq::<u8>::empty());
        assert(spec_dec_u(n).last() == (n + 0x30) as u8);
        assert(dec_val(spec_dec_u(n)) == dec_val(Seq::<u8>::empty()) * 10 + ((n + 0x30) as u8 - 0x30));
    } else {
        lemma_dec_val_of_dec_u(n / 10);
        assert(spec_dec_u(n).drop_last() =~= spec_dec_u(n / 10));
        assert(spec_dec_u(n).last() == ((n % 10) + 0x30) as u8);
        assert(dec_val(spec_dec_u(n)) == (n / 10) * 10 + n % 10);
        assert((n / 10) * 10 + n % 10 == n) by (nonlinear_arith);
    }
}

/// Rendering then parsing gives back the integer.
pub proof fn lemma_parse_dec_of_dec_i(v: int)
    ensures
        parse_dec(spec_dec_i(v)) == Some(v),
{
    if v < 0 {
        let mag = (-v) as nat;
        lemma_dec_u_digits(mag);
        lemma_dec_val_of_dec_u(mag);
        assert(spec_dec_i(v).skip(1) =~= spec_dec_u(mag));
    } else {
        lemma_dec_u_digits(v as nat);
        lemma_dec_val_of_dec_u(v as nat);
        assert(is_digit(spec_dec_u(v as nat)[0]));
    }
}

/// Decimal renderings never contain a CR or LF byte.
pub proof fn lemma_dec_i_bytes(v: int)
    ensures
        spec_dec_i(v).len() >= 1,
        forall|i: int| 0 <= i < spec_dec_i(v).len() ==> #[trigger] spec_dec_i(v)[i] != 13
            && spec_dec_i(v)[i] != 10,
{
    if v < 0 {
        lemma_dec_u_digits((-v) as nat);
        assert forall|i: int| 0 <= i < spec_dec_i(v).len() implies #[trigger] spec_dec_i(v)[i]
            != 13 && spec_dec_i(v)[i] != 10 by {
            if i == 0 {
                assert(spec_dec_i(v)[0] == 0x2Du8);
            } else {
                assert(spec_dec_i(v)[i] == spec_dec_u((-v) as nat)[i - 1]);
                assert(is_digit(spec_dec_u((-v) as nat)[i - 1]));
            }
        }
    } else {
        lemma_dec_u_digits(v as nat);
        assert forall|i: int| 0 <= i < spec_dec_i(v).len() implies #[trigger] spec_dec_i(v)[i]
            != 13 && spec_dec_i(v)[i] != 10 by {
            assert(is_digit(spec_dec_u(v as nat)[i]));
        }
    }
}

/// A prefix of a digit string denotes at most what the whole string does.
pub proof fn lemma_dec_val_take_mono(s: Seq<u8>, i: int)
    requires
        all_digits(s),
        0 <= i <= s.len(),
    ensures
        0 <= dec_val(s.take(i)),
        dec_val(s.take(i)) <= dec_val(s),
    decreases s.len(),
{
    if s.len() == 0 {
        assert(s.take(i) =~= s);
    } else if i == s.len() {
        assert(s.take(i) =~= s);
        lemma_dec_val_take_mono(s.drop_last(), s.len() - 1);
        assert(s.drop_last().take(s.len() - 1) =~= s.drop_last());
        assert(dec_val(s.drop_last()) * 10 >= dec_val(s.drop_last())) by (nonlinear_arith)
            requires dec_val(s.drop_last()) >= 0;
    } else {
        lemma_dec_val_take_mono(s.drop_last(), i);
        assert(s.drop_last().take(i) =~= s.take(i));
        assert(dec_val(s.drop_last()) * 10 >= dec_val(s.drop_last())) by (nonlinear_arith)
            requires dec_val(s.drop_last()) >= 0;
    }
}

/// Decimal digits of `n`, most significant first.
pub fn dec_u64(n: u64) -> (r: Vec<u8>)
    ensures
        r@ == spec_dec_u(n as nat),
    decreases n,
{
    if n < 10 {
        let mut v: Vec<u8> = Vec::new();
        v.push((n as u8) + 0x30);
        assert(v@ =~= spec_dec_u(n as nat));
        v
    } else {
        let mut v = dec_u64(n / 10);
        v.push(((n % 10) as u8) + 0x30);
        assert(v@ =~= spec_dec_u(n as nat));
        v
    }
}

/// Decimal rendering of a signed integer.
pub fn dec_i64(v: i64) -> (r: Vec<u8>)
    ensures
        r@ == spec_dec_i(v as int),
{
    if v >= 0 {
        dec_u64(v as u64)
    } else {
        let mag: u64 = if v == i64::MIN {
            0x8000_0000_0000_0000u64
        } else {
            (-v) as u64
        };
        let mut r: Vec<u8> = Vec::new();
        r.push(0x2D);
        let mut d = dec_u64(mag);
        r.append(&mut d);
        assert(r@ =~= spec_dec_i(v as int));
        r
    }
}

pub fn dec_usize(n: usize) -> (r: Vec<u8>)
    ensures
        r@ == spec_dec_u(n as nat),
{
    dec_u64(n as u64)
}

/// What a decimal line denotes, as far as an `i64` can hold it.
pub enum LineInt {
    /// The line denotes this value.
    Val(i64),
    /// A number above `i64::MAX`.
    PosBig,
    /// A number below `i64::MIN`.
    NegBig,
    /// Not a decimal number at all.
    Invalid,
}

impl LineInt {
    /// How `parse_line_int` classifies the line `s`.
    pub open spec fn describes(self, s: Seq<u8>) -> bool {
        match parse_dec(s) {
            None => self is Invalid,
            Some(v) => {
                if v > i64::MAX {
                    self is PosBig
                } else if v < i64::MIN {
                    self is NegBig
                } else {
                    self == LineInt::Val(v as i64)
                }
            },
        }
    }
}

/// Relates the digit tail of a signed line to what the whole line denotes.
proof fn lemma_digits_whole(s: Seq<u8>, neg: bool, digits: Seq<u8>)
    requires
        s.len() >= 1,
        neg == (s[0] == 0x2D),
        digits == s.skip(if neg { 1int } else { 0int }),
        digits.len() >= 1,
    ensures
        all_digits(digits) ==> parse_dec(s) == Some(
            if neg { -dec_val(digits) } else { dec_val(digits) },
        ),
        !all_digits(digits) ==> parse_dec(s) is None,
{
    if !neg {
        assert(digits =~= s);
    }
}

/// Parse a whole line as a decimal integer.
pub fn parse_line_int(s: &[u8]) -> (r: LineInt)
    ensures
        r.describes(s@),
{
    let n = s.len();
    if n == 0 {
        return LineInt::Invalid;
    }
    let neg = s[0] == 0x2D;
    let start: usize = if neg { 1 } else { 0 };
    if start >= n {
        return LineInt::Invalid;
    }
    let ghost digits = s@.skip(start as int);
    let mut i: usize = start;
    let mut acc: u64 = 0;
    assert(digits.take(0) =~= Seq::<u8>::empty());
    while i < n
        invariant
            start <= i <= n,
            start < n,
            n == s@.len(),
            s@.len() >= 1,
            neg == (s@[0] == 0x2D),
            start == (if neg { 1int } else { 0int }),
            digits == s@.skip(start as int),
            all_digits(digits.take(i - start)),
            acc == dec_val(digits.take(i - start)),
        decreases n - i,
    {
        let b = s[i];
        assert(digits[i - start] == b);
        if b < 0x30 || b > 0x39 {
            proof {
                assert(!is_digit(digits[i - start]));
                lemma_digits_whole(s@, neg, digits);
            }
            return LineInt::Invalid;
        }
        let d = b - 0x30;
        assert(digits.take(i + 1 - start).drop_last() =~= digits.take(i - start));
        assert(digits.take(i + 1 - start).last() == b);
        if acc > (u64::MAX - (d as u64)) / 10 {
            // The digits read so far already denote more than u64::MAX, so
            // the whole line, if it is a number at all, lies far outside
            // the i64 range.
            let rest_ok = all_digits_exec(s, i + 1, n);
            proof {
                let ghost hi = i + 1 - start;
                if rest_ok {
                    assert forall|k: int| 0 <= k < digits.len() implies is_digit(
                        #[trigger] digits[k],
                    ) by {
                        if k < i - start {
                            assert(digits.take(i - start)[k] == digits[k]);
                        } else if k == i - start {
                            assert(digits[k] == b);
                        } else {
                            assert(s@.subrange(i + 1, n as int)[k - hi] == digits[k]);
                        }
                    }
                    assert(dec_val(digits.take(hi)) == acc * 10 + d);
                    assert(acc * 10 + d > u64::MAX) by (nonlinear_arith)
                        requires
                            acc > (u64::MAX - (d as u64)) / 10,
                            0 <= d < 10,
                    ;
                    lemma_dec_val_take_mono(digits, hi);
                    assert(dec_val(digits) > u64::MAX);
                } else {
                    let k = choose|k: int|
                        0 <= k < n - (i + 1) && !is_digit(
                            #[trigger] s@.subrange(i + 1, n as int)[k],
                        );
                    assert(digits[k + hi] == s@.subrange(i + 1, n as int)[k]);
                    assert(!is_digit(digits[k + hi]));
                }
                lemma_digits_whole(s@, neg, digits);
            }
            if rest_ok {
                if neg {
                    return LineInt::NegBig;
                } else {
                    return LineInt::PosBig;
                }
            } else {
                return LineInt::Invalid;
            }
        }
        proof {
            assert(acc * 10 + d <= u64::MAX) by (nonlinear_arith)
                requires
                    acc <= (u64::MAX - (d as u64)) / 10,
                    0 <= d < 10,
            ;
            assert forall|k: int| 0 <= k < i + 1 - start implies is_digit(
                #[trigger] digits.take(i + 1 - start)[k],
            ) by {
                if k < i - start {
                    assert(digits.take(i - start)[k] == digits[k]);
                }
            }
        }
        acc = acc * 10 + (d as u64);
        i = i + 1;
    }
    assert(digits.take(n - start) =~= digits);
    proof {
        lemma_digits_whole(s@, neg, digits);
    }
    if neg {
        if acc <= 0x8000_0000_0000_0000u64 {
            let v: i64 = if acc == 0x8000_0000_0000_0000u64 {
                i64::MIN
            } else {
                -(acc as i64)
            };
            LineInt::Val(v)
        } else {
            LineInt::NegBig
        }
    } else {
        if acc <= i64::MAX as u64 {
            LineInt::Val(acc as i64)
        } else {
            LineInt::PosBig
        }
    }
}

/// What a decimal line denotes, as far as a `u64` can hold it.
pub enum LineU64 {
    /// The line denotes this value.
    Val(u64),
    /// A number above `u64::MAX`.
    Big,
    /// A negative number.
    Neg,
    /// Not a decimal number at all.
    Invalid,
}

impl LineU64 {
    /// How `parse_line_u64` classifies the line `s`.
    pub open spec fn describes(self, s: Seq<u8>) -> bool {
        match parse_dec(s) {
            None => self is Invalid,
            Some(v) => {
                if v < 0 {
                    self is Neg
                } else if v > u64::MAX {
                    self is Big
                } else {
                    self == LineU64::Val(v as u64)
                }
            },
        }
    }
}

/// Parse a whole line as an unsigned decimal integer.
pub fn parse_line_u64(s: &[u8]) -> (r: LineU64)
    ensures
        r.describes(s@),
{
    match parse_line_int(s) {
        LineInt::Val(v) => {
            if v < 0 {
                LineU64::Neg
            } else {
                LineU64::Val(v as u64)
            }
        },
        LineInt::PosBig => {
            // Above i64::MAX: the line is all digits after an optional
            // sign, so decide against u64::MAX with a wider accumulator.
            parse_line_u64_wide(s)
        },
        LineInt::NegBig => LineU64::Neg,
        LineInt::Invalid => LineU64::Invalid,
    }
}

/// Classify a line already known to denote a number above `i64::MAX`.
fn parse_line_u64_wide(s: &[u8]) -> (r: LineU64)
    requires
        parse_dec(s@) matches Some(v) && v > i64::MAX,
    ensures
        r.describes(s@),
{
    let n = s.len();
    let ghost v = parse_dec(s@)->Some_0;
    proof {
        if s@[0] == 0x2D {
            assert(v == -dec_val(s@.skip(1)));
            lemma_dec_val_nonneg(s@.skip(1));
        }
    }
    let ghost digits = s@;
    let mut i: usize = 0;
    let mut acc: u64 = 0;
    assert(digits.take(0) =~= Seq::<u8>::empty());
    while i < n
        invariant
            i <= n,
            n == s@.len(),
            digits == s@,
            all_digits(digits),
            v == dec_val(digits),
            v > i64::MAX,
            acc == dec_val(digits.take(i as int)),
        decreases n - i,
    {
        let b = s[i];
        assert(is_digit(digits[i as int]));
        let d = b - 0x30;
        assert(digits.take(i + 1).drop_last() =~= digits.take(i as int));
        assert(digits.take(i + 1).last() == b);
        if acc > (u64::MAX - (d as u64)) / 10 {
            proof {
                assert(acc * 10 + d > u64::MAX) by (nonlinear_arith)
                    requires
                        acc > (u64::MAX - (d as u64)) / 10,
                        0 <= d < 10,
                ;
                lemma_dec_val_take_mono(digits, i + 1);
            }
            return LineU64::Big;
        }
        proof {
            assert(acc * 10 + d <= u64::MAX) by (nonlinear_arith)
                requires
                    acc <= (u64::MAX - (d as u64)) / 10,
                    0 <= d < 10,
            ;
        }
        acc = acc * 10 + (d as u64);
        i = i + 1;
    }
    assert(digits.take(n as int) =~= digits);
    LineU64::Val(acc)
}

/// A digit string denotes a non-negative value.
pub proof fn lemma_dec_val_nonneg(s: Seq<u8>)
    requires
        all_digits(s),
    ensures
        dec_val(s) >= 0,
{
    lemma_dec_val_take_mono(s, s.len() as int);
    assert(s.take(s.len() as int) =~= s);
}

/// True when every byte of `s[from..to]` is a decimal digit.
fn all_digits_exec(s: &[u8], from: usize, to: usize) -> (r: bool)
    requires
        from <= to <= s@.len(),
    ensures
        r == all_digits(s@.subrange(from as int, to as int)),
{
    let ghost part = s@.subrange(from as int, to as int);
    let mut i: usize = from;
    while i < to
        invariant
            from <= i <= to <= s@.len(),
            part == s@.subrange(from as int, to as int),
            forall|k: int| 0 <= k < i - from ==> is_digit(#[trigger] part[k]),
        decreases to - i,
    {
        let b = s[i];
        if b < 0x30 || b > 0x39 {
            assert(!is_digit(part[i - from]));
            return false;
        }
        i = i + 1;
    }
    true
}

} // verus!
