use std::str::FromStr;
use vstd::prelude::*;

verus! {

/// Number of fractional digits of a `Decimal`.
pub const DECIMAL_PLACES: u32 = 18;

/// A non-negative fixed-point decimal with eighteen fractional digits:
/// its value is `atomics / 10^18`.
#[derive(Clone, Copy, Debug, PartialEq, Eq, Structural)]
pub struct Decimal {
    pub atomics: u128,
}

/// Error kinds of the oracle.
#[derive(Clone, Copy, Debug, PartialEq, Eq, Structural)]
pub enum OracleError {
    /// The asset is not registered.
    NotFound,
    /// The asset is registered already.
    DuplicateAsset,
    /// The upstream price source failed or answered with a malformed payload.
    UpstreamQueryFailed,
    /// A malformed argument, such as a numeric string that does not parse.
    InvalidArgument,
}

pub open spec fn pow10(k: nat) -> nat
    decreases k,
{
    if k == 0 {
        1
    } else {
        10 * pow10((k - 1) as nat)
    }
}

pub open spec fn digit_char(n: nat) -> char {
    if n == 0 { '0' }
    else if n == 1 { '1' }
    else if n == 2 { '2' }
    else if n == 3 { '3' }
    else if n == 4 { '4' }
    else if n == 5 { '5' }
    else if n == 6 { '6' }
    else if n == 7 { '7' }
    else if n == 8 { '8' }
    else { '9' }
}

pub open spec fn is_digit(c: char) -> bool {
    '0' <= c && c <= '9'
}

pub open spec fn char_value(c: char) -> nat {
    (c as u32 - '0' as u32) as nat
}

pub open spec fn all_digits(s: Seq<char>) -> bool {
    forall|i: int| 0 <= i < s.len() ==> is_digit(#[trigger] s[i])
}

/// The decimal digits of `n`, most significant first, without leading zeros.
pub open spec fn digits(n: nat) -> Seq<char>
    decreases n,
{
    if n < 10 {
        seq![digit_char(n)]
    } else {
        digits(n / 10).push(digit_char(n % 10))
    }
}

/// The number that a string of decimal digits denotes.
pub open spec fn value_of(s: Seq<char>) -> nat
    decreases s.len(),
{
    if s.len() == 0 {
        0
    } else {
        value_of(s.drop_last()) * 10 + char_value(s.last())
    }
}

pub open spec fn zeros(k: nat) -> Seq<char> {
    Seq::new(k, |i: int| '0')
}

/// The text of `raw / 10^d` with exactly `d` fractional digits.
pub open spec fn fixed_point_text(raw: nat, d: nat) -> Seq<char> {
    let t = digits(raw);
    if t.len() > d {
        t.subrange(0, t.len() - d) + seq!['.'] + t.subrange(t.len() - d, t.len() as int)
    } else {
        seq!['0', '.'] + zeros((d - t.len()) as nat) + t
    }
}

/// A text made of a non-empty whole part, a dot and `d` fractional digits.
pub open spec fn is_fixed_point_text(s: Seq<char>, d: nat) -> bool {
    &&& s.len() >= d + 2
    &&& s[s.len() - d - 1] == '.'
    &&& all_digits(s.subrange(0, s.len() - d - 1))
    &&& all_digits(s.subrange(s.len() - d, s.len() as int))
}

/// The integer that a fixed-point text with `d` fractional digits stands for
/// once multiplied by `10^d`.
pub open spec fn fixed_point_value(s: Seq<char>, d: nat) -> nat {
    value_of(s.subrange(0, s.len() - d - 1)) * pow10(d) + value_of(
        s.subrange(s.len() - d, s.len() as int),
    )
}

/// The atomics of the decimal written `whole.frac`, with `frac` of at most
/// eighteen digits.
pub open spec fn decimal_atomics(whole: Seq<char>, frac: Seq<char>) -> nat {
    value_of(whole) * pow10(DECIMAL_PLACES as nat) + value_of(frac) * pow10(
        (DECIMAL_PLACES - frac.len()) as nat,
    )
}

pub open spec fn decimal_parts(whole: Seq<char>, frac: Seq<char>) -> bool {
    &&& whole.len() > 0
    &&& frac.len() > 0
    &&& frac.len() <= DECIMAL_PLACES
    &&& all_digits(whole)
    &&& all_digits(frac)
}

/// Index of the last dot of `s`, or -1.
pub open spec fn last_dot(s: Seq<char>) -> int
    decreases s.len(),
{
    if s.len() == 0 {
        -1
    } else if s.last() == '.' {
        s.len() - 1
    } else {
        last_dot(s.drop_last())
    }
}

/// `s` is the text `whole.frac` of a decimal in range.
pub open spec fn is_decimal_text(s: Seq<char>) -> bool {
    let k = last_dot(s);
    &&& k >= 0
    &&& decimal_parts(s.subrange(0, k), s.subrange(k + 1, s.len() as int))
    &&& decimal_text_atomics(s) <= u128::MAX
}

pub open spec fn decimal_text_atomics(s: Seq<char>) -> nat {
    let k = last_dot(s);
    decimal_atomics(s.subrange(0, k), s.subrange(k + 1, s.len() as int))
}

proof fn lemma_last_dot(s: Seq<char>, k: int)
    requires
        0 <= k < s.len(),
        s[k] == '.',
        all_digits(s.subrange(k + 1, s.len() as int)),
    ensures
        last_dot(s) == k,
    decreases s.len(),
{
    if k < s.len() - 1 {
        assert(s.subrange(k + 1, s.len() as int)[s.len() - k - 2] == s.last());
        assert(s.drop_last().subrange(k + 1, s.len() - 1) =~= s.subrange(k + 1, s.len() - 1));
        lemma_all_digits_split(s.subrange(k + 1, s.len() as int), 0, s.len() - k - 2);
        assert(s.subrange(k + 1, s.len() as int).subrange(0, s.len() - k - 2) =~= s.subrange(
            k + 1,
            s.len() - 1,
        ));
        lemma_last_dot(s.drop_last(), k);
    }
}

pub proof fn lemma_digit_char(n: nat)
    requires
        n < 10,
    ensures
        is_digit(digit_char(n)),
        char_value(digit_char(n)) == n,
{
}

pub proof fn lemma_digits(n: nat)
    ensures
        all_digits(digits(n)),
        value_of(digits(n)) == n,
        digits(n).len() >= 1,
    decreases n,
{
    if n < 10 {
        lemma_digit_char(n);
        assert(digits(n).drop_last() =~= Seq::<char>::empty());
        assert(value_of(digits(n)) == value_of(Seq::<char>::empty()) * 10 + char_value(
            digit_char(n),
        ));
    } else {
        lemma_digits(n / 10);
        lemma_digit_char(n % 10);
        let t = digits(n);
        assert(t.drop_last() =~= digits(n / 10));
        assert(t.last() == digit_char(n % 10));
        assert(value_of(t) == value_of(digits(n / 10)) * 10 + char_value(digit_char(n % 10)));
        assert(n == (n / 10) * 10 + n % 10);
        assert forall|i: int| 0 <= i < t.len() implies is_digit(#[trigger] t[i]) by {
            if i < t.len() - 1 {
                assert(t[i] == digits(n / 10)[i]);
            }
        }
    }
}

pub proof fn lemma_value_of_append(a: Seq<char>, b: Seq<char>)
    ensures
        value_of(a + b) == value_of(a) * pow10(b.len()) + value_of(b),
    decreases b.len(),
{
    if b.len() == 0 {
        assert(a + b =~= a);
        assert(pow10(0) == 1);
        assert(value_of(a) * 1 == value_of(a));
    } else {
        lemma_value_of_append(a, b.drop_last());
        assert((a + b).drop_last() =~= a + b.drop_last());
        assert((a + b).last() == b.last());
        let p = pow10((b.len() - 1) as nat);
        assert(pow10(b.len()) == 10 * p);
        assert(value_of(b) == value_of(b.drop_last()) * 10 + char_value(b.last()));
        assert(value_of(a + b) == value_of(a + b.drop_last()) * 10 + char_value(b.last()));
        assert(value_of(a) * (10 * p) == (value_of(a) * p) * 10) by (nonlinear_arith);
        assert((value_of(a) * p + value_of(b.drop_last())) * 10 == value_of(a) * p * 10
            + value_of(b.drop_last()) * 10) by (nonlinear_arith);
    }
}

pub proof fn lemma_value_of_zeros(k: nat)
    ensures
        value_of(zeros(k)) == 0,
        all_digits(zeros(k)),
    decreases k,
{
    if k > 0 {
        assert(zeros(k).drop_last() =~= zeros((k - 1) as nat));
        lemma_value_of_zeros((k - 1) as nat);
    }
}

pub proof fn lemma_all_digits_split(a: Seq<char>, lo: int, hi: int)
    requires
        all_digits(a),
        0 <= lo <= hi <= a.len(),
    ensures
        all_digits(a.subrange(lo, hi)),
{
    assert forall|i: int| 0 <= i < hi - lo implies is_digit(#[trigger] a.subrange(lo, hi)[i]) by {
        assert(a.subrange(lo, hi)[i] == a[lo + i]);
    }
}

/// Normalizing `raw` at scale `d` and reading the text back, multiplied by
/// `10^d`, gives `raw` again; the text is a well-formed fixed-point text.
pub proof fn lemma_fixed_point_round_trip(raw: nat, d: nat)
    ensures
        is_fixed_point_text(fixed_point_text(raw, d), d),
        fixed_point_value(fixed_point_text(raw, d), d) == raw,
{
    let t = digits(raw);
    lemma_digits(raw);
    let s = fixed_point_text(raw, d);
    if t.len() > d {
        let w = t.subrange(0, t.len() - d);
        let f = t.subrange(t.len() - d, t.len() as int);
        assert(s.subrange(0, s.len() - d - 1) =~= w);
        assert(s.subrange(s.len() - d, s.len() as int) =~= f);
        assert(t =~= w + f);
        lemma_value_of_append(w, f);
        lemma_all_digits_split(t, 0, t.len() - d);
        lemma_all_digits_split(t, t.len() - d, t.len() as int);
    } else {
        let z = zeros((d - t.len()) as nat);
        lemma_value_of_zeros((d - t.len()) as nat);
        assert(s.subrange(0, s.len() - d - 1) =~= seq!['0']);
        assert(s.subrange(s.len() - d, s.len() as int) =~= z + t);
        lemma_value_of_append(z, t);
        assert(seq!['0'].drop_last() =~= Seq::<char>::empty());
        assert(value_of(seq!['0']) == value_of(Seq::<char>::empty()) * 10 + char_value('0'));
        assert(value_of(seq!['0']) == 0);
        assert(all_digits(seq!['0']));
        assert forall|i: int| 0 <= i < (z + t).len() implies is_digit(#[trigger] (z + t)[i]) by {
            if i < z.len() {
                assert((z + t)[i] == z[i]);
            } else {
                assert((z + t)[i] == t[i - z.len()]);
            }
        }
    }
}

fn digit_to_char(n: u128) -> (c: char)
    requires
        n < 10,
    ensures
        c == digit_char(n as nat),
{
    if n == 0 { '0' }
    else if n == 1 { '1' }
    else if n == 2 { '2' }
    else if n == 3 { '3' }
    else if n == 4 { '4' }
    else if n == 5 { '5' }
    else if n == 6 { '6' }
    else if n == 7 { '7' }
    else if n == 8 { '8' }
    else { '9' }
}

/// Appends the decimal digits of `n` to `out`.
fn push_digits(n: u128, out: &mut Vec<char>)
    ensures
        final(out)@ == old(out)@ + digits(n as nat),
    decreases n,
{
    if n >= 10 {
        push_digits(n / 10, out);
    }
    out.push(digit_to_char(n % 10));
    proof {
        if n < 10 {
            assert(final(out)@ =~= old(out)@ + digits(n as nat));
        } else {
            assert(final(out)@ =~= old(out)@ + digits(n as nat));
        }
    }
}

/// Relies on std's `FromIterator<char>` for `String`: the string holds the
/// characters in order.
#[verifier::external_body]
fn chars_to_string(v: &Vec<char>) -> (r: String)
    ensures
        r@ == v@,
{
    v.iter().collect()
}

/// Relies on `cosmwasm_std::Decimal::from_str` (and `Decimal::atomics`): a
/// text `whole.frac` of digits, with one to eighteen fractional digits and a
/// value in range, parses to the decimal with those atomics.
#[verifier::external_body]
fn decimal_from_str(s: &str) -> (r: Result<Decimal, OracleError>)
    ensures
        is_decimal_text(s@) ==> r is Ok && r->Ok_0.atomics == decimal_text_atomics(s@),
{
    match cosmwasm_std::Decimal::from_str(s) {
        Ok(d) => Ok(Decimal { atomics: d.atomics().u128() }),
        Err(_) => Err(OracleError::InvalidArgument),
    }
}

/// Writes the integer `raw`, understood as a value times `10^implicit_scale_digits`,
/// as an exact decimal text with `implicit_scale_digits` fractional digits.
pub fn normalize_fixed_point(raw: u128, implicit_scale_digits: u32) -> (r: String)
    ensures
        r@ == fixed_point_text(raw as nat, implicit_scale_digits as nat),
{
    let mut t: Vec<char> = Vec::new();
    push_digits(raw, &mut t);
    assert(t@ =~= digits(raw as nat));
    proof {
        lemma_digits(raw as nat);
    }
    let len: usize = t.len();
    let d: usize = implicit_scale_digits as usize;
    let mut out: Vec<char> = Vec::new();
    if len > d {
        let dot: usize = len - d;
        let mut i: usize = 0;
        while i < dot
            invariant
                i <= dot,
                dot == len - d,
                len == t@.len(),
                out@ =~= t@.subrange(0, i as int),
            decreases dot - i,
        {
            out.push(t[i]);
            i = i + 1;
        }
        out.push('.');
        while i < len
            invariant
                dot <= i <= len,
                dot == len - d,
                len == t@.len(),
                out@ =~= t@.subrange(0, dot as int) + seq!['.'] + t@.subrange(dot as int, i as int),
            decreases len - i,
        {
            out.push(t[i]);
            i = i + 1;
        }
    } else {
        out.push('0');
        out.push('.');
        let pad: usize = d - len;
        let mut i: usize = 0;
        while i < pad
            invariant
                i <= pad,
                out@ =~= seq!['0', '.'] + zeros(i as nat),
            decreases pad - i,
        {
            out.push('0');
            i = i + 1;
        }
        let mut j: usize = 0;
        while j < len
            invariant
                j <= len,
                len == t@.len(),
                out@ =~= seq!['0', '.'] + zeros(pad as nat) + t@.subrange(0, j as int),
            decreases len - j,
        {
            out.push(t[j]);
            j = j + 1;
        }
    }
    chars_to_string(&out)
}

/// Reads an integer that holds a price multiplied by `10^18` as a `Decimal`;
/// the text is built digit by digit, so no intermediate value can overflow.
pub fn parse_band_rate(uint_rate: u128) -> (r: Result<Decimal, OracleError>)
    ensures
        r is Ok,
        r->Ok_0.atomics == uint_rate,
{
    let text = normalize_fixed_point(uint_rate, DECIMAL_PLACES);
    let r = decimal_from_str(text.as_str());
    proof {
        let s = text@;
        let d: nat = DECIMAL_PLACES as nat;
        lemma_fixed_point_round_trip(uint_rate as nat, d);
        let w = s.subrange(0, s.len() - d - 1);
        let f = s.subrange(s.len() - d, s.len() as int);
        assert(s =~= w + seq!['.'] + f);
        assert(f.len() == 18);
        assert(pow10(0) == 1);
        assert(value_of(f) * pow10(0) == value_of(f));
        assert(decimal_atomics(w, f) == fixed_point_value(s, d));
        assert(decimal_parts(w, f));
        lemma_last_dot(s, s.len() - d - 1);
    }
    r
}

} // verus!
