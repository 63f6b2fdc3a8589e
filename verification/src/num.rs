//! Decimal numerals: the spec-level grammar and value of the numeric fields
//! (unsigned integers, and fixed-point numbers with a given count of fraction
//! digits), verified executable parsers and formatters, and the lemmas that
//! make formatting invert parsing.

use vstd::prelude::*;

use crate::error::{parse_error_at, PDBError};
use crate::text::{
    lemma_strip_all_space, lemma_strip_concat, lemma_strip_no_space, pad_left_spec, push_all,
    space_char, spaces, strip_spaces, string_of, strip_vec, subvec,
};
use vstd::slice::slice_to_vec;

verus! {

/// `c` is a decimal digit.
pub open spec fn is_digit(c: char) -> bool {
    48 <= (c as u32) && (c as u32) <= 57
}

/// The value of a digit character.
pub open spec fn digit_val(c: char) -> int {
    (c as u32) - 48
}

/// The character of a digit value.
pub open spec fn digit_char(d: int) -> char {
    ((48 + d) as u8) as char
}

/// Every character of `s` is a decimal digit.
pub open spec fn all_digits(s: Seq<char>) -> bool {
    forall|i: int| 0 <= i < s.len() ==> is_digit(s[i])
}

/// The value of a digit string, most significant digit first.
pub open spec fn digits_val(s: Seq<char>) -> int
    decreases s.len(),
{
    if s.len() == 0 {
        0
    } else {
        digits_val(s.drop_last()) * 10 + digit_val(s.last())
    }
}

/// Ten to the `k`.
pub open spec fn pow10(k: nat) -> nat
    decreases k,
{
    if k == 0 {
        1
    } else {
        10 * pow10((k - 1) as nat)
    }
}

/// The decimal numeral of `n`, without sign or padding.
pub open spec fn dec_digits(n: nat) -> Seq<char>
    decreases n,
{
    if n < 10 {
        seq![digit_char(n as int)]
    } else {
        dec_digits(n / 10).push(digit_char((n % 10) as int))
    }
}

/// `s` zero-extended on the left to `k` characters.
pub open spec fn pad_zeros(s: Seq<char>, k: nat) -> Seq<char> {
    if s.len() < k {
        Seq::new((k - s.len()) as nat, |i: int| '0') + s
    } else {
        s
    }
}

/// The magnitude of `v`, for numerals.
pub open spec fn abs_val(v: int) -> nat {
    if v < 0 {
        (-v) as nat
    } else {
        v as nat
    }
}

/// The decimal numeral of `v` with its sign.
pub open spec fn int_repr(v: int) -> Seq<char> {
    if v < 0 {
        seq!['-'] + dec_digits((-v) as nat)
    } else {
        dec_digits(v as nat)
    }
}

/// The fixed-point numeral of `v` scaled by `pow10(k)`: sign, integer part,
/// a point, and exactly `k` fraction digits.
pub open spec fn fixed_repr(v: int, k: nat) -> Seq<char> {
    let m = if v < 0 { -v } else { v };
    let sign: Seq<char> = if v < 0 { seq!['-'] } else { Seq::empty() };
    sign + dec_digits((m / pow10(k) as int) as nat) + seq!['.'] + pad_zeros(
        dec_digits((m % pow10(k) as int) as nat),
        k,
    )
}

/// The position of the first point in `u`, or `u.len()` if there is none.
pub open spec fn dot_pos(u: Seq<char>) -> int
    decreases u.len(),
{
    if u.len() == 0 {
        0
    } else if u[0] == '.' {
        0
    } else {
        1 + dot_pos(u.drop_first())
    }
}

/// What an unsigned decimal field holds: blanks are stripped wherever they
/// stand, one leading `+` is allowed, and the digits give the value.
pub open spec fn parse_uint_spec(s: Seq<char>) -> Option<int> {
    let t = strip_spaces(s);
    let u = if t.len() > 0 && t[0] == '+' {
        t.drop_first()
    } else {
        t
    };
    if u.len() > 0 && all_digits(u) {
        Some(digits_val(u))
    } else {
        None
    }
}

/// What a fixed-point decimal field holds, scaled by `pow10(k)`: blanks are
/// stripped, an optional sign is followed by digits around at most one point,
/// fraction digits beyond the `k` kept are discarded, and a magnitude beyond
/// `i64::MAX` is rejected.
pub open spec fn parse_fixed_spec(s: Seq<char>, k: nat) -> Option<int> {
    let t = strip_spaces(s);
    if t.len() == 0 {
        None
    } else {
        let neg = t[0] == '-';
        let u = if t[0] == '-' || t[0] == '+' {
            t.drop_first()
        } else {
            t
        };
        let d = dot_pos(u);
        let ipart = u.take(d);
        let fpart = if d == u.len() {
            Seq::<char>::empty()
        } else {
            u.subrange(d + 1, u.len() as int)
        };
        if all_digits(ipart) && all_digits(fpart) && ipart.len() + fpart.len() > 0 {
            let keep = if fpart.len() < k {
                fpart.len() as int
            } else {
                k as int
            };
            let ftr = fpart.take(keep);
            let m = digits_val(ipart) * pow10(k) + digits_val(ftr) * pow10((k - keep) as nat);
            if m <= i64::MAX {
                Some(if neg { -m } else { m })
            } else {
                None
            }
        } else {
            None
        }
    }
}

/// A digit string has a non-negative value.
pub proof fn lemma_digits_val_nonneg(s: Seq<char>)
    requires
        all_digits(s),
    ensures
        digits_val(s) >= 0,
    decreases s.len(),
{
    if s.len() > 0 {
        lemma_digits_val_nonneg(s.drop_last());
    }
}

/// A digit string of `n` characters has a value below ten to the `n`.
pub proof fn lemma_digits_val_bound(s: Seq<char>)
    requires
        all_digits(s),
    ensures
        digits_val(s) < pow10(s.len()),
    decreases s.len(),
{
    if s.len() > 0 {
        lemma_digits_val_bound(s.drop_last());
        lemma_digits_val_nonneg(s.drop_last());
        assert(digits_val(s.drop_last()) * 10 + digit_val(s.last()) < pow10(s.len())) by (nonlinear_arith)
            requires
                digits_val(s.drop_last()) < pow10((s.len() - 1) as nat),
                digits_val(s.drop_last()) >= 0,
                digit_val(s.last()) <= 9,
                pow10(s.len()) == 10 * pow10((s.len() - 1) as nat),
        {
        }
    }
}

/// The value of concatenated digit strings.
pub proof fn lemma_digits_val_concat(a: Seq<char>, b: Seq<char>)
    ensures
        digits_val(a + b) == digits_val(a) * pow10(b.len()) + digits_val(b),
    decreases b.len(),
{
    if b.len() == 0 {
        assert(a + b =~= a);
        assert(digits_val(b) == 0);
        assert(pow10(b.len()) == 1);
        assert(digits_val(a) * 1 == digits_val(a)) by (nonlinear_arith);
    } else {
        assert((a + b).drop_last() =~= a + b.drop_last());
        assert((a + b).last() == b.last());
        lemma_digits_val_concat(a, b.drop_last());
        assert((digits_val(a) * pow10((b.len() - 1) as nat) + digits_val(b.drop_last())) * 10
            + digit_val(b.last()) == digits_val(a) * pow10(b.len()) + digits_val(b))
            by (nonlinear_arith)
            requires
                pow10(b.len()) == 10 * pow10((b.len() - 1) as nat),
                digits_val(b) == digits_val(b.drop_last()) * 10 + digit_val(b.last()),
        {
        }
    }
}

/// Leading zeros do not change the value of a digit string.
pub proof fn lemma_pad_zeros_val(s: Seq<char>, k: nat)
    requires
        all_digits(s),
    ensures
        all_digits(pad_zeros(s, k)),
        pad_zeros(s, k).len() == if s.len() < k { k as int } else { s.len() as int },
        digits_val(pad_zeros(s, k)) == digits_val(s),
{
    if s.len() < k {
        let z = Seq::new((k - s.len()) as nat, |i: int| '0');
        lemma_digits_val_concat(z, s);
        lemma_zeros_val(z);
    }
}

proof fn lemma_zeros_val(z: Seq<char>)
    requires
        forall|i: int| 0 <= i < z.len() ==> z[i] == '0',
    ensures
        digits_val(z) == 0,
        all_digits(z),
    decreases z.len(),
{
    if z.len() > 0 {
        lemma_zeros_val(z.drop_last());
    }
}

/// The numeral of `n` is all digits and reads back as `n`.
pub proof fn lemma_dec_digits(n: nat)
    ensures
        all_digits(dec_digits(n)),
        digits_val(dec_digits(n)) == n,
        dec_digits(n).len() >= 1,
    decreases n,
{
    if n < 10 {
        let s = dec_digits(n);
        assert(s.drop_last() =~= Seq::<char>::empty());
        assert((((48 + n) as u8) as char) as u32 == 48 + n);
        assert(digit_val(digit_char(n as int)) == n);
        assert(s.last() == digit_char(n as int));
        assert(digits_val(Seq::<char>::empty()) == 0);
        assert(digits_val(s) == digits_val(s.drop_last()) * 10 + digit_val(s.last()));
    } else {
        lemma_dec_digits(n / 10);
        let s = dec_digits(n);
        assert(s.drop_last() =~= dec_digits(n / 10));
        assert((((48 + (n % 10)) as u8) as char) as u32 == 48 + (n % 10));
        assert(digit_val(digit_char((n % 10) as int)) == n % 10);
        assert(digits_val(s) == (n / 10) * 10 + n % 10);
        vstd::arithmetic::div_mod::lemma_fundamental_div_mod(n as int, 10);
    }
}

/// A value below ten to the `k` has a numeral of at most `k` digits.
pub proof fn lemma_dec_digits_len(n: nat, k: nat)
    requires
        n < pow10(k),
        k >= 1,
    ensures
        dec_digits(n).len() <= k,
    decreases n,
{
    if n >= 10 {
        assert(pow10(k) == 10 * pow10((k - 1) as nat));
        assert(n / 10 < pow10((k - 1) as nat)) by (nonlinear_arith)
            requires
                n < 10 * pow10((k - 1) as nat),
        {
        }
        lemma_dec_digits_len(n / 10, (k - 1) as nat);
    }
}

/// Ten to the `k` is positive and monotone in `k`.
pub proof fn lemma_pow10_pos(k: nat)
    ensures
        pow10(k) >= 1,
    decreases k,
{
    if k > 0 {
        lemma_pow10_pos((k - 1) as nat);
    }
}

/// Digits are not blanks, points or signs.
pub proof fn lemma_digit_not_special(c: char)
    requires
        is_digit(c),
    ensures
        !space_char(c),
        c != '.',
        c != '-',
        c != '+',
{
}

/// The first point of a digit string followed by a point stands right after
/// the digits.
pub proof fn lemma_dot_pos_concat(i: Seq<char>, rest: Seq<char>)
    requires
        all_digits(i),
        rest.len() > 0,
        rest[0] == '.',
    ensures
        dot_pos(i + rest) == i.len(),
    decreases i.len(),
{
    if i.len() == 0 {
        assert(i + rest =~= rest);
    } else {
        assert((i + rest)[0] == i[0]);
        lemma_digit_not_special(i[0]);
        assert((i + rest).drop_first() =~= i.drop_first() + rest);
        lemma_dot_pos_concat(i.drop_first(), rest);
    }
}

/// A digit string has no point, so its first point stands at its end.
pub proof fn lemma_dot_pos_all_digits(u: Seq<char>)
    requires
        all_digits(u),
    ensures
        dot_pos(u) == u.len(),
    decreases u.len(),
{
    if u.len() > 0 {
        lemma_digit_not_special(u[0]);
        lemma_dot_pos_all_digits(u.drop_first());
    }
}

/// Where the first point of `u` stands: no point before it, a point at it if
/// it is not the end.
pub proof fn lemma_dot_pos_bounds(u: Seq<char>)
    ensures
        0 <= dot_pos(u) <= u.len(),
        forall|j: int| 0 <= j < dot_pos(u) ==> u[j] != '.',
        dot_pos(u) < u.len() ==> u[dot_pos(u)] == '.',
    decreases u.len(),
{
    if u.len() > 0 && u[0] != '.' {
        lemma_dot_pos_bounds(u.drop_first());
        assert(forall|j: int|
            1 <= j < dot_pos(u) ==> u[j] == u.drop_first()[j - 1] && u.drop_first()[j - 1] != '.');
    }
}

/// The index that the first-point characterization picks is `dot_pos`.
pub proof fn lemma_dot_pos_unique(u: Seq<char>, i: int)
    requires
        0 <= i <= u.len(),
        forall|j: int| 0 <= j < i ==> u[j] != '.',
        i < u.len() ==> u[i] == '.',
    ensures
        dot_pos(u) == i,
{
    lemma_dot_pos_bounds(u);
    if dot_pos(u) < i {
        assert(u[dot_pos(u)] == '.');
    } else if i < dot_pos(u) {
        assert(u[i] != '.');
    }
}

/// Whether `c` is a decimal digit, decided executably.
pub fn is_digit_char(c: char) -> (r: bool)
    ensures
        r == is_digit(c),
{
    let u = c as u32;
    48 <= u && u <= 57
}

/// Every character of `v` is a decimal digit, decided executably.
pub fn all_digits_vec(v: &Vec<char>) -> (r: bool)
    ensures
        r == all_digits(v@),
{
    let mut i: usize = 0;
    while i < v.len()
        invariant
            i <= v@.len(),
            forall|k: int| 0 <= k < i ==> is_digit(v@[k]),
        decreases v@.len() - i,
    {
        if !is_digit_char(v[i]) {
            return false;
        }
        i = i + 1;
    }
    true
}

/// A decode failure for line `line` carrying the offending text.
pub fn decode_failure(line: usize, raw: &Vec<char>) -> (r: PDBError)
    ensures
        parse_error_at(r, line as int),
{
    PDBError::ParseError(line, string_of(raw))
}

/// The field parses and its value fits a `usize`.
pub open spec fn uint_in_range(s: Seq<char>) -> bool {
    match parse_uint_spec(s) {
        Some(n) => n <= usize::MAX,
        None => false,
    }
}

/// Parses a decimal-integer field: blanks stripped, digits read, overflow of
/// `usize` rejected. Errors carry the given 1-based line number.
#[verifier::loop_isolation(false)]
pub fn parse_usize(input: &[char], line_number: usize) -> (r: Result<usize, PDBError>)
    ensures
        r is Ok <==> uint_in_range(input@),
        r matches Ok(v) ==> parse_uint_spec(input@) == Some(v as int),
        r matches Err(e) ==> parse_error_at(e, line_number as int),
{
    let raw = slice_to_vec(input);
    let t = strip_vec(&raw);
    proof {
        assert(t@ == strip_spaces(input@));
    }
    let start: usize = if t.len() > 0 && t[0] == '+' {
        1
    } else {
        0
    };
    let u = subvec(&t, start, t.len());
    proof {
        if t@.len() > 0 && t@[0] == '+' {
            assert(u@ =~= t@.drop_first());
        } else {
            assert(u@ =~= t@);
        }
    }
    if u.len() == 0 {
        return Err(decode_failure(line_number, &raw));
    }
    let mut val: usize = 0;
    let mut i: usize = 0;
    while i < u.len()
        invariant
            i <= u@.len(),
            u@.len() > 0,
            all_digits(u@.take(i as int)),
            val == digits_val(u@.take(i as int)),
        decreases u@.len() - i,
    {
        let c = u[i];
        if !is_digit_char(c) {
            proof {
                assert(!all_digits(u@));
            }
            return Err(decode_failure(line_number, &raw));
        }
        let d: usize = ((c as u32) - 48) as usize;
        proof {
            assert(u@.take(i + 1).drop_last() =~= u@.take(i as int));
            assert(u@.take(i + 1).last() == u@[i as int]);
        }
        if val > (usize::MAX - d) / 10 {
            proof {
                lemma_digits_val_nonneg(u@.take(i as int));
                assert(val * 10 + d > usize::MAX) by (nonlinear_arith)
                    requires
                        val > (usize::MAX - d) / 10,
                        0 <= d <= 9,
                        val >= 0,
                {
                }
                assert(digit_val(u@[i as int]) == d);
                assert(digits_val(u@.take(i + 1)) == val * 10 + d);
                if all_digits(u@) {
                    lemma_digits_val_prefix(u@, i + 1);
                    assert(digits_val(u@) > usize::MAX);
                }
                assert(!uint_in_range(input@));
            }
            return Err(decode_failure(line_number, &raw));
        }
        proof {
            assert(val * 10 + d <= usize::MAX) by (nonlinear_arith)
                requires
                    val <= (usize::MAX - d) / 10,
                    0 <= d <= 9,
                    val >= 0,
            {
            }
        }
        val = val * 10 + d;
        i = i + 1;
    }
    proof {
        assert(u@.take(u@.len() as int) =~= u@);
    }
    Ok(val)
}

/// Ten to the `k`, executably.
pub fn pow10_u64(k: usize) -> (r: u64)
    requires
        k <= 9,
    ensures
        r == pow10(k as nat),
{
    let mut r: u64 = 1;
    let mut i: usize = 0;
    proof {
        lemma_pow10_9();
        lemma_pow10_mono(i as nat, 9);
    }
    while i < k
        invariant
            i <= k <= 9,
            r == pow10(i as nat),
            r <= pow10(9),
            pow10(9) == 1000000000,
        decreases k - i,
    {
        proof {
            lemma_pow10_mono((i + 1) as nat, 9);
        }
        r = r * 10;
        i = i + 1;
    }
    r
}

/// Ten to each small exponent, concretely.
pub proof fn lemma_pow10_9()
    ensures
        pow10(0) == 1,
        pow10(1) == 10,
        pow10(2) == 100,
        pow10(3) == 1000,
        pow10(4) == 10000,
        pow10(5) == 100000,
        pow10(6) == 1000000,
        pow10(7) == 10000000,
        pow10(8) == 100000000,
        pow10(9) == 1000000000,
{
    assert(pow10(0) == 1);
    assert(pow10(1) == 10);
    assert(pow10(2) == 100);
    assert(pow10(3) == 1000);
    assert(pow10(4) == 10000);
    assert(pow10(5) == 100000);
    assert(pow10(6) == 1000000);
    assert(pow10(7) == 10000000);
    assert(pow10(8) == 100000000);
    assert(pow10(9) == 1000000000);
}

/// Ten to the `k` grows with `k`.
pub proof fn lemma_pow10_mono(a: nat, b: nat)
    requires
        a <= b,
    ensures
        pow10(a) <= pow10(b),
    decreases b,
{
    if a < b {
        lemma_pow10_mono(a, (b - 1) as nat);
        lemma_pow10_pos((b - 1) as nat);
    }
}

/// Ten to a sum is the product of the powers.
pub proof fn lemma_pow10_add(a: nat, b: nat)
    ensures
        pow10(a + b) == pow10(a) * pow10(b),
    decreases a,
{
    if a == 0 {
        assert(pow10(a) == 1);
        assert(pow10(a + b) == pow10(b));
        assert(1 * pow10(b) == pow10(b)) by (nonlinear_arith);
    } else {
        lemma_pow10_add((a - 1) as nat, b);
        assert(pow10(a + b) == 10 * pow10((a - 1) as nat + b));
        assert(pow10(a) == 10 * pow10((a - 1) as nat));
        assert(10 * (pow10((a - 1) as nat) * pow10(b)) == (10 * pow10((a - 1) as nat)) * pow10(b))
            by (nonlinear_arith);
        assert(pow10(a + b) == (10 * pow10((a - 1) as nat)) * pow10(b));
    }
}

/// Parses a fixed-point decimal field scaled by `pow10(frac)`: blanks
/// stripped, optional sign, digits around at most one point; fraction digits
/// beyond `frac` are discarded; a magnitude beyond `i64::MAX` is rejected.
/// Errors carry the given 1-based line number.
#[verifier::rlimit(100)]
#[verifier::spinoff_prover]
#[verifier::loop_isolation(false)]
pub fn parse_fixed(input: &[char], frac: usize, line_number: usize) -> (r: Result<i64, PDBError>)
    requires
        frac <= 9,
    ensures
        r is Ok <==> parse_fixed_spec(input@, frac as nat) is Some,
        r matches Ok(v) ==> parse_fixed_spec(input@, frac as nat) == Some(v as int),
        r matches Err(e) ==> parse_error_at(e, line_number as int),
{
    let raw = slice_to_vec(input);
    let t = strip_vec(&raw);
    proof {
        assert(t@ == strip_spaces(input@));
    }
    if t.len() == 0 {
        return Err(decode_failure(line_number, &raw));
    }
    let neg = t[0] == '-';
    let start: usize = if t[0] == '-' || t[0] == '+' {
        1
    } else {
        0
    };
    let u = subvec(&t, start, t.len());
    proof {
        if t@[0] == '-' || t@[0] == '+' {
            assert(u@ =~= t@.drop_first());
        } else {
            assert(u@ =~= t@);
        }
    }
    // find the first point
    let mut d: usize = 0;
    while d < u.len() && u[d] != '.'
        invariant
            d <= u@.len(),
            forall|j: int| 0 <= j < d ==> u@[j] != '.',
        decreases u@.len() - d,
    {
        d = d + 1;
    }
    proof {
        lemma_dot_pos_unique(u@, d as int);
    }
    let ipart = subvec(&u, 0, d);
    let fpart = if d == u.len() {
        Vec::<char>::new()
    } else {
        subvec(&u, d + 1, u.len())
    };
    proof {
        assert(ipart@ =~= u@.take(d as int));
        if d == u@.len() {
            assert(fpart@ =~= Seq::<char>::empty());
        }
    }
    if !all_digits_vec(&ipart) || !all_digits_vec(&fpart) {
        return Err(decode_failure(line_number, &raw));
    }
    if ipart.len() == 0 && fpart.len() == 0 {
        return Err(decode_failure(line_number, &raw));
    }
    let maxi: u64 = 9223372036854775807;
    proof {
        assert(maxi == i64::MAX);
    }
    // integer part
    let mut ival: u64 = 0;
    let mut i: usize = 0;
    while i < ipart.len()
        invariant
            i <= ipart@.len(),
            all_digits(ipart@),
            ival == digits_val(ipart@.take(i as int)),
            ival <= maxi,
            maxi == i64::MAX,
        decreases ipart@.len() - i,
    {
        let c = ipart[i];
        proof {
            assert(is_digit(ipart@[i as int]));
        }
        let dv: u64 = ((c as u32) - 48) as u64;
        proof {
            assert(ipart@.take(i + 1).drop_last() =~= ipart@.take(i as int));
            assert(ipart@.take(i + 1).last() == ipart@[i as int]);
        }
        if ival > (maxi - dv) / 10 {
            proof {
                lemma_digits_val_nonneg(ipart@.take(i as int));
                assert(ival * 10 + dv > maxi) by (nonlinear_arith)
                    requires
                        ival > (maxi - dv) / 10,
                        0 <= dv <= 9,
                        ival >= 0,
                {
                }
                assert(digit_val(ipart@[i as int]) == dv);
                assert(digits_val(ipart@.take(i + 1)) == ival * 10 + dv);
                lemma_digits_val_prefix(ipart@, i + 1);
                assert(digits_val(ipart@) > maxi);
                assert(digits_val(u@.take(d as int)) == digits_val(ipart@));
                lemma_pow10_pos(frac as nat);
                assert(digits_val(u@.take(d as int)) * pow10(frac as nat) > maxi)
                    by (nonlinear_arith)
                    requires
                        digits_val(u@.take(d as int)) > maxi,
                        maxi >= 0,
                        pow10(frac as nat) >= 1,
                {
                }
                lemma_fixed_overflow(u@, d as int, frac as nat, i64::MAX as int);
            }
            return Err(decode_failure(line_number, &raw));
        }
        proof {
            assert(ival * 10 + dv <= maxi) by (nonlinear_arith)
                requires
                    ival <= (maxi - dv) / 10,
                    0 <= dv <= 9,
                    ival >= 0,
            {
            }
        }
        ival = ival * 10 + dv;
        i = i + 1;
    }
    proof {
        assert(ipart@.take(ipart@.len() as int) =~= ipart@);
    }
    let scale = pow10_u64(frac);
    proof {
        lemma_pow10_pos(frac as nat);
    }
    if ival > maxi / scale {
        proof {
            assert(ival * pow10(frac as nat) > maxi) by (nonlinear_arith)
                requires
                    ival > maxi / scale,
                    scale == pow10(frac as nat),
                    scale >= 1,
                    maxi >= 0,
                    ival >= 0,
            {
            }
            lemma_fixed_overflow(u@, d as int, frac as nat, i64::MAX as int);
        }
        return Err(decode_failure(line_number, &raw));
    }
    proof {
        assert(ival * scale <= maxi) by (nonlinear_arith)
            requires
                ival <= maxi / scale,
                scale >= 1,
                maxi >= 0,
                ival >= 0,
        {
        }
    }
    let m1: u64 = ival * scale;
    // fraction part, truncated to `frac` digits
    let keep: usize = if fpart.len() < frac {
        fpart.len()
    } else {
        frac
    };
    let ftr = subvec(&fpart, 0, keep);
    let mut fv: u64 = 0;
    let mut j: usize = 0;
    proof {
        lemma_pow10_9();
    }
    while j < ftr.len()
        invariant
            j <= ftr@.len() <= 9,
            all_digits(ftr@),
            fv == digits_val(ftr@.take(j as int)),
            fv < pow10(j as nat),
            pow10(9) == 1000000000,
        decreases ftr@.len() - j,
    {
        let c = ftr[j];
        proof {
            assert(is_digit(ftr@[j as int]));
        }
        let dv: u64 = ((c as u32) - 48) as u64;
        proof {
            assert(ftr@.take(j + 1).drop_last() =~= ftr@.take(j as int));
            assert(ftr@.take(j + 1).last() == ftr@[j as int]);
            lemma_pow10_mono((j + 1) as nat, 9);
            assert(fv * 10 + dv < pow10((j + 1) as nat)) by (nonlinear_arith)
                requires
                    fv < pow10(j as nat),
                    0 <= dv <= 9,
                    pow10((j + 1) as nat) == 10 * pow10(j as nat),
            {
            }
        }
        fv = fv * 10 + dv;
        j = j + 1;
    }
    proof {
        assert(ftr@.take(ftr@.len() as int) =~= ftr@);
        lemma_pow10_mono(ftr@.len(), 9);
    }
    let fmul = pow10_u64(frac - keep);
    proof {
        lemma_pow10_add(keep as nat, (frac - keep) as nat);
        lemma_pow10_pos((frac - keep) as nat);
        lemma_digits_val_bound(ftr@);
        lemma_pow10_mono(frac as nat, 9);
        assert(fv * fmul < pow10(frac as nat)) by (nonlinear_arith)
            requires
                fv < pow10(keep as nat),
                fv >= 0,
                fmul == pow10((frac - keep) as nat),
                fmul >= 1,
                pow10(frac as nat) == pow10(keep as nat) * pow10((frac - keep) as nat),
        {
        }
    }
    let fadd: u64 = fv * fmul;
    if m1 > maxi - fadd {
        return Err(decode_failure(line_number, &raw));
    }
    let m: u64 = m1 + fadd;
    if neg {
        Ok(-(m as i64))
    } else {
        Ok(m as i64)
    }
}

/// When the scaled integer digits alone already exceed the bound, the whole
/// fixed-point value does.
proof fn lemma_fixed_overflow(u: Seq<char>, d: int, k: nat, bound: int)
    requires
        0 <= d <= u.len(),
        all_digits(u.take(d)),
        digits_val(u.take(d)) * pow10(k) > bound,
        bound >= 0,
    ensures
        ({
            let fpart = if d == u.len() {
                Seq::<char>::empty()
            } else {
                u.subrange(d + 1, u.len() as int)
            };
            let keep = if fpart.len() < k {
                fpart.len() as int
            } else {
                k as int
            };
            all_digits(fpart) ==> digits_val(u.take(d)) * pow10(k) + digits_val(fpart.take(keep))
                * pow10((k - keep) as nat) > bound
        }),
{
    let ipart = u.take(d);
    let fpart = if d == u.len() {
        Seq::<char>::empty()
    } else {
        u.subrange(d + 1, u.len() as int)
    };
    let keep = if fpart.len() < k {
        fpart.len() as int
    } else {
        k as int
    };
    if all_digits(fpart) {
        assert(all_digits(fpart.take(keep)));
        lemma_digits_val_nonneg(fpart.take(keep));
        lemma_pow10_pos(k);
        lemma_pow10_pos((k - keep) as nat);
        assert(digits_val(fpart.take(keep)) * pow10((k - keep) as nat) >= 0) by (nonlinear_arith)
            requires
                digits_val(fpart.take(keep)) >= 0,
                pow10((k - keep) as nat) >= 1,
        {
        }
    }
}

/// The character of a digit value, executably.
pub fn digit_to_char(d: u8) -> (r: char)
    requires
        d <= 9,
    ensures
        r == digit_char(d as int),
{
    (48 + d) as char
}

/// The decimal numeral of `n`.
pub fn fmt_u64(n: u64) -> (r: Vec<char>)
    ensures
        r@ == dec_digits(n as nat),
    decreases n,
{
    if n < 10 {
        let mut v: Vec<char> = Vec::new();
        v.push(digit_to_char(n as u8));
        proof {
            assert(v@ =~= dec_digits(n as nat));
        }
        v
    } else {
        let mut v = fmt_u64(n / 10);
        v.push(digit_to_char((n % 10) as u8));
        v
    }
}

/// The decimal numeral of `n`.
pub fn fmt_usize(n: usize) -> (r: Vec<char>)
    ensures
        r@ == dec_digits(n as nat),
{
    fmt_u64(n as u64)
}

/// Appends `n` zero digits to `out`.
pub fn push_zeros(out: &mut Vec<char>, n: usize)
    ensures
        final(out)@ == old(out)@ + Seq::new(n as nat, |i: int| '0'),
{
    let mut i: usize = 0;
    while i < n
        invariant
            i <= n,
            out@ == old(out)@ + Seq::new(i as nat, |x: int| '0'),
        decreases n - i,
    {
        out.push('0');
        i = i + 1;
        proof {
            assert(out@ =~= old(out)@ + Seq::new(i as nat, |x: int| '0'));
        }
    }
}

/// The fixed-point numeral of `v` scaled by `pow10(frac)`: sign, integer
/// part, point, and exactly `frac` fraction digits.
#[verifier::loop_isolation(false)]
pub fn fmt_fixed(v: i64, frac: usize) -> (r: Vec<char>)
    requires
        1 <= frac <= 9,
    ensures
        r@ == fixed_repr(v as int, frac as nat),
{
    let m: u64 = if v >= 0 {
        v as u64
    } else {
        (-(v as i128)) as u64
    };
    proof {
        assert(m == if (v as int) < 0 {
            -(v as int)
        } else {
            v as int
        });
    }
    let scale = pow10_u64(frac);
    proof {
        lemma_pow10_pos(frac as nat);
    }
    let ip = m / scale;
    let rem = m % scale;
    let mut out: Vec<char> = Vec::new();
    if v < 0 {
        out.push('-');
    }
    let ipd = fmt_u64(ip);
    push_all(&mut out, &ipd);
    out.push('.');
    let fd = fmt_u64(rem);
    proof {
        lemma_dec_digits_len(rem as nat, frac as nat);
    }
    push_zeros(&mut out, frac - fd.len());
    push_all(&mut out, &fd);
    proof {
        assert(out@ =~= fixed_repr(v as int, frac as nat));
    }
    out
}

/// The signed decimal numeral of `v`.
pub fn fmt_isize(v: isize) -> (r: Vec<char>)
    ensures
        r@ == int_repr(v as int),
{
    let m: u64 = if v >= 0 {
        v as u64
    } else {
        (-(v as i128)) as u64
    };
    let mut out: Vec<char> = Vec::new();
    if v < 0 {
        out.push('-');
    }
    let d = fmt_u64(m);
    push_all(&mut out, &d);
    proof {
        assert(out@ =~= int_repr(v as int));
    }
    out
}

/// No character of a numeral is a blank.
pub proof fn lemma_digits_no_space(s: Seq<char>)
    requires
        all_digits(s),
    ensures
        forall|i: int| 0 <= i < s.len() ==> !space_char(s[i]),
{
    assert forall|i: int| 0 <= i < s.len() implies !space_char(s[i]) by {
        lemma_digit_not_special(s[i]);
    }
}

/// Right-justifying the numeral of `n` in any field and parsing the field
/// back yields `n`.
pub proof fn lemma_parse_uint_of_repr(n: nat, w: nat)
    requires
        n <= usize::MAX,
    ensures
        parse_uint_spec(pad_left_spec(dec_digits(n), w)) == Some(n as int),
        uint_in_range(pad_left_spec(dec_digits(n), w)),
{
    let dgs = dec_digits(n);
    lemma_dec_digits(n);
    lemma_digits_no_space(dgs);
    lemma_strip_no_space(dgs);
    if dgs.len() < w {
        let sp = spaces((w - dgs.len()) as nat);
        lemma_strip_concat(sp, dgs);
        lemma_strip_all_space(sp);
        assert(Seq::<char>::empty() + dgs =~= dgs);
    }
    assert(strip_spaces(pad_left_spec(dgs, w)) == dgs);
    lemma_digit_not_special(dgs[0]);
}

/// A sequence without blanks, right-justified in any field, strips back to
/// itself.
proof fn lemma_strip_pad_left(s: Seq<char>, w: nat)
    requires
        forall|i: int| 0 <= i < s.len() ==> !space_char(s[i]),
    ensures
        strip_spaces(pad_left_spec(s, w)) == s,
{
    lemma_strip_no_space(s);
    if s.len() < w {
        let sp = spaces((w - s.len()) as nat);
        lemma_strip_concat(sp, s);
        lemma_strip_all_space(sp);
        assert(Seq::<char>::empty() + s =~= s);
    }
}

/// No character of a fixed-point numeral is a blank.
proof fn lemma_fixed_repr_no_space(v: int, k: nat)
    ensures
        forall|i: int| 0 <= i < fixed_repr(v, k).len() ==> !space_char(fixed_repr(v, k)[i]),
{
    let m = if v < 0 {
        -v
    } else {
        v
    };
    let p = pow10(k) as int;
    let ipd = dec_digits((m / p) as nat);
    let fpd0 = dec_digits((m % p) as nat);
    let fpd = pad_zeros(fpd0, k);
    lemma_dec_digits((m / p) as nat);
    lemma_dec_digits((m % p) as nat);
    lemma_pad_zeros_val(fpd0, k);
    let repr = fixed_repr(v, k);
    assert forall|i: int| 0 <= i < repr.len() implies !space_char(repr[i]) by {
        let c = repr[i];
        assert(c == '-' || c == '.' || is_digit(c));
    }
}

/// Right-justifying the fixed-point numeral of `v` in any field and parsing
/// the field back yields `v`.
#[verifier::rlimit(100)]
#[verifier::spinoff_prover]
pub proof fn lemma_parse_fixed_of_repr(v: int, k: nat, w: nat)
    requires
        -(i64::MAX as int) <= v <= i64::MAX as int,
        1 <= k,
    ensures
        parse_fixed_spec(pad_left_spec(fixed_repr(v, k), w), k) == Some(v),
{
    let m = if v < 0 {
        -v
    } else {
        v
    };
    let p = pow10(k) as int;
    lemma_pow10_pos(k);
    vstd::arithmetic::div_mod::lemma_fundamental_div_mod(m, p);
    vstd::arithmetic::div_mod::lemma_mod_bound(m, p);
    vstd::arithmetic::div_mod::lemma_div_pos_is_pos(m, p);
    let ipd = dec_digits((m / p) as nat);
    let fpd0 = dec_digits((m % p) as nat);
    let fpd = pad_zeros(fpd0, k);
    lemma_dec_digits((m / p) as nat);
    lemma_dec_digits((m % p) as nat);
    lemma_dec_digits_len((m % p) as nat, k);
    lemma_pad_zeros_val(fpd0, k);
    assert(fpd.len() == k);
    let sign: Seq<char> = if v < 0 {
        seq!['-']
    } else {
        Seq::empty()
    };
    let repr = fixed_repr(v, k);
    assert(repr == sign + ipd + seq!['.'] + fpd);
    lemma_fixed_repr_no_space(v, k);
    lemma_strip_pad_left(repr, w);
    let padded = pad_left_spec(repr, w);
    assert(strip_spaces(padded) == repr);
    // sign handling
    let t = repr;
    let u = if v < 0 {
        t.drop_first()
    } else {
        t
    };
    assert(u =~= ipd + (seq!['.'] + fpd));
    if v >= 0 {
        lemma_digit_not_special(t[0]);
        assert(t[0] != '-' && t[0] != '+');
    } else {
        assert(t[0] == '-');
    }
    // the first point ends the integer digits
    lemma_dot_pos_concat(ipd, seq!['.'] + fpd);
    let d = dot_pos(u);
    assert(d == ipd.len());
    assert(u.take(d) =~= ipd);
    assert(u.len() == ipd.len() + 1 + k);
    assert(u.subrange(d + 1, u.len() as int) =~= fpd);
    assert(fpd.take(k as int) =~= fpd);
    // the value comes back
    lemma_digits_val_nonneg(ipd);
    assert(digits_val(ipd) * pow10(k) + digits_val(fpd) * pow10(0) == m) by (nonlinear_arith)
        requires
            digits_val(ipd) == m / p,
            digits_val(fpd) == m % p,
            pow10(0) == 1,
            p == pow10(k),
            m == p * (m / p) + (m % p),
    {
    }
}

/// The value of a digit-string prefix never exceeds the whole string's value.
pub proof fn lemma_digits_val_prefix(s: Seq<char>, j: int)
    requires
        all_digits(s),
        0 <= j <= s.len(),
    ensures
        digits_val(s.take(j)) <= digits_val(s),
{
    assert(s =~= s.take(j) + s.skip(j));
    lemma_digits_val_concat(s.take(j), s.skip(j));
    lemma_digits_val_nonneg(s.skip(j));
    lemma_digits_val_nonneg(s.take(j));
    lemma_pow10_pos(s.skip(j).len());
    assert(digits_val(s.take(j)) * pow10(s.skip(j).len()) >= digits_val(s.take(j)))
        by (nonlinear_arith)
        requires
            digits_val(s.take(j)) >= 0,
            pow10(s.skip(j).len()) >= 1,
    {
    }
}

} // verus!
