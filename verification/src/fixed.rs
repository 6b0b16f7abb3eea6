//! Fixed-point decimal parsing and formatting.
//!
//! A textual decimal — optional sign, integer digits, optional fractional
//! part — is converted to a signed 64-bit integer equal to the value scaled
//! by `10^dp`, truncating fractional digits beyond `dp` toward zero and
//! zero-padding missing ones.  Prices use `dp = 2` (ticks), quantities
//! `dp = 3` (lots).

use vstd::prelude::*;
use vstd::string::StringSliceAdditionalSpecFns;

verus! {

/// Holds of ASCII decimal digit bytes.
pub open spec fn spec_is_digit(c: u8) -> bool {
    48 <= c <= 57
}

/// The value of a most-significant-first decimal digit string.
pub open spec fn spec_digits_val(s: Seq<u8>) -> int
    decreases s.len(),
{
    if s.len() == 0 {
        0
    } else {
        spec_digits_val(s.drop_last()) * 10 + (s.last() - 48)
    }
}

/// `10^n`.
pub open spec fn spec_pow10(n: nat) -> int
    decreases n,
{
    if n == 0 {
        1
    } else {
        10 * spec_pow10((n - 1) as nat)
    }
}

/// Length of the optional leading minus sign.
pub open spec fn spec_sign_len(s: Seq<u8>) -> int {
    if s.len() > 0 && s[0] == 45 {
        1
    } else {
        0
    }
}

/// Index of the first occurrence of `ch` at or after `from`, or the length
/// of `s` when there is none.
pub open spec fn spec_find_from(s: Seq<u8>, from: int, ch: u8) -> int
    decreases s.len() - from,
{
    if from < 0 || from >= s.len() {
        s.len() as int
    } else if s[from] == ch {
        from
    } else {
        spec_find_from(s, from + 1, ch)
    }
}

/// Holds of byte strings shaped `-?[0-9]+(\.[0-9]*)?`.
pub open spec fn spec_decimal_grammar(s: Seq<u8>) -> bool {
    let sl = spec_sign_len(s);
    let dot = spec_find_from(s, sl, 46);
    &&& dot > sl
    &&& forall|k: int| sl <= k < dot ==> spec_is_digit(s[k])
    &&& forall|k: int| dot < k < s.len() ==> spec_is_digit(s[k])
}

/// Number of fractional digits of `s` that contribute to the scaled value:
/// at most `dp`, at most what is written.
pub open spec fn spec_frac_taken(s: Seq<u8>, dp: nat) -> int {
    let dot = spec_find_from(s, spec_sign_len(s), 46);
    if dot >= s.len() {
        0
    } else if s.len() - (dot + 1) <= dp {
        s.len() - (dot + 1)
    } else {
        dp as int
    }
}

/// The magnitude of a decimal string scaled by `10^dp` and truncated toward
/// zero: the integer digits shifted by `dp` places, plus the first `dp`
/// fractional digits padded with zeros on the right.
pub open spec fn spec_fixed_mag(s: Seq<u8>, dp: nat) -> int {
    let sl = spec_sign_len(s);
    let dot = spec_find_from(s, sl, 46);
    let taken = spec_frac_taken(s, dp);
    let frac_start = if dot < s.len() {
        dot + 1
    } else {
        s.len() as int
    };
    spec_digits_val(s.subrange(sl, dot)) * spec_pow10(dp) + spec_digits_val(
        s.subrange(frac_start, frac_start + taken),
    ) * spec_pow10((dp - taken) as nat)
}

/// The signed scaled value of a decimal string: the truncation toward zero
/// of `value(s) * 10^dp`.
pub open spec fn spec_fixed_val(s: Seq<u8>, dp: nat) -> int {
    if spec_sign_len(s) == 1 {
        -spec_fixed_mag(s, dp)
    } else {
        spec_fixed_mag(s, dp)
    }
}

proof fn lemma_pow10_pos(n: nat)
    ensures
        spec_pow10(n) >= 1,
    decreases n,
{
    if n > 0 {
        lemma_pow10_pos((n - 1) as nat);
    }
}

proof fn lemma_digits_val_nonneg(s: Seq<u8>)
    requires
        forall|k: int| 0 <= k < s.len() ==> spec_is_digit(s[k]),
    ensures
        spec_digits_val(s) >= 0,
    decreases s.len(),
{
    if s.len() > 0 {
        lemma_digits_val_nonneg(s.drop_last());
    }
}

/// Extending a digit string on the right can only grow its value.
proof fn lemma_digits_val_extend_le(s: Seq<u8>, i: int, j: int, k: int)
    requires
        0 <= i <= j <= k <= s.len(),
        forall|m: int| i <= m < k ==> spec_is_digit(s[m]),
    ensures
        spec_digits_val(s.subrange(i, j)) <= spec_digits_val(s.subrange(i, k)),
        spec_digits_val(s.subrange(i, j)) >= 0,
    decreases k - j,
{
    lemma_digits_val_nonneg(s.subrange(i, j));
    if j < k {
        assert(s.subrange(i, j + 1).drop_last() =~= s.subrange(i, j));
        lemma_digits_val_extend_le(s, i, j + 1, k);
    }
}

/// `10^n` for the exponents that fit a signed 64-bit result.
pub fn pow10(n: u32) -> (r: i64)
    requires
        n <= 18,
    ensures
        r == spec_pow10(n as nat),
{
    proof {
        lemma_pow10_18();
    }
    let mut r: i64 = 1;
    let mut k: u32 = 0;
    while k < n
        invariant
            k <= n <= 18,
            r == spec_pow10(k as nat),
        decreases n - k,
    {
        proof {
            lemma_pow10_pos(k as nat);
            lemma_pow10_le(k as nat + 1, 18);
            lemma_pow10_18();
        }
        r = r * 10;
        k = k + 1;
    }
    r
}

proof fn lemma_pow10_le(m: nat, n: nat)
    requires
        m <= n,
    ensures
        spec_pow10(m) <= spec_pow10(n),
    decreases n - m,
{
    lemma_pow10_pos(m);
    if m < n {
        lemma_pow10_le(m, (n - 1) as nat);
        lemma_pow10_pos((n - 1) as nat);
    }
}

proof fn lemma_pow10_18()
    ensures
        spec_pow10(18) == 1_000_000_000_000_000_000,
{
    reveal_with_fuel(spec_pow10, 20);
    assert(spec_pow10(18) == 1_000_000_000_000_000_000);
}

/// Parses a decimal byte string into a fixed-point integer: the value scaled
/// by `10^dp`, truncated toward zero.
pub fn parse_fixed_dp_bytes(b: &[u8], dp: u32) -> (r: i64)
    requires
        dp <= 18,
        spec_decimal_grammar(b@),
        spec_fixed_mag(b@, dp as nat) <= i64::MAX,
    ensures
        r == spec_fixed_val(b@, dp as nat),
{
    let ghost gdp = dp as nat;
    let len = b.len();
    proof {
        lemma_pow10_pos(gdp);
    }

    let mut start: usize = 0;
    let mut negative = false;
    if len > 0 && b[0] == 45 {
        negative = true;
        start = 1;
    }
    assert(start == spec_sign_len(b@));

    // Find the dot that separates the integer and fractional digits.
    let mut dot: usize = start;
    while dot < len && b[dot] != 46
        invariant
            start <= dot <= len == b@.len(),
            forall|k: int| start <= k < dot ==> b@[k] != 46,
        decreases len - dot,
    {
        dot = dot + 1;
    }
    proof {
        lemma_find_from_unique(b@, start as int, 46, dot as int);
    }
    let ghost sdot = dot as int;
    let ghost int_digits = b@.subrange(start as int, sdot);
    let ghost mag = spec_fixed_mag(b@, gdp);

    // Accumulate the integer digits.
    let mut int_part: i64 = 0;
    let mut i: usize = start;
    while i < dot
        invariant
            start <= i <= dot <= len == b@.len(),
            dp <= 18,
            sdot == dot,
            spec_decimal_grammar(b@),
            start == spec_sign_len(b@),
            sdot == spec_find_from(b@, start as int, 46),
            mag == spec_fixed_mag(b@, gdp),
            mag <= i64::MAX,
            gdp == dp as nat,
            int_part == spec_digits_val(b@.subrange(start as int, i as int)),
        decreases dot - i,
    {
        proof {
            lemma_digits_val_extend_le(b@, start as int, i as int + 1, sdot);
            lemma_step_bound(b@, gdp, i as int);
            assert(b@.subrange(start as int, i as int + 1).drop_last() =~= b@.subrange(
                start as int,
                i as int,
            ));
        }
        let c = b[i];
        int_part = int_part * 10 + (c - 48) as i64;
        i = i + 1;
    }

    // Accumulate up to `dp` fractional digits, then zero-pad to `dp`.
    let frac_start = if dot < len {
        dot + 1
    } else {
        len
    };
    let ghost staken = spec_frac_taken(b@, gdp);
    let mut frac: i64 = 0;
    let mut got: u32 = 0;
    let mut j: usize = frac_start;
    while j < len && got < dp
        invariant
            frac_start <= j <= len == b@.len(),
            frac_start == if sdot < len { sdot + 1 } else { len as int },
            got == j - frac_start,
            got <= dp <= 18,
            sdot == spec_find_from(b@, start as int, 46),
            start == spec_sign_len(b@),
            spec_decimal_grammar(b@),
            mag == spec_fixed_mag(b@, gdp),
            mag <= i64::MAX,
            gdp == dp as nat,
            staken == spec_frac_taken(b@, gdp),
            frac == spec_digits_val(b@.subrange(frac_start as int, j as int)),
            frac >= 0,
        decreases len - j,
    {
        proof {
            assert(frac_start as int == spec_frac_start(b@));
            assert(j + 1 <= frac_start as int + staken);
            assert(spec_is_digit(b@[j as int]));
            lemma_frac_bound(b@, gdp, j as int + 1);
            assert(b@.subrange(frac_start as int, j as int + 1).drop_last() =~= b@.subrange(
                frac_start as int,
                j as int,
            ));
        }
        let c = b[j];
        frac = frac * 10 + (c - 48) as i64;
        got = got + 1;
        j = j + 1;
    }
    let ghost fv = spec_digits_val(b@.subrange(spec_frac_start(b@), spec_frac_start(b@) + staken));
    proof {
        assert(frac_start as int == spec_frac_start(b@));
        assert(j as int - frac_start as int == staken);
        lemma_frac_scaled_nonneg(b@, gdp);
        lemma_frac_scaled_bound(b@, gdp);
        lemma_int_times_pow_bound(b@, gdp);
        assert(spec_pow10(0) == 1);
        assert(b@.subrange(spec_frac_start(b@), spec_frac_start(b@) + staken) =~= b@.subrange(
            frac_start as int,
            j as int,
        ));
        assert(frac == fv);
        assert(frac == fv * spec_pow10((got - staken) as nat));
        assert(frac * spec_pow10((dp - got) as nat) == fv * spec_pow10((gdp - staken) as nat));
    }
    while got < dp
        invariant
            got <= dp <= 18,
            gdp == dp as nat,
            staken == spec_frac_taken(b@, gdp),
            staken <= got,
            mag == spec_fixed_mag(b@, gdp),
            0 <= mag <= i64::MAX,
            fv == spec_digits_val(
                b@.subrange(spec_frac_start(b@), spec_frac_start(b@) + staken),
            ),
            frac == fv * spec_pow10((got - staken) as nat),
            frac * spec_pow10((dp - got) as nat) <= mag,
            frac >= 0,
        decreases dp - got,
    {
        proof {
            lemma_pow10_pos((dp - got - 1) as nat);
            lemma_pow10_pos((got - staken) as nat);
            assert(spec_pow10((dp - got) as nat) == 10 * spec_pow10((dp - got - 1) as nat));
            assert(spec_pow10((got + 1 - staken) as nat) == 10 * spec_pow10(
                (got - staken) as nat,
            ));
            assert(frac * 10 <= mag && (frac * 10) * spec_pow10((dp - got - 1) as nat) <= mag)
                by (nonlinear_arith)
                requires
                    frac >= 0,
                    mag >= 0,
                    frac * spec_pow10((dp - got) as nat) <= mag,
                    spec_pow10((dp - got) as nat) == 10 * spec_pow10((dp - got - 1) as nat),
                    spec_pow10((dp - got - 1) as nat) >= 1,
            ;
            assert(frac * 10 == fv * spec_pow10((got + 1 - staken) as nat)) by (nonlinear_arith)
                requires
                    frac == fv * spec_pow10((got - staken) as nat),
                    spec_pow10((got + 1 - staken) as nat) == 10 * spec_pow10(
                        (got - staken) as nat,
                    ),
            ;
        }
        frac = frac * 10;
        got = got + 1;
    }

    proof {
        lemma_int_times_pow_bound(b@, gdp);
    }
    let scaled = int_part * pow10(dp) + frac;
    if negative {
        -scaled
    } else {
        scaled
    }
}

/// Byte offset of the first fractional digit, or the length when there is no
/// fractional part.
pub open spec fn spec_frac_start(s: Seq<u8>) -> int {
    let dot = spec_find_from(s, spec_sign_len(s), 46);
    if dot < s.len() {
        dot + 1
    } else {
        s.len() as int
    }
}

/// A scan that stops at the first `ch` lands exactly on `spec_find_from`.
pub proof fn lemma_find_from_unique(s: Seq<u8>, from: int, ch: u8, at: int)
    requires
        0 <= from <= at <= s.len(),
        forall|k: int| from <= k < at ==> s[k] != ch,
        at < s.len() ==> s[at] == ch,
    ensures
        spec_find_from(s, from, ch) == at,
    decreases at - from,
{
    if from < at {
        lemma_find_from_unique(s, from + 1, ch, at);
    }
}

/// Every partial integer accumulation stays below the full magnitude.
proof fn lemma_step_bound(s: Seq<u8>, dp: nat, i: int)
    requires
        spec_decimal_grammar(s),
        spec_sign_len(s) <= i < spec_find_from(s, spec_sign_len(s), 46),
    ensures
        spec_digits_val(s.subrange(spec_sign_len(s), i + 1)) <= spec_fixed_mag(s, dp),
{
    let sl = spec_sign_len(s);
    let dot = spec_find_from(s, sl, 46);
    lemma_find_from_bounds(s, sl, 46);
    lemma_digits_val_extend_le(s, sl, i + 1, dot);
    lemma_pow10_pos(dp);
    let iv = spec_digits_val(s.subrange(sl, dot));
    assert(iv <= iv * spec_pow10(dp)) by (nonlinear_arith)
        requires
            iv >= 0,
            spec_pow10(dp) >= 1,
    ;
    lemma_frac_scaled_nonneg(s, dp);
}

pub proof fn lemma_find_from_bounds(s: Seq<u8>, from: int, ch: u8)
    requires
        0 <= from <= s.len(),
    ensures
        from <= spec_find_from(s, from, ch) <= s.len(),
    decreases s.len() - from,
{
    if from < s.len() && s[from] != ch {
        lemma_find_from_bounds(s, from + 1, ch);
    }
}

/// The fractional contribution to the magnitude is nonnegative.
proof fn lemma_frac_scaled_nonneg(s: Seq<u8>, dp: nat)
    requires
        spec_decimal_grammar(s),
    ensures
        spec_digits_val(s.subrange(spec_frac_start(s), spec_frac_start(s) + spec_frac_taken(s, dp)))
            * spec_pow10((dp - spec_frac_taken(s, dp)) as nat) >= 0,
        0 <= spec_frac_taken(s, dp) <= dp,
        spec_frac_start(s) + spec_frac_taken(s, dp) <= s.len(),
{
    let sl = spec_sign_len(s);
    let dot = spec_find_from(s, sl, 46);
    lemma_find_from_bounds(s, sl, 46);
    let fs = spec_frac_start(s);
    let taken = spec_frac_taken(s, dp);
    lemma_digits_val_extend_le(s, fs, fs + taken, s.len() as int);
    lemma_pow10_pos((dp - taken) as nat);
    let fv = spec_digits_val(s.subrange(fs, fs + taken));
    assert(fv * spec_pow10((dp - taken) as nat) >= 0) by (nonlinear_arith)
        requires
            fv >= 0,
            spec_pow10((dp - taken) as nat) >= 1,
    ;
}

/// Every partial fractional accumulation stays below the full magnitude.
proof fn lemma_frac_bound(s: Seq<u8>, dp: nat, j: int)
    requires
        spec_decimal_grammar(s),
        spec_frac_start(s) <= j <= spec_frac_start(s) + spec_frac_taken(s, dp),
    ensures
        spec_digits_val(s.subrange(spec_frac_start(s), j)) <= spec_fixed_mag(s, dp),
{
    let sl = spec_sign_len(s);
    let dot = spec_find_from(s, sl, 46);
    lemma_find_from_bounds(s, sl, 46);
    let fs = spec_frac_start(s);
    let taken = spec_frac_taken(s, dp);
    lemma_digits_val_extend_le(s, fs, j, fs + taken);
    let pv = spec_digits_val(s.subrange(fs, j));
    let fv = spec_digits_val(s.subrange(fs, fs + taken));
    lemma_pow10_pos((dp - taken) as nat);
    assert(fv <= fv * spec_pow10((dp - taken) as nat)) by (nonlinear_arith)
        requires
            fv >= 0,
            spec_pow10((dp - taken) as nat) >= 1,
    ;
    lemma_digits_val_extend_le(s, sl, sl, dot);
    let iv = spec_digits_val(s.subrange(sl, dot));
    lemma_pow10_pos(dp);
    assert(iv * spec_pow10(dp) >= 0) by (nonlinear_arith)
        requires
            iv >= 0,
            spec_pow10(dp) >= 1,
    ;
}

/// The fractional digits scaled to `dp` places stay below the magnitude.
proof fn lemma_frac_scaled_bound(s: Seq<u8>, dp: nat)
    requires
        spec_decimal_grammar(s),
    ensures
        spec_digits_val(s.subrange(spec_frac_start(s), spec_frac_start(s) + spec_frac_taken(s, dp)))
            * spec_pow10((dp - spec_frac_taken(s, dp)) as nat) <= spec_fixed_mag(s, dp),
{
    let sl = spec_sign_len(s);
    let dot = spec_find_from(s, sl, 46);
    lemma_find_from_bounds(s, sl, 46);
    lemma_digits_val_extend_le(s, sl, sl, dot);
    let iv = spec_digits_val(s.subrange(sl, dot));
    lemma_pow10_pos(dp);
    assert(iv * spec_pow10(dp) >= 0) by (nonlinear_arith)
        requires
            iv >= 0,
            spec_pow10(dp) >= 1,
    ;
}

/// The shifted integer digits stay below the magnitude.
proof fn lemma_int_times_pow_bound(s: Seq<u8>, dp: nat)
    requires
        spec_decimal_grammar(s),
    ensures
        0 <= spec_digits_val(s.subrange(spec_sign_len(s), spec_find_from(s, spec_sign_len(s), 46)))
            * spec_pow10(dp) <= spec_fixed_mag(s, dp),
        spec_fixed_mag(s, dp) >= 0,
{
    let sl = spec_sign_len(s);
    let dot = spec_find_from(s, sl, 46);
    lemma_find_from_bounds(s, sl, 46);
    lemma_digits_val_extend_le(s, sl, sl, dot);
    let iv = spec_digits_val(s.subrange(sl, dot));
    lemma_pow10_pos(dp);
    assert(iv * spec_pow10(dp) >= 0) by (nonlinear_arith)
        requires
            iv >= 0,
            spec_pow10(dp) >= 1,
    ;
    lemma_frac_scaled_nonneg(s, dp);
}

/// Parses a decimal string into a fixed-point integer scaled by `10^dp`.
pub fn parse_fixed_dp(s: &str, dp: u32) -> (r: i64)
    requires
        dp <= 18,
        spec_decimal_grammar(s.spec_bytes()),
        spec_fixed_mag(s.spec_bytes(), dp as nat) <= i64::MAX,
    ensures
        r == spec_fixed_val(s.spec_bytes(), dp as nat),
{
    parse_fixed_dp_bytes(s.as_bytes(), dp)
}

/// Parses a price string with two decimal places into integer ticks.
#[inline(always)]
pub fn parse_px_2dp(s: &str) -> (r: i64)
    requires
        spec_decimal_grammar(s.spec_bytes()),
        spec_fixed_mag(s.spec_bytes(), 2) <= i64::MAX,
    ensures
        r == spec_fixed_val(s.spec_bytes(), 2),
{
    parse_fixed_dp(s, 2)
}

/// Parses a quantity string with three decimal places into integer lots.
#[inline(always)]
pub fn parse_qty_3dp(s: &str) -> (r: i64)
    requires
        spec_decimal_grammar(s.spec_bytes()),
        spec_fixed_mag(s.spec_bytes(), 3) <= i64::MAX,
    ensures
        r == spec_fixed_val(s.spec_bytes(), 3),
{
    parse_fixed_dp(s, 3)
}

/// The value of a least-significant-first decimal digit string.
spec fn spec_digits_val_lsb(s: Seq<u8>) -> int
    decreases s.len(),
{
    if s.len() == 0 {
        0
    } else {
        (s[0] - 48) + 10 * spec_digits_val_lsb(s.drop_first())
    }
}

proof fn lemma_val_lsb_nonneg(s: Seq<u8>)
    requires
        forall|k: int| 0 <= k < s.len() ==> spec_is_digit(s[k]),
    ensures
        spec_digits_val_lsb(s) >= 0,
    decreases s.len(),
{
    if s.len() > 0 {
        lemma_val_lsb_nonneg(s.drop_first());
    }
}

proof fn lemma_val_lsb_push(s: Seq<u8>, d: u8)
    ensures
        spec_digits_val_lsb(s.push(d)) == spec_digits_val_lsb(s) + (d - 48) * spec_pow10(s.len()),
    decreases s.len(),
{
    if s.len() == 0 {
        assert(s.push(d) =~= seq![d]);
        assert(spec_digits_val_lsb(seq![d]) == (d - 48) + 10 * spec_digits_val_lsb(
            seq![d].drop_first(),
        ));
        assert(seq![d].drop_first() =~= Seq::<u8>::empty());
    } else {
        assert(s.push(d).drop_first() =~= s.drop_first().push(d));
        lemma_val_lsb_push(s.drop_first(), d);
        assert(spec_digits_val_lsb(s.push(d)) == (s[0] - 48) + 10 * (spec_digits_val_lsb(
            s.drop_first(),
        ) + (d - 48) * spec_pow10((s.len() - 1) as nat)));
        assert(10 * ((d - 48) * spec_pow10((s.len() - 1) as nat)) == (d - 48) * spec_pow10(
            s.len(),
        )) by (nonlinear_arith)
            requires
                spec_pow10(s.len()) == 10 * spec_pow10((s.len() - 1) as nat),
        ;
    }
}

/// Appends the decimal digits of `v`, most significant first, with no
/// leading zero except for `v == 0` itself.
fn push_u64_decimal(out: &mut Vec<u8>, v: u64)
    ensures
        final(out)@.len() > old(out)@.len(),
        final(out)@.subrange(0, old(out)@.len() as int) == old(out)@,
        forall|k: int|
            old(out)@.len() <= k < final(out)@.len() ==> spec_is_digit(final(out)@[k]),
        spec_digits_val(
            final(out)@.subrange(old(out)@.len() as int, final(out)@.len() as int),
        ) == v,
        v > 0 ==> v >= spec_pow10((final(out)@.len() - old(out)@.len() - 1) as nat),
        v == 0 ==> final(out)@.len() == old(out)@.len() + 1,
{
    let ghost base = out@.len() as int;
    let mut tmp: Vec<u8> = Vec::new();
    if v == 0 {
        tmp.push(48);
    }
    let mut m = v;
    proof {
        assert(spec_pow10(0) == 1);
        if v == 0 {
            assert(tmp@ == Seq::<u8>::empty().push(48u8));
            lemma_val_lsb_push(Seq::<u8>::empty(), 48u8);
            assert(spec_digits_val_lsb(tmp@) == 0);
            assert(spec_pow10(1) == 10);
        }
    }
    while m > 0
        invariant
            v == spec_digits_val_lsb(tmp@) + m * spec_pow10(tmp@.len()),
            forall|k: int| 0 <= k < tmp@.len() ==> spec_is_digit(tmp@[k]),
            v == 0 ==> tmp@.len() == 1 && m == 0,
            v > 0 && m == 0 ==> tmp@.len() >= 1,
            v > 0 && tmp@.len() >= 1 ==> v >= spec_pow10((tmp@.len() - 1) as nat),
            m <= v,
        decreases m,
    {
        let d = (m % 10) as u8 + 48;
        proof {
            lemma_val_lsb_push(tmp@, d);
            lemma_val_lsb_nonneg(tmp@);
            lemma_pow10_pos(tmp@.len());
            assert((m / 10) * spec_pow10(tmp@.len() + 1) + (m % 10) * spec_pow10(tmp@.len()) == m
                * spec_pow10(tmp@.len())) by (nonlinear_arith)
                requires
                    m >= 0,
                    spec_pow10(tmp@.len() + 1) == 10 * spec_pow10(tmp@.len()),
            ;
            assert(m * spec_pow10(tmp@.len()) >= spec_pow10(tmp@.len())) by (nonlinear_arith)
                requires
                    m >= 1,
                    spec_pow10(tmp@.len()) >= 1,
            ;
        }
        tmp.push(d);
        m = m / 10;
    }
    let mut k = tmp.len();
    while k > 0
        invariant
            0 <= k <= tmp@.len(),
            out@.len() == base + (tmp@.len() - k),
            base == old(out)@.len(),
            out@.subrange(0, base) == old(out)@,
            forall|i: int| 0 <= i < tmp@.len() ==> spec_is_digit(tmp@[i]),
            forall|i: int| base <= i < out@.len() ==> spec_is_digit(out@[i]),
            spec_digits_val(out@.subrange(base, out@.len() as int)) == spec_digits_val_lsb(
                tmp@.skip(k as int),
            ),
        decreases k,
    {
        k = k - 1;
        let d = tmp[k];
        proof {
            let e = out@.subrange(base, out@.len() as int);
            assert(out@.push(d).subrange(base, out@.len() as int + 1).drop_last() =~= e);
            assert(tmp@.skip(k as int).drop_first() =~= tmp@.skip(k as int + 1));
            assert(out@.push(d).subrange(0, base) =~= out@.subrange(0, base));
        }
        out.push(d);
    }
    proof {
        assert(tmp@.skip(0) =~= tmp@);
    }
}

/// An all-zeros digit string has value zero.
proof fn lemma_digits_val_all_zeros(s: Seq<u8>)
    requires
        forall|k: int| 0 <= k < s.len() ==> s[k] == 48,
    ensures
        spec_digits_val(s) == 0,
    decreases s.len(),
{
    if s.len() > 0 {
        lemma_digits_val_all_zeros(s.drop_last());
    }
}

/// Splitting a digit string: the prefix is shifted by the suffix's length.
proof fn lemma_digits_val_concat(s: Seq<u8>, mid: int)
    requires
        0 <= mid <= s.len(),
    ensures
        spec_digits_val(s) == spec_digits_val(s.subrange(0, mid)) * spec_pow10(
            (s.len() - mid) as nat,
        ) + spec_digits_val(s.subrange(mid, s.len() as int)),
    decreases s.len() - mid,
{
    if mid == s.len() {
        assert(s.subrange(0, mid) =~= s);
        assert(s.subrange(mid, s.len() as int) =~= Seq::<u8>::empty());
    } else {
        lemma_digits_val_concat(s.drop_last(), mid);
        assert(s.drop_last().subrange(0, mid) =~= s.subrange(0, mid));
        assert(s.drop_last().subrange(mid, s.len() - 1) =~= s.subrange(
            mid,
            s.len() as int,
        ).drop_last());
        let p = spec_digits_val(s.subrange(0, mid));
        let q = spec_pow10((s.len() - 1 - mid) as nat);
        let tail = s.subrange(mid, s.len() as int);
        assert(spec_digits_val(s.drop_last()) == p * q + spec_digits_val(tail.drop_last()));
        assert(spec_digits_val(s) == spec_digits_val(s.drop_last()) * 10 + (s.last() - 48));
        assert(tail.last() == s.last());
        assert(spec_digits_val(tail) == spec_digits_val(tail.drop_last()) * 10 + (tail.last()
            - 48));
        assert((p * q + spec_digits_val(tail.drop_last())) * 10 == p * (10 * q)
            + spec_digits_val(tail.drop_last()) * 10) by (nonlinear_arith);
        assert(spec_pow10((s.len() - mid) as nat) == 10 * q);
    }
}

/// Appends exactly `width` decimal digits for `v`, zero-padded on the left.
fn push_u64_decimal_padded(out: &mut Vec<u8>, v: u64, width: u32)
    requires
        1 <= width <= 18,
        v < spec_pow10(width as nat),
    ensures
        final(out)@.len() == old(out)@.len() + width,
        final(out)@.subrange(0, old(out)@.len() as int) == old(out)@,
        forall|k: int|
            old(out)@.len() <= k < final(out)@.len() ==> spec_is_digit(final(out)@[k]),
        spec_digits_val(
            final(out)@.subrange(old(out)@.len() as int, final(out)@.len() as int),
        ) == v,
{
    let ghost base = out@.len() as int;
    let mut digits: Vec<u8> = Vec::new();
    push_u64_decimal(&mut digits, v);
    proof {
        assert(digits@.subrange(0, digits@.len() as int) =~= digits@);
        if v > 0 && digits@.len() > width {
            lemma_pow10_le(width as nat, (digits@.len() - 1) as nat);
        }
    }
    let ndig = digits.len();
    let mut z: usize = ndig;
    while z < width as usize
        invariant
            ndig <= z <= width,
            out@.len() == base + (z - ndig),
            base == old(out)@.len(),
            out@.subrange(0, base) == old(out)@,
            forall|k: int| base <= k < out@.len() ==> out@[k] == 48,
        decreases width - z,
    {
        proof {
            assert(out@.push(48u8).subrange(0, base) =~= out@.subrange(0, base));
        }
        out.push(48);
        z = z + 1;
    }
    let ghost mid = out@.len() as int;
    let ghost zeros = out@.subrange(base, mid);
    proof {
        lemma_digits_val_all_zeros(zeros);
    }
    let mut idx: usize = 0;
    while idx < digits.len()
        invariant
            0 <= idx <= digits@.len(),
            out@.len() == mid + idx,
            base <= mid <= out@.len(),
            base == old(out)@.len(),
            out@.subrange(0, base) == old(out)@,
            out@.subrange(base, mid) == zeros,
            out@.subrange(mid, out@.len() as int) == digits@.subrange(0, idx as int),
            forall|k: int| 0 <= k < digits@.len() ==> spec_is_digit(digits@[k]),
            forall|k: int| base <= k < mid ==> out@[k] == 48,
        decreases digits@.len() - idx,
    {
        let d = digits[idx];
        proof {
            assert(out@.push(d).subrange(0, base) =~= out@.subrange(0, base));
            assert(out@.push(d).subrange(base, mid) =~= out@.subrange(base, mid));
            assert(out@.push(d).subrange(mid, out@.len() as int + 1) =~= digits@.subrange(
                0,
                idx as int + 1,
            ));
        }
        out.push(d);
        idx = idx + 1;
    }
    proof {
        assert(digits@.subrange(0, digits@.len() as int) =~= digits@);
        let app = out@.subrange(base, out@.len() as int);
        lemma_digits_val_concat(app, mid - base);
        assert(app.subrange(0, mid - base) =~= zeros);
        assert(app.subrange(mid - base, app.len() as int) =~= digits@);
        lemma_digits_val_nonneg(digits@);
        assert(0 * spec_pow10((app.len() - (mid - base)) as nat) == 0) by (nonlinear_arith);
        assert forall|k: int| base <= k < out@.len() implies spec_is_digit(out@[k]) by {
            if k >= mid {
                assert(out@[k] == out@.subrange(mid, out@.len() as int)[k - mid]);
            }
        }
    }
}

/// Formats a fixed-point integer scaled by `10^dp` as a decimal string:
/// sign, integer digits, and — when `dp > 0` — a dot and exactly `dp`
/// fractional digits.  Parsing the result at the same `dp` yields `x` back.
pub fn format_fixed_dp(x: i64, dp: u32) -> (out: Vec<u8>)
    requires
        dp <= 18,
        x > i64::MIN,
    ensures
        spec_decimal_grammar(out@),
        0 <= spec_fixed_mag(out@, dp as nat) <= i64::MAX,
        spec_fixed_val(out@, dp as nat) == x,
{
    let mut out: Vec<u8> = Vec::new();
    let negative = x < 0;
    if negative {
        out.push(45);
    }
    let mag = if x < 0 {
        -x
    } else {
        x
    };
    let p = pow10(dp);
    proof {
        lemma_pow10_pos(dp as nat);
    }
    let int_part = mag / p;
    let frac_part = mag % p;
    proof {
        assert(int_part == mag as int / p as int);
        assert(frac_part == mag as int % p as int);
        vstd::arithmetic::div_mod::lemma_fundamental_div_mod(mag as int, p as int);
        assert(int_part * p == p * int_part) by (nonlinear_arith);
        assert(int_part <= int_part * p) by (nonlinear_arith)
            requires
                int_part >= 0,
                p >= 1,
        ;
    }
    let ghost sl = out@.len() as int;
    let ghost pre = out@;
    push_u64_decimal(&mut out, int_part as u64);
    let ghost int_end = out@.len() as int;
    let ghost after_int = out@;
    let ghost int_digits = out@.subrange(sl, int_end);
    if dp > 0 {
        out.push(46);
        let ghost after_dot = out@;
        push_u64_decimal_padded(&mut out, frac_part as u64, dp);
        proof {
            let s = out@;
            assert(s.subrange(0, int_end + 1) == after_dot);
            assert(after_dot == after_int.push(46));
            assert forall|k: int| 0 <= k <= int_end implies s[k] == after_dot[k] by {
                assert(s.subrange(0, int_end + 1)[k] == s[k]);
            }
            assert(s[int_end] == 46);
            assert(s.subrange(sl, int_end) =~= int_digits);
            if sl == 1 {
                assert(after_int.subrange(0, sl) == pre);
                assert(s[0] == after_dot[0]);
                assert(after_dot[0] == after_int[0]);
                assert(after_int[0] == pre[0]);
                assert(s[0] == 45);
            }
            assert forall|k: int| sl <= k < int_end implies spec_is_digit(s[k]) by {
                assert(s[k] == s.subrange(sl, int_end)[k - sl]);
            }
        }
    }
    proof {
        let s = out@;
        if dp == 0 {
            assert(s == after_int);
            assert(s.subrange(sl, int_end) == int_digits);
            if sl == 1 {
                assert(s.subrange(0, sl) == pre);
                assert(s[0] == pre[0]);
                assert(s[0] == 45);
            }
        }
        lemma_format_shape(s, sl, int_end, int_digits, x as int, mag as int, int_part as int,
            frac_part as int, dp as nat);
    }
    out
}

/// The decomposition argument behind `format_fixed_dp`: a sign, integer
/// digits, and an optional dot with exactly `dp` fractional digits parse
/// back to the formatted value.
proof fn lemma_format_shape(
    s: Seq<u8>,
    sl: int,
    int_end: int,
    int_digits: Seq<u8>,
    x: int,
    mag: int,
    int_part: int,
    frac_part: int,
    dp: nat,
)
    requires
        0 <= sl <= 1,
        sl == 1 ==> s.len() > 0 && s[0] == 45,
        sl == 0 ==> (s.len() == 0 || s[0] != 45),
        sl < int_end <= s.len(),
        int_digits == s.subrange(sl, int_end),
        forall|k: int| sl <= k < int_end ==> spec_is_digit(s[k]),
        spec_digits_val(int_digits) == int_part,
        dp == 0 ==> int_end == s.len(),
        dp > 0 ==> {
            &&& int_end < s.len()
            &&& s[int_end] == 46
            &&& s.len() == int_end + 1 + dp
            &&& forall|k: int| int_end + 1 <= k < s.len() ==> spec_is_digit(s[k])
            &&& spec_digits_val(s.subrange(int_end + 1, s.len() as int)) == frac_part
        },
        dp == 0 ==> frac_part == 0,
        mag == int_part * spec_pow10(dp) + frac_part,
        0 <= mag <= i64::MAX,
        x == if sl == 1 {
            -mag
        } else {
            mag
        },
        0 <= frac_part,
        0 <= int_part,
    ensures
        spec_decimal_grammar(s),
        spec_fixed_mag(s, dp) == mag,
        spec_fixed_val(s, dp) == x,
{
    assert(spec_sign_len(s) == sl);
    lemma_find_from_unique(s, sl, 46, int_end);
    assert(spec_find_from(s, sl, 46) == int_end);
    if dp > 0 {
        assert(spec_frac_taken(s, dp) == dp);
        assert(spec_frac_start(s) == int_end + 1);
        assert(spec_pow10((dp - dp) as nat) == 1);
        assert(spec_fixed_mag(s, dp) == spec_digits_val(s.subrange(sl, int_end)) * spec_pow10(dp)
            + spec_digits_val(s.subrange(int_end + 1, s.len() as int)));
    } else {
        assert(spec_frac_taken(s, dp) == 0);
        let fs = spec_frac_start(s);
        assert(s.subrange(fs, fs) =~= Seq::<u8>::empty());
    }
}

/// A digit string's value is below one shifted past its length.
proof fn lemma_digits_val_upper(s: Seq<u8>)
    requires
        forall|k: int| 0 <= k < s.len() ==> spec_is_digit(s[k]),
    ensures
        spec_digits_val(s) < spec_pow10(s.len()),
    decreases s.len(),
{
    if s.len() == 0 {
    } else {
        lemma_digits_val_upper(s.drop_last());
        assert(spec_pow10(s.len()) == 10 * spec_pow10((s.len() - 1) as nat));
    }
}

/// Powers of ten multiply by adding exponents.
proof fn lemma_pow10_adds(a: nat, b: nat)
    ensures
        spec_pow10(a) * spec_pow10(b) == spec_pow10(a + b),
    decreases b,
{
    if b == 0 {
        assert(spec_pow10(a) * 1 == spec_pow10(a)) by (nonlinear_arith);
    } else {
        lemma_pow10_adds(a, (b - 1) as nat);
        assert(spec_pow10(a) * (10 * spec_pow10((b - 1) as nat)) == 10 * (spec_pow10(a)
            * spec_pow10((b - 1) as nat))) by (nonlinear_arith);
    }
}

/// Holds of a decimal string whose integer part is short enough that the
/// value scaled by `10^dp` always fits a signed 64-bit integer.
pub open spec fn spec_fixed_parseable(s: Seq<u8>, dp: nat) -> bool {
    &&& spec_decimal_grammar(s)
    &&& spec_find_from(s, spec_sign_len(s), 46) - spec_sign_len(s) + dp <= 18
}

/// A parseable string's scaled magnitude fits a signed 64-bit integer.
pub proof fn lemma_parseable_mag_fits(s: Seq<u8>, dp: nat)
    requires
        spec_fixed_parseable(s, dp),
        dp <= 18,
    ensures
        0 <= spec_fixed_mag(s, dp) <= i64::MAX,
{
    let sl = spec_sign_len(s);
    let dot = spec_find_from(s, sl, 46);
    lemma_find_from_bounds(s, sl, 46);
    let ilen = (dot - sl) as nat;
    let taken = spec_frac_taken(s, dp);
    let fs = spec_frac_start(s);
    let iv = spec_digits_val(s.subrange(sl, dot));
    let fv = spec_digits_val(s.subrange(fs, fs + taken));
    lemma_int_times_pow_bound(s, dp);
    lemma_frac_scaled_nonneg(s, dp);
    lemma_digits_val_upper(s.subrange(sl, dot));
    lemma_digits_val_upper(s.subrange(fs, fs + taken));
    lemma_pow10_pos(dp);
    lemma_pow10_pos((dp - taken) as nat);
    lemma_pow10_adds(ilen, dp);
    lemma_pow10_adds(taken as nat, (dp - taken) as nat);
    assert(iv * spec_pow10(dp) <= (spec_pow10(ilen) - 1) * spec_pow10(dp)) by (nonlinear_arith)
        requires
            iv <= spec_pow10(ilen) - 1,
            spec_pow10(dp) >= 1,
    ;
    assert((spec_pow10(ilen) - 1) * spec_pow10(dp) == spec_pow10(ilen) * spec_pow10(dp)
        - spec_pow10(dp)) by (nonlinear_arith);
    assert(fv * spec_pow10((dp - taken) as nat) <= (spec_pow10(taken as nat) - 1) * spec_pow10(
        (dp - taken) as nat,
    )) by (nonlinear_arith)
        requires
            fv <= spec_pow10(taken as nat) - 1,
            spec_pow10((dp - taken) as nat) >= 1,
    ;
    assert((spec_pow10(taken as nat) - 1) * spec_pow10((dp - taken) as nat) == spec_pow10(
        taken as nat,
    ) * spec_pow10((dp - taken) as nat) - spec_pow10((dp - taken) as nat)) by (nonlinear_arith);
    lemma_pow10_le(ilen + dp, 18);
    lemma_pow10_le(dp, 18);
    lemma_pow10_18();
}

/// Decides whether a byte string is an acceptable fixed-point decimal for
/// `dp` places: the grammar holds and the integer part is short enough
/// that the scaled value always fits.
pub fn check_fixed_input(b: &[u8], dp: u32) -> (r: bool)
    requires
        dp <= 18,
    ensures
        r == spec_fixed_parseable(b@, dp as nat),
{
    let len = b.len();
    let mut start: usize = 0;
    if len > 0 && b[0] == 45 {
        start = 1;
    }
    assert(start == spec_sign_len(b@));
    let mut dot: usize = start;
    while dot < len && b[dot] != 46
        invariant
            start <= dot <= len == b@.len(),
            forall|k: int| start <= k < dot ==> b@[k] != 46,
        decreases len - dot,
    {
        dot = dot + 1;
    }
    proof {
        lemma_find_from_unique(b@, start as int, 46, dot as int);
    }
    if dot == start {
        return false;
    }
    if dot - start > 18 - dp as usize {
        return false;
    }
    let mut i: usize = start;
    while i < dot
        invariant
            start <= i <= dot <= len == b@.len(),
            start == spec_sign_len(b@),
            dot as int == spec_find_from(b@, start as int, 46),
            forall|k: int| start <= k < i ==> spec_is_digit(b@[k]),
        decreases dot - i,
    {
        let c = b[i];
        if c < 48 || c > 57 {
            return false;
        }
        i = i + 1;
    }
    let frac_start = if dot < len {
        dot + 1
    } else {
        len
    };
    let mut j: usize = frac_start;
    while j < len
        invariant
            frac_start <= j <= len == b@.len(),
            frac_start == if dot < len { dot + 1int } else { len as int },
            dot < len ==> frac_start == dot + 1,
            start == spec_sign_len(b@),
            dot as int == spec_find_from(b@, start as int, 46),
            forall|k: int| frac_start <= k < j ==> spec_is_digit(b@[k]),
        decreases len - j,
    {
        let c = b[j];
        if c < 48 || c > 57 {
            return false;
        }
        j = j + 1;
    }
    true
}

/// Parses a decimal byte string when it is acceptable for `dp` places, and
/// rejects it — `None` — exactly otherwise.
pub fn parse_fixed_dp_checked(b: &[u8], dp: u32) -> (r: Option<i64>)
    requires
        dp <= 18,
    ensures
        r is Some <==> spec_fixed_parseable(b@, dp as nat),
        r matches Some(v) ==> v == spec_fixed_val(b@, dp as nat),
{
    if check_fixed_input(b, dp) {
        proof {
            lemma_parseable_mag_fits(b@, dp as nat);
        }
        Some(parse_fixed_dp_bytes(b, dp))
    } else {
        None
    }
}

} // verus!
