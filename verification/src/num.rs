use vstd::prelude::*;
use crate::text::{is_digit_char, is_digit_char_x};

verus! {

// ---------------------------------------------------------------------------
// Digits and decimal rendering
// ---------------------------------------------------------------------------

pub open spec fn digit_char(d: int) -> char {
    if d == 0 { '0' } else if d == 1 { '1' } else if d == 2 { '2' }
    else if d == 3 { '3' } else if d == 4 { '4' } else if d == 5 { '5' }
    else if d == 6 { '6' } else if d == 7 { '7' } else if d == 8 { '8' }
    else if d == 9 { '9' } else { '?' }
}

pub open spec fn digit_val(c: char) -> int {
    c as u32 - '0' as u32
}

/// The decimal digits of `n >= 0`, most significant first.
pub open spec fn dec_str(n: int) -> Seq<char>
    decreases n,
{
    if n < 10 {
        seq![digit_char(n)]
    } else {
        dec_str(n / 10).push(digit_char(n % 10))
    }
}

/// The decimal rendering of a possibly negative value.
pub open spec fn int_str(v: int) -> Seq<char> {
    if v < 0 {
        seq!['-'] + dec_str(-v)
    } else {
        dec_str(v)
    }
}

fn digit_char_x(d: u64) -> (r: char)
    requires
        d < 10,
    ensures
        r == digit_char(d as int),
{
    match d {
        0 => '0', 1 => '1', 2 => '2', 3 => '3', 4 => '4',
        5 => '5', 6 => '6', 7 => '7', 8 => '8', _ => '9',
    }
}

/// Appends the decimal digits of `n` to `s`.
pub fn push_dec_u64(s: &mut String, n: u64)
    ensures
        final(s)@ == old(s)@ + dec_str(n as int),
    decreases n,
{
    if n < 10 {
        crate::trusted::push_char(s, digit_char_x(n));
        assert(s@ =~= old(s)@ + dec_str(n as int));
    } else {
        push_dec_u64(s, n / 10);
        crate::trusted::push_char(s, digit_char_x(n % 10));
        assert(s@ =~= old(s)@ + dec_str(n as int));
    }
}

/// Appends the decimal rendering of `v`, with a leading minus when negative.
pub fn push_dec_i64(s: &mut String, v: i64)
    requires
        v > i64::MIN,
    ensures
        final(s)@ == old(s)@ + int_str(v as int),
{
    if v < 0 {
        crate::trusted::push_char(s, '-');
        push_dec_u64(s, (-v) as u64);
        assert(s@ =~= old(s)@ + int_str(v as int));
    } else {
        push_dec_u64(s, v as u64);
    }
}

// ---------------------------------------------------------------------------
// Hexadecimal rendering
// ---------------------------------------------------------------------------

pub open spec fn hex_digit(d: int) -> char {
    if d == 0 { '0' } else if d == 1 { '1' } else if d == 2 { '2' }
    else if d == 3 { '3' } else if d == 4 { '4' } else if d == 5 { '5' }
    else if d == 6 { '6' } else if d == 7 { '7' } else if d == 8 { '8' }
    else if d == 9 { '9' } else if d == 10 { 'a' } else if d == 11 { 'b' }
    else if d == 12 { 'c' } else if d == 13 { 'd' } else if d == 14 { 'e' }
    else if d == 15 { 'f' } else { '?' }
}

/// `w` lowercase hex digits of `v`, most significant first, zero padded.
pub open spec fn hex_str_fixed(v: int, w: nat) -> Seq<char>
    decreases w,
{
    if w == 0 {
        Seq::<char>::empty()
    } else {
        hex_str_fixed(v / 16, (w - 1) as nat).push(hex_digit(v % 16))
    }
}

/// The lowercase hex encoding of a byte sequence: two digits per byte,
/// high nibble first, in input order.
pub open spec fn hex_of(b: Seq<u8>) -> Seq<char>
    decreases b.len(),
{
    if b.len() == 0 {
        Seq::<char>::empty()
    } else {
        hex_of(b.drop_last()) + hex_str_fixed(b.last() as int, 2)
    }
}

pub proof fn lemma_hex_str_fixed_len(v: int, w: nat)
    ensures
        hex_str_fixed(v, w).len() == w,
    decreases w,
{
    if w > 0 {
        lemma_hex_str_fixed_len(v / 16, (w - 1) as nat);
    }
}

fn hex_digit_x(d: u64) -> (r: char)
    requires
        d < 16,
    ensures
        r == hex_digit(d as int),
{
    match d {
        0 => '0', 1 => '1', 2 => '2', 3 => '3', 4 => '4', 5 => '5', 6 => '6',
        7 => '7', 8 => '8', 9 => '9', 10 => 'a', 11 => 'b', 12 => 'c',
        13 => 'd', 14 => 'e', _ => 'f',
    }
}

/// Appends `w` zero-padded lowercase hex digits of `v`.
pub fn push_hex_fixed(s: &mut String, v: u64, w: usize)
    ensures
        final(s)@ == old(s)@ + hex_str_fixed(v as int, w as nat),
    decreases w,
{
    if w == 0 {
        assert(s@ =~= old(s)@ + hex_str_fixed(v as int, 0));
    } else {
        push_hex_fixed(s, v / 16, w - 1);
        crate::trusted::push_char(s, hex_digit_x(v % 16));
        assert(s@ =~= old(s)@ + hex_str_fixed(v as int, w as nat));
    }
}

// ---------------------------------------------------------------------------
// Parsing the numeric discipline's response
// ---------------------------------------------------------------------------

pub open spec fn all_digits(s: Seq<char>) -> bool {
    forall|i: int| 0 <= i < s.len() ==> is_digit_char(#[trigger] s[i])
}

/// The value of a digit string, most significant digit first.
pub open spec fn digits_value(s: Seq<char>) -> int
    decreases s.len(),
{
    if s.len() == 0 {
        0
    } else {
        digits_value(s.drop_last()) * 10 + digit_val(s.last())
    }
}

/// What `i32` parsing makes of a token of digits and minus signs:
/// the value when the token is a well-formed in-range integer, otherwise 0.
pub open spec fn token_value(s: Seq<char>) -> int {
    if s.len() > 0 && all_digits(s) && digits_value(s) <= i32::MAX {
        digits_value(s)
    } else if s.len() >= 2 && s[0] == '-' && all_digits(s.skip(1)) && digits_value(s.skip(1))
        <= 0x8000_0000 {
        -digits_value(s.skip(1))
    } else {
        0
    }
}

/// Clamping as the numeric discipline applies it: first raise to `min`,
/// then lower to `max` (so `max` wins when `min > max`).
pub open spec fn clamp_spec(v: int, min: int, max: int) -> int {
    let raised = if v < min { min } else { v };
    if raised > max { max } else { raised }
}

proof fn lemma_digits_value_nonneg(s: Seq<char>)
    requires
        all_digits(s),
    ensures
        digits_value(s) >= 0,
    decreases s.len(),
{
    if s.len() > 0 {
        assert(forall|i: int| 0 <= i < s.drop_last().len() ==> is_digit_char(
            #[trigger] s.drop_last()[i],
        ));
        lemma_digits_value_nonneg(s.drop_last());
        assert(digit_val(s.last()) >= 0);
    }
}

/// A digit string with a leading zero has the value of its tail.
proof fn lemma_drop_leading_zero(s: Seq<char>)
    requires
        s.len() >= 1,
        digit_val(s[0]) == 0,
    ensures
        digits_value(s) == digits_value(s.skip(1)),
    decreases s.len(),
{
    if s.len() == 1 {
        assert(digits_value(s) == digits_value(s.drop_last()) * 10 + digit_val(s.last()));
        assert(s.drop_last().len() == 0);
        assert(s.skip(1).len() == 0);
    } else {
        let t = s.drop_last();
        assert(digit_val(t[0]) == 0);
        lemma_drop_leading_zero(t);
        assert(t.skip(1) =~= s.skip(1).drop_last());
        assert(s.skip(1).last() == s.last());
        assert(digits_value(s.skip(1)) == digits_value(s.skip(1).drop_last()) * 10 + digit_val(
            s.skip(1).last(),
        ));
    }
}

/// The value of a digit string is below 10^len.
proof fn lemma_digits_value_upper(s: Seq<char>, p: int)
    requires
        all_digits(s),
        p >= pow10(s.len() as nat),
    ensures
        digits_value(s) < p,
    decreases s.len(),
{
    lemma_pow10_pos(s.len() as nat);
    if s.len() == 0 {
    } else {
        let t = s.drop_last();
        assert(all_digits(t));
        lemma_pow10_pos(t.len() as nat);
        lemma_digits_value_upper(t, pow10(t.len() as nat));
        assert(digit_val(s.last()) <= 9);
        assert(pow10(s.len() as nat) == pow10(t.len() as nat) * 10);
        assert(digits_value(s) == digits_value(t) * 10 + digit_val(s.last()));
        assert(digits_value(t) * 10 <= (pow10(t.len() as nat) - 1) * 10) by (nonlinear_arith)
            requires
                digits_value(t) <= pow10(t.len() as nat) - 1,
        ;
    }
}

pub open spec fn pow10(n: nat) -> int
    decreases n,
{
    if n == 0 {
        1
    } else {
        pow10((n - 1) as nat) * 10
    }
}

proof fn lemma_pow10_pos(n: nat)
    ensures
        pow10(n) >= 1,
    decreases n,
{
    if n > 0 {
        lemma_pow10_pos((n - 1) as nat);
    }
}

/// Parses a token of digit and minus characters exactly as `i32` parsing
/// would, defaulting to 0, then clamps the result into `[min, max]`.
pub fn parse_clamped(tok: &Vec<char>, min: i32, max: i32) -> (r: i32)
    ensures
        r as int == clamp_spec(token_value(tok@), min as int, max as int),
{
    let v = parse_token(tok);
    let raised = if v < min { min } else { v };
    if raised > max { max } else { raised }
}

fn is_zero_digit(c: char) -> (r: bool)
    ensures
        r == (digit_val(c) == 0),
{
    c as u32 == 48
}

proof fn lemma_pow10_ten()
    ensures
        pow10(10) == 10_000_000_000,
{
    reveal_with_fuel(pow10, 11);
}

#[verifier::loop_isolation(false)]
fn parse_token(tok: &Vec<char>) -> (r: i32)
    ensures
        r as int == token_value(tok@),
{
    let n = tok.len();
    if n == 0 {
        return 0;
    }
    let neg = tok[0] == '-';
    let start: usize = if neg { 1 } else { 0 };
    if neg && n < 2 {
        return 0;
    }
    let ghost digits = if neg { tok@.skip(1) } else { tok@ };
    // Every character after the optional sign must be a digit.
    let mut i: usize = start;
    while i < n
        invariant
            start <= i <= n,
            forall|k: int| start <= k < i ==> is_digit_char(#[trigger] tok@[k]),
        decreases n - i,
    {
        if !is_digit_char_x(tok[i]) {
            proof {
                assert(!is_digit_char(tok@[i as int]));
                if neg {
                    assert(digits[i - 1] == tok@[i as int]);
                    assert(!all_digits(digits));
                    assert(!is_digit_char('-'));
                    assert(!all_digits(tok@));
                } else {
                    assert(!all_digits(tok@));
                    if tok@.len() >= 2 && tok@[0] == '-' {
                        assert(is_digit_char(tok@[0]) ==> false);
                        assert(tok@.skip(1)[i as int - 1] == tok@[i as int]);
                        assert(!all_digits(tok@.skip(1)));
                    }
                }
            }
            return 0;
        }
        i += 1;
    }
    proof {
        assert(forall|k: int| 0 <= k < digits.len() ==> is_digit_char(#[trigger] digits[k]));
    }
    // Skip leading zeros of the digit run.
    let mut z: usize = start;
    while z < n && is_zero_digit(tok[z])
        invariant
            start <= z <= n,
            forall|k: int| start <= k < z ==> digit_val(#[trigger] tok@[k]) == 0,
        decreases n - z,
    {
        z += 1;
    }
    proof {
        assert(forall|k: int| 0 <= k < z - start ==> digit_val(#[trigger] digits[k]) == 0);
        lemma_skip_zeros(digits, z as int - start as int);
        assert(digits.skip(z as int - start as int) =~= tok@.subrange(z as int, n as int));
    }
    let effective = n - z;
    let ghost eff = tok@.subrange(z as int, n as int);
    proof {
        assert(digits_value(digits) == digits_value(eff));
        assert(all_digits(eff));
    }
    if effective > 10 {
        // More than ten significant digits cannot fit in an i32.
        proof {
            assert(z < n);
            assert(is_digit_char(eff[0]) && digit_val(eff[0]) != 0);
            assert(digit_val(eff[0]) >= 1);
            lemma_digits_value_lower(eff);
            lemma_pow10_mono(10, (eff.len() - 1) as nat);
            lemma_pow10_ten();
            assert(digits_value(eff) >= 10_000_000_000);
        }
        return 0;
    }
    let mut acc: u64 = 0;
    let mut j: usize = z;
    while j < n
        invariant
            z <= j <= n,
            acc as int == digits_value(tok@.subrange(z as int, j as int)),
            acc < 10_000_000_000,
        decreases n - j,
    {
        let c = tok[j];
        proof {
            assert(is_digit_char(tok@[j as int]));
        }
        let d: u64 = (c as u32 as u64) - 48;
        proof {
            let pre = tok@.subrange(z as int, j as int);
            let post = tok@.subrange(z as int, j as int + 1);
            assert(post.drop_last() =~= pre);
            assert(post.last() == tok@[j as int]);
            assert(forall|k: int| 0 <= k < post.len() ==> is_digit_char(#[trigger] post[k]));
            lemma_digits_value_upper(post, pow10(post.len() as nat));
            lemma_pow10_mono(post.len() as nat, 10);
            lemma_pow10_ten();
            assert(digits_value(post) == digits_value(pre) * 10 + digit_val(post.last()));
        }
        acc = acc * 10 + d;
        j += 1;
    }
    proof {
        assert(tok@.subrange(z as int, n as int) =~= eff);
        assert(acc as int == digits_value(eff));
        lemma_digits_value_nonneg(digits);
    }
    if neg {
        proof {
            assert(tok@[0] == '-');
            assert(!is_digit_char('-'));
            assert(!all_digits(tok@));
        }
        if acc > 0x8000_0000 {
            return 0;
        }
        if acc == 0x8000_0000 {
            return i32::MIN;
        }
        return -(acc as i32);
    }
    if acc > 0x7FFF_FFFF {
        proof {
            assert(digits == tok@);
            if tok@.len() >= 2 && tok@[0] == '-' {
                assert(is_digit_char(tok@[0]));
                assert(!is_digit_char('-'));
            }
        }
        return 0;
    }
    acc as i32
}

/// Dropping `k` leading zeros keeps the value of a digit string.
proof fn lemma_skip_zeros(s: Seq<char>, k: int)
    requires
        0 <= k <= s.len(),
        forall|i: int| 0 <= i < k ==> digit_val(#[trigger] s[i]) == 0,
    ensures
        digits_value(s) == digits_value(s.skip(k)),
    decreases k,
{
    if k == 0 {
        assert(s.skip(0) =~= s);
    } else {
        lemma_drop_leading_zero(s);
        assert(s.skip(1).len() == s.len() - 1);
        assert(forall|i: int| 0 <= i < k - 1 ==> digit_val(#[trigger] s.skip(1)[i]) == 0);
        lemma_skip_zeros(s.skip(1), k - 1);
        assert(s.skip(1).skip(k - 1) =~= s.skip(k));
    }
}

/// A digit string with a nonzero head is at least 10^(len-1).
proof fn lemma_digits_value_lower(s: Seq<char>)
    requires
        all_digits(s),
        s.len() >= 1,
        digit_val(s[0]) >= 1,
    ensures
        digits_value(s) >= pow10((s.len() - 1) as nat),
    decreases s.len(),
{
    if s.len() == 1 {
        assert(s.drop_last().len() == 0);
        assert(digits_value(s.drop_last()) == 0);
        assert(s.last() == s[0]);
        assert(digits_value(s) == digit_val(s[0]));
        assert(pow10(0) == 1);
    } else {
        let t = s.drop_last();
        assert(all_digits(t));
        assert(t[0] == s[0]);
        lemma_digits_value_lower(t);
        lemma_pow10_pos((t.len() - 1) as nat);
        assert(digit_val(s.last()) >= 0);
        assert(pow10((s.len() - 1) as nat) == pow10((t.len() - 1) as nat) * 10);
        assert(digits_value(t) * 10 >= pow10((t.len() - 1) as nat) * 10) by (nonlinear_arith)
            requires
                digits_value(t) >= pow10((t.len() - 1) as nat),
        ;
    }
}

proof fn lemma_pow10_mono(a: nat, b: nat)
    requires
        a <= b,
    ensures
        pow10(a) <= pow10(b),
    decreases b,
{
    if a < b {
        lemma_pow10_mono(a, (b - 1) as nat);
        lemma_pow10_pos((b - 1) as nat);
    }
}

} // verus!
