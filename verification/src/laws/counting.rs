//! What counting a file gives, what is remembered of it, and how counts are written out.

use vstd::arithmetic::power2;
use vstd::prelude::*;

use crate::path::PathView;
use crate::text;
use crate::token_counter;
use crate::token_counter::TokenError;

verus! {

/// A file has as many tokens as the encoder gives for its content, repeated ones included. A file
/// that cannot be read has none, and a file that cannot be encoded has an error.
pub proof fn lemma_file_has_all_its_tokens(content: Seq<char>, tokens: Seq<u32>, has_encoder: bool)
    ensures
        token_counter::token_outcome(Some(content), true, Some(tokens)) == Ok::<nat, TokenError>(
            tokens.len(),
        ),
        token_counter::token_outcome(Some(content), true, None) == Err::<nat, TokenError>(
            TokenError::TokenizationFailed,
        ),
        token_counter::token_outcome(Some(content), false, Some(tokens)) == Err::<nat, TokenError>(
            TokenError::EncoderUnavailable,
        ),
        token_counter::token_outcome(Some(content), false, None) == Err::<nat, TokenError>(
            TokenError::EncoderUnavailable,
        ),
        token_counter::token_outcome(None, has_encoder, None) == Ok::<nat, TokenError>(0),
{
}

/// One more token at the end of an encoding is one more in the count.
pub proof fn lemma_each_token_counts(content: Seq<char>, tokens: Seq<u32>, token: u32)
    ensures
        token_counter::token_outcome(Some(content), true, Some(tokens.push(token)))->Ok_0
            == token_counter::token_outcome(Some(content), true, Some(tokens))->Ok_0 + 1,
{
}

/// A file that was not counted before gets the number that counting gave, which is then remembered
/// for it; an error is not remembered.
pub proof fn lemma_first_count_is_remembered(
    cache: Map<PathView, usize>,
    path: PathView,
    n: usize,
    e: TokenError,
)
    requires
        !cache.dom().contains(path),
    ensures
        token_counter::counted(cache, path, Ok(n as nat)) == (
            Ok::<nat, TokenError>(n as nat),
            cache.insert(path, n),
        ),
        token_counter::counted(cache, path, Err(e)) == (Err::<nat, TokenError>(e), cache),
{
}

/// A number and what is written for it: the nearest whole quotient is off by half a unit at most.
proof fn lemma_nearest(num: nat, den: nat)
    requires
        den > 0,
    ensures
        -(den as int) <= 2 * (token_counter::nearest_even(num, den) * den - num) <= den,
{
    let q = num / den;
    let rest = num % den;
    vstd::arithmetic::div_mod::lemma_fundamental_div_mod(num as int, den as int);
    vstd::arithmetic::div_mod::lemma_mod_bound(num as int, den as int);
    assert(num == den * q + rest);
    assert(q * den == den * q) by (nonlinear_arith);
    assert((q + 1) * den == den * q + den) by (nonlinear_arith);
}

proof fn lemma_fraction_bits(num: nat, den: nat, s: nat, low: nat)
    requires
        low <= s,
        num * power2::pow2(low) < den * 0x20_0000_0000_0000,
    ensures
        low <= token_counter::fraction_bits(num, den, s) <= s,
    decreases s,
{
    if !(s == 0 || num * power2::pow2(s) < den * 0x20_0000_0000_0000) {
        lemma_fraction_bits(num, den, (s - 1) as nat, low);
    }
}

/// Two roundings, one after the other, brought to one scale.
proof fn lemma_scaled(t: int, unit: int, q: int, den: int, num: int)
    requires
        -den <= 2 * (q * den - num * unit) <= den,
        -unit <= 2 * (t * unit - 10 * q) <= unit,
        den > 0,
        unit > 0,
    ensures
        2 * unit * (t * den - 10 * num) <= den * unit + 10 * den,
        -(2 * unit * (t * den - 10 * num)) <= den * unit + 10 * den,
{
    let a = t * unit;
    let y = 2 * (a - 10 * q);
    assert(y * den <= unit * den && -(unit * den) <= y * den) by (nonlinear_arith)
        requires
            -unit <= y <= unit,
            den > 0,
    ;
    assert(y * den == 2 * (a * den) - 20 * (q * den)) by (nonlinear_arith)
        requires
            y == 2 * (a - 10 * q),
    ;
    let b = t * den;
    assert(unit * b == a * den) by (nonlinear_arith)
        requires
            a == t * unit,
            b == t * den,
    ;
    assert(2 * unit * (b - 10 * num) == 2 * (unit * b) - 20 * (num * unit)) by (nonlinear_arith);
    assert(den * unit == unit * den) by (nonlinear_arith);
}

/// How far the tenths that are shown of a quotient can be off.
proof fn lemma_shown_tenths(num: nat, den: nat, low: nat, slack: nat)
    requires
        den > 0,
        low <= 52,
        num * power2::pow2(low) < den * 0x20_0000_0000_0000,
        slack * power2::pow2(low) > 10 * den,
    ensures
        ({
            let x = token_counter::shown_tenths(num, den) * den - 10 * num;
            -(den + slack) < 2 * x < den + slack
        }),
{
    let s = token_counter::fraction_bits(num, den, 52);
    lemma_fraction_bits(num, den, 52, low);
    let unit = power2::pow2(s);
    power2::lemma_pow2_pos(s);
    power2::lemma_pow2_pos(low);
    if low < s {
        power2::lemma_pow2_strictly_increases(low, s);
    }
    let q = token_counter::nearest_even(num * unit, den);
    let t = token_counter::nearest_even(10 * q, unit);
    lemma_nearest(num * unit, den);
    lemma_nearest(10 * q, unit);
    let x = t * den - 10 * num;
    lemma_scaled(t as int, unit as int, q as int, den as int, num as int);
    assert(slack * unit > 10 * den) by (nonlinear_arith)
        requires
            slack * power2::pow2(low) > 10 * den,
            unit >= power2::pow2(low),
            slack >= 0,
    ;
    assert(2 * x < den + slack) by (nonlinear_arith)
        requires
            2 * unit * x <= den * unit + 10 * den,
            slack * unit > 10 * den,
            unit > 0,
    ;
    assert(-(2 * x) < den + slack) by (nonlinear_arith)
        requires
            -(2 * unit * x) <= den * unit + 10 * den,
            slack * unit > 10 * den,
            unit > 0,
    ;
}

proof fn lemma_excess(n: nat)
    ensures
        n < 0x20_0000_0000_0000 ==> token_counter::excess_bits(n) == 0,
        token_counter::excess_bits(n) > 0 ==> power2::pow2(token_counter::excess_bits(n))
            * 0x10_0000_0000_0000 <= n,
    decreases n,
{
    if n >= 0x20_0000_0000_0000 {
        let k = token_counter::excess_bits(n / 2);
        lemma_excess(n / 2);
        power2::lemma_pow2_unfold(k + 1);
        power2::lemma2_to64();
    }
}

proof fn lemma_as_double(n: nat)
    requires
        n <= 0xffff_ffff_ffff_ffff,
    ensures
        n < 0x20_0000_0000_0000 ==> token_counter::as_double(n) == n,
        -2048 < token_counter::as_double(n) - n < 2048,
{
    let k = token_counter::excess_bits(n);
    let unit = power2::pow2(k);
    lemma_excess(n);
    power2::lemma_pow2_pos(k);
    power2::lemma2_to64();
    lemma_nearest(n, unit);
    if k > 0 {
        assert(unit < 4096) by (nonlinear_arith)
            requires
                unit * 0x10_0000_0000_0000 <= n,
                n <= 0xffff_ffff_ffff_ffff,
        ;
    } else {
        assert(unit == 1);
        assert(token_counter::nearest_even(n, 1) * 1 == n);
    }
}

/// A count below a thousand is written out in full.
pub proof fn lemma_small_count_in_full(n: nat)
    requires
        n < 1_000,
    ensures
        token_counter::token_count_text(n) == text::decimal(n),
{
}

/// A count of thousands is written in thousands with one decimal, and a count of millions in
/// millions. The number that is shown, here in tenths, is the nearest one: it is off by half a
/// tenth at most, and by a little more only above a billion, where a double cannot tell the
/// difference.
pub proof fn lemma_large_count_is_rounded(n: nat) -> (tenths: nat)
    requires
        1_000 <= n <= 0xffff_ffff_ffff_ffff,
    ensures
        token_counter::token_count_text(n) == text::decimal(tenths / 10) + seq!['.']
            + text::decimal(tenths % 10) + (if n < 1_000_000 {
            seq!['K']
        } else {
            seq!['M']
        }),
        n < 1_000_000 ==> -50 <= 100 * tenths - n <= 50,
        1_000_000 <= n < 1_000_000_000 ==> -50_000 <= 100_000 * tenths - n <= 50_000,
        n >= 1_000_000_000 ==> -55_000 <= 100_000 * tenths - n <= 55_000,
{
    reveal_strlit(".");
    reveal_strlit("K");
    reveal_strlit("M");
    assert("."@ =~= seq!['.']);
    assert("K"@ =~= seq!['K']);
    assert("M"@ =~= seq!['M']);
    power2::lemma2_to64();
    power2::lemma_pow2_adds(11, 32);
    if n < 1_000_000 {
        assert(n * power2::pow2(43) < 1_000 * 0x20_0000_0000_0000) by (nonlinear_arith)
            requires
                n < 1_000_000,
                power2::pow2(43) == 0x800_0000_0000,
        ;
        lemma_shown_tenths(n, 1_000, 43, 1);
        let tenths = token_counter::shown_tenths(n, 1_000);
        assert(token_counter::token_count_text(n) =~= text::decimal(tenths / 10) + seq!['.']
            + text::decimal(tenths % 10) + seq!['K']);
        tenths
    } else {
        lemma_as_double(n);
        let whole = token_counter::as_double(n);
        let tenths = token_counter::shown_tenths(whole, 1_000_000);
        assert(token_counter::token_count_text(n) =~= text::decimal(tenths / 10) + seq!['.']
            + text::decimal(tenths % 10) + seq!['M']);
        if n < 1_000_000_000 {
            assert(whole * power2::pow2(43) < 1_000_000 * 0x20_0000_0000_0000) by (nonlinear_arith)
                requires
                    whole < 1_000_000_000,
                    power2::pow2(43) == 0x800_0000_0000,
            ;
            lemma_shown_tenths(whole, 1_000_000, 43, 1);
        } else {
            assert(whole * power2::pow2(8) < 1_000_000 * 0x20_0000_0000_0000) by (nonlinear_arith)
                requires
                    whole < 0x1_0000_0000_0000_0800,
                    power2::pow2(8) == 256,
            ;
            lemma_shown_tenths(whole, 1_000_000, 8, 39_063);
        }
        tenths
    }
}

} // verus!
