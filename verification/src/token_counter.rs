//! Token counts: how they are computed, cached and shown.

use vstd::arithmetic::power2;
use vstd::prelude::*;
use vstd::string::*;

use crate::path::{FilePath, PathView};
use crate::path_map::PathMap;
use crate::text;

verus! {

/// The byte pair encoder of the tokenizer crate.
#[verifier::external_type_specification]
#[verifier::external_body]
pub struct ExCoreBPE(tiktoken_rs::CoreBPE);

/// The tokens of a text in the `o200k_base` encoding, special tokens included, as
/// `tiktoken_rs::CoreBPE::encode` gives them. A text that the encoder cannot split has none.
pub uninterp spec fn o200k_tokens(content: Seq<char>) -> Option<Seq<u32>>;

/// Calls `tiktoken_rs::o200k_base`, which builds the encoder. The claim is that it succeeds: it
/// reads nothing but a table and patterns that are compiled into the crate, and every line of the
/// table is a token in base64, a space and a rank of its own.
#[verifier::external_body]
fn load_o200k() -> (r: Result<tiktoken_rs::CoreBPE, String>)
    ensures
        r is Ok,
{
    tiktoken_rs::o200k_base().map_err(|e| e.to_string())
}

/// Calls `tiktoken_rs::CoreBPE::encode` with all special tokens of the encoder allowed. The tokens
/// are those that [`o200k_tokens`] names; there are none where the crate reports an error.
/// An [`Encoder`] always holds what `tiktoken_rs::o200k_base` built, so the text alone decides.
#[verifier::external_body]
fn encode_o200k(encoder: &Encoder, content: &str) -> (r: Option<Vec<u32>>)
    ensures
        match r {
            Some(tokens) => o200k_tokens(content@) == Some(tokens@),
            None => o200k_tokens(content@) is None,
        },
{
    encoder.bpe.encode(content, &encoder.bpe.special_tokens()).ok().map(|encoded| encoded.0)
}

/// The encoder that turns texts into tokens, in the `o200k_base` encoding.
pub struct Encoder {
    bpe: tiktoken_rs::CoreBPE,
}

/// The message on an encoder that could not be built.
pub open spec fn encoder_error(cause: Seq<char>) -> Seq<char> {
    "Failed to create encoder: "@ + cause
}

impl Encoder {
    /// Creates the encoder, from the tables of the tokenizer crate.
    pub fn new() -> (r: Result<Encoder, String>)
        ensures
            r is Ok,
    {
        Encoder::from_loaded(load_o200k())
    }

    /// The encoder around what the tokenizer crate has built, or the message on its error. Only
    /// what [`load_o200k`] gives may be handed over.
    fn from_loaded(loaded: Result<tiktoken_rs::CoreBPE, String>) -> (r: Result<Encoder, String>)
        ensures
            match loaded {
                Ok(bpe) => r == Ok::<Encoder, String>(Encoder { bpe }),
                Err(cause) => r is Err && r->Err_0@ == encoder_error(cause@),
            },
    {
        match loaded {
            Ok(bpe) => Ok(Encoder { bpe }),
            Err(cause) => Err(text::concat2("Failed to create encoder: ", cause.as_str())),
        }
    }

    /// The number of tokens of a text. There is none where the text cannot be encoded.
    pub fn count_tokens(&self, content: &str) -> (r: Option<usize>)
        ensures
            match r {
                Some(n) => o200k_tokens(content@) is Some && n == o200k_tokens(content@)->0.len(),
                None => o200k_tokens(content@) is None,
            },
    {
        match encode_o200k(self, content) {
            Some(tokens) => Some(tokens.len()),
            None => None,
        }
    }
}

/// Why the tokens of a file could not be counted.
#[derive(Debug, Clone, Copy, PartialEq, Eq, Structural)]
pub enum TokenError {
    /// The encoder could not be created
    EncoderUnavailable,
    /// The text could not be encoded
    TokenizationFailed,
}

/// The outcome of counting a file's tokens, from the outcome of encoding its content: a file whose
/// content cannot be read has no tokens.
pub open spec fn token_outcome(
    content: Option<Seq<char>>,
    has_encoder: bool,
    tokens: Option<Seq<u32>>,
) -> Result<nat, TokenError> {
    if content is None {
        Ok(0)
    } else if !has_encoder {
        Err(TokenError::EncoderUnavailable)
    } else {
        match tokens {
            Some(list) => Ok(list.len()),
            None => Err(TokenError::TokenizationFailed),
        }
    }
}

/// The view of a text that may be missing.
pub open spec fn content_view(content: Option<&str>) -> Option<Seq<char>> {
    match content {
        Some(s) => Some(s@),
        None => None,
    }
}

/// What counting a file gives: the result, and the cache afterwards.
pub open spec fn counted(
    cache: Map<PathView, usize>,
    path: PathView,
    outcome: Result<nat, TokenError>,
) -> (Result<nat, TokenError>, Map<PathView, usize>) {
    if cache.dom().contains(path) {
        (Ok(cache[path] as nat), cache)
    } else {
        match outcome {
            Ok(n) => (Ok(n), cache.insert(path, n as usize)),
            Err(e) => (Err(e), cache),
        }
    }
}

/// The value of a count, as a natural number.
pub open spec fn result_nat(r: Result<usize, TokenError>) -> Result<nat, TokenError> {
    match r {
        Ok(n) => Ok(n as nat),
        Err(e) => Err(e),
    }
}

/// Once a file has been counted, counting it again gives the same number, whatever the file holds
/// by then, and leaves the cache as it is.
pub proof fn lemma_count_is_cached(
    cache: Map<PathView, usize>,
    path: PathView,
    first: Result<nat, TokenError>,
    second: Result<nat, TokenError>,
)
    requires
        first is Ok ==> first->Ok_0 <= usize::MAX,
        counted(cache, path, first).0 is Ok,
    ensures
        ({
            let (n, after) = counted(cache, path, first);
            counted(after, path, second) == (n, after)
        }),
{
}

/// Counting one file leaves the cached counts of the others as they are.
pub proof fn lemma_count_keeps_others(
    cache: Map<PathView, usize>,
    path: PathView,
    outcome: Result<nat, TokenError>,
    other: PathView,
)
    requires
        other != path,
    ensures
        ({
            let after = counted(cache, path, outcome).1;
            &&& after.dom().contains(other) == cache.dom().contains(other)
            &&& cache.dom().contains(other) ==> after[other] == cache[other]
        }),
{
}

/// Counts the tokens of a file's content; a file that cannot be read counts as empty.
pub fn tokenize(content: Option<&str>, encoder: Option<&Encoder>) -> (r: Result<usize, TokenError>)
    ensures
        result_nat(r) == token_outcome(
            content_view(content),
            encoder is Some,
            match content {
                Some(s) => o200k_tokens(s@),
                None => None,
            },
        ),
        content is None ==> r == Ok::<usize, TokenError>(0),
        content is Some && encoder is None ==> r == Err::<usize, TokenError>(
            TokenError::EncoderUnavailable,
        ),
        content is Some && encoder is Some && o200k_tokens(content->0@) is None ==> r == Err::<
            usize,
            TokenError,
        >(TokenError::TokenizationFailed),
        content is Some && encoder is Some && o200k_tokens(content->0@) is Some ==> r is Ok
            && r->Ok_0 == o200k_tokens(content->0@)->0.len(),
{
    match content {
        None => Ok(0),
        Some(s) => match encoder {
            None => Err(TokenError::EncoderUnavailable),
            Some(e) => match e.count_tokens(s) {
                Some(n) => Ok(n),
                None => Err(TokenError::TokenizationFailed),
            },
        },
    }
}

/// The count that is reported for a file: none of the errors stops the others, so a file that
/// cannot be counted shows as empty.
pub fn reported_count(r: Result<usize, TokenError>) -> (n: usize)
    ensures
        n == (match r {
            Ok(count) => count,
            Err(_) => 0,
        }),
{
    match r {
        Ok(count) => count,
        Err(_) => 0,
    }
}

/// Token counter for calculating token counts of selected files.
#[derive(Debug)]
pub struct TokenCounter {
    /// Cached token counts for files to avoid recalculating
    file_token_cache: PathMap<usize>,
}

impl View for TokenCounter {
    type V = Map<PathView, usize>;

    closed spec fn view(&self) -> Map<PathView, usize> {
        self.file_token_cache@
    }
}

impl TokenCounter {
    /// The cache is well formed.
    pub closed spec fn wf(&self) -> bool {
        self.file_token_cache.wf()
    }

    /// Creates a new token counter with an empty cache.
    pub fn new() -> (r: Self)
        ensures
            r.wf(),
            r@ == Map::<PathView, usize>::empty(),
    {
        TokenCounter { file_token_cache: PathMap::new() }
    }

    /// Creates a token counter that goes on with the cache of another one.
    pub fn with_shared_cache(shared_cache: PathMap<usize>) -> (r: Self)
        requires
            shared_cache.wf(),
        ensures
            r.wf(),
            r@ == shared_cache@,
    {
        TokenCounter { file_token_cache: shared_cache }
    }

    /// The cached count of a file.
    pub fn cached_count(&self, file_path: &FilePath) -> (r: Option<usize>)
        requires
            self.wf(),
        ensures
            r == (if self@.dom().contains(file_path@) {
                Some(self@[file_path@])
            } else {
                None
            }),
    {
        match self.file_token_cache.get(file_path) {
            Some(n) => Some(*n),
            None => None,
        }
    }

    /// Notes the outcome of counting a file: a number is cached, unless one is cached already, and
    /// an error is not. Returns the cached number, or the error.
    pub fn record(&mut self, file_path: &FilePath, outcome: Result<usize, TokenError>) -> (r: Result<
        usize,
        TokenError,
    >)
        requires
            old(self).wf(),
        ensures
            final(self).wf(),
            (result_nat(r), final(self)@) == counted(old(self)@, file_path@, result_nat(outcome)),
    {
        if let Some(n) = self.cached_count(file_path) {
            return Ok(n);
        }
        match outcome {
            Ok(n) => {
                self.file_token_cache.insert(file_path.clone(), n);
                Ok(n)
            },
            Err(e) => Err(e),
        }
    }

    /// Calculates token count for a single file.
    /// Returns cached result if available, otherwise tokenizes the content of the file; there is
    /// no content where the file could not be read.
    pub fn count_file_tokens(
        &mut self,
        file_path: &FilePath,
        content: Option<&str>,
        encoder: Option<&Encoder>,
    ) -> (r: Result<usize, TokenError>)
        requires
            old(self).wf(),
        ensures
            final(self).wf(),
            (result_nat(r), final(self)@) == counted(
                old(self)@,
                file_path@,
                token_outcome(
                    content_view(content),
                    encoder is Some,
                    match content {
                        Some(s) => o200k_tokens(s@),
                        None => None,
                    },
                ),
            ),
            old(self)@.dom().contains(file_path@) ==> r == Ok::<usize, TokenError>(
                old(self)@[file_path@],
            ) && final(self)@ == old(self)@,
            !old(self)@.dom().contains(file_path@) && content is Some && encoder is Some
                && o200k_tokens(content->0@) is Some ==> r is Ok && r->Ok_0 == o200k_tokens(
                content->0@,
            )->0.len() && final(self)@ == old(self)@.insert(file_path@, r->Ok_0),
            !old(self)@.dom().contains(file_path@) && content is None ==> r == Ok::<
                usize,
                TokenError,
            >(0) && final(self)@ == old(self)@.insert(file_path@, 0),
            r is Err ==> final(self)@ == old(self)@,
    {
        if let Some(n) = self.cached_count(file_path) {
            return Ok(n);
        }
        let outcome = tokenize(content, encoder);
        self.record(file_path, outcome)
    }
}

/// How many files are counted at once, from the number of processors, where it is known.
pub fn counting_concurrency(processors: Option<usize>) -> (r: usize)
    ensures
        ({
            let n = processors.unwrap_or(4);
            r == (if n < 2 {
                2
            } else if n > 8 {
                8
            } else {
                n
            })
        }),
{
    let n: usize = match processors {
        Some(n) => n,
        None => 4,
    };
    if n < 2 {
        2
    } else if n > 8 {
        8
    } else {
        n
    }
}

/// How many texts are tokenized at once: two for each processor.
pub fn tokenization_permits(processors: Option<usize>) -> (r: usize)
    requires
        processors is Some ==> 2 * processors->0 <= usize::MAX,
    ensures
        r == 2 * processors.unwrap_or(4),
{
    match processors {
        Some(n) => n * 2,
        None => 8,
    }
}

/// The integer nearest to `num / den`; of two that are equally near, the even one.
pub open spec fn nearest_even(num: nat, den: nat) -> nat {
    let q = num / den;
    let rest = num % den;
    if 2 * rest < den || (2 * rest == den && q % 2 == 0) {
        q
    } else {
        q + 1
    }
}

/// By how many bits `n` is longer than the significand of a double.
pub open spec fn excess_bits(n: nat) -> nat
    decreases n,
{
    if n < 0x20_0000_0000_0000 {
        0
    } else {
        1 + excess_bits(n / 2)
    }
}

/// The integer that `n` becomes as a double, a number of at most 53 significant bits.
pub open spec fn as_double(n: nat) -> nat {
    nearest_even(n, power2::pow2(excess_bits(n))) * power2::pow2(excess_bits(n))
}

/// How many of at most `s` fraction bits a double has for `num / den`, a number that is not below
/// one: as many as its significand leaves.
pub open spec fn fraction_bits(num: nat, den: nat, s: nat) -> nat
    decreases s,
{
    if s == 0 || num * power2::pow2(s) < den * 0x20_0000_0000_0000 {
        s
    } else {
        fraction_bits(num, den, (s - 1) as nat)
    }
}

/// The tenths that show of `num / den`: the quotient is rounded to a double, and the double to one
/// decimal.
pub open spec fn shown_tenths(num: nat, den: nat) -> nat {
    let s = fraction_bits(num, den, 52);
    nearest_even(10 * nearest_even(num * power2::pow2(s), den), power2::pow2(s))
}

/// A number of tenths with a decimal point.
pub open spec fn tenths_text(tenths: nat) -> Seq<char> {
    text::decimal(tenths / 10) + "."@ + text::decimal(tenths % 10)
}

/// The text of a token count: the number itself below a thousand, then thousands, then millions,
/// with one decimal, computed in double precision.
pub open spec fn token_count_text(count: nat) -> Seq<char> {
    if count < 1_000 {
        text::decimal(count)
    } else if count < 1_000_000 {
        tenths_text(shown_tenths(count, 1_000)) + "K"@
    } else {
        tenths_text(shown_tenths(as_double(count), 1_000_000)) + "M"@
    }
}

fn round_nearest_even(num: u128, den: u128) -> (r: u128)
    requires
        0 < den <= 0x1_0000_0000_0000_0000,
        num < 0x8000_0000_0000_0000_0000_0000_0000_0000,
    ensures
        r == nearest_even(num as nat, den as nat),
        r <= num / den + 1,
        num / den <= num,
{
    let q = num / den;
    let rest = num % den;
    assert(q <= num) by (nonlinear_arith)
        requires
            q == num / den,
            0 < den,
    ;
    if 2 * rest < den || (2 * rest == den && q % 2 == 0) {
        q
    } else {
        q + 1
    }
}

fn round_to_double(n: u128) -> (r: u128)
    requires
        n <= 0xffff_ffff_ffff_ffff,
    ensures
        r == as_double(n as nat),
        r < 0x2_0000_0000_0000_0000,
{
    let mut rest: u128 = n;
    let mut unit: u128 = 1;
    let ghost mut k: nat = 0;
    proof {
        power2::lemma2_to64();
    }
    while rest >= 0x20_0000_0000_0000
        invariant
            n <= 0xffff_ffff_ffff_ffff,
            unit >= 1,
            unit == power2::pow2(k),
            rest * unit <= n,
            k > 0 ==> rest >= 0x10_0000_0000_0000,
            excess_bits(n as nat) == k + excess_bits(rest as nat),
        decreases rest,
    {
        assert((rest / 2) * (2 * unit) <= rest * unit) by (nonlinear_arith)
            requires
                rest >= 0,
                unit >= 0,
        ;
        assert(unit <= rest * unit) by (nonlinear_arith)
            requires
                rest >= 1,
                unit >= 0,
        ;
        proof {
            power2::lemma_pow2_unfold(k + 1);
            k = k + 1;
        }
        rest = rest / 2;
        unit = unit * 2;
    }
    assert(excess_bits(rest as nat) == 0);
    assert(unit <= 0x1_0000_0000_0000_0000) by {
        if k > 0 {
            assert(unit <= rest * unit) by (nonlinear_arith)
                requires
                    rest >= 1,
                    unit >= 0,
            ;
        }
    }
    let q = round_nearest_even(n, unit);
    assert(q * unit <= n + unit) by (nonlinear_arith)
        requires
            q <= n / unit + 1,
            unit >= 1,
    ;
    q * unit
}

/// The tenths that show of `num / den`.
fn round_to_tenths(num: u128, den: u128) -> (r: u128)
    requires
        num < 0x2_0000_0000_0000_0000,
        0 < den <= 1_000_000,
    ensures
        r == shown_tenths(num as nat, den as nat),
{
    let mut unit: u128 = 0x10_0000_0000_0000;
    let mut s: u32 = 52;
    proof {
        power2::lemma2_to64();
        power2::lemma_pow2_adds(20, 32);
    }
    loop
        invariant
            num < 0x2_0000_0000_0000_0000,
            0 < den <= 1_000_000,
            s <= 52,
            1 <= unit <= 0x10_0000_0000_0000,
            unit == power2::pow2(s as nat),
            fraction_bits(num as nat, den as nat, 52) == fraction_bits(
                num as nat,
                den as nat,
                s as nat,
            ),
        ensures
            unit == power2::pow2(fraction_bits(num as nat, den as nat, 52)),
        decreases s,
    {
        assert(num * unit <= 0x2_0000_0000_0000_0000 * 0x10_0000_0000_0000) by (nonlinear_arith)
            requires
                0 <= num < 0x2_0000_0000_0000_0000,
                0 <= unit <= 0x10_0000_0000_0000,
        ;
        if s == 0 || num * unit < den * 0x20_0000_0000_0000 {
            break;
        }
        proof {
            power2::lemma_pow2_unfold(s as nat);
            power2::lemma_pow2_pos((s - 1) as nat);
        }
        unit = unit / 2;
        s = s - 1;
    }
    assert(num * unit <= 0x2_0000_0000_0000_0000 * 0x10_0000_0000_0000) by (nonlinear_arith)
        requires
            0 <= num < 0x2_0000_0000_0000_0000,
            0 <= unit <= 0x10_0000_0000_0000,
    ;
    let quotient = round_nearest_even(num * unit, den);
    round_nearest_even(10 * quotient, unit)
}

/// A number of tenths with a decimal point.
fn format_tenths(tenths: u128) -> (r: String)
    ensures
        r@ == tenths_text(tenths as nat),
{
    let whole = text::decimal_text(tenths / 10);
    let rest = text::decimal_text(tenths % 10);
    text::concat3(whole.as_str(), ".", rest.as_str())
}

/// Format token count.
pub fn format_token_count(count: usize) -> (r: String)
    ensures
        r@ == token_count_text(count as nat),
{
    let n = count as u128;
    if n < 1_000 {
        text::decimal_text(n)
    } else if n < 1_000_000 {
        let shown = format_tenths(round_to_tenths(n, 1_000));
        text::concat2(shown.as_str(), "K")
    } else {
        let shown = format_tenths(round_to_tenths(round_to_double(n), 1_000_000));
        text::concat2(shown.as_str(), "M")
    }
}

} // verus!
