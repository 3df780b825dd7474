use siff::path::{Component, FilePath};
use siff::path_map::PathMap;
use siff::token_counter::{
    counting_concurrency, format_token_count, reported_count, tokenization_permits, tokenize, Encoder,
    TokenCounter, TokenError,
};

fn path(name: &str) -> FilePath {
    FilePath { components: vec![Component::Normal(name.to_string())] }
}

fn as_floats(count: usize) -> String {
    if count < 1000 {
        count.to_string()
    } else if count < 1_000_000 {
        format!("{:.1}K", count as f64 / 1000.0)
    } else {
        format!("{:.1}M", count as f64 / 1_000_000.0)
    }
}

#[test]
fn test_format_token_count() {
    assert_eq!(format_token_count(500), "500");
    assert_eq!(format_token_count(1500), "1.5K");
    assert_eq!(format_token_count(1500000), "1.5M");
}

#[test]
fn format_at_the_limits() {
    assert_eq!(format_token_count(0), "0");
    assert_eq!(format_token_count(999), "999");
    assert_eq!(format_token_count(1000), "1.0K");
    assert_eq!(format_token_count(999_949), "999.9K");
    assert_eq!(format_token_count(999_950), as_floats(999_950));
    assert_eq!(format_token_count(999_999), "1000.0K");
    assert_eq!(format_token_count(1_000_000), "1.0M");
}

#[test]
fn format_agrees_with_floats_up_to_two_million() {
    let mut count: usize = 0;
    while count <= 2_000_000 {
        assert_eq!(format_token_count(count), as_floats(count));
        count += 7;
    }
}

#[test]
fn format_agrees_with_floats_on_ties() {
    let mut count: usize = 1050;
    while count < 1_000_000 {
        assert_eq!(format_token_count(count), as_floats(count));
        count += 100;
    }
    let mut large: usize = 1_050_000;
    while large < 400_000_000 {
        assert_eq!(format_token_count(large), as_floats(large));
        large += 100_000;
    }
}

#[test]
fn format_agrees_with_floats_on_huge_counts() {
    let mut seed: u64 = 0x9E37_79B9_7F4A_7C15;
    let mut i = 0;
    while i < 5000 {
        seed = seed.wrapping_mul(6364136223846793005).wrapping_add(1442695040888963407);
        let count = (seed >> (i % 40)) as usize;
        assert_eq!(format_token_count(count), as_floats(count));
        i += 1;
    }
    assert_eq!(format_token_count(usize::MAX), as_floats(usize::MAX));
    assert_eq!(format_token_count((1 << 53) + 1), as_floats((1 << 53) + 1));
}

#[test]
fn encoder_counts_known_texts() {
    let encoder = Encoder::new().unwrap();
    assert_eq!(encoder.count_tokens(""), Some(0));
    assert_eq!(encoder.count_tokens("hello world"), Some(2));
    assert_eq!(encoder.count_tokens("<|endoftext|>"), Some(1));
    assert_eq!(encoder.count_tokens("hello world<|endoftext|>"), Some(3));
}

#[test]
fn unreadable_files_have_no_tokens() {
    assert_eq!(tokenize(None, None), Ok(0));
    assert_eq!(tokenize(Some("text"), None), Err(TokenError::EncoderUnavailable));
    assert_eq!(reported_count(Err(TokenError::EncoderUnavailable)), 0);
    assert_eq!(reported_count(Err(TokenError::TokenizationFailed)), 0);
    assert_eq!(reported_count(Ok(7)), 7);
}

#[test]
fn counts_are_cached_by_path() {
    let encoder = Encoder::new().unwrap();
    let mut counter = TokenCounter::new();
    assert_eq!(counter.cached_count(&path("a")), None);
    assert_eq!(counter.count_file_tokens(&path("a"), Some("hello world"), Some(&encoder)), Ok(2));
    assert_eq!(counter.cached_count(&path("a")), Some(2));
    // the file has changed, the count stays
    assert_eq!(counter.count_file_tokens(&path("a"), Some("hello"), Some(&encoder)), Ok(2));
    assert_eq!(counter.count_file_tokens(&path("b"), Some("hello"), Some(&encoder)), Ok(1));
    assert_eq!(counter.cached_count(&path("a")), Some(2));
}

#[test]
fn errors_are_not_cached() {
    let mut counter = TokenCounter::new();
    assert_eq!(
        counter.count_file_tokens(&path("a"), Some("hello"), None),
        Err(TokenError::EncoderUnavailable)
    );
    assert_eq!(counter.cached_count(&path("a")), None);
    assert_eq!(
        counter.record(&path("a"), Err(TokenError::TokenizationFailed)),
        Err(TokenError::TokenizationFailed)
    );
    assert_eq!(counter.record(&path("a"), Ok(3)), Ok(3));
    assert_eq!(counter.record(&path("a"), Ok(4)), Ok(3));
}

#[test]
fn shared_cache_is_used() {
    let mut cache: PathMap<usize> = PathMap::new();
    cache.insert(path("a"), 9);
    let mut counter = TokenCounter::with_shared_cache(cache);
    assert_eq!(counter.count_file_tokens(&path("a"), Some("hello"), None), Ok(9));
}

#[test]
fn concurrency_is_clamped() {
    assert_eq!(counting_concurrency(None), 4);
    assert_eq!(counting_concurrency(Some(1)), 2);
    assert_eq!(counting_concurrency(Some(6)), 6);
    assert_eq!(counting_concurrency(Some(64)), 8);
    assert_eq!(tokenization_permits(None), 8);
    assert_eq!(tokenization_permits(Some(3)), 6);
}
