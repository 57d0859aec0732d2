use range_downloader::glue::{channel_of_version, contains_bytes, wrap_stderr, Channel};

#[test]
fn empty_stderr_falls_back_to_given_message() {
    let r = wrap_stderr(Vec::new(), String::from("fallback"));
    assert_eq!(r, "fallback");
}

#[test]
fn stderr_text_becomes_the_message() {
    let r = wrap_stderr(b"command not found".to_vec(), String::from("fallback"));
    assert_eq!(r, "command not found");
}

#[test]
fn invalid_utf8_stderr_falls_back() {
    let r = wrap_stderr(vec![0xff, 0xfe, 0xfd], String::from("fallback"));
    assert_eq!(r, "fallback");
}

#[test]
fn substring_search_finds_and_rejects() {
    assert!(contains_bytes(&b"2.19.0-444.4.beta".to_vec(), &b"beta".to_vec()));
    assert!(!contains_bytes(&b"2.19.0".to_vec(), &b"beta".to_vec()));
    assert!(contains_bytes(&b"abc".to_vec(), &b"".to_vec()));
    assert!(!contains_bytes(&b"ab".to_vec(), &b"abc".to_vec()));
    assert!(contains_bytes(&b"aab".to_vec(), &b"ab".to_vec()));
}

#[test]
fn channel_follows_version_string() {
    assert_eq!(channel_of_version(&b"2.19.0-374.1.dev".to_vec()), Channel::Dev);
    assert_eq!(channel_of_version(&b"2.19.0-444.4.beta".to_vec()), Channel::Beta);
    assert_eq!(channel_of_version(&b"2.18.5".to_vec()), Channel::Stable);
    // `dev` wins over `beta` when both occur
    assert_eq!(channel_of_version(&b"x.dev.beta".to_vec()), Channel::Dev);
}

#[test]
fn channel_names_match_the_archive_urls() {
    assert_eq!(Channel::Dev.as_str(), "dev");
    assert_eq!(Channel::Beta.as_str(), "beta");
    assert_eq!(Channel::Stable.as_str(), "stable");
}
