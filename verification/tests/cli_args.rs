use dlmgr::cli::{parse_expected_sha256, Args, ArgsError, ConsumerChoice, LogLevel};
use std::path::PathBuf;

fn args(output: Option<&str>, hash: Option<&str>, verbose: bool) -> Args {
    Args {
        verbose,
        url: vec!["http://127.0.0.1/x".to_string()],
        output: output.map(PathBuf::from),
        expected_sha256: hash.map(|h| h.to_string()),
    }
}

const HASH: &str = "ba7816bf8f01cfea414140de5dae2223b00361a396177a9cb410ff61f20015ad";

#[test]
fn log_level_follows_verbose() {
    assert_eq!(args(None, None, true).log_level(), LogLevel::Debug);
    assert_eq!(args(None, None, false).log_level(), LogLevel::Info);
}

#[test]
fn no_output_means_hash_only() {
    assert!(matches!(args(None, None, false).consumer_choice(), Ok(ConsumerChoice::HashOnly)));
}

#[test]
fn output_with_hash_means_verified_file() {
    match args(Some("/tmp/out.bin"), Some(HASH), false).consumer_choice() {
        Ok(ConsumerChoice::VerifiedFile { output, expected_sha256 }) => {
            assert_eq!(output, PathBuf::from("/tmp/out.bin"));
            assert_eq!(expected_sha256[0], 0xba);
            assert_eq!(expected_sha256[31], 0xad);
        }
        _ => panic!("expected a verified file"),
    }
}

#[test]
fn one_of_output_and_hash_is_refused() {
    assert!(matches!(
        args(Some("/tmp/x"), None, false).consumer_choice(),
        Err(ArgsError::IncompleteOutputOptions)
    ));
    assert!(matches!(
        args(None, Some(HASH), false).consumer_choice(),
        Err(ArgsError::IncompleteOutputOptions)
    ));
}

#[test]
fn expected_hash_must_be_32_hex_bytes() {
    assert!(matches!(parse_expected_sha256("xyz"), Err(ArgsError::InvalidHex(_))));
    assert!(matches!(parse_expected_sha256("abcd"), Err(ArgsError::DigestLength(2))));
    assert_eq!(parse_expected_sha256(&HASH.to_uppercase()).unwrap()[1], 0x78);
}
