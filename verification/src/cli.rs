//! What the command-line downloader makes of its arguments.
use vstd::prelude::*;
use crate::hashing::{hex_decode, hex_decoded, is_hex_text};

verus! {

#[verifier::external_type_specification]
#[verifier::external_body]
pub struct ExPathBuf(std::path::PathBuf);

/// Calls `PathBuf::clone`, which copies the path.
#[verifier::external_body]
fn clone_path(p: &std::path::PathBuf) -> (r: std::path::PathBuf)
    ensures
        r == *p,
{
    p.clone()
}

/// The arguments of the command-line downloader.
pub struct Args {
    pub verbose: bool,
    pub url: Vec<String>,
    pub output: Option<std::path::PathBuf>,
    pub expected_sha256: Option<String>,
}

/// How much the downloader logs.
#[derive(Clone, Copy, Debug, PartialEq, Eq, Structural)]
pub enum LogLevel {
    Debug,
    Info,
}

/// Where the downloaded bytes go.
pub enum ConsumerChoice {
    /// Into `output`, kept only when the file's SHA-256 is `expected_sha256`.
    VerifiedFile { output: std::path::PathBuf, expected_sha256: [u8; 32] },
    /// Nowhere: the bytes are only hashed.
    HashOnly,
}

/// Arguments that do not make a download.
#[derive(Debug)]
pub enum ArgsError {
    /// The expected digest is not hex text.
    InvalidHex(hex::FromHexError),
    /// The expected digest is hex, but of this many bytes instead of 32.
    DigestLength(usize),
    /// Only one of `output` and `expected_sha256` was given.
    IncompleteOutputOptions,
}

/// Reads an expected SHA-256 digest from hex text.
pub fn parse_expected_sha256(text: &str) -> (r: Result<[u8; 32], ArgsError>)
    ensures
        !is_hex_text(text@) ==> r matches Err(ArgsError::InvalidHex(_)),
        is_hex_text(text@) && hex_decoded(text@).len() != 32 ==> (r matches Err(
            ArgsError::DigestLength(n)) && n == hex_decoded(text@).len()),
        is_hex_text(text@) && hex_decoded(text@).len() == 32 ==> (r matches Ok(d) && d@
            == hex_decoded(text@)),
{
    match hex_decode(text) {
        Err(e) => Err(ArgsError::InvalidHex(e)),
        Ok(bytes) => {
            if bytes.len() != 32 {
                return Err(ArgsError::DigestLength(bytes.len()));
            }
            let mut digest = [0u8; 32];
            let mut i: usize = 0;
            while i < 32
                invariant
                    i <= 32,
                    bytes@.len() == 32,
                    forall|k: int| 0 <= k < i ==> digest@[k] == bytes@[k],
                decreases 32 - i,
            {
                digest.set(i, bytes[i]);
                i = i + 1;
            }
            assert(digest@ =~= bytes@);
            Ok(digest)
        },
    }
}

impl Args {
    /// Debug logging when verbose, informational logging otherwise.
    pub fn log_level(&self) -> (r: LogLevel)
        ensures
            r == (if self.verbose {
                LogLevel::Debug
            } else {
                LogLevel::Info
            }),
    {
        if self.verbose {
            LogLevel::Debug
        } else {
            LogLevel::Info
        }
    }

    /// A file checked against its digest when both are given, hashing only
    /// when neither is, and an error when only one is.
    pub fn consumer_choice(&self) -> (r: Result<ConsumerChoice, ArgsError>)
        ensures
            self.output is None && self.expected_sha256 is None ==> (r matches Ok(
                ConsumerChoice::HashOnly,
            )),
            (self.output is Some) != (self.expected_sha256 is Some) ==> (r matches Err(
                ArgsError::IncompleteOutputOptions,
            )),
            self.output is Some && self.expected_sha256 is Some ==> {
                let text = self.expected_sha256->Some_0@;
                &&& !is_hex_text(text) ==> (r matches Err(ArgsError::InvalidHex(_)))
                &&& is_hex_text(text) && hex_decoded(text).len() != 32 ==> (r matches Err(
                    ArgsError::DigestLength(_),
                ))
                &&& is_hex_text(text) && hex_decoded(text).len() == 32 ==> (r matches Ok(
                    ConsumerChoice::VerifiedFile { output, expected_sha256 },
                ) && output == self.output->Some_0 && expected_sha256@ == hex_decoded(text))
            },
    {
        match (&self.output, &self.expected_sha256) {
            (Some(output), Some(expected)) => {
                let expected_sha256 = parse_expected_sha256(expected.as_str())?;
                Ok(ConsumerChoice::VerifiedFile { output: clone_path(output), expected_sha256 })
            },
            (None, None) => Ok(ConsumerChoice::HashOnly),
            _ => Err(ArgsError::IncompleteOutputOptions),
        }
    }
}

} // verus!
