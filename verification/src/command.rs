//! What the outcome of one Git command means: success, a failure with Git's
//! own message, or a failure with the caller's message.
use vstd::prelude::*;

use crate::git::{trimmed_text, trimmed_utf8, MAX_GIT_OUTPUT_BYTES};
use crate::remote::{github_repository, parse_github_remote};
use crate::text::{lossy_utf8, owned, trim, trim_str, utf8_lossy};
use crate::AppError;

verus! {

/// What a Git command that ran left behind: whether it succeeded, and what it
/// wrote to its standard output and standard error.
#[derive(Debug, Clone)]
pub struct GitOutput {
    pub success: bool,
    pub stdout: Vec<u8>,
    pub stderr: Vec<u8>,
}

/// The message of a failed Git command: its trimmed standard error, or a
/// generic message when that is empty.
pub open spec fn git_failure_message(stderr: Seq<u8>) -> Seq<char> {
    let detail = trim(lossy_utf8(stderr));
    if detail.len() == 0 {
        "Git command failed"@
    } else {
        detail
    }
}

/// A Git command's outcome, failing with Git's own message.
pub fn run_git(output: GitOutput) -> (r: Result<GitOutput, AppError>)
    ensures
        output.success ==> r == Ok::<GitOutput, AppError>(output),
        !output.success ==> (r matches Err(e) && e.0@ == git_failure_message(output.stderr@)),
{
    if output.success {
        Ok(output)
    } else {
        let text = utf8_lossy(output.stderr.as_slice());
        let detail = trim_str(text.as_str());
        if detail.as_str().is_empty() {
            Err(AppError(owned("Git command failed")))
        } else {
            Err(AppError(detail))
        }
    }
}

/// A Git command's outcome, failing with `message`.
pub fn run_git_checked(output: GitOutput, message: String) -> (r: Result<GitOutput, AppError>)
    ensures
        output.success ==> r == Ok::<GitOutput, AppError>(output),
        !output.success ==> (r matches Err(e) && e.0@ == message@),
{
    if output.success {
        Ok(output)
    } else {
        Err(AppError(message))
    }
}

/// The text a Git command printed, failing with `message`.
pub open spec fn git_text_result(output: GitOutput, message: Seq<char>) -> Result<
    Seq<char>,
    Seq<char>,
> {
    if !output.success {
        Err(message)
    } else {
        trimmed_text(output.stdout@, "Git output"@)
    }
}

/// The text a Git command printed, without line breaks at its end; the
/// command failing gives `message`.
pub fn git_text(output: GitOutput, message: String) -> (r: Result<String, AppError>)
    ensures
        match r {
            Ok(s) => git_text_result(output, message@) == Ok::<Seq<char>, Seq<char>>(s@),
            Err(e) => git_text_result(output, message@) == Err::<Seq<char>, Seq<char>>(e.0@),
        },
{
    let output = run_git_checked(output, message)?;
    trimmed_utf8(output.stdout.as_slice(), "Git output")
}

/// The GitHub repository that the `origin` remote names, from the outcome of
/// `git config --get remote.origin.url`: nothing when Git could not run,
/// failed, printed no UTF-8, or named no GitHub repository.
pub open spec fn remote_repository(outcome: Result<GitOutput, AppError>) -> Option<Seq<char>> {
    match outcome {
        Err(_) => None,
        Ok(output) => if !output.success {
            None
        } else {
            match trimmed_text(output.stdout@, "Git remote URL"@) {
                Err(_) => None,
                Ok(url) => github_repository(url),
            }
        },
    }
}

/// The GitHub repository of the `origin` remote, if there is one.
pub fn github_remote(outcome: Result<GitOutput, AppError>) -> (r: Option<String>)
    ensures
        match r {
            Some(s) => remote_repository(outcome) == Some(s@),
            None => remote_repository(outcome) is None,
        },
{
    let output = match outcome {
        Err(_) => {
            return None;
        },
        Ok(output) => output,
    };
    if !output.success {
        return None;
    }
    match trimmed_utf8(output.stdout.as_slice(), "Git remote URL") {
        Err(_) => None,
        Ok(url) => parse_github_remote(url.as_str()),
    }
}

// ---------------------------------------------------------------------------
// Reading a bounded stream
// ---------------------------------------------------------------------------

/// Declares `std::io::Error`, carried through unread.
#[verifier::external_type_specification]
#[verifier::external_body]
pub struct ExIoError(std::io::Error);

/// Declares `std::io::Take`, the reader that `Read::take` gives, carried
/// through unread.
#[verifier::external_type_specification]
#[verifier::external_body]
#[verifier::reject_recursive_types(R)]
pub struct ExTake<R>(std::io::Take<R>);

/// Calls `Read::take`: a reader that ends after `limit` bytes of `reader`.
#[verifier::external_body]
fn take_bytes<R: std::io::Read>(reader: R, limit: u64) -> std::io::Take<R> {
    reader.take(limit)
}

/// Calls `Read::read_to_end`: on success the bytes read were appended to
/// `buffer` and their number is returned.
#[verifier::external_body]
fn read_to_end<R: std::io::Read>(reader: &mut R, buffer: &mut Vec<u8>) -> (r: std::io::Result<
    usize,
>)
    ensures
        r matches Ok(n) ==> {
            &&& final(buffer)@.len() == old(buffer)@.len() + n
            &&& final(buffer)@.take(old(buffer)@.len() as int) == old(buffer)@
        },
{
    reader.read_to_end(buffer)
}

/// The error that `std::io::Error::other` makes of `message`: of kind
/// `ErrorKind::Other`, displayed as `message`.
pub uninterp spec fn other_io_error(message: Seq<char>) -> std::io::Error;

/// Calls `std::io::Error::other` with `message`, whose result is named
/// `other_io_error`.
#[verifier::external_body]
fn io_error(message: &str) -> (e: std::io::Error)
    ensures
        e == other_io_error(message@),
{
    std::io::Error::other(message.to_owned())
}

/// The message of a Git output stream above the limit.
pub open spec fn output_too_large() -> Seq<char> {
    "output exceeded the 5 MiB safety limit"@
}

/// Holds what was read of a Git command's output stream to the limit: the
/// bytes themselves when there are at most `MAX_GIT_OUTPUT_BYTES` of them, the
/// read's own error when it failed, else the error that says the output was
/// too large.
pub fn limit_git_output(read: std::io::Result<Vec<u8>>) -> (r: std::io::Result<Vec<u8>>)
    ensures
        match read {
            Ok(bytes) => if bytes.len() <= MAX_GIT_OUTPUT_BYTES {
                r == Ok::<Vec<u8>, std::io::Error>(bytes)
            } else {
                r == Err::<Vec<u8>, std::io::Error>(other_io_error(output_too_large()))
            },
            Err(error) => r == Err::<Vec<u8>, std::io::Error>(error),
        },
{
    match read {
        Ok(output) => {
            if output.len() as u64 > MAX_GIT_OUTPUT_BYTES {
                Err(io_error("output exceeded the 5 MiB safety limit"))
            } else {
                Ok(output)
            }
        },
        Err(error) => Err(error),
    }
}

/// Reads a Git command's output stream, failing once it holds more than
/// `MAX_GIT_OUTPUT_BYTES` bytes.
pub fn read_git_output<R: std::io::Read>(reader: R) -> (r: std::io::Result<Vec<u8>>)
    ensures
        r matches Ok(v) ==> v.len() <= MAX_GIT_OUTPUT_BYTES,
{
    let mut output: Vec<u8> = Vec::new();
    let mut limited = take_bytes(reader, MAX_GIT_OUTPUT_BYTES + 1);
    let read = match read_to_end(&mut limited, &mut output) {
        Ok(_) => Ok(output),
        Err(error) => Err(error),
    };
    limit_git_output(read)
}

} // verus!
