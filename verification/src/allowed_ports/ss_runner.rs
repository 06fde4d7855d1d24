//! What the run of `ss -H -tulnp` gives back.
use vstd::prelude::*;
use vstd::utf8::{decode_utf8, valid_utf8};

verus! {

/// Why the listing of sockets could not be had.
#[derive(Clone, Debug, PartialEq, Eq)]
pub enum SsInvokeError {
    /// The command could not be started; the message says why.
    ErrorInvocation(String),
    /// The command exited with a failure status; the message is what it wrote
    /// to its error stream.
    WrongStatusCode(String),
}

/// The text that `String::from_utf8_lossy` makes of `bytes`.
pub uninterp spec fn utf8_lossy(bytes: Seq<u8>) -> Seq<char>;

/// `String::from_utf8_lossy`: the contract claims that the text is the named
/// [`utf8_lossy`] of the bytes and, as the function's documentation says, that
/// valid UTF-8 is decoded unchanged. How invalid sequences are replaced is not
/// stated.
#[verifier::external_body]
fn lossy_string(bytes: &[u8]) -> (s: String)
    ensures
        s@ == utf8_lossy(bytes@),
        valid_utf8(bytes@) ==> s@ == decode_utf8(bytes@),
{
    String::from_utf8_lossy(bytes).into_owned()
}

/// Runs `ss`; the run itself is the application's.
pub struct SsRunner;

impl SsRunner {
    /// What a finished run of `ss` gives: its output when it succeeded, else
    /// the failure with what it wrote to its error stream.
    pub fn from_output(success: bool, stdout: &[u8], stderr: &[u8]) -> (r: Result<String, SsInvokeError>)
        ensures
            success ==> (r matches Ok(out) && out@ == utf8_lossy(stdout@)),
            !success ==> (r matches Err(SsInvokeError::WrongStatusCode(msg)) && msg@ == utf8_lossy(stderr@)),
            success && valid_utf8(stdout@) ==> (r matches Ok(out) && out@ == decode_utf8(stdout@)),
    {
        if !success {
            return Err(SsInvokeError::WrongStatusCode(lossy_string(stderr)));
        }
        Ok(lossy_string(stdout))
    }
}

} // verus!
