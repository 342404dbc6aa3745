//! Classification of one run of the version-control tool.
use vstd::prelude::*;

verus! {

/// The text that lossy UTF-8 decoding makes of a byte sequence.
pub uninterp spec fn lossy_text(b: Seq<u8>) -> Seq<char>;

/// Relies on `String::from_utf8_lossy`: the decoded text depends on the bytes alone.
#[verifier::external_body]
fn decode_lossy(b: &[u8]) -> (r: String)
    ensures
        r@ == lossy_text(b@),
{
    String::from_utf8_lossy(b).into_owned()
}

/// Sorts a finished run into one of four outcomes. A zero exit status gives `Ok`, a
/// non-zero one `Err`. Each carries the decoded text of its stream (standard output on
/// success, standard error on failure) when that stream is not empty, and `None` when it is.
pub fn handle_process_output(success: bool, stdout: &[u8], stderr: &[u8]) -> (r: Result<
    Option<String>,
    Option<String>,
>)
    ensures
        success && stdout@.len() == 0 ==> r == Ok::<Option<String>, Option<String>>(None),
        success && stdout@.len() > 0 ==> (r matches Ok(Some(t)) && t@ == lossy_text(stdout@)),
        !success && stderr@.len() == 0 ==> r == Err::<Option<String>, Option<String>>(None),
        !success && stderr@.len() > 0 ==> (r matches Err(Some(t)) && t@ == lossy_text(stderr@)),
{
    if !success {
        if stderr.len() > 0 {
            return Err(Some(decode_lossy(stderr)));
        }
        return Err(None);
    }
    if stdout.len() > 0 {
        return Ok(Some(decode_lossy(stdout)));
    }
    Ok(None)
}

} // verus!
