//! The blocking-call bridge and the raw results of native calls.
//!
//! Native calls that may block indefinitely run on a separate execution
//! context; the calling task gets back either the call's raw result or a
//! dispatch failure. Native calls that fill a text buffer hand back the raw
//! return code and the buffer; the functions here turn the error-query buffer
//! into typed text.

use vstd::prelude::*;
use crate::errors::TailscaleError;
use crate::text::{first_index, is_utf8, lemma_first_index, find_range, utf8_prefix_check,
    copy_range};

verus! {

/// The raw result of one native call that fills a caller-allocated buffer:
/// the call's return code and the buffer as handed back.
pub struct NativeFetch {
    pub ret: i32,
    pub buf: Vec<u8>,
}

/// What the blocking-call bridge handed back: the dispatched call's raw
/// result, or the failure to dispatch at all.
pub enum BridgeOutcome {
    /// The call ran; `ret` is its return code and `out` the descriptor it
    /// wrote, where it writes one.
    Completed { ret: i32, out: i32 },
    /// The bridge could not run the call.
    DispatchFailed,
}

/// What the error-query result means: a positive return code is a failure of
/// the query itself; otherwise the buffer holds the error text, NUL-terminated
/// and in well-formed UTF-8.
pub open spec fn errmsg_spec(ret: i32, buf: Seq<u8>) -> Result<Seq<u8>, TailscaleError> {
    if ret > 0 {
        Err(TailscaleError::ErrmsgFailed(ret))
    } else {
        match first_index(buf, 0u8) {
            None => Err(TailscaleError::NullError),
            Some(n) => if is_utf8(buf.take(n)) {
                Ok(buf.take(n))
            } else {
                Err(TailscaleError::Utf8ContentError)
            },
        }
    }
}

/// Extracts the last-error text from the raw error-query result.
pub fn get_error_message(f: &NativeFetch) -> (r: Result<Vec<u8>, TailscaleError>)
    ensures
        match r {
            Ok(v) => errmsg_spec(f.ret, f.buf@) == Ok::<Seq<u8>, TailscaleError>(v@),
            Err(e) => errmsg_spec(f.ret, f.buf@) == Err::<Seq<u8>, TailscaleError>(e),
        },
{
    if f.ret > 0 {
        return Err(TailscaleError::ErrmsgFailed(f.ret));
    }
    proof {
        lemma_first_index(f.buf@, 0u8);
    }
    match find_range(f.buf.as_slice(), 0, f.buf.len(), 0u8) {
        None => Err(TailscaleError::NullError),
        Some(n) => {
            proof {
                assert(first_index(f.buf@, 0u8) == Some(n as int));
                assert(f.buf@.take(n as int) =~= f.buf@.subrange(0, n as int));
            }
            if utf8_prefix_check(f.buf.as_slice(), n) {
                Ok(copy_range(f.buf.as_slice(), 0, n))
            } else {
                Err(TailscaleError::Utf8ContentError)
            }
        },
    }
}

} // verus!
