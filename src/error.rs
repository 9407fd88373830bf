use vstd::prelude::*;

verus! {

/// What can go wrong in this library.
#[derive(Debug)]
pub enum Error {
    /// A native call returned a nonzero status; holds the engine's last error text.
    NativeCallFailure(String),
    /// An argument could not be handed to the engine; raised before any native call.
    EncodingFailure(String),
}

/// Results of this library.
pub type Result<T> = core::result::Result<T, Error>;

/// The status code with which every native entry point reports success.
pub const STATUS_OK: i32 = 0;

/// Whether a native status code reports a failure, so that the engine's last
/// error text has to be read before any other native call.
pub fn is_failure(status: i32) -> (r: bool)
    ensures
        r == (status != STATUS_OK),
{
    status != STATUS_OK
}

/// Turns a native status code into a result. `last_error` is the engine's last
/// error text, read right after the call; it is kept only on failure.
pub fn check_call(status: i32, last_error: String) -> (r: Result<()>)
    ensures
        status == STATUS_OK ==> r is Ok,
        status != STATUS_OK ==> (r matches Err(Error::NativeCallFailure(m)) && m@ == last_error@),
{
    if status == STATUS_OK {
        Ok(())
    } else {
        Err(Error::NativeCallFailure(last_error))
    }
}

} // verus!
