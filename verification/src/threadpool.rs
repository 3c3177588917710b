use vstd::prelude::*;

verus! {

/// Why a thread pool cannot be made.
#[derive(Debug, Clone, Copy, PartialEq, Eq, Structural)]
pub enum PoolCreationError {
    InvalidThreadCount,
}

impl PoolCreationError {
    /// The text that the error displays.
    pub fn message(&self) -> (m: String)
        ensures
            m@ == "thread count must be >= 1"@,
    {
        match self {
            PoolCreationError::InvalidThreadCount => String::from_str("thread count must be >= 1"),
        }
    }
}

/// A pool needs at least one worker thread: a size of 0 is refused, any other size
/// accepted.
pub fn check_size(size: usize) -> (r: Result<(), PoolCreationError>)
    ensures
        r is Err <==> size == 0,
        r matches Err(e) ==> e == PoolCreationError::InvalidThreadCount,
{
    if size == 0 {
        return Err(PoolCreationError::InvalidThreadCount);
    }
    Ok(())
}

} // verus!
