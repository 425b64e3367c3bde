use vstd::prelude::*;

use crate::error::{Error, IoKind};

verus! {

/// A read on a stream under a deadline that returned nothing into a
/// non-empty buffer may mean that the watcher shut the socket down: the
/// reader then tries to cancel the watcher to find out.
pub fn needs_cancel(read: usize, buf_len: usize) -> (r: bool)
    ensures
        r == (read == 0 && buf_len > 0),
{
    read == 0 && buf_len > 0
}

/// The result of such a read: where the cancel could not be delivered
/// because the watcher already fired, the read timed out; otherwise the
/// count stands.
pub fn read_outcome(read: usize, buf_len: usize, cancel_delivered: bool) -> (r: Result<
    usize,
    Error,
>)
    ensures
        r == if read == 0 && buf_len > 0 && !cancel_delivered {
            Err::<usize, Error>(Error::Io(IoKind::TimedOut))
        } else {
            Ok(read)
        },
{
    if needs_cancel(read, buf_len) && !cancel_delivered {
        Err(Error::Io(IoKind::TimedOut))
    } else {
        Ok(read)
    }
}

} // verus!
