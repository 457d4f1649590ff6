//! The requests of the wire protocol and what each side makes of the
//! other's signals.

use vstd::prelude::*;
use crate::digest::Digest;
use crate::page::PageId;
use crate::vfs::{CONFIRM, END, NO_FLAG, QUERY, YES_FLAG};

verus! {

/// A request of the client: a signal, a page id, and a chain of hashes,
/// which is empty but for a request to confirm.
#[derive(Debug)]
pub struct Request {
    pub tag: u32,
    pub p_id: PageId,
    pub digs: Vec<Digest>,
}

/// Why a session was not opened.
#[derive(Clone, Copy, Debug, PartialEq, Eq, Structural)]
pub enum HandshakeError {
    /// The server said no.
    Refused,
    /// The server answered with a signal that is neither yes nor no.
    UnknownSignal,
}

/// Why the proof was not sent.
#[derive(Clone, Copy, Debug, PartialEq, Eq, Structural)]
pub enum TransferError {
    /// The client did not acknowledge the length of the proof.
    NotAcknowledged,
}

/// The request that ends a statement.
pub fn end_request() -> (r: Request)
    ensures
        r.tag == END,
        r.p_id == PageId(0),
        r.digs@ == Seq::<Digest>::empty(),
{
    Request { tag: END, p_id: PageId(0), digs: Vec::new() }
}

/// The request for the bytes of a page.
pub fn require_page(pid: PageId) -> (r: Request)
    ensures
        r.tag == QUERY,
        r.p_id == pid,
        r.digs@ == Seq::<Digest>::empty(),
{
    Request { tag: QUERY, p_id: pid, digs: Vec::new() }
}

/// The request to confirm the chain of hashes `path` above a cached page.
pub fn confirm_request(pid: PageId, path: Vec<Digest>) -> (r: Request)
    ensures
        r.tag == CONFIRM,
        r.p_id == pid,
        r.digs == path,
{
    Request { tag: CONFIRM, p_id: pid, digs: path }
}

/// What the client makes of the server's answer to its first signal.
pub fn hand_shake(sig: u32) -> (r: Result<(), HandshakeError>)
    ensures
        sig == YES_FLAG ==> r == Ok::<(), HandshakeError>(()),
        sig == NO_FLAG ==> r == Err::<(), HandshakeError>(HandshakeError::Refused),
        sig != YES_FLAG && sig != NO_FLAG ==> r == Err::<(), HandshakeError>(
            HandshakeError::UnknownSignal,
        ),
{
    if sig == YES_FLAG {
        Ok(())
    } else if sig == NO_FLAG {
        Err(HandshakeError::Refused)
    } else {
        Err(HandshakeError::UnknownSignal)
    }
}

/// Whether the server's answer to a request to confirm is a yes. Any
/// other answer is followed by the bytes of the page.
pub fn is_confirmed(resp: u32) -> (r: bool)
    ensures
        r == (resp == YES_FLAG),
{
    resp == YES_FLAG
}

/// What the server makes of the client's answer to the length of the
/// proof: the proof is sent after a yes and not otherwise.
pub fn receive_proof(ack: u32) -> (r: Result<(), TransferError>)
    ensures
        ack == YES_FLAG ==> r == Ok::<(), TransferError>(()),
        ack != YES_FLAG ==> r == Err::<(), TransferError>(TransferError::NotAcknowledged),
{
    if ack == YES_FLAG {
        Ok(())
    } else {
        Err(TransferError::NotAcknowledged)
    }
}

} // verus!
