//! The two-phase push exchange.
//!
//! The client sends the push command and waits for an acknowledgement, which
//! is empty when the server is ready for the payload. It then sends
//! `<length> LF`, the payload and the `0 LF` trailer. A bundle2 payload gets
//! a streamed bundle back; any other gets two replies: the server's output,
//! then the result.
use vstd::prelude::*;
use crate::wire::{decimal, decimal_bytes, NEWLINE};

verus! {

/// The magic prefix of a bundle2 container: `HG20`.
pub open spec fn bundle2_magic() -> Seq<u8> {
    seq![72u8, 71u8, 50u8, 48u8]
}

/// Whether a payload of declared length `len` whose first bytes are `prefix`
/// is a bundle2 container. Payloads of four bytes or fewer never are.
pub open spec fn bundle2_spec(len: u64, prefix: Seq<u8>) -> bool {
    len > 4 && prefix.len() >= 4 && prefix.take(4) == bundle2_magic()
}

pub fn is_bundle2(len: u64, prefix: &[u8]) -> (r: bool)
    ensures
        r == bundle2_spec(len, prefix@),
        len <= 4 ==> !r,
{
    if len <= 4 || prefix.len() < 4 {
        return false;
    }
    let r = prefix[0] == 72 && prefix[1] == 71 && prefix[2] == 50 && prefix[3] == 48;
    assert(r == (prefix@.take(4) =~= bundle2_magic()));
    r
}

/// `<len> LF`, sent before the payload.
pub open spec fn payload_header_spec(len: u64) -> Seq<u8> {
    decimal(len as nat).push(NEWLINE)
}

/// `0 LF`, sent after the payload.
pub open spec fn payload_trailer() -> Seq<u8> {
    seq![48u8, NEWLINE]
}

pub fn payload_header(len: u64) -> (r: Vec<u8>)
    ensures
        r@ == payload_header_spec(len),
{
    let mut r = decimal_bytes(len);
    r.push(NEWLINE);
    r
}

pub fn payload_trailer_bytes() -> (r: Vec<u8>)
    ensures
        r@ == payload_trailer(),
{
    let r = vec![48u8, NEWLINE];
    assert(r@ =~= payload_trailer());
    r
}

/// Where the exchange stands: which reply it waits for.
#[derive(Debug, Clone, Copy, PartialEq, Eq, Structural)]
pub enum PushStage {
    /// The acknowledgement that comes before the payload.
    AwaitAck,
    /// The server's output, the first reply after a plain payload.
    AwaitOutput,
    /// The result, the second reply after a plain payload.
    AwaitResult,
    /// Nothing more: the exchange ended, or the reply comes as a stream.
    Done,
}

/// What the caller does next.
pub enum PushAction {
    /// Send `header`, the payload and the trailer; then read the reply as a
    /// streamed bundle, which ends the exchange.
    SendPayloadThenStream { header: Vec<u8>, trailer: Vec<u8> },
    /// Send `header`, the payload and the trailer; then read one reply.
    SendPayloadThenRead { header: Vec<u8>, trailer: Vec<u8> },
    /// Read one more reply.
    ReadResponse,
    /// The push went through: the server's output and its result.
    Complete { output: Vec<u8>, result: Vec<u8> },
    /// The server answered the command with a non-empty acknowledgement,
    /// as it does when it refuses the push (a lost push race): the payload
    /// was not sent.
    Rejected { ack: Vec<u8> },
}

/// The client's side of one push.
pub struct PushHandshake {
    pub len: u64,
    pub bundle2: bool,
    pub stage: PushStage,
    pub output: Vec<u8>,
}

impl PushHandshake {
    /// Starts a push of `len` bytes whose first bytes are `prefix`, once the
    /// push command has been sent.
    pub fn new(len: u64, prefix: &[u8]) -> (r: PushHandshake)
        ensures
            r.len == len,
            r.bundle2 == bundle2_spec(len, prefix@),
            r.stage == PushStage::AwaitAck,
            r.output@ == Seq::<u8>::empty(),
    {
        PushHandshake { len, bundle2: is_bundle2(len, prefix), stage: PushStage::AwaitAck, output: Vec::new() }
    }

    /// Takes the reply the exchange waited for and says what comes next.
    pub fn on_response(&mut self, body: Vec<u8>) -> (r: PushAction)
        requires
            old(self).stage != PushStage::Done,
        ensures
            final(self).len == old(self).len,
            final(self).bundle2 == old(self).bundle2,
            old(self).stage == PushStage::AwaitAck ==> final(self).output == old(self).output,
            old(self).stage == PushStage::AwaitAck && body@.len() > 0 ==> final(self).stage
                == PushStage::Done && r == (PushAction::Rejected { ack: body }),
            old(self).stage == PushStage::AwaitAck && body@.len() == 0 && old(self).bundle2
                ==> final(self).stage == PushStage::Done && match r {
                PushAction::SendPayloadThenStream { header, trailer } => header@
                    == payload_header_spec(old(self).len) && trailer@ == payload_trailer(),
                _ => false,
            },
            old(self).stage == PushStage::AwaitAck && body@.len() == 0 && !old(self).bundle2
                ==> final(self).stage == PushStage::AwaitOutput && match r {
                PushAction::SendPayloadThenRead { header, trailer } => header@
                    == payload_header_spec(old(self).len) && trailer@ == payload_trailer(),
                _ => false,
            },
            old(self).stage == PushStage::AwaitOutput ==> final(self).stage
                == PushStage::AwaitResult && final(self).output == body && r
                == PushAction::ReadResponse,
            old(self).stage == PushStage::AwaitResult ==> final(self).stage == PushStage::Done
                && r == (PushAction::Complete { output: old(self).output, result: body }),
    {
        match self.stage {
            PushStage::AwaitAck => {
                if body.len() > 0 {
                    self.stage = PushStage::Done;
                    return PushAction::Rejected { ack: body };
                }
                let header = payload_header(self.len);
                let trailer = payload_trailer_bytes();
                if self.bundle2 {
                    self.stage = PushStage::Done;
                    PushAction::SendPayloadThenStream { header, trailer }
                } else {
                    self.stage = PushStage::AwaitOutput;
                    PushAction::SendPayloadThenRead { header, trailer }
                }
            },
            PushStage::AwaitOutput => {
                self.stage = PushStage::AwaitResult;
                self.output = body;
                PushAction::ReadResponse
            },
            _ => {
                self.stage = PushStage::Done;
                let mut output: Vec<u8> = Vec::new();
                core::mem::swap(&mut output, &mut self.output);
                PushAction::Complete { output, result: body }
            },
        }
    }
}

} // verus!
