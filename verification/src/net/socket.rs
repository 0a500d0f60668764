use std::sync::Arc;
use vstd::prelude::*;
use crate::base::error::Error;
use crate::base::link::{run_backward, run_forward, Handler, Linkable, Settings};
use crate::base::state::Mode;

verus! {

/// The length of the prefix that tells a frame's length, in bytes.
pub const PREFIX_LENGTH: usize = 4;

/// The four bytes that stand for `length` in a frame: `length` modulo 2^32,
/// most significant byte first.
pub open spec fn length_prefix(length: nat) -> Seq<u8> {
    let n = length % 0x1_0000_0000;
    seq![
        (n / 0x100_0000) as u8,
        (n / 0x1_0000 % 0x100) as u8,
        (n / 0x100 % 0x100) as u8,
        (n % 0x100) as u8,
    ]
}

/// A message as it goes over the stream: the prefix with its length, then
/// the message.
pub open spec fn framed(payload: Seq<u8>) -> Seq<u8> {
    length_prefix(payload.len()) + payload
}

/// The length that the four bytes of a prefix stand for.
pub open spec fn prefix_value(prefix: Seq<u8>) -> nat {
    (prefix[0] as nat) * 0x100_0000 + (prefix[1] as nat) * 0x1_0000 + (prefix[2] as nat) * 0x100
        + (prefix[3] as nat)
}

/// The prefix of a message of `length` bytes.
pub fn encode_length(length: usize) -> (prefix: [u8; 4])
    ensures
        prefix@ == length_prefix(length as nat),
{
    let n: u64 = (length as u64) % 0x1_0000_0000;
    let prefix: [u8; 4] = [
        (n / 0x100_0000) as u8,
        (n / 0x1_0000 % 0x100) as u8,
        (n / 0x100 % 0x100) as u8,
        (n % 0x100) as u8,
    ];
    assert(prefix@ =~= length_prefix(length as nat));
    prefix
}

/// The length of the message that follows `prefix` on the stream.
pub fn frame_length(prefix: &[u8; 4]) -> (length: usize)
    ensures
        length == prefix_value(prefix@),
        length < 0x1_0000_0000,
{
    let value: u64 = (prefix[0] as u64) * 0x100_0000 + (prefix[1] as u64) * 0x1_0000 + (
    prefix[2] as u64) * 0x100 + (prefix[3] as u64);
    value as usize
}

/// A prefix tells the length that it was made for: exactly, for a message
/// shorter than 2^32 bytes, and modulo 2^32 for a longer one.
pub proof fn lemma_prefix_round_trip(length: nat)
    ensures
        length_prefix(length).len() == PREFIX_LENGTH,
        prefix_value(length_prefix(length)) == length % 0x1_0000_0000,
        length < 0x1_0000_0000 ==> prefix_value(length_prefix(length)) == length,
{
    let n = length % 0x1_0000_0000;
    assert(n == (n / 0x100_0000) * 0x100_0000 + (n / 0x1_0000 % 0x100) * 0x1_0000 + (n / 0x100
        % 0x100) * 0x100 + n % 0x100) by (nonlinear_arith)
        requires
            0 <= n < 0x1_0000_0000,
    ;
    assert(n / 0x100_0000 < 0x100) by (nonlinear_arith)
        requires
            0 <= n < 0x1_0000_0000,
    ;
}

/// A framed message is its prefix and then the message itself, so the
/// message can be cut out again by the length that the prefix tells.
pub proof fn lemma_frame_splits(payload: Seq<u8>)
    requires
        payload.len() < 0x1_0000_0000,
    ensures
        framed(payload).len() == PREFIX_LENGTH + payload.len(),
        prefix_value(framed(payload).subrange(0, PREFIX_LENGTH as int)) == payload.len(),
        framed(payload).subrange(PREFIX_LENGTH as int, framed(payload).len() as int) == payload,
{
    lemma_prefix_round_trip(payload.len());
    assert(framed(payload).subrange(0, PREFIX_LENGTH as int) == length_prefix(payload.len()));
}

/// Copies the first bytes of `source` into `buf`, as many as fit, and
/// returns how many.
fn copy_into(buf: &mut [u8], source: &[u8]) -> (copied: usize)
    ensures
        copied == if source@.len() < old(buf)@.len() {
            source@.len()
        } else {
            old(buf)@.len()
        },
        final(buf)@ == source@.subrange(0, copied as int) + old(buf)@.subrange(
            copied as int,
            old(buf)@.len() as int,
        ),
{
    let copied: usize = if source.len() < buf.len() {
        source.len()
    } else {
        buf.len()
    };
    let mut i: usize = 0;
    while i < copied
        invariant
            i <= copied,
            copied <= source@.len(),
            copied <= buf@.len(),
            buf@.len() == old(buf)@.len(),
            forall|j: int| 0 <= j < i ==> buf@[j] == source@[j],
            forall|j: int| i <= j < buf@.len() ==> buf@[j] == old(buf)@[j],
        decreases copied - i,
    {
        buf[i] = source[i];
        i += 1;
    }
    assert(buf@ =~= source@.subrange(0, copied as int) + old(buf)@.subrange(
        copied as int,
        old(buf)@.len() as int,
    ));
    copied
}

/// One end of a stream connection, as far as bytes are computed: the stages
/// that every message passes through, and the framing. Reading and writing
/// the stream is left to the caller, who hands over what was read and takes
/// what is to be written.
pub struct Socket<H> {
    #[allow(dead_code)]
    settings: Arc<Settings>,
    handlers: Vec<H>,
}

impl<H: Handler> Socket<H> {
    /// The connection's stages, in the order in which they were added.
    pub closed spec fn stages(&self) -> Seq<H> {
        self.handlers@
    }

    /// A connection without stages.
    pub fn new(settings: Settings) -> (socket: Self)
        ensures
            socket.stages() == Seq::<H>::empty(),
    {
        Socket { settings: Arc::new(settings), handlers: Vec::new() }
    }

    /// Adds `handler` as the last stage.
    pub fn add_handler(&mut self, handler: H)
        ensures
            final(self).stages() == old(self).stages().push(handler),
    {
        self.handlers.push(handler);
    }

    /// Passes outgoing `data` through the stages in their order.
    pub fn process_outgoing(&self, data: &[u8]) -> (out: Result<Vec<u8>, Error>)
        ensures
            crate::base::link::forward(self.stages(), data@, crate::base::link::outcome(out)),
    {
        run_forward(&self.handlers, data)
    }

    /// Passes incoming `data` through the stages from the last to the first.
    pub fn process_incoming(&self, data: &[u8]) -> (out: Result<Vec<u8>, Error>)
        ensures
            crate::base::link::backward(self.stages(), data@, crate::base::link::outcome(out)),
    {
        run_backward(&self.handlers, data)
    }

    /// Sends `data`: passes it through the stages in their order and appends
    /// the outcome to `wire`, framed, for the caller to write to the stream.
    /// Returns the length of `data` as it was given. Where a stage fails, its
    /// error comes back and nothing is appended.
    pub fn send(&self, data: &[u8], wire: &mut Vec<u8>) -> (out: Result<usize, Error>)
        ensures
            match out {
                Ok(sent) => {
                    &&& sent == data@.len()
                    &&& exists|processed: Seq<u8>|
                        {
                            &&& #[trigger] crate::base::link::forward(
                                self.stages(),
                                data@,
                                Ok(processed),
                            )
                            &&& final(wire)@ == old(wire)@ + framed(processed)
                        }
                },
                Err(e) => {
                    &&& crate::base::link::forward(self.stages(), data@, Err(e))
                    &&& final(wire)@ == old(wire)@
                },
            },
    {
        let processed = match self.process_outgoing(data) {
            Ok(processed) => processed,
            Err(e) => { return Err(e); },
        };
        let prefix = encode_length(processed.len());
        wire.extend_from_slice(prefix.as_slice());
        wire.extend_from_slice(processed.as_slice());
        assert(wire@ =~= old(wire)@ + framed(processed@));
        assert(crate::base::link::forward(self.stages(), data@, Ok::<Seq<u8>, Error>(processed@)));
        Ok(data.len())
    }

    /// Receives a message: `payload` is what the caller read from the stream
    /// after the prefix. It passes through the stages from the last to the
    /// first, and as much of the outcome as fits is copied to the start of
    /// `buf`; what does not fit is dropped. Returns how many bytes were
    /// copied. Where a stage fails, its error comes back and `buf` is as it
    /// was.
    pub fn receive(&self, payload: &[u8], buf: &mut [u8]) -> (out: Result<usize, Error>)
        ensures
            match out {
                Ok(copied) => exists|processed: Seq<u8>|
                    {
                        &&& #[trigger] crate::base::link::backward(
                            self.stages(),
                            payload@,
                            Ok(processed),
                        )
                        &&& copied == if processed.len() < old(buf)@.len() {
                            processed.len()
                        } else {
                            old(buf)@.len()
                        }
                        &&& final(buf)@ == processed.subrange(0, copied as int) + old(
                            buf,
                        )@.subrange(copied as int, old(buf)@.len() as int)
                    },
                Err(e) => {
                    &&& crate::base::link::backward(self.stages(), payload@, Err(e))
                    &&& final(buf)@ == old(buf)@
                },
            },
    {
        let processed = match self.process_incoming(payload) {
            Ok(processed) => processed,
            Err(e) => { return Err(e); },
        };
        let copied = copy_into(buf, processed.as_slice());
        assert(crate::base::link::backward(
            self.stages(),
            payload@,
            Ok::<Seq<u8>, Error>(processed@),
        ));
        Ok(copied)
    }
}

impl<H: Handler> Linkable for Socket<H> {
    /// Does nothing: a connection has no lifecycle of its own.
    fn start(&mut self) -> (out: Result<(), Error>)
        ensures
            out is Ok,
            final(self).stages() == old(self).stages(),
    {
        Ok(())
    }

    /// To stop a connection always succeeds and leaves its stages.
    open spec fn stops(&self, out: Result<(), Error>, after: &Self) -> bool {
        out is Ok && after.stages() == self.stages()
    }

    /// Does nothing: a connection has no lifecycle of its own.
    fn stop(&mut self) -> (out: Result<(), Error>)
        ensures
            out is Ok,
            final(self).stages() == old(self).stages(),
    {
        Ok(())
    }

    /// A connection is always in mode `Ready`.
    fn state(&self) -> (out: Result<Mode, Error>)
        ensures
            out == Ok::<Mode, Error>(Mode::Ready),
    {
        Ok(Mode::Ready)
    }
}

} // verus!
