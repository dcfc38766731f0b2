use vstd::prelude::*;
use bytes::{Buf, BytesMut};

verus! {

#[verifier::external_type_specification]
#[verifier::external_body]
pub struct ExBytesMut(BytesMut);

/// The bytes that a `BytesMut` holds, front first.
pub uninterp spec fn buffered(b: BytesMut) -> Seq<u8>;

/// Relies on `BytesMut::with_capacity`: the new buffer holds no bytes.
#[verifier::external_body]
fn bytes_with_capacity(capacity: usize) -> (r: BytesMut)
    ensures
        buffered(r) == Seq::<u8>::empty(),
{
    BytesMut::with_capacity(capacity)
}

/// Relies on `BytesMut::len`: the number of bytes held.
#[verifier::external_body]
fn bytes_len(b: &BytesMut) -> (r: usize)
    ensures
        r == buffered(*b).len(),
{
    b.len()
}

/// Relies on `BytesMut::extend_from_slice`: appends the slice at the back.
#[verifier::external_body]
fn bytes_extend(b: &mut BytesMut, extend: &[u8])
    ensures
        buffered(*final(b)) == buffered(*old(b)) + extend@,
{
    b.extend_from_slice(extend)
}

/// Relies on `Deref<Target = [u8]>` of `BytesMut`: copies out the first `n` bytes.
#[verifier::external_body]
fn bytes_copy_prefix(b: &BytesMut, n: usize) -> (r: Vec<u8>)
    requires
        n <= buffered(*b).len(),
    ensures
        r@ == buffered(*b).subrange(0, n as int),
{
    b[..n].to_vec()
}

/// Relies on `Buf::advance` of `BytesMut`: drops the first `n` bytes (it
/// panics past the end, which `requires` rules out).
#[verifier::external_body]
fn bytes_advance(b: &mut BytesMut, n: usize)
    requires
        n <= buffered(*old(b)).len(),
    ensures
        buffered(*final(b)) == buffered(*old(b)).subrange(n as int, buffered(*old(b)).len() as int),
{
    b.advance(n)
}

/// Relies on `BytesMut::split`: hands out every byte held and leaves the buffer empty.
#[verifier::external_body]
fn bytes_split(b: &mut BytesMut) -> (r: Vec<u8>)
    ensures
        r@ == buffered(*old(b)),
        buffered(*final(b)) == Seq::<u8>::empty(),
{
    b.split().to_vec()
}

/// Size of the buffer and of each read that refills it.
pub const FRAME_BUFFER_CAPACITY: usize = 8192;

/// The framed reader's buffer: bytes read from the source and not yet handed
/// out as frames.
pub struct FrameBuffer {
    buffer: BytesMut,
}

impl View for FrameBuffer {
    type V = Seq<u8>;

    closed spec fn view(&self) -> Seq<u8> {
        buffered(self.buffer)
    }
}

impl FrameBuffer {
    pub fn new() -> (r: FrameBuffer)
        ensures
            r@ == Seq::<u8>::empty(),
    {
        FrameBuffer { buffer: bytes_with_capacity(FRAME_BUFFER_CAPACITY) }
    }

    /// Number of bytes held.
    pub fn len(&self) -> (r: usize)
        ensures
            r == self@.len(),
    {
        bytes_len(&self.buffer)
    }

    /// Appends what a read returned.
    pub fn push(&mut self, data: &[u8])
        ensures
            final(self)@ == old(self)@ + data@,
    {
        bytes_extend(&mut self.buffer, data)
    }

    /// Takes the first `chunk_size` bytes when that many are held; otherwise
    /// leaves the buffer as it is.
    pub fn take_frame(&mut self, chunk_size: usize) -> (r: Option<Vec<u8>>)
        ensures
            old(self)@.len() >= chunk_size ==> (r matches Some(v) && v@ == old(self)@.subrange(0, chunk_size as int)
                && final(self)@ == old(self)@.subrange(chunk_size as int, old(self)@.len() as int)),
            old(self)@.len() < chunk_size ==> r is None && final(self)@ == old(self)@,
    {
        if chunk_size <= bytes_len(&self.buffer) {
            let bytes = bytes_copy_prefix(&self.buffer, chunk_size);
            bytes_advance(&mut self.buffer, chunk_size);
            Some(bytes)
        } else {
            None
        }
    }

    /// Hands out every byte held, at end of stream; the buffer is left empty.
    pub fn drain(&mut self) -> (r: Vec<u8>)
        ensures
            r@ == old(self)@,
            final(self)@ == Seq::<u8>::empty(),
    {
        bytes_split(&mut self.buffer)
    }
}

} // verus!
