//! Manual writer buffering.
//!
//! `ByteSink` models a byte-oriented output stream; the embedding program
//! implements it for real standard streams, and `Vec<u8>` implements it
//! for in-memory output. `ManualBufWriter` buffers writes in memory and
//! passes the data on only when the caller calls `flush`.

use vstd::prelude::*;

verus! {

/// A byte-oriented output stream.
///
/// `content` is everything the stream has accepted; writes only append.
pub trait ByteSink: Sized {
    /// Everything the stream has accepted so far. The default model is the
    /// empty stream: a sink that does not override it promises nothing
    /// about where the bytes go.
    open spec fn content(&self) -> Seq<u8> {
        Seq::<u8>::empty()
    }

    /// Appends `data` to the stream.
    fn write_out(&mut self, data: &Vec<u8>)
        ensures
            final(self).content() == old(self).content() + data@,
    ;

    /// Pushes buffered data of the stream itself onward; the content is
    /// unchanged.
    fn flush_out(&mut self)
        ensures
            final(self).content() == old(self).content(),
    ;
}

impl ByteSink for Vec<u8> {
    open spec fn content(&self) -> Seq<u8> {
        self@
    }

    fn write_out(&mut self, data: &Vec<u8>) {
        crate::bytes::push_bytes(self, data);
    }

    fn flush_out(&mut self) {
    }
}

/// `ManualBufWriter` writes data to an in-memory buffer and passes the
/// data on only when the caller calls `ManualBufWriter::flush`.
pub struct ManualBufWriter<W: ByteSink> {
    pub inner: W,
    buf: Vec<u8>,
    cap: usize,
}

impl<W: ByteSink> ManualBufWriter<W> {
    /// What is buffered and not yet passed on.
    pub closed spec fn buffered(&self) -> Seq<u8> {
        self.buf@
    }

    /// What the underlying stream has accepted.
    pub closed spec fn out(&self) -> Seq<u8> {
        self.inner.content()
    }

    /// The configured buffer capacity.
    pub closed spec fn cap_spec(&self) -> nat {
        self.cap as nat
    }

    pub fn new(inner: W, capacity: usize) -> (r: ManualBufWriter<W>)
        ensures
            r.buffered() == Seq::<u8>::empty(),
            r.out() == inner.content(),
            r.cap_spec() == capacity,
    {
        let r = ManualBufWriter { inner, buf: Vec::with_capacity(capacity), cap: capacity };
        proof {
            assert(r.buffered() =~= Seq::<u8>::empty());
        }
        r
    }

    /// How many bytes are buffered.
    pub fn len(&self) -> (r: usize)
        ensures
            r == self.buffered().len(),
    {
        self.buf.len()
    }

    /// The configured buffer capacity.
    pub fn capacity(&self) -> (r: usize)
        ensures
            r == self.cap_spec(),
    {
        self.cap
    }

    /// Appends `data` to the buffer; nothing reaches the stream yet.
    pub fn write_all(&mut self, data: &Vec<u8>)
        ensures
            final(self).buffered() == old(self).buffered() + data@,
            final(self).out() == old(self).out(),
            final(self).cap_spec() == old(self).cap_spec(),
    {
        crate::bytes::push_bytes(&mut self.buf, data);
    }

    /// Hands the underlying stream back, consuming the writer.
    pub fn into_inner(self) -> (r: W)
        ensures
            r.content() == self.out(),
    {
        self.inner
    }

    /// Passes everything buffered on to the stream and flushes it.
    pub fn flush(&mut self)
        ensures
            final(self).buffered() == Seq::<u8>::empty(),
            final(self).out() == old(self).out() + old(self).buffered(),
            final(self).cap_spec() == old(self).cap_spec(),
    {
        self.inner.write_out(&self.buf);
        self.buf.clear();
        self.inner.flush_out();
        proof {
            assert(self.buffered() =~= Seq::<u8>::empty());
        }
    }
}

} // verus!
