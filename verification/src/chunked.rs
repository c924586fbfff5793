//! The body of a response sent in chunks: bytes are gathered in a buffer of
//! fixed capacity and sent as a chunk whenever the buffer fills, when asked
//! to, and at the end, followed by the empty chunk that ends the body.

use vstd::prelude::*;

verus! {

/// The size of the buffer a response body is gathered in.
pub const CONNECTION_BUFFER_SIZE: usize = 8192;

/// The lower-case hexadecimal digit of `d`.
pub open spec fn hex_char(d: nat) -> u8 {
    if d < 10 {
        (48 + d) as u8
    } else {
        (87 + d) as u8
    }
}

/// `n` in lower-case hexadecimal, without leading zeros.
pub open spec fn hex_digits(n: nat) -> Seq<u8>
    decreases n,
{
    if n < 16 {
        seq![hex_char(n)]
    } else {
        hex_digits(n / 16).push(hex_char(n % 16))
    }
}

/// The chunk that carries `data`: its length in hexadecimal, a line end,
/// the data, and a line end.
pub open spec fn chunk(data: Seq<u8>) -> Seq<u8> {
    hex_digits(data.len()) + seq![13u8, 10u8] + data + seq![13u8, 10u8]
}

/// The empty chunk that ends a body.
pub open spec fn last_chunk() -> Seq<u8> {
    seq![48u8, 13u8, 10u8, 13u8, 10u8]
}

fn push_hex(n: usize, out: &mut Vec<u8>)
    ensures
        final(out)@ == old(out)@ + hex_digits(n as nat),
    decreases n,
{
    if n >= 16 {
        push_hex(n / 16, out);
    }
    let d = n % 16;
    let c: u8 = if d < 10 { 48 + d as u8 } else { 87 + d as u8 };
    out.push(c);
    proof {
        if n >= 16 {
            assert(old(out)@ + hex_digits(n as nat) =~= old(out)@ + hex_digits((n / 16) as nat) + seq![c]);
        } else {
            assert(old(out)@ + hex_digits(n as nat) =~= old(out)@.push(c));
        }
    }
}

fn push_all(out: &mut Vec<u8>, bytes: &[u8])
    ensures
        final(out)@ == old(out)@ + bytes@,
{
    let mut i: usize = 0;
    while i < bytes.len()
        invariant
            i <= bytes@.len(),
            out@ == old(out)@ + bytes@.subrange(0, i as int),
        decreases bytes@.len() - i,
    {
        out.push(bytes[i]);
        i = i + 1;
        proof {
            assert(bytes@.subrange(0, i as int) =~= bytes@.subrange(0, i - 1).push(bytes@[i - 1]));
        }
    }
    proof {
        assert(bytes@.subrange(0, bytes@.len() as int) =~= bytes@);
    }
}

/// The chunk that carries `data`.
pub fn make_chunk(data: &[u8]) -> (r: Vec<u8>)
    ensures
        r@ == chunk(data@),
{
    let mut out: Vec<u8> = Vec::new();
    push_hex(data.len(), &mut out);
    out.push(13);
    out.push(10);
    push_all(&mut out, data);
    out.push(13);
    out.push(10);
    proof {
        assert(out@ =~= chunk(data@));
    }
    out
}

/// A response body being gathered: what is buffered and how much the
/// buffer holds. Buffered bytes stay until `sent` confirms that their chunk
/// went out, so a chunk whose send failed is offered again.
pub struct ChunkedBody {
    buffer: Vec<u8>,
    capacity: usize,
}

impl View for ChunkedBody {
    type V = (Seq<u8>, nat);

    closed spec fn view(&self) -> (Seq<u8>, nat) {
        (self.buffer@, self.capacity as nat)
    }
}

impl ChunkedBody {
    /// The buffer never holds more than its capacity, which is not zero.
    #[verifier::type_invariant]
    spec fn fits(&self) -> bool {
        &&& self.buffer@.len() <= self.capacity
        &&& self.capacity > 0
    }

    /// An empty body gathered in a buffer of `capacity` bytes.
    pub fn new(capacity: usize) -> (r: Self)
        requires
            capacity > 0,
        ensures
            r@ == (Seq::<u8>::empty(), capacity as nat),
    {
        ChunkedBody { buffer: Vec::new(), capacity }
    }

    /// The chunk that carries what is buffered, if anything. The buffer
    /// keeps its bytes: only `sent` lets them go.
    pub fn flush(&self) -> (r: Option<Vec<u8>>)
        ensures
            self@.0.len() == 0 ==> r is None,
            self@.0.len() > 0 ==> (r matches Some(c) && c@ == chunk(self@.0)),
    {
        if self.buffer.len() == 0 {
            None
        } else {
            Some(make_chunk(self.buffer.as_slice()))
        }
    }

    /// Confirms that the chunk of what is buffered was sent: the buffer is
    /// emptied. Nothing else empties it.
    pub fn sent(&mut self)
        ensures
            final(self)@ == (Seq::<u8>::empty(), old(self)@.1),
    {
        proof {
            use_type_invariant(&*self);
        }
        self.buffer = Vec::new();
    }

    /// Takes as many bytes of `buf` as the buffer has room for and adds them
    /// to it. Gives how many bytes were taken and, when the buffer is now
    /// full, the chunk that carries it, to be sent and then confirmed with
    /// `sent`.
    pub fn write(&mut self, buf: &[u8]) -> (r: (usize, Option<Vec<u8>>))
        ensures
            final(self)@.1 == old(self)@.1,
            final(self)@.0.len() <= final(self)@.1,
            r.0 == if buf@.len() <= old(self)@.1 - old(self)@.0.len() {
                buf@.len() as int
            } else {
                old(self)@.1 - old(self)@.0.len()
            },
            final(self)@.0 == old(self)@.0 + buf@.subrange(0, r.0 as int),
            final(self)@.0.len() == final(self)@.1 ==> (r.1 matches Some(c) && c@ == chunk(final(self)@.0)),
            final(self)@.0.len() < final(self)@.1 ==> r.1 is None,
    {
        proof {
            use_type_invariant(&*self);
        }
        let room = self.capacity - self.buffer.len();
        let size = if buf.len() <= room { buf.len() } else { room };
        let mut buffer = Vec::new();
        std::mem::swap(&mut buffer, &mut self.buffer);
        push_all(&mut buffer, &buf[0..size]);
        self.buffer = buffer;
        if self.buffer.len() == self.capacity {
            (size, Some(make_chunk(self.buffer.as_slice())))
        } else {
            (size, None)
        }
    }
}

/// The empty chunk that ends a body.
pub fn end_chunk() -> (r: Vec<u8>)
    ensures
        r@ == last_chunk(),
{
    let mut out: Vec<u8> = Vec::new();
    out.push(48);
    out.push(13);
    out.push(10);
    out.push(13);
    out.push(10);
    proof {
        assert(out@ =~= last_chunk());
    }
    out
}

} // verus!
