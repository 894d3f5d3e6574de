use vstd::prelude::*;
use crate::frame::{frame_bytes, to_buffer, MdioHeader, MdioType};

verus! {

/// One call on a byte stream, with its outcome.
pub enum Transfer {
    /// A write of these bytes that succeeded.
    Sent(Seq<u8>),
    /// A write of these bytes that failed.
    SendFailed(Seq<u8>),
    /// A read that succeeded and yielded these bytes.
    Received(Seq<u8>),
    /// A read of this many bytes that failed.
    ReceiveFailed(nat),
}

/// A failed stream operation.
#[derive(Clone, Copy, Debug, PartialEq, Eq, Structural)]
pub struct StreamError;

/// Why a write or read transaction stopped.
#[derive(Clone, Copy, Debug, PartialEq, Eq, Structural)]
pub enum MdioError {
    /// The payload or buffer length is odd; nothing was transferred.
    MalformedPayload,
    /// The stream failed while carrying the chunk with this index.
    TransportError { chunk: usize },
}

/// A duplex byte stream. Its model is the sequence of calls made on it,
/// each with its outcome, together with what it promises of the next calls.
pub trait ByteStream {
    /// Every call made so far, oldest first. An implementation that keeps
    /// this default (one that the verifier does not check, such as a device
    /// file) does not meet the contracts below, and nothing proved of the
    /// transactions speaks of it.
    closed spec fn transfers(&self) -> Seq<Transfer> {
        Seq::empty()
    }

    /// Whether every send from now on succeeds. The default promises nothing.
    closed spec fn accepts_sends(&self) -> bool {
        false
    }

    /// Bytes that the stream is sure to yield to its next receives. The
    /// default promises none.
    closed spec fn ready(&self) -> Seq<u8> {
        Seq::empty()
    }

    /// Writes all of `bytes`.
    fn send(&mut self, bytes: &[u8]) -> (r: Result<(), StreamError>)
        ensures
            r is Ok ==> final(self).transfers() == old(self).transfers().push(
                Transfer::Sent(bytes@),
            ),
            r is Err ==> final(self).transfers() == old(self).transfers().push(
                Transfer::SendFailed(bytes@),
            ),
            old(self).accepts_sends() ==> r is Ok && final(self).accepts_sends(),
            old(self).ready().is_prefix_of(final(self).ready()),
    ;

    /// Fills all of `buf` with the next bytes of the stream.
    fn receive(&mut self, buf: &mut [u8]) -> (r: Result<(), StreamError>)
        ensures
            final(buf)@.len() == old(buf)@.len(),
            r is Ok ==> final(self).transfers() == old(self).transfers().push(
                Transfer::Received(final(buf)@),
            ),
            r is Err ==> final(self).transfers() == old(self).transfers().push(
                Transfer::ReceiveFailed(old(buf)@.len()),
            ),
            old(buf)@.len() <= old(self).ready().len() ==> {
                &&& r is Ok
                &&& final(buf)@ == old(self).ready().subrange(0, old(buf)@.len() as int)
                &&& final(self).ready() == old(self).ready().subrange(
                    old(buf)@.len() as int,
                    old(self).ready().len() as int,
                )
            },
            final(self).accepts_sends() == old(self).accepts_sends(),
    ;
}

/// The request header that both transactions send: a write-direction
/// header for the given PHY and register.
pub open spec fn request_header(phy: u16, reg: u16) -> Seq<u8> {
    frame_bytes(MdioType::Send, phy, reg)
}

/// The two-byte chunk with index `i` of `s`.
pub open spec fn chunk(s: Seq<u8>, i: int) -> Seq<u8> {
    s.subrange(2 * i, 2 * i + 2)
}

/// The transfers of a write of `data`: for each two-byte chunk in order,
/// one send of the header followed by that chunk.
pub open spec fn write_transfers(h: Seq<u8>, data: Seq<u8>) -> Seq<Transfer> {
    Seq::new(data.len() / 2, |i: int| Transfer::Sent(h + chunk(data, i)))
}

/// The transfers of a read that filled `buf`: for each two-byte chunk in
/// order, one send of the header, then one receive of that chunk.
pub open spec fn read_transfers(h: Seq<u8>, buf: Seq<u8>) -> Seq<Transfer> {
    Seq::new(
        2 * (buf.len() / 2),
        |k: int|
            if k % 2 == 0 {
                Transfer::Sent(h)
            } else {
                Transfer::Received(chunk(buf, k / 2))
            },
    )
}

proof fn lemma_write_step(h: Seq<u8>, data: Seq<u8>, i: int)
    requires
        0 <= i,
        2 * i + 2 <= data.len(),
    ensures
        write_transfers(h, data.subrange(0, 2 * i + 2)) == write_transfers(
            h,
            data.subrange(0, 2 * i),
        ).push(Transfer::Sent(h + chunk(data, i))),
{
    let a = data.subrange(0, 2 * i + 2);
    let b = data.subrange(0, 2 * i);
    assert forall|j: int| 0 <= j < i + 1 implies chunk(a, j) == chunk(data, j) by {
        assert(chunk(a, j) =~= chunk(data, j));
    }
    assert forall|j: int| 0 <= j < i implies chunk(b, j) == chunk(data, j) by {
        assert(chunk(b, j) =~= chunk(data, j));
    }
    assert(write_transfers(h, a) =~= write_transfers(h, b).push(Transfer::Sent(h + chunk(data, i))));
}

proof fn lemma_read_step(h: Seq<u8>, buf: Seq<u8>, i: int)
    requires
        0 <= i,
        2 * i + 2 <= buf.len(),
    ensures
        read_transfers(h, buf.subrange(0, 2 * i + 2)) == read_transfers(
            h,
            buf.subrange(0, 2 * i),
        ).push(Transfer::Sent(h)).push(Transfer::Received(chunk(buf, i))),
{
    let a = buf.subrange(0, 2 * i + 2);
    let b = buf.subrange(0, 2 * i);
    assert forall|j: int| 0 <= j < i + 1 implies chunk(a, j) == chunk(buf, j) by {
        assert(chunk(a, j) =~= chunk(buf, j));
    }
    assert forall|j: int| 0 <= j < i implies chunk(b, j) == chunk(buf, j) by {
        assert(chunk(b, j) =~= chunk(buf, j));
    }
    assert(read_transfers(h, a) =~= read_transfers(h, b).push(Transfer::Sent(h)).push(
        Transfer::Received(chunk(buf, i)),
    ));
}

/// Writing `d1` and then `d2` makes the same calls as writing `d1 ++ d2`
/// at once: the frames split at any chunk boundary, and nothing is kept
/// between transactions.
pub proof fn lemma_write_concat(h: Seq<u8>, d1: Seq<u8>, d2: Seq<u8>)
    requires
        d1.len() % 2 == 0,
        d2.len() % 2 == 0,
    ensures
        write_transfers(h, d1 + d2) == write_transfers(h, d1) + write_transfers(h, d2),
{
    let d = d1 + d2;
    let n1 = d1.len() / 2;
    assert forall|i: int| 0 <= i < n1 implies chunk(d, i) == chunk(d1, i) by {
        assert(chunk(d, i) =~= chunk(d1, i));
    }
    assert forall|i: int| n1 <= i < d.len() / 2 implies chunk(d, i) == chunk(d2, i - n1) by {
        assert(chunk(d, i) =~= chunk(d2, i - n1));
    }
    assert(write_transfers(h, d) =~= write_transfers(h, d1) + write_transfers(h, d2));
}

/// Writes `data` to register `reg_address` of PHY `phy_address`: for each
/// two-byte chunk in order, one send of the request header followed by the
/// chunk. An odd length is refused before anything is sent. The first send
/// that fails ends the transaction with the index of its chunk; a stream
/// that accepts every send gets every frame and the result is `Ok`.
pub fn write<T: ByteStream>(file: &mut T, phy_address: u16, reg_address: u16, data: &[u8]) -> (r:
    Result<(), MdioError>)
    ensures
        r == Err::<(), MdioError>(MdioError::MalformedPayload) <==> data@.len() % 2 == 1,
        r == Err::<(), MdioError>(MdioError::MalformedPayload) ==> final(file).transfers()
            == old(file).transfers(),
        r is Ok ==> final(file).transfers() == old(file).transfers() + write_transfers(
            request_header(phy_address, reg_address),
            data@,
        ),
        r matches Err(MdioError::TransportError { chunk: c }) ==> {
            let h = request_header(phy_address, reg_address);
            &&& 2 * c < data@.len()
            &&& final(file).transfers() == old(file).transfers() + write_transfers(
                h,
                data@.subrange(0, 2 * c as int),
            ).push(Transfer::SendFailed(h + chunk(data@, c as int)))
        },
        old(file).accepts_sends() && data@.len() % 2 == 0 ==> r is Ok,
{
    if data.len() % 2 != 0 {
        return Err(MdioError::MalformedPayload);
    }
    let header = to_buffer(
        MdioHeader { mdio_type: MdioType::Send, phy_address: phy_address, reg_address: reg_address },
    );
    let ghost h = request_header(phy_address, reg_address);
    let ghost start = file.transfers();
    let len: usize = data.len();
    let n: usize = len / 2;
    let mut i: usize = 0;
    proof {
        assert(write_transfers(h, data@.subrange(0, 0)) =~= Seq::<Transfer>::empty());
        assert(start + Seq::<Transfer>::empty() =~= start);
    }
    while i < n
        invariant
            len == data@.len(),
            2 * n == len,
            i <= n,
            header@ == h,
            h == request_header(phy_address, reg_address),
            start == old(file).transfers(),
            old(file).accepts_sends() ==> file.accepts_sends(),
            file.transfers() == start + write_transfers(h, data@.subrange(0, 2 * i as int)),
        decreases n - i,
    {
        let mut frame: Vec<u8> = Vec::new();
        frame.push(header[0]);
        frame.push(header[1]);
        frame.push(data[2 * i]);
        frame.push(data[2 * i + 1]);
        assert(frame@ =~= h + chunk(data@, i as int));
        let sent = file.send(frame.as_slice());
        if sent.is_err() {
            return Err(MdioError::TransportError { chunk: i });
        }
        proof {
            lemma_write_step(h, data@, i as int);
            assert(start + write_transfers(h, data@.subrange(0, 2 * i + 2)) =~= (start
                + write_transfers(h, data@.subrange(0, 2 * i as int))).push(
                Transfer::Sent(h + chunk(data@, i as int)),
            ));
        }
        i = i + 1;
    }
    assert(data@.subrange(0, 2 * n as int) =~= data@);
    Ok(())
}

/// Reads register `reg_address` of PHY `phy_address` into `buffer`: for
/// each two-byte chunk of the buffer in order, one send of the request
/// header, then one receive of two bytes into that chunk. An odd length is
/// refused before anything is transferred. The first call that fails ends
/// the transaction with the index of its chunk, the chunks before it filled
/// and that chunk and the ones after it unchanged. A stream that accepts
/// every send and has the whole buffer's worth of bytes ready fills it with
/// them, and the result is `Ok`.
pub fn read<T: ByteStream>(file: &mut T, phy_address: u16, reg_address: u16, buffer: &mut [u8]) -> (r:
    Result<(), MdioError>)
    ensures
        final(buffer)@.len() == old(buffer)@.len(),
        r == Err::<(), MdioError>(MdioError::MalformedPayload) <==> old(buffer)@.len() % 2 == 1,
        r == Err::<(), MdioError>(MdioError::MalformedPayload) ==> {
            &&& final(file).transfers() == old(file).transfers()
            &&& final(buffer)@ == old(buffer)@
        },
        r is Ok ==> final(file).transfers() == old(file).transfers() + read_transfers(
            request_header(phy_address, reg_address),
            final(buffer)@,
        ),
        r matches Err(MdioError::TransportError { chunk: c }) ==> {
            let h = request_header(phy_address, reg_address);
            let done = old(file).transfers() + read_transfers(
                h,
                final(buffer)@.subrange(0, 2 * c as int),
            );
            &&& 2 * c < old(buffer)@.len()
            &&& final(file).transfers() == done.push(Transfer::SendFailed(h))
                || final(file).transfers() == done.push(Transfer::Sent(h)).push(
                Transfer::ReceiveFailed(2),
            )
            &&& final(buffer)@.subrange(2 * c as int, old(buffer)@.len() as int) == old(
                buffer,
            )@.subrange(2 * c as int, old(buffer)@.len() as int)
        },
        old(file).accepts_sends() && old(buffer)@.len() % 2 == 0 && old(buffer)@.len() <= old(
            file,
        ).ready().len() ==> {
            &&& r is Ok
            &&& final(buffer)@ == old(file).ready().subrange(0, old(buffer)@.len() as int)
        },
{
    if buffer.len() % 2 != 0 {
        return Err(MdioError::MalformedPayload);
    }
    let header = to_buffer(
        MdioHeader { mdio_type: MdioType::Send, phy_address: phy_address, reg_address: reg_address },
    );
    let ghost h = request_header(phy_address, reg_address);
    let ghost start = file.transfers();
    let ghost original = buffer@;
    let ghost ready = file.ready();
    let ghost promised = file.accepts_sends() && original.len() <= ready.len();
    let len: usize = buffer.len();
    let n: usize = len / 2;
    let mut i: usize = 0;
    proof {
        assert(read_transfers(h, buffer@.subrange(0, 0)) =~= Seq::<Transfer>::empty());
        assert(start + Seq::<Transfer>::empty() =~= start);
        assert(ready.subrange(0, ready.len() as int) =~= ready);
        assert(ready.subrange(0, ready.len() as int).is_prefix_of(file.ready()));
    }
    while i < n
        invariant
            original == old(buffer)@,
            len == original.len(),
            2 * n == len,
            buffer@.len() == original.len(),
            i <= n,
            header@ == h,
            h == request_header(phy_address, reg_address),
            start == old(file).transfers(),
            ready == old(file).ready(),
            promised == (old(file).accepts_sends() && len <= ready.len()),
            file.transfers() == start + read_transfers(h, buffer@.subrange(0, 2 * i as int)),
            buffer@.subrange(2 * i as int, original.len() as int) == original.subrange(
                2 * i as int,
                original.len() as int,
            ),
            promised ==> {
                &&& file.accepts_sends()
                &&& buffer@.subrange(0, 2 * i as int) == ready.subrange(0, 2 * i as int)
                &&& ready.subrange(2 * i as int, ready.len() as int).is_prefix_of(file.ready())
            },
        decreases n - i,
    {
        let ghost before = file.transfers();
        let ghost rest = ready.subrange(2 * i as int, ready.len() as int);
        let sent = file.send(header.as_slice());
        if sent.is_err() {
            return Err(MdioError::TransportError { chunk: i });
        }
        let ghost after_send = file.ready();
        let mut pair: Vec<u8> = vec![0, 0];
        let got = file.receive(pair.as_mut_slice());
        if got.is_err() {
            assert(file.transfers() == before.push(Transfer::Sent(h)).push(
                Transfer::ReceiveFailed(2),
            ));
            return Err(MdioError::TransportError { chunk: i });
        }
        let ghost prev = buffer@;
        buffer[2 * i] = pair[0];
        buffer[2 * i + 1] = pair[1];
        proof {
            assert(buffer@.subrange(0, 2 * i as int) =~= prev.subrange(0, 2 * i as int));
            assert(chunk(buffer@, i as int) =~= pair@);
            lemma_read_step(h, buffer@, i as int);
            assert(start + read_transfers(h, buffer@.subrange(0, 2 * i + 2)) =~= (start
                + read_transfers(h, buffer@.subrange(0, 2 * i as int))).push(
                Transfer::Sent(h),
            ).push(Transfer::Received(pair@)));
            assert forall|k: int| 2 * i + 2 <= k < len implies buffer@[k] == original[k] by {
                assert(prev.subrange(2 * i as int, len as int)[k - 2 * i] == original.subrange(
                    2 * i as int,
                    len as int,
                )[k - 2 * i]);
            }
            assert(buffer@.subrange(2 * i + 2, original.len() as int) =~= original.subrange(
                2 * i + 2,
                original.len() as int,
            ));
            if promised {
                lemma_prefix_chain(rest, after_send, ready, i as int);
                assert(pair@ =~= ready.subrange(2 * i as int, 2 * i + 2));
                assert(buffer@.subrange(0, 2 * i + 2) =~= ready.subrange(0, 2 * i + 2)) by {
                    assert(buffer@.subrange(0, 2 * i + 2) =~= buffer@.subrange(0, 2 * i as int)
                        + chunk(buffer@, i as int));
                    assert(ready.subrange(0, 2 * i + 2) =~= ready.subrange(0, 2 * i as int)
                        + ready.subrange(2 * i as int, 2 * i + 2));
                }
                assert(ready.subrange(2 * i + 2, ready.len() as int) =~= after_send.subrange(
                    2,
                    after_send.len() as int,
                ).subrange(0, ready.len() - 2 * i - 2));
            }
        }
        i = i + 1;
    }
    assert(buffer@.subrange(0, 2 * n as int) =~= buffer@);
    Ok(())
}

/// What a stream had ready, less the chunks already read, still leads what
/// it has ready after the request header is sent.
proof fn lemma_prefix_chain(rest: Seq<u8>, after_send: Seq<u8>, ready: Seq<u8>, i: int)
    requires
        0 <= 2 * i,
        2 * i + 2 <= ready.len(),
        rest == ready.subrange(2 * i, ready.len() as int),
        rest.is_prefix_of(after_send),
    ensures
        2 <= after_send.len(),
        after_send.subrange(0, 2) == ready.subrange(2 * i, 2 * i + 2),
        ready.subrange(2 * i + 2, ready.len() as int).is_prefix_of(
            after_send.subrange(2, after_send.len() as int),
        ),
{
    assert(after_send.subrange(0, 2) =~= ready.subrange(2 * i, 2 * i + 2)) by {
        assert forall|k: int| 0 <= k < 2 implies after_send[k] == ready[2 * i + k] by {
            assert(after_send.subrange(0, rest.len() as int)[k] == rest[k]);
        }
    }
    let tail = ready.subrange(2 * i + 2, ready.len() as int);
    let a2 = after_send.subrange(2, after_send.len() as int);
    assert(tail =~= a2.subrange(0, tail.len() as int)) by {
        assert forall|k: int| 0 <= k < tail.len() implies tail[k] == a2[k] by {
            assert(after_send.subrange(0, rest.len() as int)[k + 2] == rest[k + 2]);
        }
    }
}

} // verus!
