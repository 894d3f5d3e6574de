use vstd::prelude::*;
use vstd::slice::slice_to_vec;
use crate::transport::{ByteStream, StreamError, Transfer};

verus! {

/// One call kept by a [`MemoryStream`], with its outcome.
#[derive(Debug, PartialEq, Eq)]
pub enum Record {
    Sent(Vec<u8>),
    SendFailed(Vec<u8>),
    Received(Vec<u8>),
    ReceiveFailed(usize),
}

impl Record {
    /// The transfer that this record stands for.
    pub open spec fn transfer(&self) -> Transfer {
        match self {
            Record::Sent(v) => Transfer::Sent(v@),
            Record::SendFailed(v) => Transfer::SendFailed(v@),
            Record::Received(v) => Transfer::Received(v@),
            Record::ReceiveFailed(n) => Transfer::ReceiveFailed(*n as nat),
        }
    }
}

/// An in-memory stream. It keeps every call made on it, serves reads from a
/// fixed script of reply bytes, and either accepts every write or lets a
/// given number of writes succeed before every further write fails.
pub struct MemoryStream {
    records: Vec<Record>,
    replies: Vec<u8>,
    writes_left: Option<usize>,
}

impl MemoryStream {
    /// How many more writes succeed; `None` when every write does.
    pub closed spec fn write_limit(&self) -> Option<usize> {
        self.writes_left
    }

    /// A stream that serves `replies` to reads and accepts every write.
    pub fn new(replies: Vec<u8>) -> (r: MemoryStream)
        ensures
            r.transfers() == Seq::<Transfer>::empty(),
            r.ready() == replies@,
            r.write_limit() == None::<usize>,
            r.accepts_sends(),
    {
        let r = MemoryStream { records: Vec::new(), replies, writes_left: None };
        assert(r.transfers() =~= Seq::<Transfer>::empty());
        r
    }

    /// A stream that serves `replies` to reads and accepts the first
    /// `writes` writes; every write after those fails.
    pub fn with_write_limit(replies: Vec<u8>, writes: usize) -> (r: MemoryStream)
        ensures
            r.transfers() == Seq::<Transfer>::empty(),
            r.ready() == replies@,
            r.write_limit() == Some(writes),
            !r.accepts_sends(),
    {
        let r = MemoryStream { records: Vec::new(), replies, writes_left: Some(writes) };
        assert(r.transfers() =~= Seq::<Transfer>::empty());
        r
    }

    /// The calls made so far, oldest first.
    pub fn records(&self) -> (r: &[Record])
        ensures
            r@.len() == self.transfers().len(),
            forall|i: int| 0 <= i < r@.len() ==> #[trigger] r@[i].transfer() == self.transfers()[i],
    {
        self.records.as_slice()
    }
}

impl ByteStream for MemoryStream {
    closed spec fn transfers(&self) -> Seq<Transfer> {
        Seq::new(self.records@.len(), |i: int| self.records@[i].transfer())
    }

    closed spec fn accepts_sends(&self) -> bool {
        self.writes_left is None
    }

    closed spec fn ready(&self) -> Seq<u8> {
        self.replies@
    }

    fn send(&mut self, bytes: &[u8]) -> (r: Result<(), StreamError>)
        ensures
            r is Err <==> old(self).write_limit() == Some(0usize),
            old(self).write_limit() matches Some(k) ==> (k > 0 ==> final(self).write_limit() == Some(
                (k - 1) as usize,
            )),
            old(self).write_limit() is None ==> final(self).write_limit() is None,
            final(self).ready() == old(self).ready(),
    {
        let ghost before = self.transfers();
        let ok = match self.writes_left {
            None => true,
            Some(k) => if k == 0 {
                false
            } else {
                self.writes_left = Some(k - 1);
                true
            },
        };
        if !ok {
            self.records.push(Record::SendFailed(slice_to_vec(bytes)));
            assert(self.transfers() =~= before.push(Transfer::SendFailed(bytes@)));
            return Err(StreamError);
        }
        self.records.push(Record::Sent(slice_to_vec(bytes)));
        assert(self.transfers() =~= before.push(Transfer::Sent(bytes@)));
        assert(old(self).ready().is_prefix_of(self.ready())) by {
            assert(self.ready().subrange(0, self.ready().len() as int) =~= self.ready());
        }
        Ok(())
    }

    fn receive(&mut self, buf: &mut [u8]) -> (r: Result<(), StreamError>)
        ensures
            r is Ok <==> old(buf)@.len() <= old(self).ready().len(),
            r is Err ==> final(self).ready() == old(self).ready() && final(buf)@ == old(buf)@,
            final(self).write_limit() == old(self).write_limit(),
    {
        let ghost before = self.transfers();
        let n: usize = buf.len();
        let total: usize = self.replies.len();
        if n > total {
            self.records.push(Record::ReceiveFailed(n));
            assert(self.transfers() =~= before.push(Transfer::ReceiveFailed(n as nat)));
            return Err(StreamError);
        }
        let mut k: usize = 0;
        while k < n
            invariant
                k <= n,
                n == buf@.len(),
                n <= total,
                total == self.replies@.len(),
                forall|j: int| 0 <= j < k ==> buf@[j] == self.replies@[j],
            decreases n - k,
        {
            buf[k] = self.replies[k];
            k = k + 1;
        }
        let mut rest: Vec<u8> = Vec::new();
        while k < total
            invariant
                n <= k <= total,
                total == self.replies@.len(),
                rest@ == self.replies@.subrange(n as int, k as int),
            decreases total - k,
        {
            rest.push(self.replies[k]);
            k = k + 1;
            assert(rest@ =~= self.replies@.subrange(n as int, k as int));
        }
        assert(buf@ =~= old(self).ready().subrange(0, n as int));
        self.replies = rest;
        self.records.push(Record::Received(slice_to_vec(&*buf)));
        assert(self.transfers() =~= before.push(Transfer::Received(buf@)));
        Ok(())
    }
}

} // verus!
