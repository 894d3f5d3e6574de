use mdio::memory::{MemoryStream, Record};
use mdio::transport::{ByteStream, MdioError, StreamError};

const H33: [u8; 2] = [0x51, 0x8E];

fn sent(bytes: &[u8]) -> Record {
    Record::Sent(bytes.to_vec())
}

fn received(bytes: &[u8]) -> Record {
    Record::Received(bytes.to_vec())
}

#[test]
fn write_six_bytes_sends_three_chunks_in_order() {
    let mut s = MemoryStream::new(vec![]);
    let r = mdio::transport::write(&mut s, 3, 3, &[1, 2, 3, 4, 5, 6]);
    assert_eq!(r, Ok(()));
    assert_eq!(
        s.records(),
        &[
            sent(&[0x51, 0x8E, 1, 2]),
            sent(&[0x51, 0x8E, 3, 4]),
            sent(&[0x51, 0x8E, 5, 6]),
        ]
    );
}

#[test]
fn write_odd_length_is_refused_before_any_transfer() {
    let mut s = MemoryStream::new(vec![]);
    let r = mdio::transport::write(&mut s, 3, 3, &[1, 2, 3]);
    assert_eq!(r, Err(MdioError::MalformedPayload));
    assert!(s.records().is_empty());
}

#[test]
fn read_odd_length_is_refused_before_any_transfer() {
    let mut s = MemoryStream::new(vec![9, 9, 9, 9]);
    let mut buf = [7u8, 7, 7];
    let r = mdio::transport::read(&mut s, 3, 3, &mut buf);
    assert_eq!(r, Err(MdioError::MalformedPayload));
    assert!(s.records().is_empty());
    assert_eq!(buf, [7, 7, 7]);
}

#[test]
fn write_then_read_with_scripted_replies() {
    let mut s = MemoryStream::new(vec![0xAA, 0xBB]);
    assert_eq!(mdio::transport::write(&mut s, 3, 3, &[0xAA, 0xBB]), Ok(()));
    let mut buf = [0u8; 2];
    assert_eq!(mdio::transport::read(&mut s, 3, 3, &mut buf), Ok(()));
    assert_eq!(buf, [0xAA, 0xBB]);
    assert_eq!(
        s.records(),
        &[sent(&[0x51, 0x8E, 0xAA, 0xBB]), sent(&H33), received(&[0xAA, 0xBB])]
    );
}

#[test]
fn write_stops_at_the_chunk_whose_send_fails() {
    let mut s = MemoryStream::with_write_limit(vec![], 1);
    let r = mdio::transport::write(&mut s, 3, 3, &[1, 2, 3, 4, 5, 6, 7, 8]);
    assert_eq!(r, Err(MdioError::TransportError { chunk: 1 }));
    assert_eq!(
        s.records(),
        &[sent(&[0x51, 0x8E, 1, 2]), Record::SendFailed(vec![0x51, 0x8E, 3, 4])]
    );
}

#[test]
fn write_fails_at_first_chunk_when_no_send_succeeds() {
    let mut s = MemoryStream::with_write_limit(vec![], 0);
    let r = mdio::transport::write(&mut s, 3, 3, &[1, 2]);
    assert_eq!(r, Err(MdioError::TransportError { chunk: 0 }));
    assert_eq!(s.records(), &[Record::SendFailed(vec![0x51, 0x8E, 1, 2])]);
}

#[test]
fn write_of_nothing_transfers_nothing() {
    let mut s = MemoryStream::new(vec![]);
    assert_eq!(mdio::transport::write(&mut s, 3, 3, &[]), Ok(()));
    assert!(s.records().is_empty());
}

#[test]
fn read_fills_chunks_in_order() {
    let mut s = MemoryStream::new(vec![9, 8, 7, 6]);
    let mut buf = [2u8; 4];
    assert_eq!(mdio::transport::read(&mut s, 3, 3, &mut buf), Ok(()));
    assert_eq!(buf, [9, 8, 7, 6]);
    assert_eq!(
        s.records(),
        &[sent(&H33), received(&[9, 8]), sent(&H33), received(&[7, 6])]
    );
}

#[test]
fn read_short_reply_keeps_earlier_chunks() {
    let mut s = MemoryStream::new(vec![1, 2, 3]);
    let mut buf = [2u8; 4];
    let r = mdio::transport::read(&mut s, 3, 3, &mut buf);
    assert_eq!(r, Err(MdioError::TransportError { chunk: 1 }));
    assert_eq!(buf, [1, 2, 2, 2]);
    assert_eq!(
        s.records(),
        &[sent(&H33), received(&[1, 2]), sent(&H33), Record::ReceiveFailed(2)]
    );
}

#[test]
fn read_failing_header_send_leaves_buffer() {
    let mut s = MemoryStream::with_write_limit(vec![1, 2], 0);
    let mut buf = [5u8; 2];
    let r = mdio::transport::read(&mut s, 3, 3, &mut buf);
    assert_eq!(r, Err(MdioError::TransportError { chunk: 0 }));
    assert_eq!(buf, [5, 5]);
    assert_eq!(s.records(), &[Record::SendFailed(H33.to_vec())]);
}

#[test]
fn read_request_uses_write_direction_header() {
    let mut s = MemoryStream::new(vec![0, 0]);
    let mut buf = [0u8; 2];
    assert_eq!(mdio::transport::read(&mut s, 0, 0, &mut buf), Ok(()));
    assert_eq!(s.records()[0], sent(&[0x50, 0x02]));
}

#[test]
fn write_header_masks_addresses() {
    let mut s = MemoryStream::new(vec![]);
    assert_eq!(mdio::transport::write(&mut s, 35, 67, &[0, 1]), Ok(()));
    assert_eq!(s.records(), &[sent(&[0x51, 0x8E, 0, 1])]);
}

#[test]
fn demonstration_transaction() {
    let mut s = MemoryStream::new(vec![0x12, 0x34, 0x56, 0x78]);
    assert_eq!(mdio::transport::write(&mut s, 3, 3, &[3, 3]), Ok(()));
    let mut retval = [2u8; 4];
    assert_eq!(mdio::transport::read(&mut s, 3, 3, &mut retval), Ok(()));
    assert_eq!(retval, [0x12, 0x34, 0x56, 0x78]);
    assert_eq!(s.records().len(), 5);
}

#[test]
fn memory_stream_write_budget_runs_out() {
    let mut s = MemoryStream::with_write_limit(vec![], 2);
    assert_eq!(s.send(&[1]), Ok(()));
    assert_eq!(s.send(&[2]), Ok(()));
    assert_eq!(s.send(&[3]), Err(StreamError));
    assert_eq!(s.records(), &[sent(&[1]), sent(&[2]), Record::SendFailed(vec![3])]);
}

#[test]
fn memory_stream_receive_beyond_script_fails() {
    let mut s = MemoryStream::new(vec![4, 5, 6]);
    let mut two = [0u8; 2];
    assert_eq!(s.receive(&mut two), Ok(()));
    assert_eq!(two, [4, 5]);
    assert_eq!(s.receive(&mut two), Err(StreamError));
    assert_eq!(two, [4, 5]);
    let mut one = [0u8; 1];
    assert_eq!(s.receive(&mut one), Ok(()));
    assert_eq!(one, [6]);
    assert_eq!(
        s.records(),
        &[received(&[4, 5]), Record::ReceiveFailed(2), received(&[6])]
    );
}

#[test]
fn two_writes_record_the_same_as_one_write_of_both() {
    let mut f = MemoryStream::new(vec![]);
    assert_eq!(mdio::transport::write(&mut f, 9, 17, &[1, 2]), Ok(()));
    assert_eq!(mdio::transport::write(&mut f, 9, 17, &[3, 4, 5, 6]), Ok(()));
    let mut g = MemoryStream::new(vec![]);
    assert_eq!(mdio::transport::write(&mut g, 9, 17, &[1, 2, 3, 4, 5, 6]), Ok(()));
    assert_eq!(f.records(), g.records());
    assert_eq!(g.records().len(), 3);
}

#[test]
fn read_short_reply_of_three_bytes_keeps_first_chunk() {
    let mut s = MemoryStream::new(vec![0x12, 0x34, 0x56]);
    let mut buf = [2u8; 4];
    let r = mdio::transport::read(&mut s, 3, 3, &mut buf);
    assert_eq!(r, Err(MdioError::TransportError { chunk: 1 }));
    assert_eq!(buf, [0x12, 0x34, 2, 2]);
}
