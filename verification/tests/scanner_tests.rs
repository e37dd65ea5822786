use framestream::codec;
use framestream::codec::Frame;
use framestream::codec::MAGIC;
use framestream::decoder::Poll;
use framestream::decoder::StreamDecoder;
use framestream::error::ScanError;
use framestream::scanner::iter_stream;
use framestream::accumulator::Accumulator;
use framestream::scanner::reconstruct;
use framestream::scanner::scan_all;
use framestream::scanner::ScannedItem;
use framestream::sink::WriteInto;
use framestream::source::BorrowedSource;
use framestream::source::FailingSource;
use framestream::source::MemSource;

#[test]
fn test_scanner_reads_owned_cursor() {
    // Scanner must behave the same when given ownership of the source
    // (as opposed to borrowing the bytes like other tests do).
    let frame = Frame::new(b"test".to_vec());
    let buffer = frame.to_vec();

    let mut count = 0;
    let mut scanner = iter_stream(MemSource::new(buffer));
    while let Some(item) = scanner.next() {
        let item = item.unwrap();
        if matches!(item, ScannedItem::Event(_)) {
            count += 1;
        }
    }

    assert_eq!(count, 1, "Expected 1 event, got {}", count);
}

#[test]
fn test_write_full_test_event_with_file_content() {
    let event = Frame::new(b"A_test_id tag_a tag_b stdout content".to_vec());
    let event_a = Frame::new(b"A_test_id tag_a tag_b".to_vec());

    let mut buffer = event.to_vec();
    event_a.write_into(&mut buffer);

    let mut count = 0;
    let mut scanner = iter_stream(BorrowedSource::new(&buffer));
    let expected = [event, event_a];
    while let Some(parsed_event) = scanner.next() {
        let parsed_event = parsed_event.unwrap();
        let ScannedItem::Event(parsed_event) = parsed_event else {
            panic!("Expected event, got {:?}", parsed_event);
        };
        assert_eq!(expected[count].payload(), parsed_event.payload());
        count += 1;
    }
    assert_eq!(count, 2, "Expected to read 2 events, got {}", count);
}

#[test]
fn test_empty_source_yields_nothing() {
    let mut scanner = iter_stream(MemSource::new(Vec::new()));
    assert!(scanner.next().is_none());
    assert!(scanner.next().is_none());
}

#[test]
fn test_two_frame_round_trip() {
    let a = Frame::new(vec![1, 2, 3]);
    let b = Frame::new(vec![4, 5]);
    let mut bytes = a.to_vec();
    let mut b_bytes = b.to_vec();
    bytes.append(&mut b_bytes);

    let mut scanner = iter_stream(MemSource::new(bytes));
    let first = scanner.next().unwrap().unwrap();
    match first {
        ScannedItem::Event(f) => assert_eq!(f.payload(), &vec![1, 2, 3]),
        other => panic!("Expected event, got {:?}", other),
    }
    let second = scanner.next().unwrap().unwrap();
    match second {
        ScannedItem::Event(f) => assert_eq!(f.payload(), &vec![4, 5]),
        other => panic!("Expected event, got {:?}", other),
    }
    assert!(scanner.next().is_none());
}

#[test]
fn test_encode_exact_bytes() {
    // Marker, two length bytes big endian, payload, XOR checksum.
    let frame = Frame::new(vec![1, 2, 3]);
    assert_eq!(frame.to_vec(), vec![MAGIC, 0, 3, 1, 2, 3, 1 ^ 2 ^ 3]);

    let empty = Frame::new(Vec::new());
    assert_eq!(empty.to_vec(), vec![MAGIC, 0, 0, 0]);
}

#[test]
fn test_encode_two_byte_length() {
    let frame = Frame::new(vec![7; 300]);
    let bytes = frame.to_vec();
    assert_eq!(bytes.len(), 304);
    assert_eq!(bytes[0], MAGIC);
    assert_eq!(bytes[1], 1);
    assert_eq!(bytes[2], 44);
    // XOR of an even count of equal bytes is 0.
    assert_eq!(bytes[303], 0);
}

#[test]
fn test_decode_exact() {
    let window = vec![MAGIC, 0, 2, 10, 20, 10 ^ 20, 99, 98];
    let (frame, used) = codec::decode(&window).unwrap();
    assert_eq!(frame.payload(), &vec![10, 20]);
    assert_eq!(used, 6);
}

#[test]
fn test_required_bytes_short_window() {
    assert_eq!(codec::required_bytes(&Vec::new()), Ok(3));
    assert_eq!(codec::required_bytes(&vec![0x00]), Ok(3));
    assert_eq!(codec::required_bytes(&vec![0x00, 0x01]), Ok(3));
}

#[test]
fn test_required_bytes_sized_header() {
    assert_eq!(codec::required_bytes(&vec![MAGIC, 0, 5]), Ok(9));
    assert_eq!(codec::required_bytes(&vec![MAGIC, 1, 0, 42]), Ok(260));
}

#[test]
fn test_required_bytes_bad_marker() {
    assert_eq!(
        codec::required_bytes(&vec![0x00, 0x01, 0x02]),
        Err(ScanError::BadHeader)
    );
}

#[test]
fn test_decode_truncated_window() {
    let mut bytes = Frame::new(vec![1, 2, 3, 4, 5]).to_vec();
    bytes.truncate(5);
    assert!(matches!(codec::decode(&bytes), Err(ScanError::Truncated)));
}

#[test]
fn test_decode_bad_checksum() {
    let mut bytes = Frame::new(vec![1, 2, 3]).to_vec();
    let last = bytes.len() - 1;
    bytes[last] ^= 0xFF;
    assert!(matches!(codec::decode(&bytes), Err(ScanError::BadChecksum)));
}

#[test]
fn test_bad_header_is_fatal() {
    let mut scanner = iter_stream(MemSource::new(vec![0x00, 0x01, 0x02, 0x03]));
    let step = scanner.next().unwrap();
    assert_eq!(step.unwrap_err(), ScanError::BadHeader);
}

#[test]
fn test_corrupt_frame_sized_skip() {
    // A frame whose size is known but whose checksum fails is skipped as one
    // Unknown item of exactly the sized bytes, and scanning resumes.
    let mut bytes = Frame::new(vec![1, 2, 3]).to_vec();
    let frame_len = bytes.len();
    let last = frame_len - 1;
    bytes[last] ^= 0xFF;
    let mut tail = Frame::new(vec![9]).to_vec();
    bytes.append(&mut tail);

    let mut scanner = iter_stream(MemSource::new(bytes));
    match scanner.next().unwrap().unwrap() {
        ScannedItem::Unknown(raw, e) => {
            assert_eq!(raw.len(), frame_len);
            assert_eq!(e, ScanError::BadChecksum);
        }
        other => panic!("Expected unknown chunk, got {:?}", other),
    }
    match scanner.next().unwrap().unwrap() {
        ScannedItem::Event(f) => assert_eq!(f.payload(), &vec![9]),
        other => panic!("Expected event, got {:?}", other),
    }
    assert!(scanner.next().is_none());
}

#[test]
fn test_trailing_partial_frame() {
    // One whole frame, then bytes that never reach their announced count:
    // the frame decodes, the leftovers flush as one Unknown item.
    let mut bytes = Frame::new(vec![1, 2, 3]).to_vec();
    let mut partial = Frame::new(vec![4, 5, 6, 7, 8]).to_vec();
    partial.truncate(5);
    let leftover = partial.clone();
    bytes.append(&mut partial);

    let mut scanner = iter_stream(MemSource::new(bytes));
    match scanner.next().unwrap().unwrap() {
        ScannedItem::Event(f) => assert_eq!(f.payload(), &vec![1, 2, 3]),
        other => panic!("Expected event, got {:?}", other),
    }
    match scanner.next().unwrap().unwrap() {
        ScannedItem::Unknown(raw, e) => {
            assert_eq!(raw, leftover);
            assert_eq!(e, ScanError::Truncated);
        }
        other => panic!("Expected unknown chunk, got {:?}", other),
    }
    assert!(scanner.next().is_none());
}

#[test]
fn test_ownership_independence() {
    // The same bytes, scanned from an owned and from a borrowed source,
    // yield identical item sequences.
    let mut bytes = Frame::new(vec![1, 2, 3]).to_vec();
    let mut corrupt = Frame::new(vec![4, 4]).to_vec();
    let last = corrupt.len() - 1;
    corrupt[last] ^= 0x55;
    bytes.append(&mut corrupt);
    bytes.push(MAGIC);
    bytes.push(0);

    let (owned_items, owned_end) = scan_all(MemSource::new(bytes.clone()));
    let (borrowed_items, borrowed_end) = scan_all(BorrowedSource::new(&bytes));

    assert_eq!(owned_end, borrowed_end);
    assert_eq!(owned_items.len(), borrowed_items.len());
    for (a, b) in owned_items.iter().zip(borrowed_items.iter()) {
        match (a, b) {
            (ScannedItem::Event(fa), ScannedItem::Event(fb)) => {
                assert_eq!(fa.payload(), fb.payload());
            }
            (ScannedItem::Unknown(ra, ea), ScannedItem::Unknown(rb, eb)) => {
                assert_eq!(ra, rb);
                assert_eq!(ea, eb);
            }
            other => panic!("Item sequences diverge: {:?}", other),
        }
    }
}

#[test]
fn test_conservation_reconstructs_stream() {
    // Concatenating the bytes each emitted item accounts for restores the
    // original stream exactly.
    let mut bytes = Frame::new(vec![1, 2, 3]).to_vec();
    let mut corrupt = Frame::new(vec![8, 8, 8]).to_vec();
    let last = corrupt.len() - 1;
    corrupt[last] ^= 0x0F;
    bytes.append(&mut corrupt);
    bytes.push(MAGIC);
    bytes.push(9);

    let (items, end) = scan_all(MemSource::new(bytes.clone()));
    assert_eq!(end, None);

    assert_eq!(reconstruct(&items), bytes);
}

#[test]
fn test_scan_all_collects_everything() {
    let mut bytes = Frame::new(vec![5]).to_vec();
    let mut second = Frame::new(vec![6, 7]).to_vec();
    bytes.append(&mut second);

    let (items, end) = scan_all(MemSource::new(bytes));
    assert_eq!(end, None);
    assert_eq!(items.len(), 2);
    assert!(matches!(items[0], ScannedItem::Event(_)));
    assert!(matches!(items[1], ScannedItem::Event(_)));
}

#[test]
fn test_scan_all_stops_on_bad_header() {
    let mut bytes = Frame::new(vec![1]).to_vec();
    bytes.push(0x00);
    bytes.push(0x00);
    bytes.push(0x00);

    let (items, end) = scan_all(MemSource::new(bytes));
    assert_eq!(end, Some(ScanError::BadHeader));
    assert_eq!(items.len(), 1);
    assert!(matches!(items[0], ScannedItem::Event(_)));
}

#[test]
fn test_write_into_appends() {
    let mut out = vec![0xAA, 0xBB];
    let frame = Frame::new(vec![1]);
    frame.write_into(&mut out);
    assert_eq!(out, vec![0xAA, 0xBB, MAGIC, 0, 1, 1, 1]);
}

#[test]
fn test_largest_payload_round_trips() {
    let payload = vec![0x5A; 0xFFFF];
    let bytes = Frame::new(payload.clone()).to_vec();
    assert_eq!(bytes.len(), 0xFFFF + 4);
    let (frame, used) = codec::decode(&bytes).unwrap();
    assert_eq!(used, bytes.len());
    assert_eq!(frame.payload(), &payload);
}

#[test]
fn test_io_error_propagates() {
    let mut scanner = iter_stream(FailingSource);
    let step = scanner.next().unwrap();
    assert_eq!(step.unwrap_err(), ScanError::Io);
}

#[test]
fn test_accumulator_fifo() {
    let mut acc = Accumulator::new();
    assert!(acc.is_empty());
    acc.append(&vec![1, 2, 3]);
    acc.append(&vec![4, 5]);
    assert_eq!(acc.len(), 5);
    assert_eq!(acc.contiguous_view(), &vec![1, 2, 3, 4, 5]);
    let front = acc.drain_prefix(2);
    assert_eq!(front, vec![1, 2]);
    assert_eq!(acc.contiguous_view(), &vec![3, 4, 5]);
    let rest = acc.drain_prefix(3);
    assert_eq!(rest, vec![3, 4, 5]);
    assert!(acc.is_empty());
}

#[test]
fn test_decoder_feed_poll_round_trip() {
    // Push-style decoding: feed one byte at a time; each frame becomes
    // ready exactly when its last byte arrives.
    let mut bytes = Frame::new(vec![1, 2, 3]).to_vec();
    let mut second = Frame::new(vec![4]).to_vec();
    bytes.append(&mut second);

    let mut decoder = StreamDecoder::new();
    let mut payloads: Vec<Vec<u8>> = Vec::new();
    for byte in &bytes {
        decoder.feed(&vec![*byte]);
        loop {
            match decoder.poll() {
                Poll::Item(ScannedItem::Event(f)) => payloads.push(f.payload().clone()),
                Poll::Item(other) => panic!("Expected event, got {:?}", other),
                Poll::NeedMore => break,
                Poll::Fatal(e) => panic!("Unexpected fatal error {:?}", e),
            }
        }
    }
    assert!(decoder.finish().is_none());
    assert_eq!(payloads, vec![vec![1, 2, 3], vec![4]]);
}

#[test]
fn test_decoder_finish_flushes_partial() {
    let mut partial = Frame::new(vec![1, 2, 3]).to_vec();
    partial.truncate(4);

    let mut decoder = StreamDecoder::new();
    decoder.feed(&partial);
    assert!(matches!(decoder.poll(), Poll::NeedMore));
    match decoder.finish() {
        Some(ScannedItem::Unknown(raw, e)) => {
            assert_eq!(raw, partial);
            assert_eq!(e, ScanError::Truncated);
        }
        other => panic!("Expected unknown chunk, got {:?}", other),
    }
    assert!(decoder.finish().is_none());
}

#[test]
fn test_decoder_fatal_on_bad_marker() {
    let mut decoder = StreamDecoder::new();
    decoder.feed(&vec![0x00, 0x01, 0x02]);
    match decoder.poll() {
        Poll::Fatal(e) => assert_eq!(e, ScanError::BadHeader),
        other => panic!("Expected fatal error, got {:?}", other),
    }
}

#[test]
fn test_decoder_skips_corrupt_sized_frame() {
    let mut bytes = Frame::new(vec![6, 6]).to_vec();
    let frame_len = bytes.len();
    let last = frame_len - 1;
    bytes[last] ^= 0xFF;

    let mut decoder = StreamDecoder::new();
    decoder.feed(&bytes);
    match decoder.poll() {
        Poll::Item(ScannedItem::Unknown(raw, e)) => {
            assert_eq!(raw.len(), frame_len);
            assert_eq!(e, ScanError::BadChecksum);
        }
        other => panic!("Expected unknown chunk, got {:?}", other),
    }
    assert!(matches!(decoder.poll(), Poll::NeedMore));
}
