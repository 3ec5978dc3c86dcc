use std::io::Read;

use create_dotslash::decompress::{ChunkBuffer, Next, Progress, XzTarReader, ZstdTarReader};

fn sample() -> Vec<u8> {
    (0..300_000u32).map(|i| (i * i / 97) as u8).collect()
}

/// Feeds `input` in pieces of at most `piece` bytes to a reader of xz.
fn read_xz(input: &[u8], piece: usize, room: usize) -> Result<Vec<u8>, xz::stream::Error> {
    let mut reader = XzTarReader::new().unwrap();
    let mut rest = input;
    let mut result = Vec::new();
    let mut out = vec![0; room];
    loop {
        if reader.wants_input() {
            let n = rest.len().min(piece);
            reader.feed(&rest[..n]);
            rest = &rest[n..];
        }
        let Progress { produced, ready } = reader.step(&mut out)?;
        result.extend_from_slice(&out[..produced]);
        if ready && produced == 0 {
            return Ok(result);
        }
    }
}

#[test]
fn xz_is_decompressed() {
    let data = sample();
    let mut packed = Vec::new();
    xz::read::XzEncoder::new(&data[..], 6).read_to_end(&mut packed).unwrap();
    assert_eq!(read_xz(&packed, 8192, 1000).unwrap(), data);
    assert_eq!(read_xz(&packed, 1, 65536).unwrap(), data);
}

#[test]
fn broken_xz_is_refused() {
    assert!(read_xz(b"this is not xz at all", 8192, 1000).is_err());
}

/// Feeds `input` in pieces of at most `piece` bytes to a reader of zstd.
fn read_zstd(input: &[u8], piece: usize, room: usize) -> Option<Vec<u8>> {
    let mut reader = ZstdTarReader::new();
    let mut rest = input;
    let mut result = Vec::new();
    let mut out = vec![0; room];
    loop {
        while reader.wants_input() {
            let n = rest.len().min(piece);
            reader = reader.feed(&rest[..n]);
            rest = &rest[n..];
        }
        let (next, progress) = reader.step(&mut out).ok()?;
        reader = next;
        let Progress { produced, ready } = progress?;
        result.extend_from_slice(&out[..produced]);
        if ready && produced == 0 {
            return Some(result);
        }
    }
}

#[test]
fn zstd_is_decompressed() {
    let data = sample();
    let packed = ruzstd::encoding::compress_to_vec(
        &data[..],
        ruzstd::encoding::CompressionLevel::Fastest,
    );
    assert_eq!(read_zstd(&packed, 8192, 1000).unwrap(), data);
}

#[test]
fn broken_zstd_is_refused() {
    assert!(read_zstd(&[7; 100], 8192, 1000).is_none());
}

#[test]
fn truncated_checksums_are_noticed() {
    // A frame with a single block, which is not compressed.
    let magic = [0x28, 0xb5, 0x2f, 0xfd];
    let block = [0x19, 0, 0, b'a', b'b', b'c'];
    let plain = [&magic[..], &[0x20, 3], &block].concat();
    assert_eq!(read_zstd(&plain, 8192, 1000).unwrap(), b"abc");
    let with_checksum = [&magic[..], &[0x24, 3], &block, &[0, 0]].concat();
    assert!(read_zstd(&with_checksum, 8192, 1000).is_none());
}

#[test]
fn zstd_wants_a_whole_block() {
    let reader = ZstdTarReader::new();
    assert!(reader.wants_input());
    let reader = reader.feed(&vec![0; 128 * 1024 - 1]);
    assert!(reader.wants_input());
    let reader = reader.feed(&[0]);
    assert!(!reader.wants_input());
    let reader = ZstdTarReader::new().feed(&[]);
    assert!(!reader.wants_input());
}

#[test]
fn zstd_blocks_are_as_large_as_they_can_be() {
    // A frame with a single block of 128 kB, to which its header adds 3 bytes.
    let content: Vec<u8> = sample().into_iter().cycle().take(128 * 1024).collect();
    let header = [0x28, 0xb5, 0x2f, 0xfd, 0xa0, 0, 0, 2, 0, 1, 0, 0x10];
    let packed = [&header[..], &content].concat();
    assert_eq!(read_zstd(&packed, 1, 1000).unwrap(), content);
}

/// A reader after a call that consumed and produced something, or not.
fn decode(reader: ZstdTarReader, out: &mut [u8]) -> (ZstdTarReader, Progress) {
    match reader.step(out) {
        Ok((reader, Some(progress))) => (reader, progress),
        _ => panic!("this is zstd"),
    }
}

#[test]
fn zstd_tries_what_is_buffered() {
    let mut out = [0; 1000];
    // The header of a frame with a window of 1 kB, and one block after another.
    let header = [0x28, 0xb5, 0x2f, 0xfd, 0, 0];
    let block = |byte: u8| [&[0x40, 0x1f, 0][..], &[byte; 1000]].concat();

    let reader = ZstdTarReader::new();
    assert_eq!(reader.after_pending(), Next::Wait);
    let reader = reader.feed(&header);
    assert_eq!(reader.after_pending(), Next::Wait);
    let reader = reader.feed(&block(b'a')).feed(&block(b'b'));
    assert!(reader.wants_input());
    assert_eq!(reader.after_pending(), Next::Decode);
    let (reader, progress) = decode(reader, &mut out);
    assert!(progress.ready);
    assert_eq!(progress.produced, 976);
    assert_eq!(out[..976], [b'a'; 976]);
    assert!(reader.wants_input());
    assert_eq!(reader.after_pending(), Next::Wait);

    // A part of a block is tried once.
    let third = block(b'c');
    let reader = reader.feed(&third[..500]);
    assert_eq!(reader.after_pending(), Next::Decode);
    let (reader, progress) = decode(reader, &mut out);
    assert!(!progress.ready);
    assert_eq!(progress.produced, 0);
    assert!(reader.wants_input());
    assert_eq!(reader.after_pending(), Next::Wait);
    let reader = reader.feed(&third[500..]);
    assert_eq!(reader.after_pending(), Next::Decode);
    let (reader, progress) = decode(reader, &mut out);
    assert!(progress.ready);
    assert_eq!(progress.produced, 1000);
    assert_eq!(out[..24], [b'a'; 24]);
    assert_eq!(out[24..], [b'b'; 976]);

    // The last block is empty.
    let reader = reader.feed(&[1, 0, 0]).feed(&[]);
    assert!(!reader.wants_input());
    let (reader, progress) = decode(reader, &mut out);
    assert_eq!(progress.produced, 1000);
    assert_eq!(out[..24], [b'b'; 24]);
    let (reader, progress) = decode(reader, &mut out);
    assert_eq!(progress.produced, 24);
    let (_, progress) = decode(reader, &mut out);
    assert!(progress.ready);
    assert_eq!(progress.produced, 0);
}

#[test]
fn zstd_waits_for_whole_checksums() {
    let mut out = [0; 1000];
    let header = [0x28, 0xb5, 0x2f, 0xfd, 0x24, 20, 0xa1, 0, 0];
    let reader = ZstdTarReader::new().feed(&header).feed(&[b'a'; 20]);
    assert_eq!(reader.after_pending(), Next::Decode);
    let (reader, progress) = decode(reader, &mut out);
    assert_eq!(progress.produced, 20);
    let reader = reader.feed(&[0, 0]);
    assert_eq!(reader.after_pending(), Next::Wait);
    let reader = reader.feed(&[0, 0]);
    assert_eq!(reader.after_pending(), Next::Decode);
    let (reader, progress) = decode(reader, &mut out);
    assert!(!progress.ready);
    let (_, progress) = decode(reader.feed(&[]), &mut out);
    assert!(progress.ready);
    assert_eq!(progress.produced, 0);
}

#[test]
fn chunks_are_read_piece_by_piece() {
    let mut buffer = ChunkBuffer::new();
    assert!(buffer.is_empty());
    let mut out = [9; 4];
    assert_eq!(buffer.fill(&mut out), 0);
    assert_eq!(out, [9; 4]);
    buffer.receive(bytes::Bytes::from_static(b"abcdef"));
    assert!(!buffer.is_empty());
    assert_eq!(buffer.fill(&mut out), 4);
    assert_eq!(&out, b"abcd");
    assert_eq!(buffer.fill(&mut out), 2);
    assert_eq!(&out, b"efcd");
    assert!(buffer.is_empty());
}

#[test]
fn readers_are_ready_or_need_input() {
    assert!(Progress::of_xz(1, false, 10).ready);
    assert!(Progress::of_xz(0, true, 10).ready);
    assert!(Progress::of_xz(0, false, 0).ready);
    assert!(!Progress::of_xz(0, false, 10).ready);
    assert!(Progress::of_zstd(0, 1, 10, false).ready);
    assert!(Progress::of_zstd(0, 0, 10, true).ready);
    assert!(Progress::of_zstd(5, 0, 0, false).ready);
    assert!(!Progress::of_zstd(5, 0, 10, true).ready);
    assert!(!Progress::of_zstd(0, 0, 10, false).ready);
    assert_eq!(Progress::of_zstd(5, 3, 10, true).produced, 3);
}
