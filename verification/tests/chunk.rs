use okaywal::ChunkReader;

const MESSAGE: &[u8] = b"Hello world!";
const MESSAGE_CRC: u32 = 0x7B98_E751;

fn header(marker: u8, crc32: u32, length: u32) -> [u8; 9] {
    let mut header = [0; 9];
    header[0] = marker;
    header[1..5].copy_from_slice(&crc32.to_le_bytes());
    header[5..9].copy_from_slice(&length.to_le_bytes());
    header
}

#[test]
fn headers_are_little_endian() {
    let reader = ChunkReader::from_header(&[3, 1, 2, 3, 4, 5, 6, 7, 8]);
    assert_eq!(reader.chunk_length(), 0x0807_0605);
    assert_eq!(reader.bytes_remaining(), 0x0807_0605);
    assert_eq!(reader.crc_is_valid(), None);
    let reader = ChunkReader::from_header(&[0xff; 9]);
    assert_eq!(reader.chunk_length(), u32::MAX);
    assert_eq!(reader.bytes_remaining(), u32::MAX);
}

#[test]
fn written_data_is_valid() {
    for marker in [0, 1, 255] {
        let mut reader = ChunkReader::from_header(&header(marker, MESSAGE_CRC, 12));
        assert_eq!(reader.crc_is_valid(), None);
        assert_eq!(reader.read(MESSAGE), 12);
        assert_eq!(reader.chunk_length(), 12);
        assert_eq!(reader.bytes_remaining(), 0);
        assert_eq!(reader.crc_is_valid(), Some(true));
    }
}

#[test]
fn damaged_data_is_not_valid() {
    let mut reader = ChunkReader::from_header(&header(1, MESSAGE_CRC, 12));
    reader.read(b"Hello world?");
    assert_eq!(reader.crc_is_valid(), Some(false));
    let mut reader = ChunkReader::from_header(&header(1, 0, 12));
    reader.read(MESSAGE);
    assert_eq!(reader.crc_is_valid(), Some(false));
}

#[test]
fn division_into_reads_does_not_matter() {
    for first in 0..=12 {
        for second in first..=12 {
            let mut reader = ChunkReader::from_header(&header(1, MESSAGE_CRC, 12));
            assert_eq!(reader.read(&MESSAGE[..first]), first);
            assert_eq!(reader.bytes_remaining(), 12 - first as u32);
            assert_eq!(reader.read(&MESSAGE[first..second]), second - first);
            assert_eq!(reader.crc_is_valid().is_some(), second == 12);
            assert_eq!(reader.read(&MESSAGE[second..]), 12 - second);
            assert_eq!(reader.chunk_length(), 12);
            assert_eq!(reader.crc_is_valid(), Some(true));
        }
    }
}

#[test]
fn long_data_read_in_pieces_has_the_checksum_of_the_whole() {
    let data: Vec<u8> = (0..40_000u32).map(|n| (n * n >> 3) as u8).collect();
    let crc32 = crc32c::crc32c(&data);
    let mut reader = ChunkReader::from_header(&header(1, crc32, data.len() as u32));
    for piece in data.chunks(4097) {
        reader.read(piece);
    }
    assert_eq!(reader.crc_is_valid(), Some(true));
}

#[test]
fn reads_stop_at_the_end_of_the_chunk() {
    let mut reader = ChunkReader::from_header(&header(1, MESSAGE_CRC, 12));
    assert_eq!(reader.read_limit(0), 0);
    assert_eq!(reader.read_limit(11), 11);
    assert_eq!(reader.read_limit(12), 12);
    assert_eq!(reader.read_limit(13), 12);
    reader.read(&MESSAGE[..10]);
    assert_eq!(reader.read_limit(1), 1);
    assert_eq!(reader.read_limit(usize::MAX), 2);
    reader.read(&MESSAGE[10..]);
    assert_eq!(reader.read_limit(100), 0);
}

#[test]
fn an_empty_chunk_is_complete_at_once() {
    let mut reader = ChunkReader::from_header(&header(1, 0, 0));
    assert_eq!(reader.crc_is_valid(), Some(true));
    assert_eq!(reader.read(&[]), 0);
    assert_eq!(reader.crc_is_valid(), Some(true));
    let reader = ChunkReader::from_header(&header(1, 1, 0));
    assert_eq!(reader.crc_is_valid(), Some(false));
}

#[test]
fn an_empty_read_changes_nothing() {
    let mut reader = ChunkReader::from_header(&header(1, MESSAGE_CRC, 12));
    reader.read(&MESSAGE[..5]);
    assert_eq!(reader.read(&[]), 0);
    assert_eq!(reader.bytes_remaining(), 7);
    reader.read(&MESSAGE[5..]);
    assert_eq!(reader.crc_is_valid(), Some(true));
}

#[test]
fn validity_compares_the_two_checksums() {
    let mut reader = ChunkReader::from_header(&header(1, 77, 3));
    reader.advance(2, 77);
    assert_eq!(reader.bytes_remaining(), 1);
    assert_eq!(reader.crc_is_valid(), None);
    reader.advance(1, 77);
    assert_eq!(reader.crc_is_valid(), Some(true));
    let mut reader = ChunkReader::from_header(&header(1, 77, 3));
    reader.advance(3, 78);
    assert_eq!(reader.crc_is_valid(), Some(false));
}

/// The CRC-32C, bit by bit.
fn bitwise_crc32c(crc: u32, data: &[u8]) -> u32 {
    let mut register = !crc;
    for byte in data {
        register ^= u32::from(*byte);
        for _ in 0..8 {
            let carry = register & 1 == 1;
            register >>= 1;
            if carry {
                register ^= 0x82F6_3B78;
            }
        }
    }
    !register
}

#[test]
fn checksums_are_those_of_the_bitwise_definition() {
    assert_eq!(bitwise_crc32c(0, MESSAGE), MESSAGE_CRC);
    let data: Vec<u8> = (0..30_000u32).map(|n| (n.wrapping_mul(2654435761) >> 11) as u8).collect();
    for length in [0, 1, 2, 7, 8, 9, 63, 64, 65, 767, 768, 769, 8191, 24_576, 30_000] {
        let data = &data[..length];
        let mut reader =
            ChunkReader::from_header(&header(1, bitwise_crc32c(0, data), length as u32));
        for piece in data.chunks(10_007) {
            reader.read(piece);
        }
        assert_eq!(reader.crc_is_valid(), Some(true), "{length}");
    }
}
