//! Reading a chunk of an entry back from a segment file.
//!
//! A chunk is stored as a header of nine bytes followed by its data. The first
//! byte of the header is a marker, the next four hold the data's CRC-32C and
//! the last four its length, both in little-endian order.
use vstd::prelude::*;

verus! {

/// The CRC-32C polynomial, lowest power in the highest bit.
pub const CRC32C_POLYNOMIAL: u32 = 0x82F63B78;

/// The shift register `register` after `count` bits: with each bit it is shifted
/// right, and the polynomial is subtracted where a 1 falls out.
pub open spec fn crc_shifted(register: u32, count: nat) -> u32
    decreases count,
{
    if count == 0 {
        register
    } else {
        let before = crc_shifted(register, (count - 1) as nat);
        if before & 1 == 1 {
            (before >> 1) ^ CRC32C_POLYNOMIAL
        } else {
            before >> 1
        }
    }
}

/// The shift register `register` after the bytes of `data`.
pub open spec fn crc_register_after(register: u32, data: Seq<u8>) -> u32
    decreases data.len(),
{
    if data.len() == 0 {
        register
    } else {
        crc_shifted(crc_register_after(register, data.drop_last()) ^ (data.last() as u32), 8)
    }
}

/// The CRC-32C of `data`, starting with the previous value `crc`. A value is the
/// complement of the register.
pub open spec fn crc32c_append_of(crc: u32, data: Seq<u8>) -> u32 {
    !crc_register_after(!crc, data)
}

/// Calls `crc32c::crc32c_append`. Claimed of it: it returns the CRC-32C of
/// `data`, the checksum with the Castagnoli polynomial, starting with the
/// previous value `crc`.
#[verifier::external_body]
fn crc32c_append(crc: u32, data: &[u8]) -> (value: u32)
    ensures
        value == crc32c_append_of(crc, data@),
{
    crc32c::crc32c_append(crc, data)
}

/// The CRC-32C of `data`.
pub open spec fn checksum_of(data: Seq<u8>) -> u32 {
    crc32c_append_of(0, data)
}

proof fn lemma_register_after_concatenation(register: u32, a: Seq<u8>, b: Seq<u8>)
    ensures
        crc_register_after(register, a + b) == crc_register_after(
            crc_register_after(register, a),
            b,
        ),
    decreases b.len(),
{
    if b.len() == 0 {
        assert(a + b =~= a);
    } else {
        lemma_register_after_concatenation(register, a, b.drop_last());
        assert((a + b).drop_last() =~= a + b.drop_last());
    }
}

/// No data leaves a checksum as it is. That of no data is 0.
pub proof fn law_no_data_leaves_the_checksum(crc: u32)
    ensures
        crc32c_append_of(crc, Seq::empty()) == crc,
        checksum_of(Seq::empty()) == 0,
{
    assert(!(!crc) == crc) by (bit_vector);
    assert(!(!0u32) == 0u32) by (bit_vector);
}

/// Continuing the checksum of some bytes over more of them gives the checksum of
/// all of them.
pub proof fn law_checksums_continue(crc: u32, a: Seq<u8>, b: Seq<u8>)
    ensures
        crc32c_append_of(crc32c_append_of(crc, a), b) == crc32c_append_of(crc, a + b),
{
    let register = crc_register_after(!crc, a);
    assert(!(!register) == register) by (bit_vector);
    lemma_register_after_concatenation(!crc, a, b);
}

/// The number that the four bytes of `bytes` from `at` on hold in little-endian
/// order.
pub open spec fn le_u32_at(bytes: Seq<u8>, at: int) -> int {
    bytes[at] + 0x100 * bytes[at + 1] + 0x10000 * bytes[at + 2] + 0x1000000 * bytes[at + 3]
}

/// The four bytes that hold `n` in little-endian order.
pub open spec fn le_bytes_of(n: u32) -> Seq<u8> {
    seq![
        (n as int % 0x100) as u8,
        (n as int / 0x100 % 0x100) as u8,
        (n as int / 0x10000 % 0x100) as u8,
        (n as int / 0x1000000) as u8,
    ]
}

/// The header of a chunk with the given marker, checksum and length.
pub open spec fn chunk_header_of(marker: u8, crc32: u32, length: u32) -> Seq<u8> {
    seq![marker] + le_bytes_of(crc32) + le_bytes_of(length)
}

/// The number of bytes of a chunk's header.
pub const CHUNK_HEADER_BYTES: usize = 9;

/// How far a chunk has been read.
#[derive(Clone, Copy, Debug, PartialEq, Eq, Structural)]
pub struct ChunkProgress {
    /// The length of the chunk's data.
    pub length: u32,
    /// How much of the data has not been read yet.
    pub bytes_remaining: u32,
    /// The checksum in the chunk's header.
    pub stored_crc32: u32,
    /// The checksum of the data read so far.
    pub read_crc32: u32,
}

impl ChunkProgress {
    /// The state of a reader that has just read `header`.
    pub open spec fn after_header(header: Seq<u8>) -> ChunkProgress {
        ChunkProgress {
            length: le_u32_at(header, 5) as u32,
            bytes_remaining: le_u32_at(header, 5) as u32,
            stored_crc32: le_u32_at(header, 1) as u32,
            read_crc32: 0,
        }
    }

    /// The state after `count` more bytes, which bring the checksum to `crc32`.
    pub open spec fn advanced(self, count: int, crc32: u32) -> ChunkProgress {
        ChunkProgress {
            bytes_remaining: (self.bytes_remaining - count) as u32,
            read_crc32: crc32,
            ..self
        }
    }

    /// Whether the bytes read so far are `data`.
    pub open spec fn has_read(self, data: Seq<u8>) -> bool {
        &&& data.len() + self.bytes_remaining == self.length
        &&& self.read_crc32 == checksum_of(data)
    }

    /// Whether the stored checksum matches that of the data; unknown until all
    /// of it has been read.
    pub open spec fn crc_validity(self) -> Option<bool> {
        if self.bytes_remaining == 0 {
            Some(self.stored_crc32 == self.read_crc32)
        } else {
            None
        }
    }
}

/// A reader for the data of a previously written chunk.
///
/// It hands out no more bytes than the chunk holds.
#[derive(Clone, Copy, Debug)]
pub struct ChunkReader {
    bytes_remaining: u32,
    length: u32,
    stored_crc32: u32,
    read_crc32: u32,
}

impl View for ChunkReader {
    type V = ChunkProgress;

    closed spec fn view(&self) -> ChunkProgress {
        ChunkProgress {
            length: self.length,
            bytes_remaining: self.bytes_remaining,
            stored_crc32: self.stored_crc32,
            read_crc32: self.read_crc32,
        }
    }
}

/// The little-endian number in four bytes.
fn read_le_u32(b0: u8, b1: u8, b2: u8, b3: u8) -> (n: u32)
    ensures
        n == b0 + 0x100 * b1 + 0x10000 * b2 + 0x1000000 * b3,
{
    b0 as u32 + 0x100 * (b1 as u32) + 0x10000 * (b2 as u32) + 0x1000000 * (b3 as u32)
}

impl ChunkReader {
    #[verifier::type_invariant]
    spec fn within_length(self) -> bool {
        self.bytes_remaining <= self.length
    }

    /// Starts to read the chunk whose header is `header`.
    pub fn from_header(header: &[u8; CHUNK_HEADER_BYTES]) -> (reader: ChunkReader)
        ensures
            reader@ == ChunkProgress::after_header(header@),
            reader@.has_read(Seq::empty()),
            reader@.length == header@[5] + 0x100 * header@[6] + 0x10000 * header@[7] + 0x1000000
                * header@[8],
            reader@.bytes_remaining == reader@.length,
            reader@.stored_crc32 == header@[1] + 0x100 * header@[2] + 0x10000 * header@[3]
                + 0x1000000 * header@[4],
            reader@.read_crc32 == 0,
    {
        let stored_crc32: u32 = read_le_u32(header[1], header[2], header[3], header[4]);
        let length: u32 = read_le_u32(header[5], header[6], header[7], header[8]);
        proof {
            law_no_data_leaves_the_checksum(0);
        }
        ChunkReader { bytes_remaining: length, length, stored_crc32, read_crc32: 0 }
    }

    /// The length of the chunk's data. It does not change as data is read.
    pub fn chunk_length(&self) -> (length: u32)
        ensures
            length == self@.length,
    {
        self.length
    }

    /// The number of bytes that remain to be read. Each read lowers it.
    pub fn bytes_remaining(&self) -> (bytes_remaining: u32)
        ensures
            bytes_remaining == self@.bytes_remaining,
            bytes_remaining <= self@.length,
    {
        proof {
            use_type_invariant(self);
        }
        self.bytes_remaining
    }

    /// Whether the stored checksum matches the one computed while reading;
    /// `None` if the chunk has not been read completely.
    pub fn crc_is_valid(&self) -> (valid: Option<bool>)
        ensures
            valid == self@.crc_validity(),
            valid is Some <==> self@.bytes_remaining == 0,
            valid is Some ==> valid->0 == (self@.stored_crc32 == self@.read_crc32),
    {
        if self.bytes_remaining == 0 {
            Some(self.stored_crc32 == self.read_crc32)
        } else {
            None
        }
    }

    /// How many bytes a read into a buffer of `buf_len` bytes may ask for: as
    /// many as fit, but none beyond the end of the chunk.
    pub fn read_limit(&self, buf_len: usize) -> (limit: usize)
        ensures
            limit == if buf_len <= self@.bytes_remaining {
                buf_len as int
            } else {
                self@.bytes_remaining as int
            },
    {
        let bytes_remaining: usize = self.bytes_remaining as usize;
        if buf_len > bytes_remaining {
            bytes_remaining
        } else {
            buf_len
        }
    }

    /// Takes note of `bytes`, which were just read from the segment file, and
    /// returns their number.
    pub fn read(&mut self, bytes: &[u8]) -> (bytes_read: usize)
        requires
            bytes@.len() <= old(self)@.bytes_remaining,
        ensures
            bytes_read == bytes@.len(),
            final(self)@ == old(self)@.advanced(
                bytes@.len() as int,
                crc32c_append_of(old(self)@.read_crc32, bytes@),
            ),
            bytes@.len() == 0 ==> final(self)@ == old(self)@,
            final(self)@.stored_crc32 == old(self)@.stored_crc32,
            final(self)@.length == old(self)@.length,
            final(self)@.bytes_remaining == old(self)@.bytes_remaining - bytes@.len(),
            final(self)@.read_crc32 == crc32c_append_of(old(self)@.read_crc32, bytes@),
            forall|data: Seq<u8>| #[trigger]
                old(self)@.has_read(data) ==> final(self)@.has_read(data + bytes@),
    {
        let read_crc32: u32 = crc32c_append(self.read_crc32, bytes);
        self.advance(bytes.len() as u32, read_crc32);
        proof {
            if bytes@.len() == 0 {
                assert(bytes@ =~= Seq::<u8>::empty());
                law_no_data_leaves_the_checksum(old(self)@.read_crc32);
            }
            assert forall|data: Seq<u8>| #[trigger] old(self)@.has_read(data) implies self@.has_read(
                data + bytes@,
            ) by {
                law_checksums_continue(0, data, bytes@);
            }
        }
        bytes.len()
    }

    /// Takes note of `bytes_read` bytes, which bring the checksum of the data
    /// read so far to `read_crc32`.
    pub fn advance(&mut self, bytes_read: u32, read_crc32: u32)
        requires
            bytes_read <= old(self)@.bytes_remaining,
        ensures
            final(self)@ == old(self)@.advanced(bytes_read as int, read_crc32),
            final(self)@.stored_crc32 == old(self)@.stored_crc32,
            final(self)@.length == old(self)@.length,
            final(self)@.bytes_remaining == old(self)@.bytes_remaining - bytes_read,
            final(self)@.read_crc32 == read_crc32,
    {
        proof {
            use_type_invariant(&*self);
        }
        self.bytes_remaining = self.bytes_remaining - bytes_read;
        self.read_crc32 = read_crc32;
    }
}

/// A header laid out from a checksum and a length reads back as these, whatever
/// its marker.
pub proof fn law_header_reads_back(marker: u8, crc32: u32, length: u32)
    ensures
        chunk_header_of(marker, crc32, length).len() == CHUNK_HEADER_BYTES,
        ChunkProgress::after_header(chunk_header_of(marker, crc32, length)) == (ChunkProgress {
            length,
            bytes_remaining: length,
            stored_crc32: crc32,
            read_crc32: 0,
        }),
{
    let header = chunk_header_of(marker, crc32, length);
    assert(header[1] == le_bytes_of(crc32)[0]);
    assert(header[2] == le_bytes_of(crc32)[1]);
    assert(header[3] == le_bytes_of(crc32)[2]);
    assert(header[4] == le_bytes_of(crc32)[3]);
    assert(header[5] == le_bytes_of(length)[0]);
    assert(header[6] == le_bytes_of(length)[1]);
    assert(header[7] == le_bytes_of(length)[2]);
    assert(header[8] == le_bytes_of(length)[3]);
}

/// Once all of a chunk has been read, and not before, its checksum is known to
/// be valid or not: valid exactly if the stored checksum is that of the bytes
/// that were read.
pub proof fn law_validity_is_that_of_the_data(progress: ChunkProgress, data: Seq<u8>)
    requires
        progress.has_read(data),
    ensures
        progress.crc_validity() is Some <==> data.len() == progress.length,
        progress.crc_validity() is Some ==> progress.crc_validity() == Some(
            progress.stored_crc32 == checksum_of(data),
        ),
{
}

/// Two readers of one chunk that have read the same bytes are in the same
/// state, however the bytes were divided into reads.
pub proof fn law_division_into_reads_does_not_matter(
    a: ChunkProgress,
    b: ChunkProgress,
    data: Seq<u8>,
)
    requires
        a.length == b.length,
        a.stored_crc32 == b.stored_crc32,
        a.has_read(data),
        b.has_read(data),
    ensures
        a == b,
{
}

/// Reading the data that a chunk was written with, behind the header it was
/// written with, finds the checksum valid.
pub proof fn law_written_data_is_valid(marker: u8, data: Seq<u8>, progress: ChunkProgress)
    requires
        data.len() <= u32::MAX,
        progress.stored_crc32 == ChunkProgress::after_header(
            chunk_header_of(marker, checksum_of(data), data.len() as u32),
        ).stored_crc32,
        progress.length == ChunkProgress::after_header(
            chunk_header_of(marker, checksum_of(data), data.len() as u32),
        ).length,
        progress.has_read(data),
    ensures
        progress.crc_validity() == Some(true),
{
    law_header_reads_back(marker, checksum_of(data), data.len() as u32);
}

/// A chunk's header holds the checksum in the bytes 1 to 4 and the length in the
/// bytes 5 to 8, the lowest byte first; nothing has been read behind it yet. The
/// marker in byte 0 does not matter.
pub proof fn law_header_is_little_endian(header: Seq<u8>, marker: u8)
    requires
        header.len() == 9,
    ensures
        ChunkProgress::after_header(header).stored_crc32 == header[1] + 0x100 * header[2] + 0x10000
            * header[3] + 0x1000000 * header[4],
        ChunkProgress::after_header(header).length == header[5] + 0x100 * header[6] + 0x10000
            * header[7] + 0x1000000 * header[8],
        ChunkProgress::after_header(header).bytes_remaining == ChunkProgress::after_header(
            header,
        ).length,
        ChunkProgress::after_header(header).read_crc32 == 0,
        ChunkProgress::after_header(header.update(0, marker)) == ChunkProgress::after_header(
            header,
        ),
{
}

/// Reading keeps the stored checksum and the length. What is read and what
/// remains add up, and the computed checksum is the given one.
pub proof fn law_reading_keeps_the_header(progress: ChunkProgress, count: int, crc32: u32)
    requires
        0 <= count <= progress.bytes_remaining,
    ensures
        progress.advanced(count, crc32).stored_crc32 == progress.stored_crc32,
        progress.advanced(count, crc32).length == progress.length,
        progress.advanced(count, crc32).bytes_remaining + count == progress.bytes_remaining,
        progress.advanced(count, crc32).read_crc32 == crc32,
{
}

/// The state after `reads`, one after the other.
pub open spec fn after_reads(progress: ChunkProgress, reads: Seq<Seq<u8>>) -> ChunkProgress
    decreases reads.len(),
{
    if reads.len() == 0 {
        progress
    } else {
        let before = after_reads(progress, reads.drop_last());
        before.advanced(
            reads.last().len() as int,
            crc32c_append_of(before.read_crc32, reads.last()),
        )
    }
}

/// After any reads behind `header` that hand out no more than the chunk holds,
/// the length is that in the header, and the checksum is known to be valid or not
/// exactly if as many bytes have been read. It is valid exactly if the checksum
/// in the header is the CRC-32C of all bytes that were read, in however many
/// pieces.
pub proof fn law_reads_find_out_about_damage(header: Seq<u8>, reads: Seq<Seq<u8>>)
    requires
        header.len() == 9,
        reads.flatten_alt().len() <= header[5] + 0x100 * header[6] + 0x10000 * header[7] + 0x1000000
            * header[8],
    ensures
        ({
            let start = ChunkProgress::after_header(header);
            let end = after_reads(start, reads);
            &&& end.length == start.length
            &&& end.stored_crc32 == start.stored_crc32
            &&& end.bytes_remaining + reads.flatten_alt().len() == start.length
            &&& end.read_crc32 == crc32c_append_of(0, reads.flatten_alt())
            &&& end.crc_validity() is Some <==> reads.flatten_alt().len() == header[5] + 0x100
                * header[6] + 0x10000 * header[7] + 0x1000000 * header[8]
            &&& end.crc_validity() is Some ==> (end.crc_validity()->0 <==> crc32c_append_of(
                0,
                reads.flatten_alt(),
            ) == header[1] + 0x100 * header[2] + 0x10000 * header[3] + 0x1000000 * header[4])
        }),
    decreases reads.len(),
{
    if reads.len() == 0 {
        law_no_data_leaves_the_checksum(0);
    } else {
        let before = reads.drop_last();
        law_reads_find_out_about_damage(header, before);
        law_checksums_continue(0, before.flatten_alt(), reads.last());
    }
}

/// A shift by one bit loses nothing: the bit that falls out is in the highest bit
/// of the result, as the polynomial's highest bit is set.
proof fn lemma_shift_is_injective(a: u32, b: u32, count: nat)
    requires
        a != b,
    ensures
        crc_shifted(a, count) != crc_shifted(b, count),
    decreases count,
{
    if count > 0 {
        let x = crc_shifted(a, (count - 1) as nat);
        let y = crc_shifted(b, (count - 1) as nat);
        lemma_shift_is_injective(a, b, (count - 1) as nat);
        assert(x != y ==> (if x & 1 == 1 {
            (x >> 1) ^ 0x82F63B78u32
        } else {
            x >> 1
        }) != (if y & 1 == 1 {
            (y >> 1) ^ 0x82F63B78u32
        } else {
            y >> 1
        })) by (bit_vector);
    }
}

/// Different registers stay different over the same data.
proof fn lemma_registers_stay_different(a: u32, b: u32, data: Seq<u8>)
    requires
        a != b,
    ensures
        crc_register_after(a, data) != crc_register_after(b, data),
    decreases data.len(),
{
    if data.len() > 0 {
        let x = crc_register_after(a, data.drop_last());
        let y = crc_register_after(b, data.drop_last());
        let byte = data.last() as u32;
        lemma_registers_stay_different(a, b, data.drop_last());
        assert(x != y ==> x ^ byte != y ^ byte) by (bit_vector);
        lemma_shift_is_injective(x ^ byte, y ^ byte, 8);
    }
}

/// A single damaged byte always changes the checksum, wherever it is.
pub proof fn law_a_damaged_byte_changes_the_checksum(crc: u32, data: Seq<u8>, i: int, byte: u8)
    requires
        0 <= i < data.len(),
        byte != data[i],
    ensures
        crc32c_append_of(crc, data.update(i, byte)) != crc32c_append_of(crc, data),
{
    let front = data.subrange(0, i);
    let back = data.subrange(i + 1, data.len() as int);
    let read = front.push(data[i]);
    let damaged = front.push(byte);
    assert(data =~= read + back);
    assert(data.update(i, byte) =~= damaged + back);
    lemma_register_after_concatenation(!crc, read, back);
    lemma_register_after_concatenation(!crc, damaged, back);
    let register = crc_register_after(!crc, front);
    assert(read.drop_last() =~= front);
    assert(damaged.drop_last() =~= front);
    let x = data[i];
    assert(x != byte ==> register ^ (x as u32) != register ^ (byte as u32)) by (bit_vector);
    lemma_shift_is_injective(register ^ (x as u32), register ^ (byte as u32), 8);
    let a = crc_register_after(!crc, read);
    let b = crc_register_after(!crc, damaged);
    lemma_registers_stay_different(a, b, back);
    let c = crc_register_after(a, back);
    let d = crc_register_after(b, back);
    assert(c != d ==> !c != !d) by (bit_vector);
}

/// Data that was written is found valid when it is read back, in whatever pieces,
/// and found damaged if one of its bytes has changed.
pub proof fn law_damage_is_noticed(marker: u8, data: Seq<u8>, reads: Seq<Seq<u8>>)
    requires
        data.len() <= u32::MAX,
        reads.flatten_alt().len() == data.len(),
    ensures
        ({
            let header = chunk_header_of(marker, checksum_of(data), data.len() as u32);
            let end = after_reads(ChunkProgress::after_header(header), reads);
            &&& reads.flatten_alt() == data ==> end.crc_validity() == Some(true)
            &&& forall|i: int, byte: u8|
                0 <= i < data.len() && byte != data[i] && reads.flatten_alt() == #[trigger] data.update(
                    i,
                    byte,
                ) ==> end.crc_validity() == Some(false)
        }),
{
    let header = chunk_header_of(marker, checksum_of(data), data.len() as u32);
    law_header_reads_back(marker, checksum_of(data), data.len() as u32);
    law_reads_find_out_about_damage(header, reads);
    assert forall|i: int, byte: u8|
        0 <= i < data.len() && byte != data[i] && reads.flatten_alt() == #[trigger] data.update(
            i,
            byte,
        ) implies crc32c_append_of(0, reads.flatten_alt()) != crc32c_append_of(0, data) by {
        law_a_damaged_byte_changes_the_checksum(0, data, i, byte);
    }
}

/// Whether the checksum is valid is known exactly once nothing remains to be
/// read, and then it is valid exactly if the stored checksum is the computed one.
pub proof fn law_validity_compares_the_checksums(progress: ChunkProgress)
    ensures
        progress.crc_validity() is None <==> progress.bytes_remaining > 0,
        progress.crc_validity() == Some(true) ==> progress.stored_crc32 == progress.read_crc32,
        progress.crc_validity() == Some(false) ==> progress.stored_crc32 != progress.read_crc32,
{
}

} // verus!
