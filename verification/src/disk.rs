//! The SP1F disk format: master header and song catalog.

use vstd::prelude::*;

use crate::bytes::run_length;
use crate::le::{read_u16, read_u32};

verus! {

/// "SP1F".
pub const DISK_MAGIC: u32 = 0x5350_3146;
/// Version 3: per-stem volume levels follow the audio of a song.
pub const DISK_VERSION: u8 = 3;
pub const DISK_CATALOG_BLOCKS: usize = 8;
pub const DISK_SONGS_PER_BLOCK: usize = 16;
pub const DISK_MAX_SONGS: usize = 128;
/// First block behind the header and the catalog.
pub const DISK_DATA_START_BLOCK: u32 = 9;

/// Master header of a disk.
#[derive(Clone, Copy, Debug, PartialEq, Eq, Structural)]
pub struct DiskHeader {
    pub magic: u32,
    pub version: u8,
    pub song_count: u16,
    pub next_free_block: u32,
}

/// What there is to show of a disk.
#[derive(Clone, Copy, Debug, PartialEq, Eq, Structural)]
pub enum DiskState {
    NotFormatted,
    NoSongs,
    Songs,
}

impl DiskHeader {
    /// The header says what a block holds.
    pub open spec fn reads(self, block: Seq<u8>) -> bool {
        &&& self.magic == crate::le::u32_value(block.subrange(0, 4))
        &&& self.version == block[4]
        &&& self.song_count == crate::le::u16_value(block.subrange(8, 10))
        &&& self.next_free_block == crate::le::u32_value(block.subrange(12, 16))
    }

    /// The header of a formatted disk of the known version.
    pub open spec fn valid(self) -> bool {
        self.magic == DISK_MAGIC && self.version == DISK_VERSION
    }
}

/// The header of an empty formatted disk.
impl Default for DiskHeader {
    fn default() -> (h: DiskHeader)
        ensures
            h.magic == DISK_MAGIC,
            h.version == DISK_VERSION,
            h.song_count == 0,
            h.next_free_block == DISK_DATA_START_BLOCK,
            h.valid(),
    {
        DiskHeader {
            magic: DISK_MAGIC,
            version: DISK_VERSION,
            song_count: 0,
            next_free_block: DISK_DATA_START_BLOCK,
        }
    }
}

impl DiskHeader {
    pub fn is_valid(&self) -> (r: bool)
        ensures
            r == self.valid(),
    {
        self.magic == DISK_MAGIC && self.version == DISK_VERSION
    }

    /// What there is to show of the disk.
    pub fn state(&self) -> (r: DiskState)
        ensures
            r == (if !self.valid() {
                DiskState::NotFormatted
            } else if self.song_count == 0 {
                DiskState::NoSongs
            } else {
                DiskState::Songs
            }),
    {
        if !self.is_valid() {
            DiskState::NotFormatted
        } else if self.song_count == 0 {
            DiskState::NoSongs
        } else {
            DiskState::Songs
        }
    }

    /// Reads the header from the first block of a disk.
    pub fn from_block(block: &[u8; 512]) -> (h: DiskHeader)
        ensures
            h.reads(block@),
    {
        DiskHeader {
            magic: read_u32(block, 0),
            version: block[4],
            song_count: read_u16(block, 8),
            next_free_block: read_u32(block, 12),
        }
    }
}

/// One entry of the song catalog.
#[derive(Clone, Copy, Debug)]
pub struct SongEntry {
    /// UTF-8 text up to the first zero byte.
    pub name: [u8; 24],
    pub block_start: u32,
    pub block_count: u32,
}

/// The bytes of a name field that count: those before the first zero.
pub open spec fn name_bytes(name: Seq<u8>) -> Seq<u8> {
    name.take(crate::bytes::run_len(name))
}

/// The text of a name field; a stand-in where its bytes are no UTF-8.
pub open spec fn name_text(name: Seq<u8>) -> Seq<char> {
    if vstd::utf8::valid_utf8(name_bytes(name)) {
        vstd::utf8::decode_utf8(name_bytes(name))
    } else {
        "<invalid>"@
    }
}

/// The name field for a text: the first 23 bytes of its UTF-8 encoding, then zeros.
pub open spec fn name_field(text: Seq<char>) -> Seq<u8> {
    let bytes = vstd::utf8::encode_utf8(text);
    Seq::new(24, |i: int| if i < 23 && i < bytes.len() { bytes[i] } else { 0u8 })
}

impl SongEntry {
    /// The entry says what 32 bytes of a catalog hold.
    pub open spec fn reads(self, bytes: Seq<u8>) -> bool {
        &&& self.name@ == bytes.subrange(0, 24)
        &&& self.block_start == crate::le::u32_value(bytes.subrange(24, 28))
        &&& self.block_count == crate::le::u32_value(bytes.subrange(28, 32))
    }

    /// The entry holds no song.
    pub open spec fn free(self) -> bool {
        self.name@[0] == 0
    }
}

impl Default for SongEntry {
    fn default() -> (e: SongEntry)
        ensures
            e.name@ == Seq::new(24, |i: int| 0u8),
            e.block_start == 0,
            e.block_count == 0,
            e.free(),
    {
        let e: SongEntry = SongEntry { name: [0u8; 24], block_start: 0, block_count: 0 };
        assert(e.name@ =~= Seq::new(24, |i: int| 0u8));
        e
    }
}

/// `std::str::from_utf8`, which succeeds exactly on bytes that are valid UTF-8 and
/// then returns the text whose UTF-8 encoding they are.
#[verifier::external_body]
fn utf8_text(bytes: &[u8]) -> (r: Option<&str>)
    ensures
        r is Some <==> vstd::utf8::valid_utf8(bytes@),
        r matches Some(text) ==> vstd::utf8::encode_utf8(text@) == bytes@,
{
    std::str::from_utf8(bytes).ok()
}

impl SongEntry {
    pub fn is_free(&self) -> (r: bool)
        ensures
            r == self.free(),
    {
        self.name[0] == 0
    }

    /// The name of the song.
    pub fn name_str(&self) -> (text: &str)
        ensures
            text@ == name_text(self.name@),
    {
        let end: usize = run_length(&self.name);
        assert(self.name@.subrange(0, end as int) =~= name_bytes(self.name@));
        match utf8_text(&self.name[0..end]) {
            Some(text) => {
                proof {
                    vstd::utf8::encode_utf8_decode_utf8(text@);
                }
                text
            },
            None => "<invalid>",
        }
    }

    /// Sets the name, cut to 23 bytes.
    pub fn set_name(&mut self, s: &str)
        ensures
            final(self).name@ == name_field(s@),
            final(self).block_start == old(self).block_start,
            final(self).block_count == old(self).block_count,
    {
        let bytes: &[u8] = s.as_bytes();
        let len: usize = if bytes.len() < 23 { bytes.len() } else { 23 };
        let mut name: [u8; 24] = [0u8; 24];
        let mut i: usize = 0;
        while i < len
            invariant
                i <= len,
                len <= 23,
                len <= bytes@.len(),
                forall|j: int|
                    0 <= j < 24 ==> #[trigger] name@[j] == (if j < i { bytes@[j] } else { 0u8 }),
            decreases len - i,
        {
            name[i] = bytes[i];
            i = i + 1;
        }
        assert(name@ =~= name_field(s@));
        self.name = name;
    }

    /// Reads an entry from its 32 bytes.
    pub fn from_bytes(b: &[u8; 32]) -> (e: SongEntry)
        ensures
            e.reads(b@),
    {
        assert(b@.subrange(0, 32) =~= b@);
        SongEntry::read_at(b, 0)
    }

    /// Reads the entry at `at`.
    fn read_at(data: &[u8], at: usize) -> (e: SongEntry)
        requires
            at + 32 <= data@.len(),
        ensures
            e.reads(data@.subrange(at as int, at + 32)),
    {
        let mut name: [u8; 24] = [0u8; 24];
        assert(at + 32 <= data.len());
        let mut i: usize = 0;
        while i < 24
            invariant
                i <= 24,
                at + 32 <= data.len(),
                forall|j: int| 0 <= j < i ==> #[trigger] name@[j] == data@[at + j],
            decreases 24 - i,
        {
            name[i] = data[at + i];
            i = i + 1;
        }
        let ghost entry = data@.subrange(at as int, at + 32);
        assert(name@ =~= entry.subrange(0, 24));
        assert(data@.subrange(at + 24, at + 28) =~= entry.subrange(24, 28));
        assert(data@.subrange(at + 28, at + 32) =~= entry.subrange(28, 32));
        SongEntry {
            name,
            block_start: read_u32(data, at + 24),
            block_count: read_u32(data, at + 28),
        }
    }
}

/// Reads the entries of a catalog: 128 of 32 bytes each.
pub fn parse_catalog(data: &[u8]) -> (songs: Vec<SongEntry>)
    requires
        data@.len() >= 4096,
    ensures
        songs@.len() == 128,
        forall|i: int|
            0 <= i < 128 ==> (#[trigger] songs@[i]).reads(data@.subrange(32 * i, 32 * i + 32)),
{
    let mut songs: Vec<SongEntry> = Vec::new();
    let mut i: usize = 0;
    while i < 128
        invariant
            i <= 128,
            data@.len() >= 4096,
            songs@.len() == i,
            forall|j: int|
                0 <= j < i ==> (#[trigger] songs@[j]).reads(data@.subrange(32 * j, 32 * j + 32)),
        decreases 128 - i,
    {
        songs.push(SongEntry::read_at(data, i * 32));
        i = i + 1;
    }
    songs
}

/// The entries that a header counts as used, deleted songs included.
pub fn listed_songs(header: &DiskHeader, catalog: &[u8]) -> (songs: Vec<SongEntry>)
    requires
        catalog@.len() >= 4096,
    ensures
        songs@.len() == (if header.song_count < 128 { header.song_count as int } else { 128 }),
        forall|i: int|
            0 <= i < songs@.len() ==> (#[trigger] songs@[i]).reads(
                catalog@.subrange(32 * i, 32 * i + 32),
            ),
{
    let mut songs: Vec<SongEntry> = parse_catalog(catalog);
    songs.truncate(header.song_count as usize);
    songs
}

proof fn lemma_no_zero_byte(head: char)
    requires
        head != '\0',
    ensures
        forall|i: int|
            0 <= i < vstd::utf8::encode_scalar(head as u32).len()
                ==> #[trigger] vstd::utf8::encode_scalar(head as u32)[i] != 0,
{
    let c = head as u32;
    assert(c != 0);
    assert(c <= 0x7f && c != 0 ==> (c & 0x7F) as u8 != 0) by (bit_vector);
    assert(0xC0u8 | ((c >> 6) & 0x1F) as u8 != 0) by (bit_vector);
    assert(0xE0u8 | ((c >> 12) & 0x0F) as u8 != 0) by (bit_vector);
    assert(0xF0u8 | ((c >> 18) & 0x7) as u8 != 0) by (bit_vector);
    assert(0x80u8 | (c & 0x3F) as u8 != 0) by (bit_vector);
    assert(0x80u8 | ((c >> 6) & 0x3F) as u8 != 0) by (bit_vector);
    assert(0x80u8 | ((c >> 12) & 0x3F) as u8 != 0) by (bit_vector);
}

/// No byte of the encoding of a text is zero, unless the text holds a NUL.
proof fn lemma_no_zero_bytes(text: Seq<char>)
    requires
        forall|i: int| 0 <= i < text.len() ==> #[trigger] text[i] != '\0',
    ensures
        forall|i: int|
            0 <= i < vstd::utf8::encode_utf8(text).len() ==> #[trigger] vstd::utf8::encode_utf8(
                text,
            )[i] != 0,
    decreases text.len(),
{
    if text.len() > 0 {
        let rest = text.drop_first();
        assert forall|i: int| 0 <= i < rest.len() implies #[trigger] rest[i] != '\0' by {
            assert(rest[i] == text[i + 1]);
        }
        lemma_no_zero_bytes(rest);
        let first = vstd::utf8::encode_scalar(text[0] as u32);
        lemma_no_zero_byte(text[0]);
        let all = vstd::utf8::encode_utf8(text);
        let tail = vstd::utf8::encode_utf8(rest);
        assert forall|i: int| 0 <= i < all.len() implies #[trigger] all[i] != 0 by {
            if i < first.len() {
                assert(all[i] == first[i]);
            } else {
                assert(all[i] == tail[i - first.len()]);
            }
        }
    }
}

/// A name reads back: a text of up to 23 bytes without a NUL that is set as a name
/// comes out of the name field again.
pub proof fn law_name_reads_back(text: Seq<char>)
    requires
        vstd::utf8::encode_utf8(text).len() <= 23,
        forall|i: int| 0 <= i < text.len() ==> #[trigger] text[i] != '\0',
    ensures
        name_text(name_field(text)) == text,
{
    let bytes = vstd::utf8::encode_utf8(text);
    let field = name_field(text);
    lemma_no_zero_bytes(text);
    assert forall|i: int| 0 <= i < bytes.len() implies #[trigger] field[i] != 0 by {
        assert(field[i] == bytes[i]);
    }
    crate::bytes::lemma_run_is(field, bytes.len() as int);
    assert(name_bytes(field) =~= bytes);
    vstd::utf8::encode_utf8_valid_utf8(text);
    vstd::utf8::encode_utf8_decode_utf8(text);
}

/// An entry is free exactly where its name is empty.
pub proof fn law_free_means_unnamed(entry: SongEntry)
    ensures
        entry.free() <==> name_text(entry.name@).len() == 0,
{
    let bytes = name_bytes(entry.name@);
    crate::bytes::lemma_run(entry.name@);
    reveal_strlit("<invalid>");
    if entry.free() {
        assert(bytes.len() == 0);
    } else {
        assert(bytes.len() > 0);
        if vstd::utf8::valid_utf8(bytes) {
            vstd::utf8::decode_utf8_encode_utf8(bytes);
            assert(vstd::utf8::decode_utf8(bytes).len() > 0);
        }
    }
}

/// A header reads back: the numbers that a first block was written with come out of
/// it again, and nothing else in the block counts.
pub proof fn law_header_reads_back(
    header: DiskHeader,
    block: Seq<u8>,
    magic: u32,
    version: u8,
    songs: u16,
    free: u32,
)
    requires
        block.len() == 512,
        block.subrange(0, 4) == crate::le::u32_le(magic as int),
        block[4] == version,
        block.subrange(8, 10) == crate::le::u16_le(songs as int),
        block.subrange(12, 16) == crate::le::u32_le(free as int),
    ensures
        header.reads(block) <==> header.magic == magic && header.version == version
            && header.song_count == songs && header.next_free_block == free,
{
    crate::le::law_integers_read_back(songs, magic);
    crate::le::law_integers_read_back(songs, free);
}

/// A disk is valid where it starts with "SP1F" and has the known version.
pub proof fn law_valid_disks(header: DiskHeader)
    ensures
        header.valid() <==> header.magic == 0x5350_3146 && header.version == 3,
{
}

/// An entry reads back: the name, start and count that 32 bytes were written with
/// come out of them again.
pub proof fn law_entry_reads_back(entry: SongEntry, name: Seq<u8>, start: u32, count: u32)
    requires
        name.len() == 24,
    ensures
        entry.reads(name + crate::le::u32_le(start as int) + crate::le::u32_le(count as int))
            <==> entry.name@ == name && entry.block_start == start && entry.block_count == count,
        entry.free() <==> entry.name@[0] == 0,
{
    let bytes = name + crate::le::u32_le(start as int) + crate::le::u32_le(count as int);
    assert(bytes.subrange(0, 24) =~= name);
    assert(bytes.subrange(24, 28) =~= crate::le::u32_le(start as int));
    assert(bytes.subrange(28, 32) =~= crate::le::u32_le(count as int));
    crate::le::law_integers_read_back(0, start);
    crate::le::law_integers_read_back(0, count);
}

/// A name field starts with the bytes of the text, as many as fit before its last
/// byte, and holds zeros behind them.
pub proof fn law_name_field_holds_the_text(text: Seq<char>, i: int)
    requires
        0 <= i < 24,
    ensures
        name_field(text).len() == 24,
        name_field(text)[23] == 0,
        i < 23 && i < vstd::utf8::encode_utf8(text).len() ==> name_field(text)[i]
            == vstd::utf8::encode_utf8(text)[i],
        i >= vstd::utf8::encode_utf8(text).len() ==> name_field(text)[i] == 0,
{
}

/// The text of a name field is that of the `n` bytes before its first zero, if they
/// are text.
pub proof fn law_name_ends_at_first_zero(name: Seq<u8>, n: int)
    requires
        0 <= n <= name.len(),
        forall|i: int| 0 <= i < n ==> #[trigger] name[i] != 0,
        n == name.len() || name[n] == 0,
    ensures
        vstd::utf8::valid_utf8(name.take(n)) ==> vstd::utf8::encode_utf8(name_text(name))
            == name.take(n),
        !vstd::utf8::valid_utf8(name.take(n)) ==> name_text(name) == "<invalid>"@,
{
    crate::bytes::lemma_run_is(name, n);
    if vstd::utf8::valid_utf8(name.take(n)) {
        vstd::utf8::decode_utf8_encode_utf8(name.take(n));
    }
}

} // verus!
