use rome::disk::{
    listed_songs, parse_catalog, DiskHeader, DiskState, SongEntry, DISK_CATALOG_BLOCKS,
    DISK_MAGIC, DISK_MAX_SONGS, DISK_SONGS_PER_BLOCK, DISK_VERSION,
};

fn named(name: &str) -> SongEntry {
    let mut e = SongEntry::default();
    e.set_name(name);
    e
}

#[test]
fn header_reads_its_fields() {
    let mut block = [0u8; 512];
    block[..4].copy_from_slice(&DISK_MAGIC.to_le_bytes());
    block[4] = DISK_VERSION;
    block[8..10].copy_from_slice(&300u16.to_le_bytes());
    block[12..16].copy_from_slice(&0x0102_0304u32.to_le_bytes());
    let h = DiskHeader::from_block(&block);
    assert_eq!((h.song_count, h.next_free_block), (300, 0x0102_0304));
    assert!(h.is_valid());
    assert_eq!(h.state(), DiskState::Songs);
    block[4] = 2;
    assert!(!DiskHeader::from_block(&block).is_valid());
    assert_eq!(DiskHeader::from_block(&block).state(), DiskState::NotFormatted);
    block[4] = DISK_VERSION;
    block[0] = 0;
    assert!(!DiskHeader::from_block(&block).is_valid());
}

#[test]
fn default_header_is_empty_and_valid() {
    let h = DiskHeader::default();
    assert_eq!((h.magic, h.version, h.song_count, h.next_free_block), (0x5350_3146, 3, 0, 9));
    assert!(h.is_valid());
    assert_eq!(h.state(), DiskState::NoSongs);
}

#[test]
fn catalog_size() {
    assert_eq!(DISK_CATALOG_BLOCKS * DISK_SONGS_PER_BLOCK, DISK_MAX_SONGS);
}

#[test]
fn entry_reads_its_fields() {
    let mut b = [0u8; 32];
    b[..3].copy_from_slice(b"abc");
    b[24..28].copy_from_slice(&9u32.to_le_bytes());
    b[28..32].copy_from_slice(&0xFFFF_0001u32.to_le_bytes());
    let e = SongEntry::from_bytes(&b);
    assert_eq!((e.name_str(), e.block_start, e.block_count), ("abc", 9, 0xFFFF_0001));
    assert!(!e.is_free());
}

#[test]
fn names_read_back() {
    for name in ["", "my song", "caf\u{e9}", "12345678901234567890123"] {
        assert_eq!(named(name).name_str(), name);
    }
}

#[test]
fn long_names_are_cut() {
    let e = named("123456789012345678901234567890");
    assert_eq!(e.name_str(), "12345678901234567890123");
    assert_eq!(e.name[23], 0);
}

#[test]
fn cut_characters_are_invalid() {
    let e = named("1234567890123456789012\u{e9}");
    assert_eq!(e.name_str(), "<invalid>");
}

#[test]
fn set_name_clears_the_old_one() {
    let mut e = named("a long name");
    e.block_start = 5;
    e.set_name("b");
    assert_eq!(e.name_str(), "b");
    assert_eq!(e.name[1..], [0u8; 23]);
    assert_eq!(e.block_start, 5);
}

#[test]
fn name_stops_at_zero() {
    let mut e = named("ab");
    e.name[3] = b'x';
    assert_eq!(e.name_str(), "ab");
    e.name = [b'y'; 24];
    assert_eq!(e.name_str(), "yyyyyyyyyyyyyyyyyyyyyyyy");
}

#[test]
fn invalid_names_are_marked() {
    let mut e = SongEntry::default();
    e.name[0] = 0xFF;
    assert_eq!(e.name_str(), "<invalid>");
}

#[test]
fn free_entries_have_no_name() {
    assert!(SongEntry::default().is_free());
    assert_eq!(SongEntry::default().name_str(), "");
    assert!(named("").is_free());
    assert!(!named("x").is_free());
}

fn catalog() -> Vec<u8> {
    let mut data = vec![0u8; 4100];
    for i in 0..128usize {
        data[i * 32] = b'A' + (i % 26) as u8;
        data[i * 32 + 24..i * 32 + 28].copy_from_slice(&(i as u32 * 10).to_le_bytes());
    }
    data
}

#[test]
fn catalog_has_128_entries() {
    let songs = parse_catalog(&catalog());
    assert_eq!(songs.len(), 128);
    assert_eq!((songs[127].name_str(), songs[127].block_start), ("X", 1270));
    assert_eq!((songs[1].name_str(), songs[1].block_start), ("B", 10));
}

#[test]
fn listing_follows_the_song_count() {
    let mut h = DiskHeader::default();
    h.song_count = 2;
    let songs = listed_songs(&h, &catalog());
    assert_eq!(songs.len(), 2);
    assert_eq!(songs[1].name_str(), "B");
    h.song_count = 999;
    assert_eq!(listed_songs(&h, &catalog()).len(), 128);
}
