//! Boot sectors, FATs, directory entries, partition tables and image
//! specifications.

use x68k_archive::bpb::Bpb;
use x68k_archive::direntry::{Attr, DirEntry, EntryKind};
use x68k_archive::export::{entry_to_filetime, sanitize_filename};
use x68k_archive::fat::{cluster_count, Fat, FatKind};
use x68k_archive::fat12::Fat12;
use x68k_archive::fat16::Fat16;
use x68k_archive::image::{DiskImage, MemoryImage};
use x68k_archive::partition::{bytes_to_ascii, Partition, PartitionTable, PARTITION_MAGIC,
    TABLE_BYTES};
use x68k_archive::spec::ImageSpec;

#[test]
fn bpb_parse_basic() {
    let mut boot = vec![0u8; 512];
    boot[0x0B] = 0x00; boot[0x0C] = 0x04;
    boot[0x0D] = 1;
    boot[0x0E] = 1; boot[0x0F] = 0;
    boot[0x10] = 2;
    boot[0x11] = 0xC0; boot[0x12] = 0;
    boot[0x13] = 0xD0; boot[0x14] = 0x04;
    boot[0x16] = 2; boot[0x17] = 0;
    boot[0x18] = 8; boot[0x19] = 0;
    boot[0x1A] = 2; boot[0x1B] = 0;

    let bpb = Bpb::parse(&boot).unwrap();
    assert_eq!(bpb.bytes_per_sector, 1024);
    assert_eq!(bpb.sectors_per_cluster, 1);
    assert_eq!(bpb.reserved_sectors, 1);
    assert_eq!(bpb.num_fats, 2);
    assert_eq!(bpb.root_entries, 192);
    assert_eq!(bpb.total_sectors, 1232);
    assert_eq!(bpb.sectors_per_fat, 2);

    assert_eq!(bpb.fat_start(), 1);
    assert_eq!(bpb.root_dir_start(), 5);
    assert_eq!(bpb.root_dir_sectors(), 6);
    assert_eq!(bpb.data_start(), 11);
    assert_eq!(bpb.cluster_to_sector(2), 11);
    assert_eq!(bpb.cluster_to_sector(3), 12);
}

#[test]
fn direntry_parse_basic() {
    let mut e = vec![0u8; 32];

    e[0..8].copy_from_slice(b"HELLO   ");
    e[8..11].copy_from_slice(b"X  ");
    e[0x0B] = 0x20;
    e[0x1A] = 2;
    e[0x1C] = 100; e[0x1D] = 0; e[0x1E] = 0; e[0x1F] = 0;
    let parsed = DirEntry::parse(&e).unwrap();
    assert_eq!(parsed.name, "HELLO");
    assert_eq!(parsed.ext, "X");
    assert_eq!(parsed.start_cluster, 2);
    assert_eq!(parsed.size, 100);
    assert_eq!(parsed.attr, Attr::from_bits_truncate(Attr::ARCHIVE));
    assert_eq!(parsed.display_name(), "HELLO.X");
}

#[test]
fn direntry_parse_long_name_with_extension_area() {
    let mut e = vec![0u8; 32];
    e[0..8].copy_from_slice(b"LONGNAME");
    e[0x08..0x0B].copy_from_slice(b"DAT");

    e[0x0C..0x15].copy_from_slice(b"EXTRABYTE");
    e[0x0B] = 0x20;
    let parsed = DirEntry::parse(&e).unwrap();
    assert_eq!(parsed.name, "LONGNAMEEXTRABYTE");
    assert_eq!(parsed.ext, "DAT");
}

#[test]
fn direntry_parse_deleted() {
    let mut e = vec![0u8; 32];
    e[0..8].copy_from_slice(b"\xE5ELETED ");
    e[0x08..0x0B].copy_from_slice(b"BAK");
    let parsed = DirEntry::parse(&e).unwrap();
    assert_eq!(parsed.kind, EntryKind::Deleted);
    assert_eq!(parsed.name, "?ELETED");
}

#[test]
fn direntry_parse_empty() {
    let e = vec![0u8; 32];
    let parsed = DirEntry::parse(&e).unwrap();
    assert_eq!(parsed.kind, EntryKind::Empty);
}

#[test]
fn direntry_date_time_decoding() {
    let mut e = vec![0u8; 32];
    e[0..8].copy_from_slice(b"FOO     ");

    e[0x18] = 0xCB; e[0x19] = 0x24;

    e[0x16] = 0x00; e[0x17] = 0x60;
    let parsed = DirEntry::parse(&e).unwrap();
    assert_eq!(parsed.date(), (1998, 6, 11));
    assert_eq!(parsed.time(), (12, 0, 0));
}

#[test]
fn fat12_chain_simple() {

    let mut data = vec![0u8; 512 * 20];

    data[0x0B] = 0; data[0x0C] = 2;
    data[0x0D] = 1;
    data[0x0E] = 1; data[0x0F] = 0;
    data[0x10] = 1;
    data[0x11] = 16; data[0x12] = 0;
    data[0x13] = 20; data[0x14] = 0;
    data[0x16] = 1; data[0x17] = 0;

    let fat = &mut data[1*512..2*512];

    fat[0] = 0xF8; fat[1] = 0xFF; fat[2] = 0xFF;

    fat[3] = 0x03; fat[4] = 0x40; fat[5] = 0x00;

    fat[6] = 0xFF; fat[7] = 0x0F; fat[8] = 0x00;

    let img = MemoryImage::new(data, 512);
    let bpb = Bpb::parse(img.read_sector(0).unwrap()).unwrap();
    let fat = Fat12::load(&img, &bpb).unwrap();
    assert_eq!(fat.entry(2), 3);
    assert_eq!(fat.entry(3), 4);
    assert_eq!(fat.entry(4), 0xFFF);
    assert_eq!(fat.chain(2), vec![2, 3, 4]);
}

#[test]
fn export_sanitize_filename() {
    assert_eq!(sanitize_filename("HELLO.X"), "HELLO.X");
    assert_eq!(sanitize_filename("a/b\\c:d*e?f"), "a_b_c_d_e_f");
    assert_eq!(sanitize_filename("trailing."), "trailing");
    assert_eq!(sanitize_filename("trailing  "), "trailing");
    assert_eq!(sanitize_filename(""), "_");

    assert_eq!(sanitize_filename("愛する人よ"), "愛する人よ");
}

#[test]
fn export_naive_to_epoch_known_dates() {
    let mut e = vec![0u8; 32];
    e[0..8].copy_from_slice(b"FOO     ");

    e[0x18] = 0xCB; e[0x19] = 0x24;
    e[0x16] = 0x00; e[0x17] = 0x60;
    let parsed = DirEntry::parse(&e).unwrap();
    let ft = entry_to_filetime(&parsed).unwrap();

    assert_eq!(ft.unix_seconds(), 897_566_400);
}

fn hds_sample_bpb_bytes() -> Vec<u8> {
    vec![
        0x60, 0x24,

        0x53, 0x48, 0x41, 0x52, 0x50, 0x2F, 0x4B, 0x47, 0x20, 0x20, 0x20, 0x20, 0x31, 0x2E, 0x30, 0x30,

        0x04, 0x00,
        0x10,
        0x02,
        0x00, 0x01,
        0x02, 0x00,
        0x00, 0x00,
        0xF7,
        0x72,
        0x00, 0x0E, 0x0C, 0x00,
    ]
}

fn hdf_sample_bpb_bytes() -> Vec<u8> {
    vec![
        0x60, 0x20,

        0x48, 0x75, 0x64, 0x73, 0x6F, 0x6E, 0x20, 0x73, 0x6F, 0x66, 0x74, 0x20, 0x32, 0x2E, 0x30, 0x30,

        0x04, 0x00,
        0x01,
        0x02,
        0x00, 0x01,
        0x02, 0x00,
        0x9E, 0x3E,
        0xF8,
        0x50,
        0x00, 0x00, 0x00, 0x21,
    ]
}

#[test]
fn bpb_parse_hdd_hds() {
    let buf = hds_sample_bpb_bytes();
    let bpb = Bpb::parse_hdd(&buf).unwrap();
    assert_eq!(bpb.bytes_per_sector, 1024);
    assert_eq!(bpb.sectors_per_cluster, 16);
    assert_eq!(bpb.num_fats, 2);
    assert_eq!(bpb.reserved_sectors, 1);
    assert_eq!(bpb.root_entries, 512);

    assert_eq!(bpb.total_sectors, 920_576);
    assert_eq!(bpb.sectors_per_fat, 114);

    assert_eq!(bpb.sectors_per_track, 0);
    assert_eq!(bpb.num_heads, 0);
}

#[test]
fn bpb_parse_hdd_hdf() {
    let buf = hdf_sample_bpb_bytes();
    let bpb = Bpb::parse_hdd(&buf).unwrap();
    assert_eq!(bpb.bytes_per_sector, 1024);
    assert_eq!(bpb.sectors_per_cluster, 1);
    assert_eq!(bpb.num_fats, 2);
    assert_eq!(bpb.reserved_sectors, 1);
    assert_eq!(bpb.root_entries, 512);

    assert_eq!(bpb.total_sectors, 40_510);
    assert_eq!(bpb.sectors_per_fat, 80);
}

#[test]
fn bpb_parse_hdd_rejects_short_buffer() {
    let buf = vec![0u8; 16];
    assert!(Bpb::parse_hdd(&buf).is_err());
}

#[test]
fn bpb_parse_hdd_rejects_invalid_bps() {
    let mut buf = hds_sample_bpb_bytes();

    buf[0x12] = 0x00;
    buf[0x13] = 0x03;
    assert!(Bpb::parse_hdd(&buf).is_err());
}

#[test]
fn bpb_parse_hdd_rejects_zero_fats() {
    let mut buf = hds_sample_bpb_bytes();
    buf[0x15] = 0;
    assert!(Bpb::parse_hdd(&buf).is_err());
}

#[test]
fn bpb_parse_hdd_region_calc_works() {
    let buf = hdf_sample_bpb_bytes();
    let bpb = Bpb::parse_hdd(&buf).unwrap();

    assert_eq!(bpb.fat_start(), 1);
    assert_eq!(bpb.root_dir_start(), 1 + 2 * 80);

    assert_eq!(bpb.root_dir_sectors(), 16);
    assert_eq!(bpb.data_start(), 1 + 2 * 80 + 16);
}

#[test]
fn parse_floppy_falls_back_to_default_for_hudson_dim() {

    let boot: Vec<u8> = vec![
        0x60, 0x1c,
        0x48, 0x75, 0x64, 0x73, 0x6f, 0x6e, 0x20, 0x73,
        0x6f, 0x66, 0x74, 0x20, 0x32, 0x2e, 0x30, 0x30,
        0x04, 0x00, 0x01, 0x02, 0x00, 0x01, 0x00, 0xc0,
        0x04, 0xd0, 0xfe, 0x02, 0x4f, 0xfa,
    ]
    .into_iter()
    .chain(std::iter::repeat(0u8).take(512 - 32))
    .collect();

    assert!(Bpb::parse(&boot).is_err());
    assert!(Bpb::looks_like_hudson_dim(&boot));

    let bpb = Bpb::parse_floppy(&boot).unwrap();
    assert_eq!(bpb.bytes_per_sector, 1024);
    assert_eq!(bpb.num_fats, 2);
    assert_eq!(bpb.total_sectors, 1232);

    assert_eq!(bpb.root_dir_start() * (bpb.bytes_per_sector as u32), 0x1400);
}

#[test]
fn looks_like_hudson_dim_negative_cases() {

    let mut std_xdf = vec![0u8; 512];
    std_xdf[0..16].copy_from_slice(&[
        0x60, 0x3c, 0x90, 0x58, 0x36, 0x38, 0x49, 0x50,
        0x4c, 0x33, 0x30, 0x00, 0x04, 0x01, 0x01, 0x00,
    ]);
    assert!(!Bpb::looks_like_hudson_dim(&std_xdf));

    assert!(!Bpb::looks_like_hudson_dim(&[0u8; 4]));
}

#[test]
fn parse_floppy_passes_through_standard_xdf() {

    let mut boot = vec![0u8; 512];
    boot[0..16].copy_from_slice(&[
        0x60, 0x3c, 0x90, 0x58, 0x36, 0x38, 0x49, 0x50,
        0x4c, 0x33, 0x30, 0x00, 0x04, 0x01, 0x01, 0x00,
    ]);
    boot[0x10] = 2;
    boot[0x11] = 0xC0;
    boot[0x12] = 0;
    boot[0x13] = 0xD0;
    boot[0x14] = 0x04;
    boot[0x16] = 2;
    boot[0x17] = 0;
    boot[0x18] = 8;
    boot[0x19] = 0;
    boot[0x1A] = 2;
    boot[0x1B] = 0;
    let bpb = Bpb::parse_floppy(&boot).unwrap();
    assert_eq!(bpb.bytes_per_sector, 1024);
    assert_eq!(bpb.total_sectors, 1232);
}

fn xdf_like_bpb() -> Bpb {

    Bpb {
        bytes_per_sector: 1024,
        sectors_per_cluster: 1,
        reserved_sectors: 1,
        num_fats: 2,
        root_entries: 192,
        total_sectors: 1232,
        sectors_per_fat: 2,
        sectors_per_track: 8,
        num_heads: 2,
    }
}

fn hdd_like_bpb() -> Bpb {

    Bpb {
        bytes_per_sector: 1024,
        sectors_per_cluster: 1,
        reserved_sectors: 1,
        num_fats: 2,
        root_entries: 512,
        total_sectors: 40_510,
        sectors_per_fat: 80,
        sectors_per_track: 0,
        num_heads: 0,
    }
}

#[test]
fn cluster_count_xdf() {

    let cc = cluster_count(&xdf_like_bpb());
    assert!(cc < 4085, "XDF should have < 4085 clusters, got {}", cc);
}

#[test]
fn cluster_count_hdd() {
    let cc = cluster_count(&hdd_like_bpb());
    assert!(cc >= 4085 && cc < 65525, "HDD should be FAT16 range, got {}", cc);
}

#[test]
fn fat_load_picks_fat12_for_xdf() {
    let bpb = xdf_like_bpb();

    let mut data = vec![0u8; 1024 * 11];

    let img = MemoryImage::new(data.split_off(0), 512);
    let fat = Fat::load(&img, &bpb).unwrap();
    assert_eq!(fat.kind(), FatKind::Fat12);
}

#[test]
fn fat_load_picks_fat16_for_hdd() {
    let bpb = hdd_like_bpb();

    let data = vec![0u8; 1024 * 161];
    let img = MemoryImage::new(data, 1024);
    let fat = Fat::load(&img, &bpb).unwrap();
    assert_eq!(fat.kind(), FatKind::Fat16);
}

#[test]
fn entry_read_is_big_endian() {

    let raw = vec![0xF8, 0xFF, 0x00, 0x05, 0x00, 0x06];
    let fat = Fat16::from_raw(raw);
    assert_eq!(fat.entry(0), 0xF8FF);
    assert_eq!(fat.entry(1), 0x0005);
    assert_eq!(fat.entry(2), 0x0006);
}

#[test]
fn chain_follows_sequential_clusters() {

    let mut raw = vec![0u8; 16];

    raw[8..10].copy_from_slice(&5u16.to_be_bytes());
    raw[10..12].copy_from_slice(&6u16.to_be_bytes());
    raw[12..14].copy_from_slice(&7u16.to_be_bytes());
    raw[14..16].copy_from_slice(&0xFFFFu16.to_be_bytes());
    let fat = Fat16::from_raw(raw);
    let chain = fat.chain(4);
    assert_eq!(chain, vec![4, 5, 6, 7]);
}

#[test]
fn chain_handles_end_marker_range() {

    let mut raw = vec![0u8; 16];
    raw[4..6].copy_from_slice(&3u16.to_be_bytes());
    raw[6..8].copy_from_slice(&0xFFF8u16.to_be_bytes());
    let fat = Fat16::from_raw(raw);
    assert_eq!(fat.chain(2), vec![2, 3]);
}

#[test]
fn chain_breaks_on_self_loop() {

    let mut raw = vec![0u8; 8];
    raw[4..6].copy_from_slice(&2u16.to_be_bytes());
    let fat = Fat16::from_raw(raw);
    assert_eq!(fat.chain(2), vec![2]);
}

#[test]
fn chain_below_2_returns_empty() {
    let fat = Fat16::from_raw(vec![0u8; 16]);
    assert!(fat.chain(0).is_empty());
    assert!(fat.chain(1).is_empty());
}

fn hds_sample_table_bytes() -> Vec<u8> {
    let mut buf = vec![0u8; TABLE_BYTES];
    buf[0..4].copy_from_slice(&PARTITION_MAGIC);
    buf[4..8].copy_from_slice(&0x000E_0C20u32.to_be_bytes());
    buf[8..12].copy_from_slice(&0x000E_0FFFu32.to_be_bytes());
    buf[12..16].copy_from_slice(&0x000E_0FFFu32.to_be_bytes());

    buf[16..24].copy_from_slice(b"Human68k");
    buf[24..28].copy_from_slice(&32u32.to_be_bytes());
    buf[28..32].copy_from_slice(&920_576u32.to_be_bytes());
    buf
}

fn hdf_sample_table_bytes() -> Vec<u8> {
    let mut buf = vec![0u8; TABLE_BYTES];
    buf[0..4].copy_from_slice(&PARTITION_MAGIC);
    buf[4..8].copy_from_slice(&0x0002_7930u32.to_be_bytes());
    buf[8..12].copy_from_slice(&0x0002_7930u32.to_be_bytes());
    buf[12..16].copy_from_slice(&0x0002_ACC0u32.to_be_bytes());

    buf[16..24].copy_from_slice(b"Human68k");
    buf[24..28].copy_from_slice(&33u32.to_be_bytes());
    buf[28..32].copy_from_slice(&162_040u32.to_be_bytes());
    buf
}

#[test]
fn parse_hds_header() {
    let buf = hds_sample_table_bytes();
    let pt = PartitionTable::parse(&buf).unwrap();
    assert_eq!(pt.end_used_sector, 0x000E_0C20);
    assert_eq!(pt.last_sector, 0x000E_0FFF);
    assert_eq!(pt.last_sector_2, 0x000E_0FFF);
}

#[test]
fn parse_hds_partition_entry() {
    let buf = hds_sample_table_bytes();
    let pt = PartitionTable::parse(&buf).unwrap();
    assert_eq!(pt.partitions.len(), 1);
    let p = &pt.partitions[0];
    assert_eq!(p.name, "Human68k");
    assert_eq!(p.start_sector, 32);
    assert_eq!(p.length_sectors, 920_576);
    assert!(p.is_human68k());
}

#[test]
fn parse_hdf_table() {
    let buf = hdf_sample_table_bytes();
    let pt = PartitionTable::parse(&buf).unwrap();
    assert_eq!(pt.end_used_sector, 0x0002_7930);
    assert_eq!(pt.partitions.len(), 1);
    let p = &pt.partitions[0];
    assert_eq!(p.start_sector, 33);
    assert_eq!(p.length_sectors, 162_040);
}

#[test]
fn start_and_length_bytes_with_units() {
    let p = Partition {
        name: "Human68k".to_string(),
        start_sector: 32,
        length_sectors: 920_576,
    };

    assert_eq!(p.start_bytes(1024), 32 * 1024);
    assert_eq!(p.length_bytes(1024), 920_576u64 * 1024);

    assert_eq!(p.start_bytes(256), 32 * 256);
    assert_eq!(p.length_bytes(256), 920_576u64 * 256);
}

#[test]
fn rejects_wrong_magic() {
    let mut buf = vec![0u8; TABLE_BYTES];
    buf[0..4].copy_from_slice(b"XXXX");
    assert!(PartitionTable::parse(&buf).is_err());
}

#[test]
fn empty_first_entry_yields_no_partitions() {
    let mut buf = vec![0u8; TABLE_BYTES];
    buf[0..4].copy_from_slice(&PARTITION_MAGIC);

    let pt = PartitionTable::parse(&buf).unwrap();
    assert!(pt.partitions.is_empty());
}

#[test]
fn nested_x68k_magic_breaks_iteration() {

    let mut buf = vec![0u8; TABLE_BYTES];
    buf[0..4].copy_from_slice(&PARTITION_MAGIC);
    buf[16..24].copy_from_slice(b"Human68k");
    buf[24..28].copy_from_slice(&32u32.to_be_bytes());
    buf[28..32].copy_from_slice(&100u32.to_be_bytes());

    buf[32..36].copy_from_slice(&PARTITION_MAGIC);
    buf[36..40].copy_from_slice(&999u32.to_be_bytes());
    let pt = PartitionTable::parse(&buf).unwrap();
    assert_eq!(pt.partitions.len(), 1);
}

#[test]
fn human68k_filter() {
    let mut buf = vec![0u8; TABLE_BYTES];
    buf[0..4].copy_from_slice(&PARTITION_MAGIC);
    buf[16..24].copy_from_slice(b"Human68k");
    buf[24..28].copy_from_slice(&32u32.to_be_bytes());
    buf[28..32].copy_from_slice(&100u32.to_be_bytes());
    buf[32..40].copy_from_slice(b"Swap    ");
    buf[40..44].copy_from_slice(&132u32.to_be_bytes());
    buf[44..48].copy_from_slice(&50u32.to_be_bytes());
    let pt = PartitionTable::parse(&buf).unwrap();
    assert_eq!(pt.partitions.len(), 2);
    let h = pt.human68k_partitions();
    assert_eq!(h.len(), 1);
    assert_eq!(h[0].name, "Human68k");
}

#[test]
fn ascii_name_strips_trailing_padding() {
    assert_eq!(bytes_to_ascii(b"Human68k"), "Human68k");
    assert_eq!(bytes_to_ascii(b"Swap    "), "Swap");
    assert_eq!(bytes_to_ascii(b"Hum\0junk"), "Hum");
    assert_eq!(bytes_to_ascii(b"  AB    "), "  AB");
}

#[test]
fn buffer_too_small_for_header_errors() {
    let buf = vec![0u8; 8];
    assert!(PartitionTable::parse(&buf).is_err());
}

fn spec(path: &str, partition: Option<usize>, inner: &str) -> ImageSpec {
    ImageSpec {
        path: path.to_string(),
        partition,
        inner_path: inner.to_string(),
    }
}

#[test]
fn parse_plain_path() {
    assert_eq!(ImageSpec::parse("disk.xdf").unwrap(), spec("disk.xdf", None, ""));
}

#[test]
fn parse_with_inner_path() {
    assert_eq!(
        ImageSpec::parse("disk.xdf:/MUSIC").unwrap(),
        spec("disk.xdf", None, "/MUSIC")
    );
}

#[test]
fn parse_with_partition_only() {
    assert_eq!(
        ImageSpec::parse("disk.hds:0").unwrap(),
        spec("disk.hds", Some(0), "")
    );
    assert_eq!(
        ImageSpec::parse("disk.hds:5").unwrap(),
        spec("disk.hds", Some(5), "")
    );
}

#[test]
fn parse_with_partition_and_inner() {
    assert_eq!(
        ImageSpec::parse("disk.hds:0:/MUSIC").unwrap(),
        spec("disk.hds", Some(0), "/MUSIC")
    );
    assert_eq!(
        ImageSpec::parse("disk.hds:2:/SUB/PATH").unwrap(),
        spec("disk.hds", Some(2), "/SUB/PATH")
    );
}

#[test]
fn parse_windows_drive_path() {
    assert_eq!(
        ImageSpec::parse("C:\\disk.xdf").unwrap(),
        spec("C:\\disk.xdf", None, "")
    );
    assert_eq!(
        ImageSpec::parse("C:\\disk.xdf:/MUSIC").unwrap(),
        spec("C:\\disk.xdf", None, "/MUSIC")
    );
    assert_eq!(
        ImageSpec::parse("C:\\disk.hds:0:/MUSIC").unwrap(),
        spec("C:\\disk.hds", Some(0), "/MUSIC")
    );
}

#[test]
fn parse_unix_absolute_path() {
    assert_eq!(
        ImageSpec::parse("/path/to/disk.xdf").unwrap(),
        spec("/path/to/disk.xdf", None, "")
    );
    assert_eq!(
        ImageSpec::parse("/path/disk.hds:0:/MUSIC").unwrap(),
        spec("/path/disk.hds", Some(0), "/MUSIC")
    );
}

#[test]
fn parse_relative_with_dots() {
    assert_eq!(
        ImageSpec::parse("../d.hds:1:/X").unwrap(),
        spec("../d.hds", Some(1), "/X")
    );
}

#[test]
fn parse_non_numeric_after_colon_kept_in_path() {

    assert_eq!(
        ImageSpec::parse("disk.hds:abc").unwrap(),
        spec("disk.hds:abc", None, "")
    );
}

#[test]
fn parse_empty_errors() {
    assert!(ImageSpec::parse("").is_err());
}
