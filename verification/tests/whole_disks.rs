//! Disks built in memory, read from end to end.

use x68k_archive::bpb::Bpb;
use x68k_archive::builder::{collect_existing_image_ids, compute_image_id, discover_images,
    index_image, index_one_image, is_excluded_dir, BuildOpts, BuildStats, ImageOutcome};
use x68k_archive::dennou::{DennouPlugin, PLUGIN_NAME};
use x68k_archive::document::{attr_str, attr_str_from_dir_flag, mtime_to_unix, ArchiveDocument,
    FieldValue};
use x68k_archive::direntry::{Attr, DirEntry};
use x68k_archive::error::FsError;
use x68k_archive::export::{days_from_civil, naive_to_epoch, sanitize_filename, sanitize_path};
use x68k_archive::extract::{collect_extracted_keys, extract_image, extract_one_image_dry,
    record_to_doc, DryRunError, ExtractDecision, ExtractStats};
use x68k_archive::fat12::Fat12;
use x68k_archive::fat16::Fat16;
use x68k_archive::fs::Filesystem;
use x68k_archive::hdd::HddImage;
use x68k_archive::image::{DiskImage, ImageKind, MemoryImage, OpenedImage, XdfImage};
use x68k_archive::json::Json;
use x68k_archive::lzh::{extract_member, index_lzh_bytes, LzhError, LzhOpts};
use x68k_archive::metadata::{build_tantivy_query, parse_order_by, prefetch_limit, rows_to_csv,
    run_query, MetadataFilters, OrderBy, QueryClause, QueryOpts, UnknownName};
use x68k_archive::schema::Field;
use x68k_archive::searcher::{build_query, doc_to_hit, SearchOpts};
use x68k_archive::spec::{select_volume, with_filesystem, ImageSpec};
use x68k_archive::summarizer::{build_group_prompt, collect_image_snapshot, dry_run_title,
    finish_summary, group_action, prepare_group, GroupAction, GroupOutcome, ParsedSummary,
    SummarizeOpts, SummarizeStats};
use x68k_archive::summary::UsageInfo;
use x68k_archive::listing::{entries_to_copy, find_names, list_tree};
use x68k_archive::glob::{glob_match, relative_path};
use x68k_archive::grouping::{ImageFile, ResolvedGroup};
use x68k_archive::text::is_white_space;
use x68k_archive::walker::list_all;

/// A file or a directory to put on a disk.
enum Node {
    File(&'static str, Vec<u8>),
    Dir(&'static str, Vec<Node>),
    Label(&'static str),
}

/// A floppy of 1232 sectors of 1024 bytes that is being filled.
struct Floppy {
    data: Vec<u8>,
    fat: Vec<u16>,
}

const SECTOR: usize = 1024;
const DATE: u16 = 0x24CB;
const TIME: u16 = 0x6000;

fn entry_bytes(name: &str, attr: u8, cluster: u16, size: u32) -> Vec<u8> {
    let (stem, ext) = match name {
        "." | ".." => (name, ""),
        _ => name.rsplit_once('.').unwrap_or((name, "")),
    };
    let mut e = vec![0u8; 32];
    for b in e[0..11].iter_mut() {
        *b = 0x20;
    }
    let (head, tail) = stem.as_bytes().split_at(stem.len().min(8));
    e[0..head.len()].copy_from_slice(head);
    e[0x0C..0x0C + tail.len()].copy_from_slice(tail);
    e[8..8 + ext.len()].copy_from_slice(ext.as_bytes());
    e[0x0B] = attr;
    e[0x16..0x18].copy_from_slice(&TIME.to_le_bytes());
    e[0x18..0x1A].copy_from_slice(&DATE.to_le_bytes());
    e[0x1A..0x1C].copy_from_slice(&cluster.to_le_bytes());
    e[0x1C..0x20].copy_from_slice(&size.to_le_bytes());
    e
}

impl Floppy {
    fn store(&mut self, bytes: &[u8]) -> u16 {
        if bytes.is_empty() {
            return 0;
        }
        let first = self.fat.len() as u16;
        for (i, chunk) in bytes.chunks(SECTOR).enumerate() {
            let cluster = first as usize + i;
            let at = (11 + cluster - 2) * SECTOR;
            self.data[at..at + chunk.len()].copy_from_slice(chunk);
            self.fat.push(cluster as u16 + 1);
        }
        *self.fat.last_mut().unwrap() = 0xFFF;
        first
    }

    fn entries(&mut self, nodes: &[Node]) -> Vec<u8> {
        let mut out = Vec::new();
        for node in nodes {
            match node {
                Node::File(name, bytes) => {
                    let c = self.store(bytes);
                    out.extend(entry_bytes(name, 0x20, c, bytes.len() as u32));
                }
                Node::Dir(name, inner) => {
                    let mut body = entry_bytes(".", 0x10, 0, 0);
                    body.extend(entry_bytes("..", 0x10, 0, 0));
                    body.extend(self.entries(inner));
                    let c = self.store(&body);
                    out.extend(entry_bytes(name, 0x10, c, 0));
                }
                Node::Label(name) => out.extend(entry_bytes(name, 0x08, 0, 0)),
            }
        }
        out
    }

    fn build(nodes: &[Node]) -> Vec<u8> {
        let mut f = Floppy { data: vec![0u8; 1232 * SECTOR], fat: vec![0xFFE, 0xFFF] };
        f.data[0x0B..0x0D].copy_from_slice(&1024u16.to_le_bytes());
        f.data[0x0D] = 1;
        f.data[0x0E] = 1;
        f.data[0x10] = 2;
        f.data[0x11] = 192;
        f.data[0x13..0x15].copy_from_slice(&1232u16.to_le_bytes());
        f.data[0x16] = 2;
        let root = f.entries(nodes);
        f.data[5 * SECTOR..5 * SECTOR + root.len()].copy_from_slice(&root);
        for (n, v) in f.fat.clone().into_iter().enumerate() {
            let at = SECTOR + n + n / 2;
            if n % 2 == 0 {
                f.data[at] = (v & 0xFF) as u8;
                f.data[at + 1] = (f.data[at + 1] & 0xF0) | (v >> 8) as u8;
            } else {
                f.data[at] = (f.data[at] & 0x0F) | ((v & 0x0F) << 4) as u8;
                f.data[at + 1] = (v >> 4) as u8;
            }
        }
        f.data
    }
}

/// An archive of stored members.
fn archive(members: &[(&str, &[u8])]) -> Vec<u8> {
    let mut out = Vec::new();
    for (name, data) in members {
        let mut h = Vec::new();
        h.extend(b"-lh0-");
        h.extend((data.len() as u32).to_le_bytes());
        h.extend((data.len() as u32).to_le_bytes());
        h.extend(TIME.to_le_bytes());
        h.extend(DATE.to_le_bytes());
        h.push(0x20);
        h.push(0);
        h.push(name.len() as u8);
        h.extend(name.as_bytes());
        h.extend(0u16.to_le_bytes());
        out.push(h.len() as u8);
        out.push(h.iter().fold(0u8, |a, b| a.wrapping_add(*b)));
        out.extend(h);
        out.extend(*data);
    }
    out.push(0);
    out
}

fn text_in(doc: &ArchiveDocument, field: Field) -> String {
    match doc.get_first(field) {
        Some(FieldValue::Text(s)) => s.clone(),
        other => panic!("no text in {:?}: {:?}", field, other),
    }
}

fn paths_in(docs: &[ArchiveDocument]) -> Vec<String> {
    docs.iter().map(|d| text_in(d, Field::FilePath)).collect()
}

fn sample_disk() -> Vec<u8> {
    let long: Vec<u8> = (0..3000u32).map(|i| (i % 251) as u8).collect();
    Floppy::build(&[
        Node::Label("MYDISK"),
        Node::File("COMMAND.X", long),
        Node::Dir(
            "MUSIC",
            vec![
                Node::File("SONG.DOC", b"Hello there".to_vec()),
                Node::Dir("DEEP", vec![Node::File("LEAF.TXT", b"leaf".to_vec())]),
            ],
        ),
        Node::File("EMPTY.DAT", Vec::new()),
    ])
}

#[test]
fn a_floppy_reads_from_end_to_end() {
    let data = sample_disk();
    let image = XdfImage::open(&data).unwrap();
    let fs = Filesystem::open(&image).unwrap();
    assert_eq!(fs.phys_per_logi, 2);
    let names: Vec<String> =
        fs.read_root_dir().unwrap().iter().map(|e| e.display_name()).collect();
    assert_eq!(names, vec!["MYDISK", "COMMAND.X", "MUSIC", "EMPTY.DAT"]);
    let entry = fs.resolve("/music/song.doc/").unwrap();
    assert_eq!(fs.read_file(&entry).unwrap(), b"Hello there");
    let long = fs.resolve("COMMAND.X").unwrap();
    let bytes = fs.read_file(&long).unwrap();
    assert_eq!(bytes.len(), 3000);
    assert_eq!(bytes[2999], (2999u32 % 251) as u8);
    assert_eq!(fs.read_cluster_chain(long.start_cluster).unwrap().len(), 3 * 1024);
    let empty = fs.resolve("EMPTY.DAT").unwrap();
    assert!(fs.read_file(&empty).unwrap().is_empty());
    assert_eq!(fs.list_path("").unwrap().len(), 4);
    assert_eq!(fs.list_path("//").unwrap().len(), 4);
    assert_eq!(fs.list_path("MUSIC/DEEP").unwrap().len(), 3);
}

#[test]
fn wrong_paths_are_told_apart() {
    let data = sample_disk();
    let image = XdfImage::open(&data).unwrap();
    let fs = Filesystem::open(&image).unwrap();
    assert_eq!(fs.resolve("").unwrap_err(), FsError::PathIsRoot);
    assert_eq!(fs.resolve("MUSIC/NONE.X").unwrap_err(), FsError::NotFound { component: 1 });
    assert_eq!(
        fs.resolve("COMMAND.X/SONG.DOC").unwrap_err(),
        FsError::NotADirectory { component: 0 }
    );
    assert_eq!(fs.list_path("COMMAND.X").unwrap_err(), FsError::ListedPathIsAFile);
    let dir = fs.resolve("MUSIC").unwrap();
    assert_eq!(fs.read_file(&dir).unwrap_err(), FsError::NotARegularFile);
    assert_eq!(
        fs.read_logical_sector(1232).unwrap_err(),
        FsError::SectorOutOfRange { lba: 2464 }
    );
}

#[test]
fn a_walk_goes_depth_first() {
    let data = sample_disk();
    let image = XdfImage::open(&data).unwrap();
    let fs = Filesystem::open(&image).unwrap();
    let (items, error) = list_all(&fs);
    let paths: Vec<String> = items.iter().map(|i| i.path.clone()).collect();
    assert_eq!(
        paths,
        vec![
            "MYDISK",
            "COMMAND.X",
            "MUSIC",
            "MUSIC/SONG.DOC",
            "MUSIC/DEEP",
            "MUSIC/DEEP/LEAF.TXT",
            "EMPTY.DAT"
        ]
    );
    assert_eq!(error, None);
}

#[test]
fn a_directory_inside_itself_ends_a_walk() {
    let mut data = sample_disk();
    let image = XdfImage::open(&data).unwrap();
    let fs = Filesystem::open(&image).unwrap();
    let music = fs.resolve("MUSIC").unwrap().start_cluster;
    let slot = (11 + music as usize - 2) * SECTOR + 3 * 32;
    data[slot + 0x1A..slot + 0x1C].copy_from_slice(&music.to_le_bytes());
    let image = XdfImage::open(&data).unwrap();
    let fs = Filesystem::open(&image).unwrap();
    let (items, error) = list_all(&fs);
    assert_eq!(error, Some(FsError::DirectoryLoop { cluster: music }));
    assert_eq!(items.last().unwrap().path, "MUSIC/DEEP");
}

#[test]
fn unmountable_disks_are_told_apart() {
    let blank = vec![0u8; 1024];
    let image = XdfImage::open(&blank).unwrap();
    assert!(matches!(Filesystem::open(&image), Err(FsError::BytesPerSector(0))));
    let none: Vec<u8> = Vec::new();
    let image = XdfImage::open(&none).unwrap();
    assert!(matches!(Filesystem::open(&image), Err(FsError::SectorOutOfRange { lba: 0 })));
    assert!(matches!(
        XdfImage::open(&blank[..1000]),
        Err(FsError::UnevenImageSize { size: 1000, sector: 512 })
    ));
    let coarse = MemoryImage::new(vec![0u8; 6000], 3000);
    let bpb = Bpb::default_2hd_1232k();
    assert!(matches!(
        Filesystem::open_with_bpb(&coarse, bpb),
        Err(FsError::SectorSizeMismatch { logical: 1024, physical: 3000 })
    ));
    let mut huge = bpb;
    huge.total_sectors = 1_000_000;
    assert!(matches!(
        Filesystem::open_with_bpb(&XdfImage::open(&blank).unwrap(), huge),
        Err(FsError::TooManyClusters(999_989))
    ));
    let mut three = sample_disk();
    three[0x10] = 3;
    assert_eq!(Bpb::parse(&three[..512]).unwrap_err(), FsError::FatCopies(3));
    assert_eq!(Bpb::parse(&three[..20]).unwrap_err(), FsError::BootSectorTooShort);
}

#[test]
fn fat_entries_read_back() {
    let raw = vec![0xAB, 0xCD, 0xEF, 0x12];
    let fat = Fat12::from_raw(raw);
    assert_eq!(fat.entry(0), 0xDAB);
    assert_eq!(fat.entry(1), 0xEFC);
    assert_eq!(fat.entry(2), 0xFF8);
    let mut ring = vec![0u8; 12];
    ring[5] = 3;
    ring[7] = 2;
    let fat = Fat16::from_raw(ring);
    assert_eq!(fat.chain(2).len(), 1_000_001);
    assert_eq!(fat.raw().len(), 12);
}

fn hard_disk(floppy: &[u8]) -> Vec<u8> {
    // A SCSI disk: the table at 0x800, one partition from 0x8000 on.
    let mut data = vec![0u8; 0x8000];
    data[0..8].copy_from_slice(b"X68SCSI1");
    data[0x800..0x804].copy_from_slice(b"X68K");
    data[0x810..0x818].copy_from_slice(b"Human68k");
    data[0x818..0x81C].copy_from_slice(&32u32.to_be_bytes());
    data[0x81C..0x820].copy_from_slice(&1232u32.to_be_bytes());
    data[0x820..0x828].copy_from_slice(b"Broken  ");
    data[0x828..0x82C].copy_from_slice(&5000u32.to_be_bytes());
    data[0x82C..0x830].copy_from_slice(&10u32.to_be_bytes());
    let mut part = floppy.to_vec();
    part[0x12..0x14].copy_from_slice(&1024u16.to_be_bytes());
    part[0x14] = 1;
    part[0x15] = 2;
    part[0x16..0x18].copy_from_slice(&1u16.to_be_bytes());
    part[0x18..0x1A].copy_from_slice(&192u16.to_be_bytes());
    part[0x1A..0x1C].copy_from_slice(&1232u16.to_be_bytes());
    part[0x1D] = 2;
    data.extend(part);
    data
}

#[test]
fn a_hard_disk_has_partitions() {
    let data = hard_disk(&sample_disk());
    let opened = OpenedImage::open("/images/disk.IMG", &data).unwrap();
    assert_eq!(opened.kind(), ImageKind::Hds);
    assert_eq!(opened.format_name(), "HDS");
    let spec = ImageSpec::parse("disk.img:0:/MUSIC/SONG.DOC").unwrap();
    let read = with_filesystem(&opened, &spec, |fs, path| {
        let entry = fs.resolve(path)?;
        fs.read_file(&entry)
    });
    assert_eq!(read.unwrap(), b"Hello there");
    assert!(matches!(
        select_volume(&opened, Some(1)),
        Err(FsError::PartitionBeyondImage { index: 1, .. })
    ));
    assert!(matches!(
        select_volume(&opened, Some(2)),
        Err(FsError::PartitionOutOfRange { index: 2, count: 2 })
    ));
    let hdd = HddImage::open_hds(&data).unwrap();
    assert!(hdd.partitions()[0].is_human68k());
    assert!(!hdd.partitions()[1].is_human68k());
    assert_eq!(hdd.partition(0).unwrap().sector_count(), 2464);
    assert!(matches!(hdd.partition(7), Err(FsError::NoSuchPartition(7))));
    assert!(matches!(
        HddImage::open_with_phys(&data, 1024),
        Err(FsError::UnsupportedSectorSize(1024))
    ));
    assert!(matches!(HddImage::open_hdf(&data), Err(FsError::PartitionTableMagic)));
    assert!(matches!(
        HddImage::open_hds(&data[..2048]),
        Err(FsError::NoRoomForPartitionTable)
    ));
}

#[test]
fn images_open_by_extension_or_magic() {
    let data = sample_disk();
    assert!(matches!(OpenedImage::open("a.XDF", &data), Ok(OpenedImage::Floppy(_))));
    assert!(matches!(OpenedImage::open("a.img", &data), Ok(OpenedImage::Floppy(_))));
    assert!(matches!(
        OpenedImage::open("a.hds", &data),
        Err(FsError::PartitionTableMagic)
    ));
    assert!(matches!(
        OpenedImage::open("a", &data[..1000]),
        Err(FsError::UnknownImageFormat { size: 1000 })
    ));
    let mut sasi = vec![0u8; 0x2000];
    sasi[0x400..0x404].copy_from_slice(b"X68K");
    let opened = OpenedImage::open("a.img", &sasi).unwrap();
    assert_eq!(opened.format_name(), "HDF");
    let floppy = OpenedImage::open("a.xdf", &data).unwrap();
    assert!(matches!(
        select_volume(&floppy, Some(0)),
        Err(FsError::FloppyHasNoPartitions)
    ));
}

#[test]
fn an_image_becomes_documents() {
    let nested = archive(&[("INNER.TXT", b"nested text")]);
    let lzh = archive(&[("README.DOC", b"from the archive"), ("SUB.LZH", &nested)]);
    let data = Floppy::build(&[
        Node::File("NOTE.DOC", b"plain text".to_vec()),
        Node::File("PACK.LZH", lzh),
        Node::File("BAD.LZH", b"no archive at all".to_vec()),
        Node::File("TOOL.BIN", vec![1, 2, 3]),
    ]);
    let opened = OpenedImage::open("/a/disk.xdf", &data).unwrap();
    let opts = BuildOpts::default();
    let (docs, error) = index_one_image(&opened, "/a/disk.xdf", "0123456789abcdef", &opts);
    assert_eq!(error, None);
    assert_eq!(
        paths_in(&docs),
        vec![
            "NOTE.DOC",
            "PACK.LZH",
            "PACK.LZH!/README.DOC",
            "PACK.LZH!/SUB.LZH",
            "PACK.LZH!/SUB.LZH!/INNER.TXT",
            "BAD.LZH",
            "TOOL.BIN"
        ]
    );
    assert_eq!(text_in(&docs[0], Field::Body), "plain text");
    assert_eq!(text_in(&docs[2], Field::BodyExcerpt), "from the archive");
    assert_eq!(text_in(&docs[2], Field::Attr), "-----A-");
    assert!(docs[6].get_first(Field::Body).is_none());
    let hit = doc_to_hit(&docs[0]);
    assert_eq!(hit.file_name, "NOTE.DOC");
    assert_eq!(hit.size, 10);
    assert_eq!(hit.mtime, 897_566_400);
    assert_eq!(hit.excerpt, "plain text");
    let hit = doc_to_hit(&docs[4]);
    assert_eq!(hit.mtime, 897_566_400);
    assert_eq!(hit.ext, "TXT");
    let mut plain = opts;
    plain.index_lzh = false;
    assert_eq!(index_one_image(&opened, "/a/disk.xdf", "0", &plain).0.len(), 4);
}

#[test]
fn an_index_is_added_to_only_once() {
    let data = sample_disk();
    let opts = BuildOpts::default();
    let first = index_image("/a/d.xdf", &data, &Vec::new(), &opts);
    assert_eq!(first.image_id, compute_image_id(&data));
    assert_eq!(first.outcome, ImageOutcome::Indexed(4));
    let ids = collect_existing_image_ids(&first.documents);
    assert_eq!(ids, vec![first.image_id.clone()]);
    let second = index_image("/a/d.xdf", &data, &ids, &opts);
    assert_eq!(second.outcome, ImageOutcome::Skipped);
    assert!(second.documents.is_empty());
    let broken = index_image("/a/d.hds", &data, &Vec::new(), &opts);
    assert_eq!(broken.outcome, ImageOutcome::Failed(FsError::PartitionTableMagic));
    let mut stats = BuildStats::default();
    stats.record(first.outcome);
    stats.record(second.outcome);
    stats.record(broken.outcome);
    assert_eq!(stats.images_indexed, 1);
    assert_eq!(stats.images_skipped, 1);
    assert_eq!(stats.files_indexed, 4);
}

#[test]
fn image_names_are_hashes() {
    assert_eq!(compute_image_id(b""), "da39a3ee5e6b4b0d");
    assert_eq!(compute_image_id(b"abc"), "a9993e364706816a");
}

#[test]
fn images_are_found_by_extension_and_sorted_by_steps() {
    let files: Vec<String> = ["/a-b/x.img", "/a/z.XDF", "/a/y.txt", "/a/b/c.hdf", "/a/.hds"]
        .iter()
        .map(|s| s.to_string())
        .collect();
    assert_eq!(discover_images("/", &files), vec!["/a/b/c.hdf", "/a/z.XDF", "/a-b/x.img"]);
    let files: Vec<String> = [
        "/.Trash/in/a.xdf",
        "/.Trash/in/#recycle/b.xdf",
        "/.Trash/in/deep/System Volume Information/c.img",
        "/.Trash/in/deep/.Trash",
        "/.Trash/in/$RECYCLE.BIN.xdf",
    ]
    .iter()
    .map(|s| s.to_string())
    .collect();
    let found = vec!["/.Trash/in/$RECYCLE.BIN.xdf", "/.Trash/in/a.xdf"];
    assert_eq!(discover_images("/.Trash/in/", &files), found);
    assert_eq!(discover_images("/.Trash/in", &files), found);
    assert!(discover_images("/", &files).is_empty());
    assert!(is_excluded_dir("$RECYCLE.BIN"));
    assert!(!is_excluded_dir("MUSIC"));
}

#[test]
fn archives_are_unpacked_within_limits() {
    let nested = archive(&[("DEEP.TXT", b"deep")]);
    let bytes = archive(&[
        ("A.TXT", b"aaaa"),
        ("BIG.TXT", b"bbbbbbbbbbbbbbbbbbbb"),
        ("C.LZH", &nested),
        ("D.TXT", b"dd"),
    ]);
    let run = |depth: usize, opts: LzhOpts| {
        paths_in(&index_lzh_bytes(&bytes, "i", "id", 0, "X.LZH", depth, &opts).unwrap())
    };
    let open = LzhOpts::default();
    assert_eq!(
        run(2, open),
        vec![
            "X.LZH!/A.TXT",
            "X.LZH!/BIG.TXT",
            "X.LZH!/C.LZH",
            "X.LZH!/C.LZH!/DEEP.TXT",
            "X.LZH!/D.TXT"
        ]
    );
    assert_eq!(run(1, open).len(), 4);
    assert_eq!(run(0, open).len(), 0);
    let mut small = open;
    small.max_member_size = 10;
    assert_eq!(run(1, small), vec!["X.LZH!/A.TXT", "X.LZH!/D.TXT"]);
    let mut short = open;
    short.max_total_expansion = 10;
    assert_eq!(run(1, short), vec!["X.LZH!/A.TXT"]);
    assert_eq!(
        index_lzh_bytes(b"nothing", "i", "id", 0, "X.LZH", 1, &open).unwrap_err(),
        LzhError::Header
    );
}

#[test]
fn members_are_taken_out_by_path() {
    let bytes = archive(&[("DIR/ONE.TXT", b"one"), ("TWO.TXT", b"two")]);
    assert_eq!(extract_member(&bytes, "two.txt").unwrap(), b"two");
    assert_eq!(extract_member(&bytes, "//TWO.TXT").unwrap(), b"two");
    assert_eq!(extract_member(&bytes, "dir/one.txt").unwrap(), b"one");
    assert_eq!(extract_member(&bytes, "three.txt").unwrap_err(), LzhError::NotFound);
    assert_eq!(extract_member(b"", "x").unwrap_err(), LzhError::Header);
    let mut odd = archive(&[("ONE.TXT", b"one")]);
    odd[5] = b'9';
    odd[1] = odd[1].wrapping_add(b'9' - b'0');
    assert_eq!(extract_member(&odd, "one.txt").unwrap_err(), LzhError::Unsupported);
    let mut cut = archive(&[("ONE.TXT", b"one")]);
    cut.pop();
    cut.extend([40u8, 1, 2, 3, 4, 5, 6]);
    assert_eq!(extract_member(&cut, "two.txt").unwrap_err(), LzhError::NextHeader);
    let mut short = archive(&[("ONE.TXT", b"one")]);
    short.truncate(short.len() - 3);
    assert_eq!(extract_member(&short, "one.txt").unwrap_err(), LzhError::Decode);
}

fn dennou_disk() -> Vec<u8> {
    let doc = b"\x81\xF4\x81\xF4\x81\xF4\x81\xF4\x81\xF4\n  FIRST SONG\n  Some Band\n MUSIC by Taro (x)\n \x89\xC8\n\x81\xF4\x81\xF4\x81\xF4\x81\xF4\x81\xF4\n".to_vec();
    Floppy::build(&[
        Node::Dir(
            "MUSIC",
            vec![
                Node::File("songb.doc", b"no head at all".to_vec()),
                Node::File("SONGA.DOC", doc),
                Node::File("SONGA.ZMS", b".comment".to_vec()),
                Node::File("PLAIN.ZMS", b".comment".to_vec()),
            ],
        ),
        Node::Dir(
            "QS",
            vec![Node::File(
                "MOKUJI.DOC",
                b"TYPE=OPM:A:\\MUSIC\\SONGB.ZMS\r\n JASRAC  R-123\r\n".to_vec(),
            )],
        ),
    ])
}

fn payload_text(payload: &Json, name: &str) -> Option<String> {
    match payload {
        Json::Object(members) => {
            members.iter().find(|m| m.name == name).and_then(|m| match &m.value {
                Json::Text(s) => Some(s.clone()),
                _ => None,
            })
        }
        _ => None,
    }
}

#[test]
fn a_magazine_disk_gives_records() {
    let data = dennou_disk();
    let path = "/archive/Dennou094A.img";
    let id = compute_image_id(&data);
    let opened = OpenedImage::open(path, &data).unwrap();
    let results = extract_one_image_dry(&DennouPlugin, &opened, path, &id).unwrap();
    assert_eq!(results.len(), 1);
    let records = &results[0].records;
    assert_eq!(records.len(), 2);
    let a = &records[0];
    assert_eq!(a.unique_id, format!("dennou:{}:MUSIC/SONGA.DOC", &id[..8]));
    assert_eq!(a.location_facet, "/dennou/main/094");
    assert_eq!(a.issue_role, "A");
    assert_eq!(payload_text(&a.payload, "title").as_deref(), Some("FIRST SONG"));
    assert_eq!(payload_text(&a.payload, "original_artist").as_deref(), Some("Some Band"));
    assert_eq!(payload_text(&a.payload, "composer").as_deref(), Some("Taro"));
    let b = &records[1];
    assert_eq!(b.source_path, "MUSIC/SONGB.DOC");
    assert_eq!(payload_text(&b.payload, "jasrac_note").as_deref(), Some("JASRAC R-123"));

    // Documents tell that the image has been read.
    let docs: Vec<ArchiveDocument> = records.iter().map(record_to_doc).collect();
    let keys = collect_extracted_keys(&docs);
    let plugins = vec![DennouPlugin];
    let fresh = extract_image(&plugins, &None, &Vec::new(), &opened, path, &id);
    assert_eq!(fresh.decision, ExtractDecision::Extracted { plugin: 0, records: 2 });
    let again = extract_image(&plugins, &None, &keys, &opened, path, &id);
    assert_eq!(again.decision, ExtractDecision::AlreadyExtracted);
    let other = extract_image(&plugins, &Some("ohx".into()), &keys, &opened, path, &id);
    assert_eq!(other.decision, ExtractDecision::NoPlugin);
    let mut stats = ExtractStats::default();
    stats.record(fresh.decision, PLUGIN_NAME);
    stats.record(again.decision, PLUGIN_NAME);
    stats.record_unreadable();
    assert_eq!(stats.images_seen, 3);
    assert_eq!(stats.records_added, 2);
    assert_eq!(stats.images_skipped_extracted, 1);
    assert_eq!(stats.by_plugin, vec![("dennou".to_string(), 1)]);
    for name in ["zone", "dennou", "a", "ohx", "a"] {
        stats.record(fresh.decision, name);
    }
    let counts: Vec<(&str, usize)> =
        stats.by_plugin.iter().map(|(name, n)| (name.as_str(), *n)).collect();
    assert_eq!(counts, vec![("a", 2), ("dennou", 2), ("ohx", 1), ("zone", 1)]);

    // And they make a table.
    let opts = QueryOpts { order_by: OrderBy::IssueDesc, ..Default::default() };
    let table = run_query(&docs, &opts);
    assert_eq!(table.row_count, 2);
    assert!(!table.truncated);
    assert_eq!(table.rows[0][0], "94");
    assert_eq!(table.rows[0][2], "FIRST SONG");
    assert!(rows_to_csv(&table).lines().count() == 3);
    let mut narrow = QueryOpts { limit: 1, ..Default::default() };
    narrow.filters = MetadataFilters { title_contains: Some("".into()), ..Default::default() };
    let table = run_query(&docs, &narrow);
    assert_eq!(table.rows.len(), 1);
    assert!(table.truncated);
}

#[test]
fn other_sides_and_other_disks_give_nothing() {
    let data = dennou_disk();
    let opened = OpenedImage::open("/a/Dennou094B.img", &data).unwrap();
    let results = extract_one_image_dry(&DennouPlugin, &opened, "/a/Dennou094B.img", "x").unwrap();
    assert!(results[0].records.is_empty());
    let plain = sample_disk();
    let opened = OpenedImage::open("/a/plain.xdf", &plain).unwrap();
    assert_eq!(
        extract_one_image_dry(&DennouPlugin, &opened, "/a/plain.xdf", "x").unwrap_err(),
        DryRunError::NotDetected
    );
    let hdd = hard_disk(&plain);
    let opened = OpenedImage::open("/a/plain.hds", &hdd).unwrap();
    assert_eq!(
        extract_one_image_dry(&DennouPlugin, &opened, "/a/plain.hds", "x").unwrap_err(),
        DryRunError::NoPartitionDetected
    );
    let blank = vec![0u8; 512];
    let opened = OpenedImage::open("/a/blank.xdf", &blank).unwrap();
    assert_eq!(
        extract_one_image_dry(&DennouPlugin, &opened, "/a/blank.xdf", "x").unwrap_err(),
        DryRunError::Failed(FsError::BytesPerSector(0))
    );
}

#[test]
fn queries_ask_the_index_for_what_it_can_check() {
    let opts = QueryOpts {
        filters: MetadataFilters {
            issue_no_min: Some(10),
            issue_kind: Some("main".into()),
            ..Default::default()
        },
        ..Default::default()
    };
    let clauses = build_tantivy_query(&opts);
    assert_eq!(clauses.len(), 3);
    assert!(matches!(&clauses[0], QueryClause::Term(Field::Category, s) if s == "music"));
    assert!(matches!(&clauses[1], QueryClause::Range(Field::IssueNo, 10, u64::MAX)));
    assert!(matches!(&clauses[2], QueryClause::Term(Field::IssueKind, s) if s == "main"));
    assert_eq!(prefetch_limit(1000), 4000);
    assert_eq!(prefetch_limit(50_000), 50_000);
    assert_eq!(parse_order_by("title_asc"), Ok(OrderBy::TitleAsc));
    assert_eq!(parse_order_by("up"), Err(UnknownName));
}

#[test]
fn searches_need_something_to_search_for() {
    assert!(build_query(&SearchOpts::default()).is_err());
    let plan = build_query(&SearchOpts {
        query: " \u{3000}".into(),
        ext: vec!["zms".into(), "Doc".into()],
        limit: 5,
    })
    .unwrap();
    assert_eq!(plan.query, None);
    assert_eq!(plan.ext, vec!["ZMS", "DOC"]);
    let plan = build_query(&SearchOpts { query: " a b ".into(), ext: vec![], limit: 0 }).unwrap();
    assert_eq!(plan.query.as_deref(), Some(" a b "));
}

#[test]
fn a_snapshot_shows_a_disk() {
    let data = Floppy::build(&[
        Node::Label("MYDISK"),
        Node::File("A.DOC", b"short".to_vec()),
        Node::File("B.TXT", b"the longer text".to_vec()),
        Node::File("P.LZH", archive(&[("ONE.TXT", b"1"), ("TWO.TXT", b"2")])),
    ]);
    let opened = OpenedImage::open("d.xdf", &data).unwrap();
    let snap = collect_image_snapshot(&opened, data.len() as u64, 16, 2).unwrap();
    assert_eq!(snap.format, ImageKind::Xdf);
    assert_eq!(snap.file_count, 5);
    assert_eq!(snap.listing, vec![("A.DOC".to_string(), 5), ("B.TXT".to_string(), 15)]);
    assert_eq!(snap.volume_label.as_deref(), Some("MYDISK"));
    assert_eq!(snap.main_text, Some(("B.TXT".to_string(), "the long".to_string())));
    let paths = vec!["d.xdf".to_string()];
    let snaps = vec![snap];
    assert_eq!(
        build_group_prompt(&paths, &snaps, "en"),
        "Image format: XDF\nTotal bytes: 1261568\nFile count (after LZH expansion): 5\n\
         Volume label: MYDISK\n\nFile listing (first 2):\n  A.DOC (5 B)\n  B.TXT (15 B)\n\
         \nMain text content from B.TXT:\n---\nthe long\n---\n"
    );
    let images = vec![ImageFile { path: "d.xdf".into(), image_id: "id".into() }];
    let request = prepare_group(&images, &snaps, "ja");
    assert!(request.prompt.starts_with("イメージ形式: XDF\n総バイト数: 1261568\n"));
    assert_eq!(request.members[0].format, "xdf");
    assert_eq!(dry_run_title("g", &images), "DRY RUN: d.xdf (solo)");
    let group = ResolvedGroup {
        id: "g".into(),
        origin: "solo".into(),
        members: vec!["d.xdf".into()],
    };
    let answer = ParsedSummary {
        summary: "words".into(),
        categories: vec![],
        topics: vec![],
        highlights: vec![],
    };
    let opts = SummarizeOpts::default();
    let s = finish_summary(&group, request.members, answer, None, "now", &opts);
    assert_eq!((s.image_id.as_str(), s.summary.as_str()), ("g", "words"));
    assert_eq!((s.file_count, s.members.len()), (5, 1));
    let hdd = hard_disk(&data);
    let opened = OpenedImage::open("d.hds", &hdd).unwrap();
    let snap = collect_image_snapshot(&opened, 0, 16, 10).unwrap();
    assert_eq!(snap.listing[0].0, "[part0]A.DOC");
}

#[test]
fn groups_are_summarized_once() {
    assert_eq!(group_action(false, true, &vec![], false), GroupAction::Skip);
    assert_eq!(group_action(false, false, &vec![false, true], true), GroupAction::Skip);
    assert_eq!(group_action(true, true, &vec![true], false), GroupAction::Summarize);
    assert_eq!(group_action(false, false, &vec![false], true), GroupAction::Stop);
    let mut stats = SummarizeStats::default();
    stats.record(GroupOutcome::Skipped);
    stats.record(GroupOutcome::Failed);
    stats.record(GroupOutcome::Processed(None));
    stats.record(GroupOutcome::Processed(Some(UsageInfo { input_tokens: 7, output_tokens: 3 })));
    assert_eq!((stats.processed, stats.skipped_existing, stats.failed), (2, 1, 1));
    assert_eq!((stats.total_input_tokens, stats.total_output_tokens), (7, 3));
}

#[test]
fn days_are_counted_by_the_calendar() {
    assert_eq!(days_from_civil(1970, 1, 1), 0);
    assert_eq!(days_from_civil(2000, 2, 29), 11016);
    assert_eq!(days_from_civil(2000, 3, 1), 11017);
    assert_eq!(days_from_civil(1900, 3, 1) - days_from_civil(1900, 2, 28), 1);
    assert_eq!(days_from_civil(-1, 12, 31) + 1, days_from_civil(0, 1, 1));
    assert_eq!(naive_to_epoch(1998, 6, 11, 12, 0, 0), 897_566_400);
    let mut e = entry_bytes("A.X", 0x20, 0, 0);
    assert_eq!(mtime_to_unix(&DirEntry::parse(&e).unwrap()), 897_566_400);
    e[0x18] = 0;
    e[0x19] = 0;
    assert_eq!(mtime_to_unix(&DirEntry::parse(&e).unwrap()), 0);
}

#[test]
fn names_are_made_safe() {
    for name in ["", "..", "a. .", "C:\\x?", "\u{1}y", "ok.txt"] {
        let safe = sanitize_filename(name);
        assert_eq!(sanitize_filename(&safe), safe);
        assert!(!safe.is_empty() && safe != "." && safe != "..");
    }
    assert_eq!(sanitize_path("/out", "A/../B:C.X"), "/out/A/_/B_C.X");
    assert_eq!(sanitize_path("", "A"), "A");
    assert_eq!(sanitize_path("/out/", "/A/"), "/out/A");
}

#[test]
fn attributes_are_seven_characters() {
    assert_eq!(attr_str(Attr::from_bits_truncate(0xFF)), "DRHSVAL");
    assert_eq!(attr_str(Attr::from_bits_truncate(0x21)), "-R---A-");
    assert_eq!(attr_str_from_dir_flag(false), "-----A-");
    assert_eq!(attr_str_from_dir_flag(true), "D----A-");
}

#[test]
fn white_space_is_that_of_unicode() {
    for n in 0..=0x10FFFFu32 {
        if let Some(c) = char::from_u32(n) {
            assert_eq!(is_white_space(c), c.is_whitespace(), "{:x}", n);
        }
    }
}

#[test]
fn patterns_fit_names() {
    assert!(glob_match("*.ZMS", "SONG.ZMS", false));
    assert!(!glob_match("*.ZMS", "song.zms", false));
    assert!(glob_match("*.ZMS", "song.zms", true));
    assert!(glob_match("SONG?.*", "SONG1.DOC", false));
    assert!(!glob_match("SONG?.*", "SONG.DOC", false));
    assert!(glob_match("*A*B", "xAyAzB", false));
    assert!(!glob_match("*A*B", "xAyAzBc", false));
    assert!(glob_match("", "", false));
    assert!(!glob_match("", "A", false));
    assert!(glob_match("*", "", false));
    assert!(glob_match("ÄÖ.*", "äö.txt", true));
}

#[test]
fn paths_are_seen_from_directories() {
    assert_eq!(relative_path("", "MUSIC/A.ZMS"), Some("MUSIC/A.ZMS".to_string()));
    assert_eq!(relative_path("MUSIC", "MUSIC/A.ZMS"), Some("A.ZMS".to_string()));
    assert_eq!(relative_path("MUSIC", "MUSIC"), Some(String::new()));
    assert_eq!(relative_path("MUSIC", "MUSIC2/A.ZMS"), None);
    assert_eq!(relative_path("MUSIC/OLD", "MUSIC"), None);
}

/// An archive of one stored member with a moment of the last change as Windows has it.
fn windows_archive(name: &str, data: &[u8], time: u64) -> Vec<u8> {
    let mut extra = vec![0x41];
    extra.extend([0u8; 8]);
    extra.extend(time.to_le_bytes());
    extra.extend([0u8; 8]);
    extra.extend(0u16.to_le_bytes());
    let mut h = Vec::new();
    h.extend(b"-lh0-");
    h.extend(((data.len() + extra.len()) as u32).to_le_bytes());
    h.extend((data.len() as u32).to_le_bytes());
    h.extend([0u8; 4]);
    h.extend([0x20, 1, name.len() as u8]);
    h.extend(name.as_bytes());
    h.extend([0, 0, b'M']);
    let length = (h.len() + 2) as u8;
    h.extend((extra.len() as u16).to_le_bytes());
    let sum = h.iter().fold(0u8, |a, b| a.wrapping_add(*b));
    let mut out = vec![length, sum];
    out.extend(h);
    out.extend(extra);
    out.extend(data);
    out.push(0);
    out
}

#[test]
fn members_tell_when_they_were_changed() {
    let epoch = 116_444_736_000_000_000u64;
    let changed = |time: u64| {
        let bytes = windows_archive("A.TXT", b"text", time);
        let docs = index_lzh_bytes(&bytes, "i", "id", 0, "X.LZH", 1, &LzhOpts::default()).unwrap();
        assert_eq!(paths_in(&docs), vec!["X.LZH!/A.TXT"]);
        match docs[0].get_first(Field::Mtime) {
            Some(FieldValue::I64(n)) => *n,
            other => panic!("{:?}", other),
        }
    };
    assert_eq!(changed(epoch), 0);
    assert_eq!(changed(epoch + 12_345 * 10_000_000 + 1), 12_345);
    assert_eq!(changed(epoch - 7 * 10_000_000), -7);
    assert_eq!(changed(epoch - 7 * 10_000_000 + 1), 0);
}

#[test]
fn snapshots_are_limited_in_bytes() {
    let kana = [0x82, 0xA0].repeat(10);
    let data = Floppy::build(&[Node::File("A.DOC", kana)]);
    let opened = OpenedImage::open("d.xdf", &data).unwrap();
    let text = |limit: usize| {
        collect_image_snapshot(&opened, 0, limit, 9).unwrap().main_text.map(|t| t.1)
    };
    assert_eq!(text(8).as_deref(), Some("ああ"));
    assert_eq!(text(29).as_deref(), Some("あああああああああ"));
    assert_eq!(text(30).as_deref(), Some("ああああああああああ"));
    assert_eq!(text(4), None);
}

/// An archive of one member with the given method, packed data and size.
fn packed_archive(method: &[u8], packed: &[u8], size: u32) -> Vec<u8> {
    let mut h = Vec::new();
    h.extend(method);
    h.extend((packed.len() as u32).to_le_bytes());
    h.extend(size.to_le_bytes());
    h.extend([0u8; 4]);
    h.extend([0x20, 0, 1, b'A', 0, 0]);
    let mut out = vec![h.len() as u8, h.iter().fold(0u8, |a, b| a.wrapping_add(*b))];
    out.extend(h);
    out.extend(packed);
    out.push(0);
    out
}

/// Bytes from bits, filled up with zeros.
fn bytes_of(bits: &str) -> Vec<u8> {
    let bits: Vec<u8> = bits.bytes().filter(|b| *b != b' ').map(|b| b - b'0').collect();
    bits.chunks(8)
        .map(|c| c.iter().enumerate().fold(0, |a, (i, b)| a | b << (7 - i)))
        .collect()
}

#[test]
fn packed_members_are_unpacked() {
    // Four commands, with one code each: the letter A.
    let block = "0000000000000100 00000 00000 000000000 001000001 0000 0000";
    let packed = bytes_of(block);
    let bytes = packed_archive(b"-lh5-", &packed, 4);
    assert_eq!(extract_member(&bytes, "a").unwrap(), b"AAAA");
    for ones in [250, 251, 255, 256, 4000] {
        let tail = format!("{} 0 {} 0", block, "1".repeat(ones));
        let bytes = packed_archive(b"-lh5-", &bytes_of(&tail), 4);
        assert_eq!(extract_member(&bytes, "a").unwrap(), b"AAAA", "{}", ones);
        let bytes = packed_archive(b"-lh0-", &bytes_of(&tail), 4);
        assert_eq!(extract_member(&bytes, "a").unwrap(), &packed[..4]);
    }
}

#[test]
fn long_runs_of_ones_are_data() {
    // The letter A is written as a zero, the letter B as a one.
    let tables = "00100 000 000 001 00 001 001000011 0 000101101 1 1 0000 0000";
    for ones in [7, 250, 251, 252, 255, 256, 300] {
        let bits = format!("{:016b} {} {} 0", ones + 1, tables, "1".repeat(ones));
        let bytes = packed_archive(b"-lh5-", &bytes_of(&bits), ones as u32 + 1);
        let text = "B".repeat(ones) + "A";
        assert_eq!(extract_member(&bytes, "a").unwrap(), text.as_bytes(), "{}", ones);
    }
}

#[test]
fn a_code_of_255_bits_is_damage() {
    let head = "0000000000000001 00011 001 001";
    let packed = bytes_of(&format!("{} 111 {} 0 00 000000", head, "1".repeat(248)));
    let bytes = packed_archive(b"-lh5-", &packed, 4);
    assert_eq!(extract_member(&bytes, "a").unwrap_err(), LzhError::Decode);
    let docs = index_lzh_bytes(&bytes, "i", "id", 0, "X.LZH", 1, &LzhOpts::default()).unwrap();
    assert!(docs.is_empty());
}

#[test]
fn tools_choose_entries() {
    let data = sample_disk();
    let image = XdfImage::open(&data).unwrap();
    let fs = Filesystem::open(&image).unwrap();
    let (items, _) = list_all(&fs);
    let paths = |v: Vec<x68k_archive::walker::Visited>| -> Vec<String> {
        v.into_iter().map(|i| i.path).collect()
    };
    assert_eq!(paths(find_names(&items, "MUSIC", "*e*", true, false)), vec!["MUSIC/DEEP/LEAF.TXT"]);
    assert_eq!(paths(find_names(&items, "", "D*", false, true)), vec!["MUSIC/DEEP"]);
    assert!(find_names(&items, "", "d*", false, true).is_empty());
    assert_eq!(
        paths(entries_to_copy(&items, "MUSIC")),
        vec!["SONG.DOC", "DEEP", "DEEP/LEAF.TXT"]
    );
    assert_eq!(paths(entries_to_copy(&items, "COMMAND.X")), vec![""]);
    let root = fs.read_root_dir().unwrap();
    let (dirs, error) = list_tree(&fs, &root, "", &Vec::new(), true, false);
    let names: Vec<(String, Vec<String>)> = dirs
        .iter()
        .map(|d| (d.path.clone(), d.entries.iter().map(|e| e.display_name()).collect()))
        .collect();
    assert_eq!(error, None);
    assert_eq!(names.len(), 3);
    assert_eq!(names[1].0, "/MUSIC");
    assert_eq!(names[1].1, vec!["SONG.DOC", "DEEP"]);
    assert_eq!(names[2].0, "/MUSIC/DEEP");
    assert_eq!(names[2].1, vec!["LEAF.TXT"]);
    assert_eq!(list_tree(&fs, &root, "", &Vec::new(), false, false).0.len(), 1);
}

#[test]
fn counts_of_a_run_add_up() {
    let mut stats = BuildStats::default();
    for outcome in [ImageOutcome::Skipped, ImageOutcome::Indexed(3), ImageOutcome::Indexed(4)] {
        stats.record(outcome);
    }
    stats.record(ImageOutcome::Failed(FsError::PathIsRoot));
    assert_eq!((stats.images_indexed, stats.images_skipped, stats.files_indexed), (2, 1, 7));
}
