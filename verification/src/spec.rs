//! Image specifications: an image file, a partition of it, a path inside.
//!
//! ```text
//! path                  a floppy, or the first partition of a hard disk
//! path:/inner/path      the same, with a path inside
//! path:N                partition N of a hard disk
//! path:N:/inner/path    the same, with a path inside
//! ```
//!
//! The colon of a drive letter (`C:\`) separates nothing.

use crate::bpb::{hdd_bpb, Bpb};
use crate::error::FsError;
use crate::fs::{mounted, mounted_floppy, DiskModel, Filesystem};
use crate::hdd::PartitionImage;
use crate::image::{DiskImage, OpenedImage, XdfImage};
use crate::path::{find_last, rfind_char};
use crate::text::{decimal, decimal_round_trip, from_chars, is_digit, is_letter, is_number, number_value,
    parse_number, to_chars};
use vstd::prelude::*;

verus! {

/// An image file, a partition of it, and a path inside.
#[derive(Debug, PartialEq, Eq)]
pub struct ImageSpec {
    pub path: String,
    pub partition: Option<usize>,
    /// The path inside, as it was written.
    pub inner_path: String,
}

/// An image specification as a mathematical value.
pub struct ImageSpecModel {
    pub path: Seq<char>,
    pub partition: Option<usize>,
    pub inner_path: Seq<char>,
}

impl View for ImageSpec {
    type V = ImageSpecModel;

    open spec fn view(&self) -> ImageSpecModel {
        ImageSpecModel {
            path: self.path@,
            partition: self.partition,
            inner_path: self.inner_path@,
        }
    }
}

/// The specification of nothing at all.
#[derive(Clone, Copy, Debug, PartialEq, Eq, Structural)]
pub struct EmptySpec;

/// The length of the drive letter that a path starts with.
pub open spec fn drive_length(s: Seq<char>) -> int {
    if s.len() >= 2 && is_letter(s[0]) && s[1] == ':' {
        2
    } else {
        0
    }
}

/// The first place from `i` on where a colon and a slash stand.
pub open spec fn separator_from(s: Seq<char>, i: int) -> Option<int>
    decreases s.len() - i,
{
    if i + 1 >= s.len() {
        None
    } else if s[i] == ':' && s[i + 1] == '/' {
        Some(i)
    } else {
        separator_from(s, i + 1)
    }
}

/// What stands before the inner path, taken apart: where its last colon, the one
/// of a drive letter aside, is followed by a number, that is the partition.
pub open spec fn head_parts(s: Seq<char>) -> (Seq<char>, Option<usize>) {
    let k = rfind_char(s, ':');
    if k >= drive_length(s) && is_number(s.skip(k + 1)) && number_value(s.skip(k + 1))
        <= usize::MAX {
        (s.take(k), Some(number_value(s.skip(k + 1)) as usize))
    } else {
        (s, None)
    }
}

/// What an image specification says.
pub open spec fn spec_of(s: Seq<char>) -> ImageSpecModel {
    match separator_from(s, drive_length(s)) {
        Some(i) => ImageSpecModel {
            path: head_parts(s.take(i)).0,
            partition: head_parts(s.take(i)).1,
            inner_path: s.skip(i + 1),
        },
        None => ImageSpecModel {
            path: head_parts(s).0,
            partition: head_parts(s).1,
            inner_path: Seq::empty(),
        },
    }
}

impl ImageSpec {
    /// Reads an image specification.
    pub fn parse(s: &str) -> (r: Result<Self, EmptySpec>)
        ensures
            match r {
                Ok(spec) => s@.len() > 0 && spec@ == spec_of(s@),
                Err(_) => s@.len() == 0,
            },
    {
        let chars: Vec<char> = to_chars(s);
        if chars.len() == 0 {
            return Err(EmptySpec);
        }
        match find_inner_separator(chars.as_slice()) {
            Some(i) => {
                let head: &[char] = &chars.as_slice()[0..i];
                assert(head@ =~= chars@.take(i as int));
                assert(i < chars.len());
                let inner: &[char] = &chars.as_slice()[i + 1..chars.len()];
                assert(inner@ =~= chars@.skip(i + 1));
                let (path, partition) = parse_head(head);
                Ok(ImageSpec { path: from_chars(path), partition, inner_path: from_chars(inner) })
            },
            None => {
                let (path, partition) = parse_head(chars.as_slice());
                let spec = ImageSpec {
                    path: from_chars(path),
                    partition,
                    inner_path: String::new(),
                };
                assert(spec@.inner_path =~= Seq::empty());
                Ok(spec)
            },
        }
    }
}

/// The place of the colon before the inner path.
pub fn find_inner_separator(s: &[char]) -> (r: Option<usize>)
    ensures
        match r {
            Some(i) => i + 1 < s@.len() && separator_from(s@, drive_length(s@)) == Some(i as int),
            None => separator_from(s@, drive_length(s@)) is None,
        },
{
    let mut i: usize = drive_letter_skip(s);
    while i < s.len() && s.len() - i > 1
        invariant
            i <= s@.len(),
            separator_from(s@, i as int) == separator_from(s@, drive_length(s@)),
        decreases s@.len() - i,
    {
        if s[i] == ':' && s[i + 1] == '/' {
            return Some(i);
        }
        i = i + 1;
    }
    None
}

/// Takes the partition number off the end of what stands before the inner path.
pub fn parse_head(s: &[char]) -> (r: (&[char], Option<usize>))
    ensures
        (r.0@, r.1) == head_parts(s@),
{
    let skip: usize = drive_letter_skip(s);
    if let Some(k) = find_last(s, ':') {
        if k >= skip {
            assert(k < s.len());
            let after: &[char] = &s[k + 1..s.len()];
            assert(after@ =~= s@.skip(k + 1));
            if let Some(n) = parse_number(after) {
                if n <= usize::MAX as u64 {
                    let before: &[char] = &s[0..k];
                    assert(before@ =~= s@.take(k as int));
                    return (before, Some(n as usize));
                }
            }
        }
    }
    (s, None)
}

/// The length of the drive letter that a path starts with.
pub fn drive_letter_skip(s: &[char]) -> (r: usize)
    ensures
        r == drive_length(s@),
        r <= s@.len(),
{
    if s.len() >= 2 && ((s[0] >= 'A' && s[0] <= 'Z') || (s[0] >= 'a' && s[0] <= 'z')) && s[1]
        == ':' {
        2
    } else {
        0
    }
}

/// The text of an image specification.
pub open spec fn spec_text(m: ImageSpecModel) -> Seq<char> {
    let head = match m.partition {
        Some(n) => m.path + seq![':'] + decimal(n as nat),
        None => m.path,
    };
    if m.inner_path.len() == 0 {
        head
    } else {
        head + seq![':'] + m.inner_path
    }
}

proof fn no_separator_without_colon(s: Seq<char>, i: int, from: int)
    requires
        0 <= from,
        forall|k: int|
            #![trigger s[k]]
            from <= k < i ==> s[k] != ':' || (k + 1 < s.len() && s[k + 1] != '/'),
        i <= s.len(),
        from <= i,
    ensures
        separator_from(s, from) == separator_from(s, i),
    decreases i - from,
{
    if from < i {
        no_separator_without_colon(s, i, from + 1);
    }
}

proof fn rfind_is_last(s: Seq<char>, c: char, k: int)
    requires
        -1 <= k < s.len(),
        forall|j: int| k < j < s.len() ==> s[j] != c,
        k >= 0 ==> s[k] == c,
    ensures
        rfind_char(s, c) == k,
    decreases s.len(),
{
    if s.len() > 0 && s.last() != c {
        rfind_is_last(s.drop_last(), c, k);
    }
}

proof fn head_round_trip(path: Seq<char>, partition: Option<usize>)
    requires
        path.len() >= 2,
        forall|k: int| drive_length(path) <= k < path.len() ==> path[k] != ':',
    ensures
        ({
            let head = spec_text(
                ImageSpecModel { path, partition, inner_path: Seq::empty() },
            );
            &&& head_parts(head) == (path, partition)
            &&& drive_length(head) == drive_length(path)
            &&& forall|k: int| #![trigger head[k]]
                drive_length(path) <= k < head.len() && head[k] == ':' ==> k + 1 < head.len()
                    && head[k + 1] != '/'
        }),
{
    let head = spec_text(ImageSpecModel { path, partition, inner_path: Seq::empty() });
    match partition {
        Some(n) => {
            let digits = decimal(n as nat);
            decimal_round_trip(n as nat);
            let k = path.len() as int;
            assert forall|j: int| k < j < head.len() implies head[j] != ':' by {
                assert(head[j] == digits[j - k - 1]);
                assert(is_digit(digits[j - k - 1]));
            }
            rfind_is_last(head, ':', k);
            assert(head.skip(k + 1) =~= digits);
            assert(head.take(k) =~= path);
            assert(head[k + 1] == digits[0]);
            assert(is_digit(digits[0]));
        },
        None => {
            let skip = drive_length(path);
            rfind_is_last(
                path,
                ':',
                if skip == 2 {
                    1
                } else {
                    -1
                },
            );
        },
    }
}

/// A specification reads back as it was written, for paths of at least two
/// characters without a colon other than that of a drive letter, and inner
/// paths that start with a slash.
pub proof fn spec_round_trip(m: ImageSpecModel)
    requires
        m.path.len() >= 2,
        forall|k: int| drive_length(m.path) <= k < m.path.len() ==> m.path[k] != ':',
        m.inner_path.len() > 0 ==> m.inner_path[0] == '/',
    ensures
        spec_of(spec_text(m)) == m,
{
    let head = spec_text(
        ImageSpecModel { path: m.path, partition: m.partition, inner_path: Seq::empty() },
    );
    let all = spec_text(m);
    let skip = drive_length(m.path);
    head_round_trip(m.path, m.partition);
    if m.inner_path.len() == 0 {
        assert(all == head);
        no_separator_without_colon(head, head.len() as int, skip);
        assert(m.inner_path =~= Seq::empty());
    } else {
        let i = head.len() as int;
        assert(all =~= head + seq![':'] + m.inner_path);
        assert(drive_length(all) == skip);
        assert forall|k: int| #![trigger all[k]] skip <= k < i implies all[k] != ':' || (k + 1 < all.len() && all[k
            + 1] != '/') by {
            assert(all[k] == head[k]);
            if head[k] == ':' {
                assert(all[k + 1] == head[k + 1]);
            }
        }
        no_separator_without_colon(all, i, skip);
        assert(all.take(i) =~= head);
        assert(all.skip(i + 1) =~= m.inner_path);
    }
}

/// A disk that can be mounted: a floppy, or a partition of a hard disk.
pub enum Volume<'a> {
    Floppy(XdfImage<'a>),
    Partition(PartitionImage<'a>),
}

impl<'a> DiskImage for Volume<'a> {
    open spec fn sectors(&self) -> Seq<Seq<u8>> {
        match *self {
            Volume::Floppy(x) => x.sectors(),
            Volume::Partition(p) => p.sectors(),
        }
    }

    open spec fn sector_bytes(&self) -> nat {
        match *self {
            Volume::Floppy(x) => x.sector_bytes(),
            Volume::Partition(p) => p.sector_bytes(),
        }
    }

    proof fn sectors_are_even(&self) {
        match *self {
            Volume::Floppy(x) => x.sectors_are_even(),
            Volume::Partition(p) => p.sectors_are_even(),
        }
    }

    fn sector_size(&self) -> (n: usize) {
        match self {
            Volume::Floppy(x) => x.sector_size(),
            Volume::Partition(p) => p.sector_size(),
        }
    }

    fn sector_count(&self) -> (n: usize) {
        match self {
            Volume::Floppy(x) => x.sector_count(),
            Volume::Partition(p) => p.sector_count(),
        }
    }

    fn read_sector(&self, lba: usize) -> (r: Result<&[u8], FsError>) {
        match self {
            Volume::Floppy(x) => x.read_sector(lba),
            Volume::Partition(p) => p.read_sector(lba),
        }
    }
}

/// The volume that a partition number selects; for a hard disk without a number
/// it is the first partition.
pub open spec fn volume_of<'a>(opened: OpenedImage<'a>, partition: Option<usize>) -> Result<
    Volume<'a>,
    FsError,
> {
    match opened {
        OpenedImage::Floppy(x) => match partition {
            Some(_) => Err(FsError::FloppyHasNoPartitions),
            None => Ok(Volume::Floppy(x)),
        },
        OpenedImage::Hdd(h) => {
            let idx = match partition {
                Some(n) => n,
                None => 0,
            };
            if idx >= h.places().len() {
                Err(FsError::PartitionOutOfRange { index: idx, count: h.places().len() as usize })
            } else {
                match h.partition_error(idx) {
                    Some(e) => Err(e),
                    None => Ok(Volume::Partition(h.part(idx))),
                }
            }
        },
    }
}

/// What a volume is when it is mounted.
pub open spec fn mounted_volume(volume: Volume) -> Result<DiskModel, FsError> {
    match volume {
        Volume::Floppy(_) => mounted_floppy(volume),
        Volume::Partition(_) => if volume.sectors().len() == 0 {
            Err(FsError::SectorOutOfRange { lba: 0 })
        } else {
            match hdd_bpb(volume.sectors()[0]) {
                Err(e) => Err(e),
                Ok(bpb) => mounted(volume, bpb),
            }
        },
    }
}

/// What the volume that a partition number selects is when it is mounted.
pub open spec fn mounted_partition(opened: OpenedImage, partition: Option<usize>) -> Result<
    DiskModel,
    FsError,
> {
    match volume_of(opened, partition) {
        Err(e) => Err(e),
        Ok(volume) => mounted_volume(volume),
    }
}

/// Selects a partition of an image.
pub fn select_volume<'a>(opened: &OpenedImage<'a>, partition: Option<usize>) -> (r: Result<
    Volume<'a>,
    FsError,
>)
    ensures
        r == volume_of(*opened, partition),
{
    match opened {
        OpenedImage::Floppy(x) => {
            if partition.is_some() {
                return Err(FsError::FloppyHasNoPartitions);
            }
            Ok(Volume::Floppy(*x))
        },
        OpenedImage::Hdd(h) => {
            let idx: usize = match partition {
                Some(n) => n,
                None => 0,
            };
            let count: usize = h.partitions().len();
            if idx >= count {
                return Err(FsError::PartitionOutOfRange { index: idx, count });
            }
            let p = h.partition(idx)?;
            Ok(Volume::Partition(p))
        },
    }
}

/// Mounts a volume.
pub fn mount<'b, 'a>(volume: &'b Volume<'a>) -> (r: Result<Filesystem<'b, Volume<'a>>, FsError>)
    ensures
        match r {
            Ok(fs) => fs.valid() && mounted_volume(*volume) == Ok::<DiskModel, FsError>(fs@),
            Err(e) => mounted_volume(*volume) == Err::<DiskModel, FsError>(e),
        },
{
    match volume {
        Volume::Floppy(_) => Filesystem::open(volume),
        Volume::Partition(_) => {
            let boot = volume.read_sector(0)?;
            let bpb = Bpb::parse_hdd(boot)?;
            Filesystem::open_with_bpb(volume, bpb)
        },
    }
}

/// Mounts what an image specification means and hands it, with the inner path, to
/// `f`.
pub fn with_filesystem<'a, R, F>(opened: &OpenedImage<'a>, spec: &ImageSpec, f: F) -> (r: Result<
    R,
    FsError,
>) where F: for <'b>FnOnce(&Filesystem<'b, Volume<'a>>, &str) -> Result<R, FsError>
    requires
        forall|fs: &Filesystem<Volume<'a>>, path: &str|
            fs.valid() && path@ == spec.inner_path@ ==> #[trigger] call_requires(f, (fs, path)),
    ensures
        match mounted_partition(*opened, spec.partition) {
            Err(e) => r == Err::<R, FsError>(e),
            Ok(disk) => exists|fs: &Filesystem<Volume<'a>>, path: &str|
                fs@ == disk && fs.valid() && path@ == spec.inner_path@ && #[trigger] call_ensures(
                    f,
                    (fs, path),
                    r,
                ),
        },
{
    let volume = select_volume(opened, spec.partition)?;
    let fs = mount(&volume)?;
    f(&fs, spec.inner_path.as_str())
}

} // verus!
