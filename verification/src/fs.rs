//! The Human68k file system: boot sector, FAT and directories together.

use crate::bpb::{areas_do_not_overlap, floppy_or_hudson_bpb, Bpb};
use crate::bytes::push_bytes;
use crate::direntry::{entry_models, entry_of, shown_name, Attr, DirEntry, DirEntryModel, EntryKind,
    ENTRY_SIZE};
use crate::error::FsError;
use crate::fat::{chain_is_linked, fat_chain, loaded_fat, Fat, FatKind};
use crate::fat12::{fat12_entry, FAT12_END, FAT12_LINKS};
use crate::fat16::{fat16_entry, FAT16_END, FAT16_LINKS};
use crate::image::{joined_length, read_sectors, sector_run, DiskImage};
use crate::text::{components, components_ignore_leading_slash, components_ignore_trailing_slash,
    lowered, same_ignoring_case, split_path, texts};
use vstd::prelude::*;

verus! {

/// A mounted disk.
pub struct Filesystem<'a, D: DiskImage> {
    pub image: &'a D,
    pub bpb: Bpb,
    pub fat: Fat,
    pub phys_per_logi: usize,
}

/// Slot `i` of a directory.
pub open spec fn slot(buf: Seq<u8>, i: int) -> DirEntryModel {
    entry_of(buf.subrange(ENTRY_SIZE * i, ENTRY_SIZE * i + ENTRY_SIZE))
}

/// The entries of a directory from slot `i` on, up to the first empty slot.
pub open spec fn directory_from(buf: Seq<u8>, i: int) -> Seq<DirEntryModel>
    decreases buf.len() - ENTRY_SIZE * i,
{
    if i < 0 || ENTRY_SIZE * i + ENTRY_SIZE > buf.len() || slot(buf, i).kind == EntryKind::Empty {
        Seq::empty()
    } else {
        seq![slot(buf, i)] + directory_from(buf, i + 1)
    }
}

/// The entries of a directory.
pub open spec fn directory_of(buf: Seq<u8>) -> Seq<DirEntryModel> {
    directory_from(buf, 0)
}

/// Whether an entry goes by a name, the case of ASCII letters aside.
pub open spec fn goes_by(e: DirEntryModel, name: Seq<char>) -> bool {
    lowered(shown_name(e.name, e.ext)) == lowered(name)
}

/// The first entry in use that goes by a name.
pub open spec fn lookup(entries: Seq<DirEntryModel>, name: Seq<char>) -> Option<DirEntryModel>
    decreases entries.len(),
{
    if entries.len() == 0 {
        None
    } else if entries[0].kind == EntryKind::Used && goes_by(entries[0], name) {
        Some(entries[0])
    } else {
        lookup(entries.skip(1), name)
    }
}

/// A mounted disk as a mathematical value.
pub struct DiskModel {
    /// The physical sectors.
    pub sectors: Seq<Seq<u8>>,
    /// The size of a physical sector.
    pub sector_bytes: nat,
    pub bpb: Bpb,
    /// The FAT: its kind and its bytes.
    pub fat: (FatKind, Seq<u8>),
    /// How many physical sectors a logical one is.
    pub ratio: nat,
}

/// What a disk whose parameter block is known is when it is mounted.
pub open spec fn mounted<D: DiskImage>(image: D, bpb: Bpb) -> Result<DiskModel, FsError> {
    if bpb.bytes_per_sector as int % image.sector_bytes() as int != 0 {
        Err(
            FsError::SectorSizeMismatch {
                logical: bpb.bytes_per_sector,
                physical: image.sector_bytes() as usize,
            },
        )
    } else {
        match loaded_fat(image, bpb) {
            Err(e) => Err(e),
            Ok(fat) => Ok(
                DiskModel {
                    sectors: image.sectors(),
                    sector_bytes: image.sector_bytes(),
                    bpb,
                    fat,
                    ratio: (bpb.bytes_per_sector as int / image.sector_bytes() as int) as nat,
                },
            ),
        }
    }
}

/// What a floppy is when it is mounted.
pub open spec fn mounted_floppy<D: DiskImage>(image: D) -> Result<DiskModel, FsError> {
    if image.sectors().len() == 0 {
        Err(FsError::SectorOutOfRange { lba: 0 })
    } else {
        match floppy_or_hudson_bpb(image.sectors()[0]) {
            Err(e) => Err(e),
            Ok(bpb) => mounted(image, bpb),
        }
    }
}

impl<'a, D: DiskImage> View for Filesystem<'a, D> {
    type V = DiskModel;

    open spec fn view(&self) -> DiskModel {
        DiskModel {
            sectors: self.image.sectors(),
            sector_bytes: self.image.sector_bytes(),
            bpb: self.bpb,
            fat: self.fat@,
            ratio: self.phys_per_logi as nat,
        }
    }
}

impl DiskModel {
    /// The logical sector size is the physical one times `ratio`, and all physical
    /// sectors have the same size.
    pub open spec fn valid(self) -> bool {
        &&& self.bpb.bytes_per_sector > 0
        &&& self.sector_bytes > 0
        &&& self.ratio * self.sector_bytes == self.bpb.bytes_per_sector
        &&& forall|i: int|
            0 <= i < self.sectors.len() ==> (#[trigger] self.sectors[i]).len() == self.sector_bytes
    }

    /// What reading one logical sector gives.
    pub open spec fn logical_sector(self, lba: int) -> Result<Seq<u8>, FsError> {
        sector_run(
            self.sectors,
            lba * self.ratio as int,
            self.ratio,
        )
    }

    /// What reading `count` logical sectors from `start` on gives.
    pub open spec fn logical_run(self, start: int, count: nat) -> Result<Seq<u8>, FsError>
        decreases count,
    {
        if count == 0 {
            Ok(Seq::empty())
        } else {
            match self.logical_run(start, (count - 1) as nat) {
                Err(e) => Err(e),
                Ok(head) => match self.logical_sector(start + count - 1) {
                    Err(e) => Err(e),
                    Ok(last) => Ok(head + last),
                },
            }
        }
    }

    /// What reading some clusters, one after the other, gives.
    pub open spec fn clusters(self, chain: Seq<u16>) -> Result<Seq<u8>, FsError>
        decreases chain.len(),
    {
        if chain.len() == 0 {
            Ok(Seq::empty())
        } else {
            match self.clusters(chain.drop_last()) {
                Err(e) => Err(e),
                Ok(head) => match self.logical_run(
                    self.bpb.cluster_sector(chain.last() as int),
                    self.bpb.sectors_per_cluster as nat,
                ) {
                    Err(e) => Err(e),
                    Ok(last) => Ok(head + last),
                },
            }
        }
    }

    /// The bytes of the chain that starts at a cluster. Below cluster 2 there is
    /// none: an empty file, or the parent of a directory in the root.
    pub open spec fn chain_bytes(self, start: u16) -> Result<Seq<u8>, FsError> {
        self.clusters(fat_chain(self.fat, start))
    }

    /// The entries of the root directory.
    pub open spec fn root_entries(self) -> Result<Seq<DirEntryModel>, FsError> {
        match self.logical_run(self.bpb.root_sector(), self.bpb.root_length() as nat) {
            Ok(buf) => Ok(directory_of(buf)),
            Err(e) => Err(e),
        }
    }

    /// The entries of the directory that starts at a cluster.
    pub open spec fn subdir_entries(self, start: u16) -> Result<Seq<DirEntryModel>, FsError> {
        match self.chain_bytes(start) {
            Ok(buf) => Ok(directory_of(buf)),
            Err(e) => Err(e),
        }
    }

    /// The contents of a file: its chain, cut to its size.
    pub open spec fn file_bytes(self, entry: DirEntryModel) -> Result<Seq<u8>, FsError> {
        if entry.attr.has(Attr::DIRECTORY) {
            Err(FsError::NotARegularFile)
        } else {
            match self.chain_bytes(entry.start_cluster) {
                Ok(buf) => Ok(
                    if buf.len() > entry.size {
                        buf.take(entry.size as int)
                    } else {
                        buf
                    },
                ),
                Err(e) => Err(e),
            }
        }
    }

    /// The entry that the path components from `at` on lead to, in a directory
    /// with the given entries.
    pub open spec fn descend(
        self,
        entries: Seq<DirEntryModel>,
        parts: Seq<Seq<char>>,
        at: int,
    ) -> Result<DirEntryModel, FsError>
        decreases parts.len() - at,
    {
        if !(0 <= at < parts.len()) {
            Err(FsError::PathIsRoot)
        } else {
            match lookup(entries, parts[at]) {
                None => Err(FsError::NotFound { component: at as usize }),
                Some(e) => if at == parts.len() - 1 {
                    Ok(e)
                } else if !e.attr.has(Attr::DIRECTORY) {
                    Err(FsError::NotADirectory { component: at as usize })
                } else {
                    match self.subdir_entries(e.start_cluster) {
                        Err(x) => Err(x),
                        Ok(next) => self.descend(next, parts, at + 1),
                    }
                },
            }
        }
    }

    /// The entry at the end of a path, given its components.
    pub open spec fn found(self, parts: Seq<Seq<char>>) -> Result<DirEntryModel, FsError> {
        if parts.len() == 0 {
            Err(FsError::PathIsRoot)
        } else {
            match self.root_entries() {
                Err(e) => Err(e),
                Ok(entries) => self.descend(entries, parts, 0),
            }
        }
    }

    /// The entries of the directory at the end of a path, given its components.
    pub open spec fn listed(self, parts: Seq<Seq<char>>) -> Result<Seq<DirEntryModel>, FsError> {
        if parts.len() == 0 {
            self.root_entries()
        } else {
            match self.found(parts) {
                Err(e) => Err(e),
                Ok(entry) => if entry.attr.has(Attr::DIRECTORY) {
                    self.subdir_entries(entry.start_cluster)
                } else {
                    Err(FsError::ListedPathIsAFile)
                },
            }
        }
    }

    proof fn ratio_is_small(self)
        requires
            self.valid(),
        ensures
            1 <= self.ratio <= 65535,
    {
        let ratio = self.ratio as int;
        let physical = self.sector_bytes as int;
        assert(1 <= ratio <= ratio * physical) by (nonlinear_arith)
            requires
                physical > 0,
                ratio >= 0,
                ratio * physical > 0,
        ;
    }

    /// A run that fails goes on failing however many sectors are asked for.
    proof fn run_fails_early(self, start: int, few: nat, many: nat)
        requires
            few <= many,
            self.logical_run(start, few) is Err,
        ensures
            self.logical_run(start, many) == self.logical_run(start, few),
        decreases many,
    {
        if few < many {
            self.run_fails_early(start, few, (many - 1) as nat);
        }
    }

    /// Chains hold no number below 2.
    pub proof fn chain_is_valid(self, start: u16)
        ensures
            forall|i: int|
                0 <= i < fat_chain(self.fat, start).len() ==> #[trigger] fat_chain(
                    self.fat,
                    start,
                )[i] >= 2,
            start < 2 ==> fat_chain(self.fat, start) == Seq::<u16>::empty(),
    {
        let raw = self.fat.1;
        match self.fat.0 {
            FatKind::Fat12 => {
                chain_is_linked(
                    |n: u16| fat12_entry(raw, n),
                    FAT12_END,
                    FAT12_LINKS as nat,
                    start,
                );
            },
            FatKind::Fat16 => {
                chain_is_linked(
                    |n: u16| fat16_entry(raw, n),
                    FAT16_END,
                    FAT16_LINKS as nat,
                    start,
                );
            },
        }
        if start < 2 {
            assert(fat_chain(self.fat, start) =~= Seq::<u16>::empty());
        }
    }

    /// A chain whose beginning cannot be read cannot be read.
    proof fn clusters_fail_early(self, chain: Seq<u16>, k: int)
        requires
            0 <= k <= chain.len(),
            self.clusters(chain.take(k)) is Err,
        ensures
            self.clusters(chain) == self.clusters(chain.take(k)),
        decreases chain.len(),
    {
        if k < chain.len() {
            assert(chain.drop_last().take(k) =~= chain.take(k));
            self.clusters_fail_early(chain.drop_last(), k);
        } else {
            assert(chain.take(k) =~= chain);
        }
    }
}

impl<'a, D: DiskImage> Filesystem<'a, D> {
    /// The logical sector size is the physical one times `phys_per_logi`.
    pub open spec fn valid(&self) -> bool {
        &&& self.bpb.bytes_per_sector > 0
        &&& self.image.sector_bytes() > 0
        &&& self.phys_per_logi * self.image.sector_bytes() == self.bpb.bytes_per_sector
    }

    /// What a valid file system is, as a mathematical value, is valid too.
    pub proof fn view_is_valid(&self)
        requires
            self.valid(),
        ensures
            self@.valid(),
    {
        self.image.sectors_are_even();
    }

    /// Mounts a floppy.
    pub fn open(image: &'a D) -> (r: Result<Self, FsError>)
        ensures
            match r {
                Ok(fs) => fs.valid() && mounted_floppy(*image) == Ok::<DiskModel, FsError>(fs@),
                Err(e) => mounted_floppy(*image) == Err::<DiskModel, FsError>(e),
            },
    {
        let boot = image.read_sector(0)?;
        let bpb = Bpb::parse_floppy(boot)?;
        Self::open_with_bpb(image, bpb)
    }

    /// Mounts a disk whose parameter block is known.
    pub fn open_with_bpb(image: &'a D, bpb: Bpb) -> (r: Result<Self, FsError>)
        requires
            bpb.bytes_per_sector > 0,
        ensures
            match r {
                Ok(fs) => fs.valid() && mounted(*image, bpb) == Ok::<DiskModel, FsError>(fs@),
                Err(e) => mounted(*image, bpb) == Err::<DiskModel, FsError>(e),
            },
    {
        let physical: usize = image.sector_size();
        let logical: usize = bpb.bytes_per_sector as usize;
        if logical % physical != 0 {
            return Err(FsError::SectorSizeMismatch { logical: bpb.bytes_per_sector, physical });
        }
        let phys_per_logi: usize = logical / physical;
        assert(phys_per_logi * physical == logical) by (nonlinear_arith)
            requires
                phys_per_logi == logical as int / physical as int,
                logical as int % physical as int == 0,
                physical > 0,
        ;
        let fat = Fat::load(image, &bpb)?;
        Ok(Filesystem { image, bpb, fat, phys_per_logi })
    }

    /// Reads one logical sector, which may be several physical ones.
    pub fn read_logical_sector(&self, logi_lba: u32) -> (r: Result<Vec<u8>, FsError>)
        requires
            self.valid(),
        ensures
            match r {
                Ok(v) => self@.logical_sector(logi_lba as int) == Ok::<Seq<u8>, FsError>(v@),
                Err(e) => self@.logical_sector(logi_lba as int) == Err::<Seq<u8>, FsError>(e),
            },
    {
        let ratio: u64 = self.phys_per_logi as u64;
        proof {
            self.view_is_valid();
            self@.ratio_is_small();
        }
        assert(0 <= logi_lba * ratio <= u32::MAX * 65535) by (nonlinear_arith)
            requires
                0 <= logi_lba <= u32::MAX,
                0 <= ratio <= 65535,
        ;
        read_sectors(self.image, logi_lba as u64 * ratio, ratio)
    }

    /// Reads `count` logical sectors from `start` on.
    fn read_logical_run(&self, start: u32, count: u32) -> (r: Result<Vec<u8>, FsError>)
        requires
            self.valid(),
            start + count <= u32::MAX,
        ensures
            match r {
                Ok(v) => self@.logical_run(start as int, count as nat) == Ok::<Seq<u8>, FsError>(
                    v@,
                ),
                Err(e) => self@.logical_run(start as int, count as nat) == Err::<Seq<u8>, FsError>(
                    e,
                ),
            },
    {
        let mut buf: Vec<u8> = Vec::new();
        let mut i: u32 = 0;
        while i < count
            invariant
                self.valid(),
                i <= count,
                start + count <= u32::MAX,
                self@.logical_run(start as int, i as nat) == Ok::<Seq<u8>, FsError>(buf@),
            decreases count - i,
        {
            match self.read_logical_sector(start + i) {
                Ok(sector) => {
                    push_bytes(&mut buf, sector.as_slice());
                },
                Err(e) => {
                    proof {
                        self@.run_fails_early(start as int, (i + 1) as nat, count as nat);
                    }
                    return Err(e);
                },
            }
            i = i + 1;
        }
        Ok(buf)
    }

    /// Reads the root directory.
    pub fn read_root_dir(&self) -> (r: Result<Vec<DirEntry>, FsError>)
        requires
            self.valid(),
        ensures
            match r {
                Ok(v) => self@.root_entries() == Ok::<Seq<DirEntryModel>, FsError>(
                    entry_models(v@),
                ),
                Err(e) => self@.root_entries() == Err::<Seq<DirEntryModel>, FsError>(e),
            },
    {
        let start: u32 = self.bpb.root_dir_start();
        let count: u32 = self.bpb.root_dir_sectors();
        proof {
            let fats = self.bpb.num_fats as int;
            let each = self.bpb.sectors_per_fat as int;
            assert(fats * each <= 255 * 65535) by (nonlinear_arith)
                requires
                    0 <= fats <= 255,
                    0 <= each <= 65535,
            ;
        }
        let buf: Vec<u8> = self.read_logical_run(start, count)?;
        Ok(parse_directory(buf.as_slice()))
    }

    /// Reads the clusters of a chain, one after the other.
    pub fn read_cluster_chain(&self, start_cluster: u16) -> (r: Result<Vec<u8>, FsError>)
        requires
            self.valid(),
        ensures
            match r {
                Ok(v) => self@.chain_bytes(start_cluster) == Ok::<Seq<u8>, FsError>(v@),
                Err(e) => self@.chain_bytes(start_cluster) == Err::<Seq<u8>, FsError>(e),
            },
    {
        proof {
            self@.chain_is_valid(start_cluster);
        }
        if start_cluster < 2 {
            return Ok(Vec::new());
        }
        let chain: Vec<u16> = self.fat.chain(start_cluster);
        let mut buf: Vec<u8> = Vec::new();
        let mut k: usize = 0;
        assert(chain@.take(0) =~= Seq::empty());
        while k < chain.len()
            invariant
                self.valid(),
                k <= chain@.len(),
                chain@ == fat_chain(self.fat@, start_cluster),
                forall|i: int| 0 <= i < chain@.len() ==> #[trigger] chain@[i] >= 2,
                self@.clusters(chain@.take(k as int)) == Ok::<Seq<u8>, FsError>(buf@),
            decreases chain@.len() - k,
        {
            let first: u32 = self.bpb.cluster_to_sector(chain[k]);
            assert(chain@.take(k + 1).drop_last() =~= chain@.take(k as int));
            assert(chain@.take(k + 1).last() == chain@[k as int]);
            match self.read_logical_run(first, self.bpb.sectors_per_cluster as u32) {
                Ok(cluster) => {
                    push_bytes(&mut buf, cluster.as_slice());
                },
                Err(e) => {
                    proof {
                        self@.clusters_fail_early(chain@, k + 1);
                    }
                    return Err(e);
                },
            }
            k = k + 1;
        }
        assert(chain@.take(chain@.len() as int) =~= chain@);
        Ok(buf)
    }

    /// Reads a directory other than the root.
    pub fn read_subdir(&self, start_cluster: u16) -> (r: Result<Vec<DirEntry>, FsError>)
        requires
            self.valid(),
        ensures
            match r {
                Ok(v) => self@.subdir_entries(start_cluster) == Ok::<Seq<DirEntryModel>, FsError>(
                    entry_models(v@),
                ),
                Err(e) => self@.subdir_entries(start_cluster) == Err::<
                    Seq<DirEntryModel>,
                    FsError,
                >(e),
            },
    {
        let buf: Vec<u8> = self.read_cluster_chain(start_cluster)?;
        Ok(parse_directory(buf.as_slice()))
    }

    /// Reads the contents of a file.
    pub fn read_file(&self, entry: &DirEntry) -> (r: Result<Vec<u8>, FsError>)
        requires
            self.valid(),
        ensures
            match r {
                Ok(v) => self@.file_bytes(entry@) == Ok::<Seq<u8>, FsError>(v@),
                Err(e) => self@.file_bytes(entry@) == Err::<Seq<u8>, FsError>(e),
            },
    {
        if entry.attr.contains(Attr::DIRECTORY) {
            return Err(FsError::NotARegularFile);
        }
        let mut buf: Vec<u8> = self.read_cluster_chain(entry.start_cluster)?;
        if buf.len() as u64 > entry.size as u64 {
            let ghost whole = buf@;
            buf.truncate(entry.size as usize);
            assert(buf@ =~= whole.take(entry.size as int));
        }
        Ok(buf)
    }

    /// Finds the entry that path components lead to.
    fn resolve_parts(&self, parts: &Vec<String>) -> (r: Result<DirEntry, FsError>)
        requires
            self.valid(),
        ensures
            match r {
                Ok(e) => self@.found(texts(parts@)) == Ok::<DirEntryModel, FsError>(e@),
                Err(e) => self@.found(texts(parts@)) == Err::<DirEntryModel, FsError>(e),
            },
    {
        if parts.len() == 0 {
            return Err(FsError::PathIsRoot);
        }
        let mut current: Vec<DirEntry> = self.read_root_dir()?;
        let mut at: usize = 0;
        while at < parts.len()
            invariant
                self.valid(),
                at < parts@.len(),
                self@.found(texts(parts@)) == self@.descend(
                    entry_models(current@),
                    texts(parts@),
                    at as int,
                ),
            decreases parts@.len() - at,
        {
            let entry = match find_entry(&current, parts[at].as_str()) {
                Some(e) => e,
                None => {
                    return Err(FsError::NotFound { component: at });
                },
            };
            if at == parts.len() - 1 {
                return Ok(entry);
            }
            if !entry.attr.contains(Attr::DIRECTORY) {
                return Err(FsError::NotADirectory { component: at });
            }
            current = self.read_subdir(entry.start_cluster)?;
            at = at + 1;
        }
        Err(FsError::PathIsRoot)
    }

    /// Finds the entry at the end of a path. Components are separated by slashes;
    /// empty ones do not count. ASCII letters match in either case. The root has
    /// no entry.
    pub fn resolve(&self, path: &str) -> (r: Result<DirEntry, FsError>)
        requires
            self.valid(),
        ensures
            match r {
                Ok(e) => self@.found(components(path@)) == Ok::<DirEntryModel, FsError>(e@),
                Err(e) => self@.found(components(path@)) == Err::<DirEntryModel, FsError>(e),
            },
    {
        let parts: Vec<String> = split_path(path);
        self.resolve_parts(&parts)
    }

    /// The entries of the directory at the end of a path; the empty path and
    /// slashes alone mean the root.
    pub fn list_path(&self, path: &str) -> (r: Result<Vec<DirEntry>, FsError>)
        requires
            self.valid(),
        ensures
            match r {
                Ok(v) => self@.listed(components(path@)) == Ok::<Seq<DirEntryModel>, FsError>(
                    entry_models(v@),
                ),
                Err(e) => self@.listed(components(path@)) == Err::<Seq<DirEntryModel>, FsError>(e),
            },
    {
        let parts: Vec<String> = split_path(path);
        if parts.len() == 0 {
            assert(texts(parts@).len() == 0);
            return self.read_root_dir();
        }
        assert(texts(parts@).len() > 0);
        let entry: DirEntry = self.resolve_parts(&parts)?;
        if !entry.attr.contains(Attr::DIRECTORY) {
            return Err(FsError::ListedPathIsAFile);
        }
        self.read_subdir(entry.start_cluster)
    }
}

/// The first entry in use that goes by a name.
fn find_entry(entries: &Vec<DirEntry>, name: &str) -> (r: Option<DirEntry>)
    ensures
        match r {
            Some(e) => lookup(entry_models(entries@), name@) == Some(e@),
            None => lookup(entry_models(entries@), name@) is None,
        },
{
    let mut i: usize = 0;
    assert(entry_models(entries@).skip(0) =~= entry_models(entries@));
    while i < entries.len()
        invariant
            i <= entries@.len(),
            lookup(entry_models(entries@), name@) == lookup(
                entry_models(entries@).skip(i as int),
                name@,
            ),
        decreases entries@.len() - i,
    {
        assert(entry_models(entries@).skip(i as int)[0] == entries@[i as int]@);
        assert(entry_models(entries@).skip(i as int).skip(1) =~= entry_models(entries@).skip(
            i + 1,
        ));
        if entries[i].kind == EntryKind::Used && name_matches(&entries[i], name) {
            return Some(entries[i].clone());
        }
        i = i + 1;
    }
    None
}

/// Whether an entry goes by a name, the case of ASCII letters aside.
pub fn name_matches(entry: &DirEntry, part: &str) -> (r: bool)
    ensures
        r == goes_by(entry@, part@),
{
    let shown: String = entry.display_name();
    same_ignoring_case(shown.as_str(), part)
}

/// The entries in the bytes of a directory, up to the first empty slot.
pub fn parse_directory(buf: &[u8]) -> (r: Vec<DirEntry>)
    ensures
        entry_models(r@) == directory_of(buf@),
{
    let mut out: Vec<DirEntry> = Vec::new();
    let mut i: usize = 0;
    assert(entry_models(out@) + directory_from(buf@, 0) =~= directory_of(buf@));
    while i < buf.len() / ENTRY_SIZE
        invariant
            i <= buf@.len() / ENTRY_SIZE as nat,
            entry_models(out@) + directory_from(buf@, i as int) == directory_of(buf@),
        decreases buf@.len() - i,
    {
        let at: usize = i * ENTRY_SIZE;
        if let Some(entry) = DirEntry::parse(&buf[at..at + ENTRY_SIZE]) {
            assert(entry@ == slot(buf@, i as int));
            if entry.kind == EntryKind::Empty {
                assert(entry_models(out@) =~= directory_of(buf@));
                return out;
            }
            let ghost before = entry_models(out@);
            out.push(entry);
            assert(entry_models(out@) =~= before.push(entry@));
            assert(entry_models(out@) + directory_from(buf@, i + 1) =~= before + directory_from(
                buf@,
                i as int,
            ));
        }
        i = i + 1;
    }
    assert(entry_models(out@) =~= directory_of(buf@));
    out
}

/// A directory lists its slots in order up to the first empty one or the end.
pub proof fn directory_lists_slots(buf: Seq<u8>)
    ensures
        ({
            let d = directory_of(buf);
            &&& ENTRY_SIZE * d.len() <= buf.len()
            &&& forall|i: int|
                0 <= i < d.len() ==> #[trigger] d[i] == slot(buf, i) && d[i].kind
                    != EntryKind::Empty
            &&& ENTRY_SIZE * d.len() + ENTRY_SIZE <= buf.len() ==> slot(
                buf,
                d.len() as int,
            ).kind == EntryKind::Empty
        }),
{
    directory_lists_slots_from(buf, 0);
}

proof fn directory_lists_slots_from(buf: Seq<u8>, k: int)
    requires
        0 <= k,
        ENTRY_SIZE * k <= buf.len(),
    ensures
        ({
            let d = directory_from(buf, k);
            &&& ENTRY_SIZE * (k + d.len()) <= buf.len()
            &&& forall|i: int|
                0 <= i < d.len() ==> #[trigger] d[i] == slot(buf, k + i) && d[i].kind
                    != EntryKind::Empty
            &&& ENTRY_SIZE * (k + d.len()) + ENTRY_SIZE <= buf.len() ==> slot(
                buf,
                k + d.len(),
            ).kind == EntryKind::Empty
        }),
    decreases buf.len() - ENTRY_SIZE * k,
{
    if ENTRY_SIZE * k + ENTRY_SIZE <= buf.len() && slot(buf, k).kind != EntryKind::Empty {
        directory_lists_slots_from(buf, k + 1);
        let rest = directory_from(buf, k + 1);
        let d = directory_from(buf, k);
        assert(d =~= seq![slot(buf, k)] + rest);
        assert forall|i: int| 0 <= i < d.len() implies #[trigger] d[i] == slot(buf, k + i)
            && d[i].kind != EntryKind::Empty by {
            if i > 0 {
                assert(d[i] == rest[i - 1]);
                assert(k + 1 + (i - 1) == k + i);
            }
        }
        assert(k + 1 + rest.len() == k + d.len());
    }
}

/// A logical sector that can be read has the size that the parameter block says,
/// and so has a run of them.
pub proof fn logical_run_length(fs: DiskModel, start: int, count: nat)
    requires
        fs.valid(),
        start >= 0,
        fs.logical_run(start, count) is Ok,
    ensures
        fs.logical_run(start, count)->Ok_0.len() == count * fs.bpb.bytes_per_sector,
    decreases count,
{
    let size = fs.bpb.bytes_per_sector as int;
    if count == 0 {
        assert(count * size == 0) by (nonlinear_arith)
            requires
                count == 0,
        ;
    } else {
        logical_run_length(fs, start, (count - 1) as nat);
                let ratio = fs.ratio as int;
        let first = (start + count - 1) * ratio;
        assert(first >= 0) by (nonlinear_arith)
            requires
                first == (start + count - 1) * ratio,
                start + count - 1 >= 0,
                ratio >= 0,
        ;
        fs.ratio_is_small();
        joined_length(fs.sectors, first, ratio as nat, fs.sector_bytes);
        assert(count * size == (count - 1) * size + size) by (nonlinear_arith);
    }
}

/// What is read of clusters has the size of that many clusters.
pub proof fn clusters_length(fs: DiskModel, chain: Seq<u16>)
    requires
        fs.valid(),
        forall|i: int| 0 <= i < chain.len() ==> #[trigger] chain[i] >= 2,
        fs.clusters(chain) is Ok,
    ensures
        fs.clusters(chain)->Ok_0.len() == chain.len() * (fs.bpb.sectors_per_cluster
            * fs.bpb.bytes_per_sector),
    decreases chain.len(),
{
    let each = fs.bpb.sectors_per_cluster * fs.bpb.bytes_per_sector;
    if chain.len() == 0 {
        assert(chain.len() * each == 0) by (nonlinear_arith)
            requires
                chain.len() == 0,
        ;
    } else {
        assert forall|i: int| 0 <= i < chain.drop_last().len() implies #[trigger] chain.drop_last()[i]
            >= 2 by {
            assert(chain.drop_last()[i] == chain[i]);
        }
        clusters_length(fs, chain.drop_last());
        areas_do_not_overlap(fs.bpb, chain.last() as int);
        logical_run_length(
            fs,
            fs.bpb.cluster_sector(chain.last() as int),
            fs.bpb.sectors_per_cluster as nat,
        );
        assert(chain.len() * each == (chain.len() - 1) * each + each) by (nonlinear_arith);
    }
}

/// A file that can be read is as long as its entry says, or as its clusters are
/// where these hold less; it is a beginning of what its clusters hold.
pub proof fn file_is_cut_to_size(fs: DiskModel, entry: DirEntryModel)
    requires
        fs.valid(),
        fs.file_bytes(entry) is Ok,
    ensures
        ({
            let data = fs.file_bytes(entry)->Ok_0;
            let chain = fat_chain(fs.fat, entry.start_cluster);
            let room = chain.len() * (fs.bpb.sectors_per_cluster * fs.bpb.bytes_per_sector);
            &&& !entry.attr.has(Attr::DIRECTORY)
            &&& data.len() == if room < entry.size {
                room
            } else {
                entry.size as int
            }
            &&& data == fs.chain_bytes(entry.start_cluster)->Ok_0.take(data.len() as int)
        }),
{
    let chain = fat_chain(fs.fat, entry.start_cluster);
    fs.chain_is_valid(entry.start_cluster);
    clusters_length(fs, chain);
    let whole = fs.chain_bytes(entry.start_cluster)->Ok_0;
    assert(whole.take(whole.len() as int) =~= whole);
}

/// An entry with no first cluster reads as an empty file.
pub proof fn file_without_cluster_is_empty(fs: DiskModel, entry: DirEntryModel)
    requires
        fs.valid(),
        entry.start_cluster < 2,
        !entry.attr.has(Attr::DIRECTORY),
    ensures
        fs.file_bytes(entry) == Ok::<Seq<u8>, FsError>(Seq::empty()),
{
    fs.chain_is_valid(entry.start_cluster);
}

/// Whether two lists of names are equal up to the case of ASCII letters.
pub open spec fn same_up_to_case(a: Seq<Seq<char>>, b: Seq<Seq<char>>) -> bool {
    a.len() == b.len() && forall|i: int|
        0 <= i < a.len() ==> lowered(#[trigger] a[i]) == lowered(b[i])
}

proof fn lookup_ignores_case(entries: Seq<DirEntryModel>, a: Seq<char>, b: Seq<char>)
    requires
        lowered(a) == lowered(b),
    ensures
        lookup(entries, a) == lookup(entries, b),
    decreases entries.len(),
{
    if entries.len() > 0 {
        lookup_ignores_case(entries.skip(1), a, b);
    }
}

proof fn descend_ignores_case(
    fs: DiskModel,
    entries: Seq<DirEntryModel>,
    a: Seq<Seq<char>>,
    b: Seq<Seq<char>>,
    at: int,
)
    requires
        same_up_to_case(a, b),
    ensures
        fs.descend(entries, a, at) == fs.descend(entries, b, at),
    decreases a.len() - at,
{
    if 0 <= at < a.len() {
        lookup_ignores_case(entries, a[at], b[at]);
        if let Some(e) = lookup(entries, a[at]) {
            if let Ok(next) = fs.subdir_entries(e.start_cluster) {
                descend_ignores_case(fs, next, a, b, at + 1);
            }
        }
    }
}

/// Paths that differ only in the case of ASCII letters lead to the same place.
pub proof fn paths_ignore_case(
    fs: DiskModel,
    a: Seq<Seq<char>>,
    b: Seq<Seq<char>>,
)
    requires
        same_up_to_case(a, b),
    ensures
        fs.found(a) == fs.found(b),
        fs.listed(a) == fs.listed(b),
{
    if let Ok(entries) = fs.root_entries() {
        descend_ignores_case(fs, entries, a, b, 0);
    }
}

/// Slashes at the beginning or the end of a path make no difference.
pub proof fn paths_ignore_outer_slashes(fs: DiskModel, path: Seq<char>)
    ensures
        fs.found(components(seq!['/'] + path)) == fs.found(components(path)),
        fs.found(components(path + seq!['/'])) == fs.found(components(path)),
        fs.listed(components(seq!['/'] + path)) == fs.listed(components(path)),
        fs.listed(components(path + seq!['/'])) == fs.listed(components(path)),
{
    components_ignore_leading_slash(path);
    components_ignore_trailing_slash(path);
}

/// The empty path and a lone slash list the root directory, and neither has an
/// entry of its own.
pub proof fn root_is_listed_not_found(fs: DiskModel)
    ensures
        fs.listed(components(Seq::empty())) == fs.root_entries(),
        fs.listed(components(seq!['/'])) == fs.root_entries(),
        fs.found(components(Seq::empty())) == Err::<DirEntryModel, FsError>(FsError::PathIsRoot),
        fs.found(components(seq!['/'])) == Err::<DirEntryModel, FsError>(FsError::PathIsRoot),
{
    paths_ignore_outer_slashes(fs, Seq::empty());
    assert(seq!['/'] + Seq::<char>::empty() =~= seq!['/']);
    assert(components(Seq::<char>::empty()) =~= Seq::empty());
}

} // verus!
