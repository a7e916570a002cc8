//! Where on a disk files and directories lie.

use crate::bpb::{areas_do_not_overlap, Bpb};
use crate::direntry::DirEntryModel;
use crate::error::FsError;
use crate::fat::fat_chain;
use crate::fs::{clusters_length, directory_of, file_is_cut_to_size, logical_run_length,
    DiskModel};
use crate::image::{joined, joined_length};
use vstd::arithmetic::div_mod::{lemma_fundamental_div_mod, lemma_fundamental_div_mod_converse};
use vstd::prelude::*;

verus! {

/// Byte `n` of a disk, counted over its physical sectors.
pub open spec fn disk_byte(fs: DiskModel, n: int) -> u8 {
    fs.sectors[n / fs.sector_bytes as int][n % fs.sector_bytes as int]
}

/// The number of bytes of a disk.
pub open spec fn disk_length(fs: DiskModel) -> int {
    fs.sectors.len() as int * fs.sector_bytes as int
}

/// The first logical sector of a cluster: after the reserved sectors, the FATs and the
/// root directory, whose last sector need not be full, come the clusters from number
/// two on.
pub open spec fn sector_of_cluster(bpb: Bpb, cluster: u16) -> int {
    bpb.reserved_sectors + bpb.num_fats * bpb.sectors_per_fat + (bpb.root_entries * 32
        + bpb.bytes_per_sector - 1) / (bpb.bytes_per_sector as int) + (cluster - 2)
        * bpb.sectors_per_cluster
}

/// The number of bytes of a cluster.
pub open spec fn cluster_length(bpb: Bpb) -> int {
    bpb.sectors_per_cluster * bpb.bytes_per_sector
}

/// Where on a disk byte `n` of a chain of clusters lies.
pub open spec fn byte_of_chain(bpb: Bpb, chain: Seq<u16>, n: int) -> int {
    sector_of_cluster(bpb, chain[n / cluster_length(bpb)]) * bpb.bytes_per_sector + n
        % cluster_length(bpb)
}

/// A byte of joined sectors is the byte of the sector that it falls into.
pub proof fn joined_byte(sectors: Seq<Seq<u8>>, start: int, count: nat, size: nat, n: int)
    requires
        0 <= start,
        start + count <= sectors.len(),
        size > 0,
        forall|i: int| 0 <= i < sectors.len() ==> (#[trigger] sectors[i]).len() == size,
        0 <= n < count * size,
    ensures
        n / size as int >= 0,
        joined(sectors, start, count)[n] == sectors[start + n / size as int][n % size as int],
    decreases count,
{
    if count == 0 {
        assert(count * size == 0) by (nonlinear_arith)
            requires
                count == 0,
        ;
    } else {
        let before = (count - 1) * size;
        assert(count * size == before + size && before >= 0) by (nonlinear_arith)
            requires
                before == (count - 1) * size,
                count >= 1,
        ;
        joined_length(sectors, start, (count - 1) as nat, size);
        if n < before {
            joined_byte(sectors, start, (count - 1) as nat, size, n);
        } else {
            lemma_fundamental_div_mod_converse(n, size as int, count - 1, n - before);
        }
    }
}

proof fn run_bytes(fs: DiskModel, start: int, count: nat)
    requires
        fs.valid(),
        start >= 0,
    ensures
        fs.logical_run(start, count) is Ok <==> count == 0 || (start + count)
            * fs.bpb.bytes_per_sector <= disk_length(fs),
        fs.logical_run(start, count) matches Ok(run) ==> {
            &&& run.len() == count * fs.bpb.bytes_per_sector
            &&& forall|n: int|
                0 <= n < run.len() ==> #[trigger] run[n] == disk_byte(
                    fs,
                    start * fs.bpb.bytes_per_sector + n,
                )
        },
    decreases count,
{
    let size = fs.sector_bytes as int;
    let ratio = fs.ratio as int;
    let logical = fs.bpb.bytes_per_sector as int;
    let total = fs.sectors.len() as int;
    if count == 0 {
        assert(count * logical == 0) by (nonlinear_arith)
            requires
                count == 0,
        ;
    } else {
        let less = (count - 1) as nat;
        let lba = start + count - 1;
        run_bytes(fs, start, less);
        assert(ratio > 0) by (nonlinear_arith)
            requires
                ratio * size == logical,
                logical > 0,
                ratio >= 0,
        ;
        assert(lba * ratio >= 0) by (nonlinear_arith)
            requires
                lba >= 0,
                ratio > 0,
        ;
        assert((lba * ratio + ratio <= total) == ((start + count) * logical <= total * size))
            by (nonlinear_arith)
            requires
                lba + 1 == start + count,
                ratio * size == logical,
                size > 0,
                ratio > 0,
        ;
        assert((start + less) * logical <= (start + count) * logical) by (nonlinear_arith)
            requires
                less <= count,
                logical > 0,
        ;
        if fs.logical_run(start, count) is Ok {
            logical_run_length(fs, start, count);
            logical_run_length(fs, start, less);
            let run = fs.logical_run(start, count)->Ok_0;
            let head = fs.logical_run(start, less)->Ok_0;
            let last = fs.logical_sector(lba)->Ok_0;
            joined_length(fs.sectors, lba * ratio, ratio as nat, fs.sector_bytes);
            assert forall|n: int| 0 <= n < run.len() implies #[trigger] run[n] == disk_byte(
                fs,
                start * logical + n,
            ) by {
                if n >= head.len() {
                    let m = n - less * logical;
                    joined_byte(fs.sectors, lba * ratio, ratio as nat, fs.sector_bytes, m);
                    assert(start * logical + n == (lba * ratio) * size + m) by (nonlinear_arith)
                        requires
                            m == n - less * logical,
                            lba == start + less,
                            ratio * size == logical,
                    ;
                    let q = lba * ratio;
                    let d = start * logical + n;
                    lemma_fundamental_div_mod(m, size);
                    assert(d == (q + m / size) * size + m % size) by (nonlinear_arith)
                        requires
                            d == q * size + m,
                            m == size * (m / size) + m % size,
                    ;
                    assert(0 <= m % size < size) by (nonlinear_arith)
                        requires
                            size > 0,
                    ;
                    lemma_fundamental_div_mod_converse(d, size, q + m / size, m % size);
                    assert(run[n] == last[m]);
                } else {
                    assert(run[n] == head[n]);
                }
            }
        }
    }
}

proof fn cluster_places(fs: DiskModel, cluster: u16)
    requires
        fs.valid(),
        cluster >= 2,
    ensures
        fs.bpb.cluster_sector(cluster as int) == sector_of_cluster(fs.bpb, cluster),
        sector_of_cluster(fs.bpb, cluster) >= 0,
{
    areas_do_not_overlap(fs.bpb, cluster as int);
}

proof fn clusters_bytes(fs: DiskModel, chain: Seq<u16>)
    requires
        fs.valid(),
        forall|i: int| 0 <= i < chain.len() ==> #[trigger] chain[i] >= 2,
    ensures
        fs.clusters(chain) is Ok <==> forall|i: int|
            0 <= i < chain.len() ==> fs.bpb.sectors_per_cluster == 0 || (sector_of_cluster(
                fs.bpb,
                #[trigger] chain[i],
            ) + fs.bpb.sectors_per_cluster) * fs.bpb.bytes_per_sector <= disk_length(fs),
        fs.clusters(chain) matches Ok(data) ==> {
            let each = cluster_length(fs.bpb);
            &&& data.len() == chain.len() * each
            &&& forall|i: int, k: int|
                #![trigger data[i * each + k]]
                0 <= i < chain.len() && 0 <= k < each ==> data[i * each + k] == disk_byte(
                    fs,
                    sector_of_cluster(fs.bpb, chain[i]) * fs.bpb.bytes_per_sector + k,
                )
        },
    decreases chain.len(),
{
    let each = cluster_length(fs.bpb);
    if chain.len() == 0 {
        assert(chain.len() * each == 0) by (nonlinear_arith)
            requires
                chain.len() == 0,
        ;
    } else {
        let before = chain.drop_last();
        assert forall|i: int| 0 <= i < before.len() implies #[trigger] before[i] >= 2 by {
            assert(before[i] == chain[i]);
        }
        clusters_bytes(fs, before);
        let first = sector_of_cluster(fs.bpb, chain.last());
        let count = fs.bpb.sectors_per_cluster as nat;
        cluster_places(fs, chain.last());
        run_bytes(fs, first, count);
        assert(chain.last() == chain[chain.len() - 1]);
        assert(forall|i: int| 0 <= i < before.len() ==> before[i] == chain[i]);
        if fs.clusters(chain) is Ok {
            let data = fs.clusters(chain)->Ok_0;
            let head = fs.clusters(before)->Ok_0;
            let last = fs.logical_run(first, count)->Ok_0;
            clusters_length(fs, chain);
            clusters_length(fs, before);
            assert forall|i: int, k: int|
                #![trigger data[i * each + k]]
                0 <= i < chain.len() && 0 <= k < each implies data[i * each + k] == disk_byte(
                fs,
                sector_of_cluster(fs.bpb, chain[i]) * fs.bpb.bytes_per_sector + k,
            ) by {
                if i < before.len() {
                    assert(0 <= i * each + k < before.len() * each) by (nonlinear_arith)
                        requires
                            0 <= i < before.len(),
                            0 <= k < each,
                    ;
                    assert(data[i * each + k] == head[i * each + k]);
                    assert(before[i] == chain[i]);
                } else {
                    assert(data[i * each + k] == last[k]);
                }
            }
        } else {
            assert forall|i: int| 0 <= i < before.len() implies #[trigger] before[i] == chain[i] by {
            }
            if fs.clusters(before) is Ok {
                assert(!(count == 0 || (first + count) * fs.bpb.bytes_per_sector <= disk_length(fs)));
            }
        }
    }
}

/// A chain is read cluster by cluster: the `i`th stretch of it, as long as a cluster, is
/// what stands on the logical sectors of its `i`th cluster. It can be read exactly where
/// the disk has all these sectors.
pub proof fn chains_are_read_from_their_clusters(fs: DiskModel, start: u16)
    requires
        fs.valid(),
    ensures
        ({
            let chain = fat_chain(fs.fat, start);
            fs.chain_bytes(start) is Ok <==> forall|i: int|
                0 <= i < chain.len() ==> fs.bpb.sectors_per_cluster == 0 || (sector_of_cluster(
                    fs.bpb,
                    #[trigger] chain[i],
                ) + fs.bpb.sectors_per_cluster) * fs.bpb.bytes_per_sector <= disk_length(fs)
        }),
        fs.chain_bytes(start) matches Ok(data) ==> {
            let chain = fat_chain(fs.fat, start);
            let each = cluster_length(fs.bpb);
            &&& data.len() == chain.len() * each
            &&& forall|i: int, k: int|
                #![trigger data[i * each + k]]
                0 <= i < chain.len() && 0 <= k < each ==> data[i * each + k] == disk_byte(
                    fs,
                    sector_of_cluster(fs.bpb, chain[i]) * fs.bpb.bytes_per_sector + k,
                )
        },
{
    fs.chain_is_valid(start);
    clusters_bytes(fs, fat_chain(fs.fat, start));
}

/// Different clusters lie on different sectors.
pub proof fn clusters_do_not_overlap(bpb: Bpb, a: u16, b: u16)
    requires
        bpb.bytes_per_sector > 0,
        2 <= a < b,
    ensures
        bpb.cluster_sector(a as int) + bpb.sectors_per_cluster <= bpb.cluster_sector(b as int),
        bpb.data_sector() <= bpb.cluster_sector(a as int),
{
    areas_do_not_overlap(bpb, a as int);
    assert((a - 2) * bpb.sectors_per_cluster + bpb.sectors_per_cluster <= (b - 2)
        * bpb.sectors_per_cluster) by (nonlinear_arith)
        requires
            a < b,
    ;
}

/// A file has no more bytes than its entry says. Each of them is the byte of the disk that
/// lies that far into the cluster of the chain that it falls into.
pub proof fn files_are_read_from_their_clusters(fs: DiskModel, entry: DirEntryModel)
    requires
        fs.valid(),
    ensures
        fs.file_bytes(entry) is Ok <==> entry.attr.bits & 0x10 != 0x10 && fs.chain_bytes(
            entry.start_cluster,
        ) is Ok,
        fs.file_bytes(entry) matches Ok(data) ==> {
            let chain = fat_chain(fs.fat, entry.start_cluster);
            let each = cluster_length(fs.bpb);
            &&& data.len() <= entry.size
            &&& data.len() <= chain.len() * each
            &&& data.len() == entry.size || data.len() == chain.len() * each
            &&& forall|n: int|
                0 <= n < data.len() ==> #[trigger] data[n] == disk_byte(
                    fs,
                    byte_of_chain(fs.bpb, chain, n),
                )
        },
{
    chains_are_read_from_their_clusters(fs, entry.start_cluster);
    if fs.file_bytes(entry) is Ok {
        file_is_cut_to_size(fs, entry);
        let data = fs.file_bytes(entry)->Ok_0;
        let whole = fs.chain_bytes(entry.start_cluster)->Ok_0;
        let chain = fat_chain(fs.fat, entry.start_cluster);
        let each = cluster_length(fs.bpb);
        assert forall|n: int| 0 <= n < data.len() implies #[trigger] data[n] == disk_byte(
            fs,
            byte_of_chain(fs.bpb, chain, n),
        ) by {
            let i = n / each;
            let k = n % each;
            assert(each > 0) by (nonlinear_arith)
                requires
                    0 <= n < chain.len() * each,
            ;
            assert(0 <= i < chain.len() && 0 <= k < each && i * each + k == n) by (nonlinear_arith)
                requires
                    i == n / each,
                    k == n % each,
                    0 <= n < chain.len() * each,
                    each > 0,
            ;
            assert(data[n] == whole[n]);
            assert(whole[i * each + k] == whole[n]);
        }
    }
}

/// The root directory is read from the sectors after the FATs, as many as its entries of 32
/// bytes fill.
pub proof fn the_root_is_read_from_its_place(fs: DiskModel)
    requires
        fs.valid(),
    ensures
        ({
            let size = fs.bpb.bytes_per_sector as int;
            let first = fs.bpb.reserved_sectors + fs.bpb.num_fats * fs.bpb.sectors_per_fat;
            let count = (fs.bpb.root_entries * 32 + size - 1) / size;
            &&& 0 <= count
            &&& count * size >= fs.bpb.root_entries * 32
            &&& (count - 1) * size < fs.bpb.root_entries * 32
            &&& fs.root_entries() is Ok <==> count == 0 || (first + count) * size <= disk_length(fs)
            &&& fs.root_entries() matches Ok(entries) ==> entries == directory_of(
                Seq::new((count * size) as nat, |n: int| disk_byte(fs, first * size + n)),
            )
        }),
{
    let size = fs.bpb.bytes_per_sector as int;
    let first = fs.bpb.reserved_sectors + fs.bpb.num_fats * fs.bpb.sectors_per_fat;
    let root = fs.bpb.root_entries * 32;
    let count = (root + size - 1) / size;
    areas_do_not_overlap(fs.bpb, 2);
    assert(0 <= count && count * size >= root && (count - 1) * size < root) by (nonlinear_arith)
        requires
            count == (root + size - 1) / size,
            size > 0,
            root >= 0,
    ;
    run_bytes(fs, first, count as nat);
    if fs.root_entries() is Ok {
        let buf = fs.logical_run(first, count as nat)->Ok_0;
        assert(buf =~= Seq::new((count * size) as nat, |n: int| disk_byte(fs, first * size + n)));
    }
}

/// A directory other than the root is read from its clusters.
pub proof fn directories_are_read_from_their_clusters(fs: DiskModel, start: u16)
    ensures
        fs.subdir_entries(start) == match fs.chain_bytes(start) {
            Ok(buf) => Ok::<Seq<DirEntryModel>, FsError>(directory_of(buf)),
            Err(e) => Err(e),
        },
{
}

} // verus!
