//! Honest disk-space accounting.
//!
//! Reports a volume's true capacity and lists APFS local snapshots. macOS does not expose
//! per-snapshot sizes, so what is knowable is reported instead of an invented number.

use vstd::prelude::*;

use crate::report::{DiskSpace, SpaceReport};
use crate::text;
use crate::text::{begins_with, split_text, trim_text};

verus! {

/// What `statfs(2)` says of a filesystem.
#[derive(Debug, Clone, Copy)]
pub struct VolumeStats {
    /// Bytes in a block.
    pub block_size: u64,
    pub blocks: u64,
    /// Free blocks.
    pub free_blocks: u64,
    /// Free blocks available to this user.
    pub available_blocks: u64,
}

/// Whether the byte counts of a volume can be counted.
pub open spec fn countable(s: VolumeStats) -> bool {
    &&& s.blocks * s.block_size <= u64::MAX
    &&& s.free_blocks * s.block_size <= u64::MAX
    &&& s.available_blocks * s.block_size <= u64::MAX
}

/// True capacity of the filesystem containing `path`. What is used is what is not free, and
/// nothing where more is free than there is.
pub fn disk_space(path: &str, stats: VolumeStats) -> (r: DiskSpace)
    requires
        countable(stats),
    ensures
        r.path@ == path@,
        r.total == stats.blocks * stats.block_size,
        r.free == stats.available_blocks * stats.block_size,
        r.used == (if stats.blocks >= stats.free_blocks {
            (stats.blocks - stats.free_blocks) * stats.block_size
        } else {
            0
        }),
{
    let total = stats.blocks * stats.block_size;
    let free = stats.available_blocks * stats.block_size;
    let unused = stats.free_blocks * stats.block_size;
    let used = if total >= unused {
        total - unused
    } else {
        0
    };
    proof {
        let (b, f, z) = (
            stats.blocks as int,
            stats.free_blocks as int,
            stats.block_size as int,
        );
        assert((b - f) * z == b * z - f * z) by (nonlinear_arith);
        if b >= f {
            assert(b * z >= f * z) by (nonlinear_arith)
                requires
                    b >= f,
                    z >= 0,
            ;
        } else {
            assert(b * z <= f * z) by (nonlinear_arith)
                requires
                    b <= f,
                    z >= 0,
            ;
        }
    }
    DiskSpace { path: path.to_owned(), total, used, free }
}

/// The snapshot names among lines of output.
pub open spec fn snapshot_names(lines: Seq<Seq<char>>) -> Seq<Seq<char>>
    decreases lines.len(),
{
    if lines.len() == 0 {
        Seq::empty()
    } else {
        let rest = snapshot_names(lines.drop_last());
        let line = text::trimmed(lines.last());
        if text::begins(line, "com.apple"@) { rest.push(line) } else { rest }
    }
}

/// APFS local snapshot names, read from what `tmutil listlocalsnapshots` printed: the trimmed
/// lines that start with `com.apple`.
pub fn local_snapshots(output: &str) -> (r: Vec<String>)
    ensures
        text::texts(r@) == snapshot_names(text::pieces(output@, '\n')),
{
    let lines = split_text(output, '\n');
    let ghost all = text::texts(lines@);
    let mut r: Vec<String> = Vec::new();
    let mut i: usize = 0;
    assert(all.take(0) =~= Seq::<Seq<char>>::empty());
    assert(text::texts(r@) =~= Seq::<Seq<char>>::empty());
    while i < lines.len()
        invariant
            i <= lines@.len(),
            all == text::texts(lines@),
            text::texts(r@) == snapshot_names(all.take(i as int)),
        decreases lines@.len() - i,
    {
        proof {
            assert(all.take(i + 1).drop_last() =~= all.take(i as int));
            assert(all.take(i + 1).last() == lines@[i as int]@);
        }
        let line = trim_text(lines[i].as_str());
        if begins_with(line.as_str(), "com.apple") {
            proof {
                text::lemma_texts_push(r@, line);
            }
            r.push(line);
        }
        i += 1;
    }
    assert(all.take(all.len() as int) =~= all);
    r
}

/// The command that thins snapshots.
pub open spec fn thin_command() -> Seq<char> {
    "sudo tmutil thinlocalsnapshots / 999999999999 4"@
}

/// Assembles the honest space report of a volume. The reclaim command is only ever printed,
/// and only where there are snapshots.
pub fn space_report(disk: Option<DiskSpace>, snapshots: Vec<String>) -> (r: SpaceReport)
    ensures
        r.disk == disk,
        r.snapshots == snapshots,
        text::opt_text(r.reclaim_snapshots) == (if snapshots@.len() == 0 {
            None
        } else {
            Some(thin_command())
        }),
{
    let reclaim_snapshots = if snapshots.len() == 0 {
        None
    } else {
        Some("sudo tmutil thinlocalsnapshots / 999999999999 4".to_owned())
    };
    SpaceReport { disk, snapshots, reclaim_snapshots }
}

} // verus!
