//! Which partition a device is, and what the partition table says of it.
//!
//! sysfs and the partition table are read by the caller; this works out
//! where to look and what the answers mean.

use vstd::prelude::*;
use crate::error::{ErrorView, InstallError};
use crate::facts::Partition;
use crate::path::{comps, components, flush, join, scan, parent_name, parent_name_opt, path_join, path_starts_with, starts_with_path, views};
use crate::text::{join_strings, join_with, parse_u32, parse_u32_of, string_of, strs, trim, trimmed};

verus! {

/// Where the kernel lists block devices.
pub open spec fn block_class() -> Seq<char> {
    "/sys/class/block"@
}

/// The sysfs directory of a device node: its path below `/dev` looked up
/// under `/sys/class/block`. A device outside `/dev` is joined on as it is.
pub open spec fn sysfs_path(device: Seq<char>) -> Seq<char> {
    if path_starts_with(device, "/dev"@) {
        path_join(block_class(), join_with(comps(device).skip(1), "/"@))
    } else {
        path_join(block_class(), device)
    }
}

proof fn lemma_dev_comps()
    ensures
        comps("/dev"@) == seq!["dev"@],
{
    reveal_strlit("/dev");
    reveal_strlit("dev");
    let p = "/dev"@;
    let none: Seq<Seq<char>> = seq![];
    assert(p.drop_first() =~= seq!['d', 'e', 'v']);
    assert(flush(none, seq![]) == none);
    assert(scan(p, none, seq![]) == scan(seq!['d', 'e', 'v'], none, seq![]));
    assert(seq!['d', 'e', 'v'].drop_first() =~= seq!['e', 'v']);
    assert(seq![].push('d') =~= seq!['d']);
    assert(scan(seq!['d', 'e', 'v'], none, seq![]) == scan(seq!['e', 'v'], none, seq!['d']));
    assert(seq!['e', 'v'].drop_first() =~= seq!['v']);
    assert(seq!['d'].push('e') =~= seq!['d', 'e']);
    assert(scan(seq!['e', 'v'], none, seq!['d']) == scan(seq!['v'], none, seq!['d', 'e']));
    assert(seq!['v'].drop_first() =~= Seq::<char>::empty());
    assert(seq!['d', 'e'].push('v') =~= seq!['d', 'e', 'v']);
    assert(scan(seq!['v'], none, seq!['d', 'e']) == scan(seq![], none, seq!['d', 'e', 'v']));
    assert(seq!['d', 'e', 'v'] != seq!['.']);
    assert("dev"@ =~= seq!['d', 'e', 'v']);
    assert(none.push(seq!['d', 'e', 'v']) =~= seq!["dev"@]);
}

/// The sysfs directory of a device node, before it is resolved; it names
/// the same components as the device's path with `/dev` swapped for
/// `/sys/class/block`.
pub fn sysfs_path_of(device: &str) -> (r: String)
    ensures
        r@ == sysfs_path(device@),
{
    if starts_with_path(device, "/dev") {
        let c = components(device);
        let mut rest: Vec<String> = Vec::new();
        let mut i: usize = 1;
        proof {
            assert(views(c@).len() == c@.len());
            lemma_dev_comps();
            assert(strs(rest@) =~= views(c@).subrange(1, 1));
        }
        while i < c.len()
            invariant
                1 <= i <= c@.len(),
                views(c@) == comps(device@),
                strs(rest@) == views(c@).subrange(1, i as int),
            decreases c@.len() - i,
        {
            let piece = string_of(&c[i]);
            let ghost before = rest@;
            rest.push(piece);
            assert(strs(rest@) =~= strs(before).push(c@[i as int]@));
            assert(views(c@).subrange(1, i + 1) =~= views(c@).subrange(1, i as int).push(views(c@)[i as int]));
            i = i + 1;
        }
        assert(strs(rest@) == comps(device@).skip(1));
        let joined = join_strings(&rest, "/");
        join("/sys/class/block", joined.as_str())
    } else {
        join("/sys/class/block", device)
    }
}

/// What `partition` in a device's sysfs directory says: its number in the
/// partition table, 1-based.
pub open spec fn partition_number(partition: Seq<char>, text: Seq<char>) -> Result<u32, ErrorView> {
    match parse_u32(trim(text)) {
        Some(n) => Ok(n),
        None => Err(ErrorView::UnknownPartition { path: partition }),
    }
}

/// The partition number a device's sysfs `partition` file holds.
pub fn number_of(partition: &str, text: &str) -> (r: Result<u32, InstallError>)
    ensures
        match r {
            Ok(n) => partition_number(partition@, text@) == Ok::<u32, ErrorView>(n),
            Err(e) => partition_number(partition@, text@) == Err::<u32, ErrorView>(e@),
        },
{
    let t = trimmed(text);
    match parse_u32_of(t.as_str()) {
        Some(n) => Ok(n),
        None => Err(InstallError::UnknownPartition { path: crate::text::owned(partition) }),
    }
}

/// The whole disk a partition belongs to: the parent of its resolved sysfs
/// directory, as a device node.
pub open spec fn disk_path(partition: Seq<char>, sysfs: Seq<char>) -> Result<Seq<char>, ErrorView> {
    match parent_name(sysfs) {
        Some(disk) => Ok(path_join("/dev"@, disk)),
        None => Err(ErrorView::UnknownPartition { path: partition }),
    }
}

pub fn disk_of(partition: &str, sysfs: &str) -> (r: Result<String, InstallError>)
    ensures
        match r {
            Ok(d) => disk_path(partition@, sysfs@) == Ok::<Seq<char>, ErrorView>(d@),
            Err(e) => disk_path(partition@, sysfs@) == Err::<Seq<char>, ErrorView>(e@),
        },
{
    match parent_name_opt(sysfs) {
        Some(name) => Ok(join("/dev", name.as_str())),
        None => Err(InstallError::UnknownPartition { path: crate::text::owned(partition) }),
    }
}

/// One partition of a GPT, as the table lists it.
pub struct TableEntry {
    pub number: u32,
    pub first_lba: u64,
    pub last_lba: u64,
    /// The partition's unique GUID, as the 128-bit number it spells.
    pub guid: u128,
}

/// The first entry of the table with the given number.
pub open spec fn entry_numbered(table: Seq<TableEntry>, number: u32) -> Option<TableEntry>
    decreases table.len(),
{
    if table.len() == 0 {
        None
    } else if table[0].number == number {
        Some(table[0])
    } else {
        entry_numbered(table.drop_first(), number)
    }
}

/// Whether a table entry spans a sector count that fits in 64 bits.
pub open spec fn spans(e: TableEntry) -> bool {
    e.first_lba <= e.last_lba + 1 && e.last_lba < u64::MAX
}

/// The partition the table lists under `number`, in the terms a firmware
/// boot entry uses: its first sector and its length in sectors. An entry
/// that ends before it starts, or whose length does not fit in 64 bits,
/// makes the table unreadable.
pub open spec fn table_partition(disk: Seq<char>, table: Seq<TableEntry>, number: u32) -> Result<Partition, ErrorView> {
    match entry_numbered(table, number) {
        Some(e) => if !spans(e) {
            Err(ErrorView::PartitionTable { path: disk })
        } else {
            Ok(
            Partition {
                number,
                start: e.first_lba,
                size: (e.last_lba + 1 - e.first_lba) as u64,
                guid: e.guid,
            },
        )
        },
        None => Err(ErrorView::NoSuchPartition { path: disk, number }),
    }
}

/// Looks `number` up in the partition table of `disk`.
pub fn partition_in(disk: &str, table: &Vec<TableEntry>, number: u32) -> (r: Result<Partition, InstallError>)
    ensures
        match r {
            Ok(p) => table_partition(disk@, table@, number) == Ok::<Partition, ErrorView>(p),
            Err(e) => table_partition(disk@, table@, number) == Err::<Partition, ErrorView>(e@),
        },
{
    let mut i: usize = 0;
    assert(table@.skip(0) == table@);
    while i < table.len()
        invariant
            i <= table@.len(),
            entry_numbered(table@, number) == entry_numbered(table@.skip(i as int), number),
        decreases table@.len() - i,
    {
        assert(table@.skip(i as int).drop_first() == table@.skip(i + 1));
        let e = &table[i];
        if e.number == number {
            if e.last_lba == u64::MAX || e.first_lba > e.last_lba + 1 {
                return Err(InstallError::PartitionTable { path: crate::text::owned(disk) });
            }
            return Ok(
                Partition {
                    number,
                    start: e.first_lba,
                    size: e.last_lba + 1 - e.first_lba,
                    guid: e.guid,
                },
            );
        }
        i = i + 1;
    }
    Err(InstallError::NoSuchPartition { path: crate::text::owned(disk), number })
}

} // verus!
