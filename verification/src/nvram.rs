//! Registering limine with the firmware: the boot entry, and which
//! `Boot####` slot and boot order position it takes.

use vstd::prelude::*;
use crate::facts::Partition;
use crate::text::{owned, str_eq};

verus! {

/// `LOAD_OPTION_ACTIVE`: the firmware will try the entry.
pub const LOAD_OPTION_ACTIVE: u32 = 1u32;

/// The GPT-flavoured `MBRType` of a hard drive device path node.
pub const GPT_FORMAT: u8 = 2u8;

/// How a hard drive device path node identifies its partition.
#[derive(Clone, Copy, Debug, PartialEq, Eq, Structural)]
pub enum HardDriveType {
    Mbr,
    Gpt,
}

/// The hard drive node of a boot entry's device path.
pub struct HardDrive {
    pub partition_number: u32,
    pub partition_start: u64,
    pub partition_size: u64,
    /// The partition's GUID, as the number it spells.
    pub partition_sig: u128,
    pub format: u8,
    pub sig_type: HardDriveType,
}

/// A firmware boot entry: what `Boot####` holds.
pub struct BootEntry {
    pub attributes: u32,
    pub description: String,
    /// The loader, relative to the partition, with backslashes.
    pub file_path: String,
    pub hard_drive: HardDrive,
    pub optional_data: Vec<u8>,
}

/// What the entry is called in the firmware's boot menu.
pub open spec fn label() -> Seq<char> {
    "Limine"@
}

pub fn label_text() -> (r: &'static str)
    ensures
        r@ == label(),
{
    "Limine"
}

/// Where a registered install puts its loader, the way EFI spells paths.
pub open spec fn loader_path(boot_file: Seq<char>) -> Seq<char> {
    "\\efi\\limine\\"@ + boot_file
}

/// The boot entry naming limine on the partition it was installed to.
pub fn entry(esp: &Partition, boot_file: &str) -> (e: BootEntry)
    ensures
        e.attributes == LOAD_OPTION_ACTIVE,
        e.description@ == label(),
        e.file_path@ == loader_path(boot_file@),
        e.hard_drive.partition_number == esp.number,
        e.hard_drive.partition_start == esp.start,
        e.hard_drive.partition_size == esp.size,
        e.hard_drive.partition_sig == esp.guid,
        e.hard_drive.format == GPT_FORMAT,
        e.hard_drive.sig_type == HardDriveType::Gpt,
        e.optional_data@.len() == 0,
{
    let mut path = owned("\\efi\\limine\\");
    path.append(boot_file);
    BootEntry {
        attributes: LOAD_OPTION_ACTIVE,
        description: owned(label_text()),
        file_path: path,
        hard_drive: HardDrive {
            partition_number: esp.number,
            partition_start: esp.start,
            partition_size: esp.size,
            partition_sig: esp.guid,
            format: GPT_FORMAT,
            sig_type: HardDriveType::Gpt,
        },
        optional_data: Vec::new(),
    }
}

fn contains_id(used: &Vec<u16>, id: u16) -> (r: bool)
    ensures
        r == used@.contains(id),
{
    let mut i: usize = 0;
    while i < used.len()
        invariant
            i <= used@.len(),
            forall|k: int| 0 <= k < i ==> used@[k] != id,
        decreases used@.len() - i,
    {
        if used[i] == id {
            assert(used@[i as int] == id);
            return true;
        }
        i = i + 1;
    }
    false
}

/// The lowest slot nothing uses yet; 0 when every slot is taken.
pub fn free_id(used: &Vec<u16>) -> (r: u16)
    ensures
        (exists|j: u16| !used@.contains(j)) ==> !used@.contains(r) && forall|j: u16|
            j < r ==> used@.contains(j),
        (forall|j: u16| used@.contains(j)) ==> r == 0,
{
    let mut id: u32 = 0;
    while id <= 0xffff
        invariant
            id <= 0x10000,
            forall|j: u16| j < id ==> used@.contains(j),
        decreases 0x10000 - id,
    {
        if !contains_id(used, id as u16) {
            return id as u16;
        }
        id = id + 1;
    }
    assert forall|j: u16| used@.contains(j) by {
        assert(j < id);
    }
    0
}

/// The entry written last time, if it is still there: the first used slot
/// whose entry carries limine's label. `entries` pairs each used slot with
/// the description of what it holds, when that could be read.
pub open spec fn ours(entries: Seq<(u16, Option<String>)>) -> Option<u16>
    decreases entries.len(),
{
    if entries.len() == 0 {
        None
    } else if entries[0].1 matches Some(d) && d@ == label() {
        Some(entries[0].0)
    } else {
        ours(entries.drop_first())
    }
}

fn ours_exec(entries: &Vec<(u16, Option<String>)>) -> (r: Option<u16>)
    ensures
        r == ours(entries@),
{
    let mut i: usize = 0;
    assert(entries@.skip(0) == entries@);
    while i < entries.len()
        invariant
            i <= entries@.len(),
            ours(entries@) == ours(entries@.skip(i as int)),
        decreases entries@.len() - i,
    {
        assert(entries@.skip(i as int).drop_first() == entries@.skip(i + 1));
        let mine = match &entries[i].1 {
            Some(d) => str_eq(d.as_str(), label_text()),
            None => false,
        };
        if mine {
            return Some(entries[i].0);
        }
        i = i + 1;
    }
    None
}

/// The slot to write the entry to: our own from last time, so that its
/// position in the boot order survives, or else the lowest free one.
pub fn slot(entries: &Vec<(u16, Option<String>)>, used: &Vec<u16>) -> (r: u16)
    ensures
        ours(entries@) matches Some(id) ==> r == id,
        ours(entries@) is None && (exists|j: u16| !used@.contains(j)) ==> !used@.contains(r)
            && forall|j: u16| j < r ==> used@.contains(j),
        ours(entries@) is None && (forall|j: u16| used@.contains(j)) ==> r == 0,
{
    match ours_exec(entries) {
        Some(id) => id,
        None => free_id(used),
    }
}

/// The boot order to write back: `None` when it already holds `id`, and
/// otherwise the order with `id` put first.
pub fn updated_order(order: &Vec<u16>, id: u16) -> (r: Option<Vec<u16>>)
    ensures
        order@.contains(id) ==> r is None,
        !order@.contains(id) ==> (r matches Some(v) && v@ == seq![id] + order@),
{
    if contains_id(order, id) {
        None
    } else {
        let mut v: Vec<u16> = Vec::new();
        v.push(id);
        let mut i: usize = 0;
        while i < order.len()
            invariant
                i <= order@.len(),
                v@ == seq![id] + order@.take(i as int),
            decreases order@.len() - i,
        {
            v.push(order[i]);
            assert(order@.take(i + 1) == order@.take(i as int).push(order@[i as int]));
            i = i + 1;
        }
        assert(order@.take(order@.len() as int) == order@);
        Some(v)
    }
}

} // verus!
