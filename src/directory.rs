//! Directories of a FAT16 volume: 32-byte entries, the scan that resolves a
//! short name, and the files that entries describe.
use vstd::arithmetic::div_mod::lemma_fundamental_div_mod;
use vstd::prelude::*;
use crate::boot_sector::{sector_index_of, 
    has_boot_signature, root_dir_sectors, BOOT_SIGNATURE, root_dir_start, sane_geometry, total_sectors_of,
    Fat16BootSector, DIRECTORY_ITEM_BYTES,
};
use crate::bytes::{le16, le32, read_array, read_u16, read_u16_array, read_u32};
use crate::datetime::{date_bits, time_bits, Date, DateTime, Time};
use crate::short_name::{short_name_text, u8_11_to_string};
use vstd::std_specs::convert::FromSpec;
use crate::disk::{continues, joined, lemma_continues_append, read_sectors, run_from, DiskDriver, LoggedDisk, SECTOR_BYTES};
use crate::fat_table::{lemma_chain_clusters_valid, cluster_chain, fat_is_16_bit, total_clusters_of, FAT16Fats};
use crate::fs_error::FsError;

verus! {

/// Entry attribute: read only.
pub const ATTR_READ_ONLY: u8 = 0x01;
/// Entry attribute: hidden.
pub const ATTR_HIDDEN: u8 = 0x02;
/// Entry attribute: system.
pub const ATTR_SYSTEM: u8 = 0x04;
/// Entry attribute: volume label.
pub const ATTR_VOLUME_ID: u8 = 0x08;
/// Entry attribute: directory.
pub const ATTR_DIRECTORY: u8 = 0x10;
/// Entry attribute: archive.
pub const ATTR_ARCHIVE: u8 = 0x20;
/// The attribute value of a long-name entry.
pub const ATTR_LONG_NAME: u8 = 0x0F;
/// The empty attribute mask: every entry has it.
pub const DIRECTORY_NONE: u8 = 0x00;

/// Every bit of `mask` is set in `attributes`.
pub open spec fn has_attributes(attributes: u8, mask: u8) -> bool {
    attributes & mask == mask
}

/// Whether every bit of `mask` is set in `attributes`.
pub fn contains_attributes(attributes: u8, mask: u8) -> (r: bool)
    ensures
        r == has_attributes(attributes, mask),
{
    attributes & mask == mask
}

/// A directory entry, 32 bytes.
#[derive(Clone, Copy, Debug)]
pub struct Fat16DirectoryItem {
    /// The short name: eight bytes of base, three of extension.
    pub name: [u8; 11],
    pub attributes: u8,
    pub reserved: [u8; 10],
    pub write_time: u16,
    pub write_date: u16,
    /// The first cluster of the entry's data.
    pub cluster_index: u16,
    pub file_size: u32,
}

/// A FAT32 directory entry, 32 bytes: the FAT16 reserved bytes hold
/// creation times and the high half of the first cluster.
#[derive(Clone, Copy, Debug)]
pub struct Fat32DirectoryItem {
    pub name: [u8; 11],
    pub attributes: u8,
    pub reserved: u8,
    pub create_time_tenth: u8,
    pub create_time: u16,
    pub create_date: u16,
    pub last_access_date: u16,
    pub cluster_index_high: u16,
    pub write_time: u16,
    pub write_date: u16,
    pub cluster_index: u16,
    pub file_size: u32,
}

/// A long-name entry, 32 bytes: thirteen UTF-16 units of a long name.
#[derive(Clone, Copy, Debug)]
pub struct FatDirectoryItemLongName {
    pub order: u8,
    pub name1: [u16; 5],
    pub attributes: u8,
    pub kind: u8,
    pub check_sum: u8,
    pub name2: [u16; 6],
    pub first_cluster_low: u16,
    pub name3: [u16; 2],
}

/// `r` holds the directory entry stored at `off` in `b`.
pub open spec fn item_fields(r: Fat16DirectoryItem, b: Seq<u8>, off: int) -> bool {
    &&& r.name@ == b.subrange(off, off + 11)
    &&& r.attributes == b[off + 11]
    &&& r.reserved@ == b.subrange(off + 12, off + 22)
    &&& r.write_time == le16(b, off + 22)
    &&& r.write_date == le16(b, off + 24)
    &&& r.cluster_index == le16(b, off + 26)
    &&& r.file_size == le32(b, off + 28)
}

/// `r` holds the long-name entry stored at `off` in `b`.
pub open spec fn long_name_fields(r: FatDirectoryItemLongName, b: Seq<u8>, off: int) -> bool {
    &&& r.order == b[off]
    &&& (forall|j: int| 0 <= j < 5 ==> r.name1@[j] == le16(b, off + 1 + 2 * j))
    &&& r.attributes == b[off + 11]
    &&& r.kind == b[off + 12]
    &&& r.check_sum == b[off + 13]
    &&& (forall|j: int| 0 <= j < 6 ==> r.name2@[j] == le16(b, off + 14 + 2 * j))
    &&& r.first_cluster_low == le16(b, off + 26)
    &&& (forall|j: int| 0 <= j < 2 ==> r.name3@[j] == le16(b, off + 28 + 2 * j))
}

impl Fat16DirectoryItem {
    /// Reads the directory entry stored at `off`.
    pub fn from_bytes(b: &Vec<u8>, off: usize) -> (r: Fat16DirectoryItem)
        requires
            off + 32 <= b@.len(),
        ensures
            item_fields(r, b@, off as int),
    {
        let _len: usize = b.len();
        Fat16DirectoryItem {
            name: read_array(b, off),
            attributes: b[off + 11],
            reserved: read_array(b, off + 12),
            write_time: read_u16(b, off + 22),
            write_date: read_u16(b, off + 24),
            cluster_index: read_u16(b, off + 26),
            file_size: read_u32(b, off + 28),
        }
    }

    /// The entry that the root directory stands under: named `/`, a
    /// directory, at cluster 0.
    pub fn root() -> (r: Fat16DirectoryItem)
        ensures
            r.name@ == seq![0x2Fu8, 0x20, 0x20, 0x20, 0x20, 0x20, 0x20, 0x20, 0x20, 0x20, 0x20],
            r.attributes == ATTR_DIRECTORY,
            r.write_time == time_bits(0, 0, 0),
            r.write_date == date_bits(2023, 6, 1),
            r.cluster_index == 0,
            r.file_size == 0,
    {
        let mut name: [u8; 11] = [0x20u8; 11];
        name[0] = 0x2F;
        assert(name@ =~= seq![0x2Fu8, 0x20, 0x20, 0x20, 0x20, 0x20, 0x20, 0x20, 0x20, 0x20, 0x20]);
        Fat16DirectoryItem {
            name,
            attributes: ATTR_DIRECTORY,
            reserved: [0u8; 10],
            write_time: Time(0, 0, 0).to_u16(),
            write_date: Date(2023, 6, 1).to_u16(),
            cluster_index: 0,
            file_size: 0,
        }
    }
}

impl FatDirectoryItemLongName {
    /// Reads the long-name entry stored at `off`.
    pub fn from_bytes(b: &Vec<u8>, off: usize) -> (r: FatDirectoryItemLongName)
        requires
            off + 32 <= b@.len(),
        ensures
            long_name_fields(r, b@, off as int),
    {
        let _len: usize = b.len();
        FatDirectoryItemLongName {
            order: b[off],
            name1: read_u16_array(b, off + 1),
            attributes: b[off + 11],
            kind: b[off + 12],
            check_sum: b[off + 13],
            name2: read_u16_array(b, off + 14),
            first_cluster_low: read_u16(b, off + 26),
            name3: read_u16_array(b, off + 28),
        }
    }
}

/// The attribute byte of entry `i`.
pub open spec fn entry_attributes(d: Seq<u8>, i: int) -> u8 {
    d[32 * i + 11]
}

/// The short name of entry `i`.
pub open spec fn entry_name(d: Seq<u8>, i: int) -> Seq<u8> {
    d.subrange(32 * i, 32 * i + 11)
}

/// Entry `i` is a long-name entry.
pub open spec fn is_long_name_entry(d: Seq<u8>, i: int) -> bool {
    entry_attributes(d, i) == ATTR_LONG_NAME
}

/// Entry `i` is the short-name entry asked for: it has every attribute of
/// `mask` and the name `name`.
pub open spec fn entry_matches(d: Seq<u8>, i: int, name: Seq<u8>, mask: u8) -> bool {
    !is_long_name_entry(d, i) && has_attributes(entry_attributes(d, i), mask) && entry_name(d, i) == name
}

/// The first of the first `count` entries that matches, if any.
pub open spec fn first_match(d: Seq<u8>, count: int, name: Seq<u8>, mask: u8) -> Option<int> {
    if exists|i: int| 0 <= i < count && entry_matches(d, i, name, mask) {
        Some(
            choose|i: int|
                0 <= i < count && entry_matches(d, i, name, mask) && forall|j: int|
                    0 <= j < i ==> !entry_matches(d, j, name, mask),
        )
    } else {
        None
    }
}

/// Where the run of long-name entries that ends just before entry `i`
/// starts.
pub open spec fn long_run_start(d: Seq<u8>, i: int) -> int
    decreases i,
{
    if i <= 0 || !is_long_name_entry(d, i - 1) {
        i
    } else {
        long_run_start(d, i - 1)
    }
}

/// The indices of the long-name entries that stand just before entry `i`.
pub open spec fn long_run(d: Seq<u8>, i: int) -> Seq<usize> {
    let s = long_run_start(d, i);
    Seq::new((i - s) as nat, |k: int| (s + k) as usize)
}

proof fn lemma_long_run_start_le(d: Seq<u8>, i: int)
    ensures
        long_run_start(d, i) <= i,
        i >= 0 ==> long_run_start(d, i) >= 0,
    decreases i,
{
    if i > 0 && is_long_name_entry(d, i - 1) {
        lemma_long_run_start_le(d, i - 1);
    }
}

/// A resolved entry of a directory.
#[derive(Clone, Debug)]
pub struct FAT16IndexNode {
    /// The first cluster of the directory that holds the entry (0 for the
    /// root directory).
    pub parent: u16,
    /// The entry's index in its directory.
    pub index: usize,
    /// The indices of the long-name entries just before it.
    pub longname_indexes: Vec<usize>,
    /// The entry, as read when the node was resolved.
    pub item: Fat16DirectoryItem,
}

impl FAT16IndexNode {
    /// A node for entry `index` of the directory at `parent`.
    pub fn new(parent: u16, index: usize, longname_indexes: Vec<usize>, item: Fat16DirectoryItem) -> (r: FAT16IndexNode)
        ensures
            r.parent == parent,
            r.index == index,
            r.longname_indexes@ == longname_indexes@,
            r.item == item,
    {
        FAT16IndexNode { parent, index, longname_indexes, item }
    }

    /// The size of the entry's file in bytes.
    pub fn get_size(&self) -> (r: usize)
        ensures
            r == self.item.file_size,
    {
        self.item.file_size as usize
    }

    /// The entry's name as text: `BASE.EXT`, or `BASE`.
    pub fn get_name(&self) -> (r: String)
        ensures
            r@ == short_name_text(self.item.name@),
    {
        u8_11_to_string(&self.item.name)
    }

    /// The entry's attribute byte.
    pub fn get_attribute(&self) -> (r: u64)
        ensures
            r == self.item.attributes,
    {
        self.item.attributes as u64
    }

    /// Sets the attribute byte of the node's copy of the entry to the low
    /// byte of `value`.
    pub fn set_attribute(&mut self, value: u64)
        ensures
            final(self).item.attributes == value % 256,
            final(self).item.name == old(self).item.name,
            final(self).item.cluster_index == old(self).item.cluster_index,
            final(self).item.file_size == old(self).item.file_size,
            final(self).index == old(self).index,
    {
        assert((value & 0xFF) == value % 256) by (bit_vector);
        self.item.attributes = (value & 0xFF) as u8;
    }

    /// When the entry was last written.
    pub fn get_write_datetime(&self) -> (r: DateTime)
        ensures
            r.0 == Date::from_spec(self.item.write_date),
            r.1 == Time::from_spec(self.item.write_time),
    {
        DateTime(Date::from(self.item.write_date), Time::from(self.item.write_time))
    }

    /// Sets when the node's copy of the entry was last written.
    pub fn set_write_datetime(&mut self, value: DateTime)
        requires
            (value.0).0 >= 1980,
        ensures
            final(self).item.write_date == date_bits((value.0).0, (value.0).1, (value.0).2),
            final(self).item.write_time == time_bits((value.1).0, (value.1).1, (value.1).2),
            final(self).item.name == old(self).item.name,
            final(self).item.cluster_index == old(self).item.cluster_index,
            final(self).item.file_size == old(self).item.file_size,
            final(self).index == old(self).index,
    {
        self.item.write_date = value.0.to_u16();
        self.item.write_time = value.1.to_u16();
    }

    /// The first cluster of the directory that holds the entry.
    pub fn get_parent(&self) -> (r: u16)
        ensures
            r == self.parent,
    {
        self.parent
    }
}

/// A loaded directory: the raw bytes of its entries.
pub struct FAT16Directory {
    pub children_data: Vec<u8>,
    /// How many bytes of entries it holds.
    pub bytes: usize,
    /// The first cluster of the directory that holds it; none for the root.
    pub parent: Option<u16>,
    /// Its own entry.
    pub data: Fat16DirectoryItem,
    /// The clusters it is stored in (none for the root, which has a fixed
    /// region).
    pub clusters_index: Vec<u16>,
}

impl FAT16Directory {
    /// The directory's bytes are exactly its entries.
    pub open spec fn wf(&self) -> bool {
        self.children_data@.len() == self.bytes
    }

    /// The number of entries.
    pub open spec fn count(&self) -> int {
        self.bytes as int / 32
    }

    /// The first cluster of the parent directory, if any.
    pub fn get_parent(&self) -> (r: Option<u16>)
        ensures
            r == self.parent,
    {
        self.parent
    }

    /// The directory's own entry.
    pub fn get_data(&self) -> (r: Fat16DirectoryItem)
        ensures
            r == self.data,
    {
        self.data
    }

    /// Entry `index`.
    pub fn get_child_item(&self, index: usize) -> (r: Fat16DirectoryItem)
        requires
            self.wf(),
            index < self.count(),
        ensures
            item_fields(r, self.children_data@, 32 * index),
    {
        Fat16DirectoryItem::from_bytes(&self.children_data, index * DIRECTORY_ITEM_BYTES)
    }

    /// Entry `index`, read as a long-name entry.
    pub fn get_child_longname(&self, index: usize) -> (r: FatDirectoryItemLongName)
        requires
            self.wf(),
            index < self.count(),
        ensures
            long_name_fields(r, self.children_data@, 32 * index),
    {
        FatDirectoryItemLongName::from_bytes(&self.children_data, index * DIRECTORY_ITEM_BYTES)
    }

    /// The entries at `indexes`, read as long-name entries, in that order.
    pub fn get_children_longname(&self, indexes: Vec<usize>) -> (r: Vec<FatDirectoryItemLongName>)
        requires
            self.wf(),
            forall|k: int| 0 <= k < indexes@.len() ==> #[trigger] indexes@[k] < self.count(),
        ensures
            r@.len() == indexes@.len(),
            forall|k: int|
                0 <= k < indexes@.len() ==> long_name_fields(
                    #[trigger] r@[k],
                    self.children_data@,
                    32 * indexes@[k],
                ),
    {
        let mut ret: Vec<FatDirectoryItemLongName> = Vec::new();
        let mut k: usize = 0;
        while k < indexes.len()
            invariant
                self.wf(),
                forall|j: int| 0 <= j < indexes@.len() ==> #[trigger] indexes@[j] < self.count(),
                k <= indexes@.len(),
                ret@.len() == k,
                forall|j: int|
                    0 <= j < k ==> long_name_fields(#[trigger] ret@[j], self.children_data@, 32 * indexes@[j]),
            decreases indexes@.len() - k,
        {
            let item = self.get_child_longname(indexes[k]);
            ret.push(item);
            k = k + 1;
        }
        ret
    }

    /// Whether entry `i` has the short name `name`.
    fn name_is(&self, i: usize, name: &[u8; 11]) -> (r: bool)
        requires
            self.wf(),
            i < self.count(),
        ensures
            r == (entry_name(self.children_data@, i as int) == name@),
    {
        let base: usize = i * DIRECTORY_ITEM_BYTES;
        let mut k: usize = 0;
        while k < 11
            invariant
                self.wf(),
                i < self.count(),
                base == 32 * i,
                k <= 11,
                forall|j: int| 0 <= j < k ==> self.children_data@[base + j] == name@[j],
            decreases 11 - k,
        {
            if self.children_data[base + k] != name[k] {
                assert(entry_name(self.children_data@, i as int)[k as int] != name@[k as int]);
                return false;
            }
            k = k + 1;
        }
        assert(entry_name(self.children_data@, i as int) =~= name@);
        true
    }

    /// Finds the first short-name entry with every attribute of `attributes`
    /// and the name `name`. Long-name entries are skipped and remembered: the
    /// node lists those that stand just before the entry found. At most one
    /// node is returned.
    pub fn find_children(&self, name: &[u8; 11], attributes: u8) -> (r: Vec<FAT16IndexNode>)
        requires
            self.wf(),
        ensures
            match first_match(self.children_data@, self.count(), name@, attributes) {
                None => r@.len() == 0,
                Some(i) => r@.len() == 1 && r@[0].index == i && r@[0].longname_indexes@ == long_run(
                    self.children_data@,
                    i,
                ) && r@[0].parent == self.data.cluster_index && item_fields(r@[0].item, self.children_data@, 32 * i),
            },
    {
        let ghost d = self.children_data@;
        let count: usize = self.bytes / DIRECTORY_ITEM_BYTES;
        let mut longname: Vec<usize> = Vec::new();
        let mut i: usize = 0;
        while i < count
            invariant
                self.wf(),
                d == self.children_data@,
                count == self.count(),
                i <= count,
                forall|j: int| 0 <= j < i ==> !entry_matches(d, j, name@, attributes),
                longname@ == long_run(d, i as int),
            decreases count - i,
        {
            let attr: u8 = self.children_data[i * DIRECTORY_ITEM_BYTES + 11];
            assert(i * DIRECTORY_ITEM_BYTES + 11 == 32 * i + 11);
            assert(attr == entry_attributes(d, i as int));
            if attr == ATTR_LONG_NAME {
                let ghost s = long_run_start(d, i as int);
                assert(is_long_name_entry(d, i as int));
                assert(long_run_start(d, i + 1) == s);
                assert(s <= i) by {
                    lemma_long_run_start_le(d, i as int);
                }
                longname.push(i);
                assert(longname@ =~= long_run(d, i + 1));
            } else {
                assert(long_run(d, i + 1) =~= Seq::<usize>::empty());
                if contains_attributes(attr, attributes) && self.name_is(i, name) {
                    assert(entry_matches(d, i as int, name@, attributes));
                    let item = self.get_child_item(i);
                    let node = FAT16IndexNode::new(self.data.cluster_index, i, longname, item);
                    let mut ret: Vec<FAT16IndexNode> = Vec::new();
                    ret.push(node);
                    proof {
                        let m = first_match(d, count as int, name@, attributes);
                        assert(m is Some);
                        let k = m->Some_0;
                        assert(k == i) by {
                            if k < i {
                                assert(!entry_matches(d, k, name@, attributes));
                            }
                            if k > i {
                                assert(entry_matches(d, i as int, name@, attributes));
                            }
                        }
                    }
                    return ret;
                }
                longname.clear();
            }
            i = i + 1;
        }
        assert(first_match(d, count as int, name@, attributes) is None);
        Vec::new()
    }

    /// Opens the file that `index_node` names: resolves the chain of its
    /// first cluster in the allocation table.
    pub fn open_file(&self, super_block: &FAT16SuperBlock, index_node: FAT16IndexNode) -> (r: Result<FAT16File, FsError>)
        requires
            self.wf(),
            index_node.index < self.count(),
        ensures
            ({
                let off = 32 * index_node.index;
                let start = le16(self.children_data@, off + 26);
                match cluster_chain(super_block.fats.data@, super_block.fats.total_clusters as nat, start) {
                    Some(chain) => r is Ok && r->Ok_0.indexes@ == chain && r->Ok_0.indexes@.len() >= 2 && (forall|k: int|
                        0 <= k < r->Ok_0.indexes@.len() - 1 ==> 2 <= #[trigger] r->Ok_0.indexes@[k]) && item_fields(
                        r->Ok_0.item,
                        self.children_data@,
                        off,
                    ) && r->Ok_0.node.index == index_node.index && r->Ok_0.pos == 0,
                    None => r == Err::<FAT16File, FsError>(FsError::ChainCorrupted),
                }
            }),
    {
        let item = self.get_child_item(index_node.index);
        proof {
            let total = super_block.fats.total_clusters as nat;
            lemma_chain_clusters_valid(super_block.fats.data@, total, item.cluster_index as int, total);
        }
        match super_block.fats.get_all_clusters(item.cluster_index) {
            Ok(all_clusters) => Ok(FAT16File::new(item, index_node, all_clusters)),
            Err(e) => Err(e),
        }
    }
}

/// An opened file: its entry, the node that found it, its cluster chain and
/// a read position.
pub struct FAT16File {
    pub item: Fat16DirectoryItem,
    pub node: FAT16IndexNode,
    /// The file's cluster chain, closed by its end marker.
    pub indexes: Vec<u16>,
    pub pos: usize,
}

impl FAT16File {
    /// A file positioned at its start.
    pub fn new(item: Fat16DirectoryItem, node: FAT16IndexNode, indexes: Vec<u16>) -> (r: FAT16File)
        ensures
            r.item == item,
            r.node == node,
            r.indexes@ == indexes@,
            r.pos == 0,
    {
        FAT16File { item, node, indexes, pos: 0 }
    }

    /// The node that the file was opened from.
    pub fn get_index_node(&self) -> (r: &FAT16IndexNode)
        ensures
            *r == self.node,
    {
        &self.node
    }
}

/// The first `size` bytes of the data read from a file's clusters.
pub fn file_bytes_from_clusters(data: &Vec<u8>, size: usize) -> (r: Vec<u8>)
    requires
        size <= data@.len(),
    ensures
        r@ == data@.take(size as int),
{
    let mut r: Vec<u8> = Vec::new();
    let mut i: usize = 0;
    while i < size
        invariant
            i <= size <= data@.len(),
            r@ == data@.take(i as int),
        decreases size - i,
    {
        r.push(data[i]);
        assert(data@.take(i + 1) =~= data@.take(i as int).push(data@[i as int]));
        i = i + 1;
    }
    r
}

/// The bytes of `data` from `pos` on, at most `max_len` of them.
pub open spec fn window(data: Seq<u8>, pos: int, max_len: int) -> Seq<u8> {
    data.subrange(pos, pos + min_int(max_len, data.len() - pos))
}

pub open spec fn min_int(a: int, b: int) -> int {
    if a <= b { a } else { b }
}

/// The bytes of `data` from `pos` on, at most `max_len` of them.
pub fn file_window(data: &Vec<u8>, pos: usize, max_len: usize) -> (r: Vec<u8>)
    requires
        pos <= data@.len(),
    ensures
        r@ == window(data@, pos as int, max_len as int),
{
    let len: usize = data.len();
    let left: usize = len - pos;
    let n: usize = if max_len < left { max_len } else { left };
    let mut r: Vec<u8> = Vec::new();
    let mut i: usize = 0;
    while i < n
        invariant
            len == data@.len(),
            i <= n,
            n <= data@.len() - pos,
            pos <= data@.len(),
            r@ == data@.subrange(pos as int, pos + i),
        decreases n - i,
    {
        r.push(data[pos + i]);
        assert(data@.subrange(pos as int, pos + i + 1) =~= data@.subrange(pos as int, pos + i).push(
            data@[pos + i],
        ));
        i = i + 1;
    }
    r
}

impl FAT16File {
    /// The read position lies within the file.
    pub open spec fn wf(&self) -> bool {
        self.pos <= self.item.file_size
    }

    /// The read position.
    pub fn get_position(&self) -> (r: usize)
        ensures
            r == self.pos,
    {
        self.pos
    }

    /// Moves the read position to `pos`, or to the end of the file when
    /// `pos` lies beyond it.
    pub fn set_position(&mut self, pos: usize)
        ensures
            final(self).pos == min_int(pos as int, old(self).item.file_size as int),
            final(self).item == old(self).item,
            final(self).indexes@ == old(self).indexes@,
            final(self).wf(),
    {
        let size: usize = self.item.file_size as usize;
        self.pos = if pos < size { pos } else { size };
    }

    /// Reads at most `max_len` bytes from the read position, and moves the
    /// position past them: `min(max_len, file_size - pos)` bytes.
    pub fn read<D: DiskDriver>(&mut self, super_block: &FAT16SuperBlock, driver: &mut LoggedDisk<D>, max_len: usize) -> (r: Result<Vec<u8>, FsError>)
        requires
            old(self).wf(),
            super_block.wf(),
            old(self).indexes@.len() >= 1,
            forall|k: int| 0 <= k < old(self).indexes@.len() - 1 ==> 2 <= #[trigger] old(self).indexes@[k],
        ensures
            final(self).wf(),
            final(self).item == old(self).item,
            final(self).indexes@ == old(self).indexes@,
            r is Ok ==> r->Ok_0@.len() == min_int(max_len as int, old(self).item.file_size - old(self).pos)
                && final(self).pos == old(self).pos + r->Ok_0@.len(),
            r is Err ==> final(self).pos == old(self).pos && (r->Err_0 is Io || r->Err_0 == FsError::ChainTooShort
                && chain_capacity(old(self).indexes@, super_block.sector0) < old(self).item.file_size),
            old(self).item.file_size == 0 ==> r is Ok,
    {
        let all = match self.read_all_bytes(super_block, driver) {
            Ok(all) => all,
            Err(e) => return Err(e),
        };
        let part = file_window(&all, self.pos, max_len);
        self.pos = self.pos + part.len();
        Ok(part)
    }
}

/// A mounted FAT16 volume: its boot sector, allocation tables and root
/// directory.
pub struct FAT16SuperBlock {
    pub sector0: Fat16BootSector,
    /// The first sector of cluster 2, where the data region starts.
    pub cluster2_sector_index: u64,
    pub clusters_count: usize,
    pub fats: FAT16Fats,
    pub root: FAT16Directory,
}

/// Bytes that a chain of clusters can hold: its clusters (the end marker
/// excluded) times the cluster size.
pub open spec fn chain_capacity(chain: Seq<u16>, bs: Fat16BootSector) -> int {
    (chain.len() - 1) * bs.sectors_per_cluster * bs.bytes_per_sector
}

impl FAT16File {
    /// Reads the whole file: each cluster of its chain in turn, cut to the
    /// size its entry records. Fails with `ChainTooShort`, before reading,
    /// when the chain cannot hold that size; a drive error fails with `Io`.
    pub fn read_all_bytes<D: DiskDriver>(&self, super_block: &FAT16SuperBlock, driver: &mut LoggedDisk<D>) -> (r: Result<Vec<u8>, FsError>)
        requires
            super_block.wf(),
            self.indexes@.len() >= 1,
            forall|k: int| 0 <= k < self.indexes@.len() - 1 ==> 2 <= #[trigger] self.indexes@[k],
        ensures
            chain_capacity(self.indexes@, super_block.sector0) < self.item.file_size ==> r == Err::<
                Vec<u8>,
                FsError,
            >(FsError::ChainTooShort),
            r is Ok ==> r->Ok_0@.len() == self.item.file_size,
            r is Err ==> (r->Err_0 is Io || r->Err_0 == FsError::ChainTooShort && chain_capacity(
                self.indexes@,
                super_block.sector0,
            ) < self.item.file_size),
            self.item.file_size == 0 ==> r is Ok,
            continues(final(driver).reads@, old(driver).reads@),
            final(driver).writes@ == old(driver).writes@,
            r is Ok ==> ({
                let reqs = final(driver).reads@.skip(old(driver).reads@.len() as int);
                let cluster_bytes = super_block.sector0.sectors_per_cluster * SECTOR_BYTES;
                &&& reqs.len() == (self.item.file_size + cluster_bytes - 1) / cluster_bytes
                &&& forall|k: int| 0 <= k < reqs.len() ==> (#[trigger] reqs[k]).0 == sector_index_of(
                    super_block.sector0,
                    self.indexes@[k] as int,
                ) && reqs[k].1.len() == cluster_bytes
                &&& r->Ok_0@ == joined(reqs).take(self.item.file_size as int)
            }),
    {
        let ghost before = driver.reads@;
        let ghost mut reqs: Seq<(u64, Seq<u8>)> = Seq::empty();
        proof {
            lemma_continues_append(before, reqs);
            assert(before + reqs =~= before);
        }
        let bs = &super_block.sector0;
        let size: usize = self.item.file_size as usize;
        let spc: usize = bs.sectors_per_cluster as usize;
        let cluster_bytes: usize = spc * SECTOR_BYTES;
        let clusters: usize = self.indexes.len() - 1;
        // Compare without overflow: capacity < size iff clusters < ceil(size / cluster_bytes).
        let needed64: u64 = (size as u64 + cluster_bytes as u64 - 1) / cluster_bytes as u64;
        proof {
            lemma_ceil_div_le(size as int, cluster_bytes as int);
        }
        let needed: usize = needed64 as usize;
        proof {
            lemma_capacity_check(clusters as int, cluster_bytes as int, size as int, needed as int);
        }
        assert(chain_capacity(self.indexes@, *bs) == clusters * cluster_bytes) by (nonlinear_arith)
            requires cluster_bytes == spc * 512, spc == bs.sectors_per_cluster, bs.bytes_per_sector == 512,
                clusters == self.indexes@.len() - 1;
        if clusters < needed {
            return Err(FsError::ChainTooShort);
        }
        let mut data: Vec<u8> = Vec::new();
        let mut k: usize = 0;
        while k < needed
            invariant
                super_block.wf(),
                bs == &super_block.sector0,
                needed <= clusters,
                needed <= size,
                size == self.item.file_size,
                chain_capacity(self.indexes@, super_block.sector0) >= self.item.file_size,
                clusters == self.indexes@.len() - 1,
                forall|j: int| 0 <= j < self.indexes@.len() - 1 ==> 2 <= #[trigger] self.indexes@[j],
                cluster_bytes == spc * SECTOR_BYTES,
                spc == bs.sectors_per_cluster,
                1 <= spc <= 255,
                k <= needed,
                needed * cluster_bytes < size + cluster_bytes,
                size <= needed * cluster_bytes,
                data@.len() == k * cluster_bytes,
                size <= u32::MAX,
                before == old(driver).reads@,
                driver.reads@ == before + reqs,
                driver.writes@ == old(driver).writes@,
                reqs.len() == k,
                data@ == joined(reqs),
                forall|j: int| 0 <= j < k ==> (#[trigger] reqs[j]).0 == sector_index_of(*bs, self.indexes@[j] as int)
                    && reqs[j].1.len() == cluster_bytes,
            decreases needed - k,
        {
            let c: u16 = self.indexes[k];
            let sector: u64 = bs.cluster_sector(c);
            assert(spc * SECTOR_BYTES <= 255 * 512) by (nonlinear_arith)
                requires spc <= 255;
            let mut chunk: Vec<u8> = vec![0u8; cluster_bytes];
            let rr = driver.read(sector, spc, &mut chunk);
            proof {
                let e = (sector, chunk@);
                assert((before + reqs).push(e) =~= before + reqs.push(e));
                assert(reqs.push(e).drop_last() =~= reqs);
                reqs = reqs.push(e);
            }
            match rr {
                Ok(()) => {
                    let ghost data0 = data@;
                    let mut i: usize = 0;
                    assert((k + 1) * cluster_bytes <= needed * cluster_bytes) by (nonlinear_arith)
                        requires k + 1 <= needed, cluster_bytes >= 0;
                    while i < chunk.len()
                        invariant
                            i <= chunk@.len(),
                            chunk@.len() == cluster_bytes,
                            data@ == data0 + chunk@.take(i as int),
                            data0.len() == k * cluster_bytes,
                            (k + 1) * cluster_bytes <= needed * cluster_bytes,
                            needed * cluster_bytes < size + cluster_bytes,
                            size <= u32::MAX,
                            cluster_bytes <= 255 * 512,
                        decreases chunk@.len() - i,
                    {
                        data.push(chunk[i]);
                        assert(chunk@.take(i + 1) =~= chunk@.take(i as int).push(chunk@[i as int]));
                        i = i + 1;
                    }
                    assert(chunk@.take(chunk@.len() as int) =~= chunk@);
                    assert(data@.len() == (k + 1) * cluster_bytes) by (nonlinear_arith)
                        requires data@.len() == k * cluster_bytes + cluster_bytes;
                },
                Err(e) => {
                    proof {
                        lemma_continues_append(before, reqs);
                    }
                    return Err(FsError::Io(e));
                },
            }
            k = k + 1;
        }
        assert(size <= data@.len());
        proof {
            lemma_continues_append(before, reqs);
        }
        Ok(file_bytes_from_clusters(&data, size))
    }
}

proof fn lemma_capacity_check(clusters: int, cluster_bytes: int, size: int, needed: int)
    requires
        cluster_bytes > 0,
        size >= 0,
        clusters >= 0,
        needed == (size + cluster_bytes - 1) / cluster_bytes,
    ensures
        clusters < needed <==> clusters * cluster_bytes < size,
        needed * cluster_bytes < size + cluster_bytes,
        size <= needed * cluster_bytes,
{
    let x = size + cluster_bytes - 1;
    lemma_fundamental_div_mod(x, cluster_bytes);
    let r = x % cluster_bytes;
    assert(x == needed * cluster_bytes + r) by (nonlinear_arith)
        requires x == cluster_bytes * (x / cluster_bytes) + x % cluster_bytes, needed == x / cluster_bytes, r == x % cluster_bytes;
    lemma_mod_bound(x, cluster_bytes);
    if clusters < needed {
        assert(clusters * cluster_bytes <= (needed - 1) * cluster_bytes) by (nonlinear_arith)
            requires clusters <= needed - 1, cluster_bytes > 0;
        assert((needed - 1) * cluster_bytes == needed * cluster_bytes - cluster_bytes) by (nonlinear_arith);
    } else {
        assert(clusters * cluster_bytes >= needed * cluster_bytes) by (nonlinear_arith)
            requires clusters >= needed, cluster_bytes > 0;
    }
}

proof fn lemma_ceil_div_le(size: int, d: int)
    requires
        size >= 0,
        d >= 1,
    ensures
        (size + d - 1) / d <= size,
{
    let x = size + d - 1;
    let q = x / d;
    lemma_fundamental_div_mod(x, d);
    lemma_mod_bound(x, d);
    if q > size {
        assert(d * q >= d * (size + 1)) by (nonlinear_arith)
            requires q >= size + 1, d >= 1;
        assert(d * (size + 1) >= size + d) by (nonlinear_arith)
            requires size >= 0, d >= 1;
    }
}

proof fn lemma_mod_bound(x: int, d: int)
    requires
        x >= 0,
        d > 0,
    ensures
        0 <= x % d < d,
{
}

/// The geometry a volume can be mounted with: 512-byte sectors, clusters
/// of at least one sector, and at least one cluster.
pub open spec fn mountable_geometry(bs: Fat16BootSector) -> bool {
    &&& bs.bytes_per_sector == SECTOR_BYTES
    &&& bs.sectors_per_cluster > 0
    &&& total_clusters_of(bs) > 0
    &&& bs.fats * bs.sectors_per_fat <= (usize::MAX as int) / (SECTOR_BYTES as int)
}

impl FAT16SuperBlock {
    /// The volume's parts agree: 512-byte sectors, a divisible geometry, a
    /// table of the volume's size, and a well-formed root directory.
    pub open spec fn wf(&self) -> bool {
        &&& self.sector0.bytes_per_sector == SECTOR_BYTES
        &&& 1 <= self.sector0.sectors_per_cluster
        &&& self.fats.total_clusters == self.clusters_count
        &&& self.root.wf()
    }

    /// Reads the root directory: `root_entries * 32 / bytes_per_sector`
    /// sectors, stored after the reserved sectors and the tables. Fails with
    /// `InvalidGeometry` unless sectors are 512 bytes.
    pub fn ReadRoot<D: DiskDriver>(driver: &mut LoggedDisk<D>, boot_sector: &Fat16BootSector) -> (r: Result<FAT16Directory, FsError>)
        ensures
            boot_sector.bytes_per_sector != SECTOR_BYTES ==> r == Err::<FAT16Directory, FsError>(
                FsError::InvalidGeometry,
            ),
            r is Ok ==> ({
                let d = r->Ok_0;
                &&& d.wf()
                &&& d.bytes == root_dir_sectors(*boot_sector) * SECTOR_BYTES
                &&& d.parent is None
                &&& d.data.name@ == seq![0x2Fu8, 0x20, 0x20, 0x20, 0x20, 0x20, 0x20, 0x20, 0x20, 0x20, 0x20]
                &&& d.data.attributes == ATTR_DIRECTORY
                &&& d.data.cluster_index == 0
                &&& d.data.file_size == 0
                &&& d.clusters_index@.len() == 0
            }),
            r is Err ==> (r->Err_0 is Io || r->Err_0 == FsError::InvalidGeometry && boot_sector.bytes_per_sector
                != SECTOR_BYTES),
            boot_sector.bytes_per_sector == SECTOR_BYTES && root_dir_sectors(*boot_sector) == 0 ==> r is Ok,
            final(driver).writes@ == old(driver).writes@,
            continues(final(driver).reads@, old(driver).reads@),
            r is Ok ==> ({
                let reqs = final(driver).reads@.skip(old(driver).reads@.len() as int);
                run_from(reqs, root_dir_start(*boot_sector)) && r->Ok_0.children_data@ == joined(reqs)
            }),
    {
        proof {
            assert(driver.reads@.take(driver.reads@.len() as int) =~= driver.reads@);
        }
        if boot_sector.bytes_per_sector as usize != SECTOR_BYTES {
            return Err(FsError::InvalidGeometry);
        }
        let root_sectors: usize = boot_sector.root_entries as usize * DIRECTORY_ITEM_BYTES / SECTOR_BYTES;
        assert(boot_sector.fats * boot_sector.sectors_per_fat <= 255 * 65535) by (nonlinear_arith)
            requires boot_sector.fats <= 255, boot_sector.sectors_per_fat <= 65535;
        let start: u64 = boot_sector.reserved_sectors as u64 + boot_sector.fats as u64
            * boot_sector.sectors_per_fat as u64;
        match read_sectors(driver, start, root_sectors) {
            Ok(data) => {
                let bytes: usize = root_sectors * SECTOR_BYTES;
                Ok(FAT16Directory {
                    children_data: data,
                    bytes,
                    parent: None,
                    data: Fat16DirectoryItem::root(),
                    clusters_index: Vec::new(),
                })
            },
            Err(e) => Err(FsError::Io(e)),
        }
    }

    /// Mounts a volume from its boot sector: reads the root directory and
    /// all copies of the allocation table. Fails with `InvalidGeometry` unless
    /// sectors are 512 bytes and the volume has clusters, with
    /// `UnsupportedFatWidth` unless table entries are 16 bits wide, and with
    /// `Io` when the drive fails.
    pub fn new<D: DiskDriver>(driver: &mut LoggedDisk<D>, sector0: Fat16BootSector) -> (r: Result<FAT16SuperBlock, FsError>)
        ensures
            sector0.magic != BOOT_SIGNATURE ==> r == Err::<FAT16SuperBlock, FsError>(FsError::InvalidBootSector),
            sector0.magic != BOOT_SIGNATURE || !mountable_geometry(sector0) || !fat_is_16_bit(sector0) ==> final(driver).reads@
                == old(driver).reads@ && final(driver).writes@ == old(driver).writes@,
            sector0.magic == BOOT_SIGNATURE && !mountable_geometry(sector0) ==> r == Err::<FAT16SuperBlock, FsError>(
                FsError::InvalidGeometry,
            ),
            sector0.magic == BOOT_SIGNATURE && mountable_geometry(sector0) && !fat_is_16_bit(sector0) ==> r == Err::<
                FAT16SuperBlock,
                FsError,
            >(FsError::UnsupportedFatWidth),
            r is Err ==> (r->Err_0 is Io || r->Err_0 == FsError::InvalidBootSector && sector0.magic != BOOT_SIGNATURE
                || r->Err_0 == FsError::InvalidGeometry && !mountable_geometry(sector0)
                || r->Err_0 == FsError::UnsupportedFatWidth && mountable_geometry(sector0) && !fat_is_16_bit(sector0)),
            r is Ok ==> ({
                let sb = r->Ok_0;
                &&& sb.wf()
                &&& sb.sector0 == sector0
                &&& sb.clusters_count == total_clusters_of(sector0)
                &&& fat_is_16_bit(sector0)
            }),
    {
        if sector0.magic != BOOT_SIGNATURE {
            return Err(FsError::InvalidBootSector);
        }
        if sector0.bytes_per_sector as usize != SECTOR_BYTES || sector0.sectors_per_cluster == 0 {
            return Err(FsError::InvalidGeometry);
        }
        assert(sector0.fats * sector0.sectors_per_fat <= 255 * 65535) by (nonlinear_arith)
            requires sector0.fats <= 255, sector0.sectors_per_fat <= 65535;
        if sector0.fats as usize * sector0.sectors_per_fat as usize > usize::MAX / SECTOR_BYTES {
            return Err(FsError::InvalidGeometry);
        }
        let mut fats = match FAT16Fats::new(&sector0) {
            Ok(fats) => fats,
            Err(e) => return Err(e),
        };
        let root = match FAT16SuperBlock::ReadRoot(driver, &sector0) {
            Ok(root) => root,
            Err(e) => return Err(e),
        };
        match fats.init(driver) {
            Ok(()) => {},
            Err(e) => return Err(e),
        }
        let clusters_count: usize = fats.total_clusters;
        let cluster2_sector_index: u64 = sector0.cluster_sector(2);
        Ok(FAT16SuperBlock { sector0, cluster2_sector_index, clusters_count, fats, root })
    }

    /// Mounts a volume whose first sector holds `sector0`. Fails with
    /// `InvalidBootSector`, reading nothing, when the signature is missing.
    pub fn from_boot_bytes<D: DiskDriver>(driver: &mut LoggedDisk<D>, sector0: &Vec<u8>) -> (r: Result<FAT16SuperBlock, FsError>)
        requires
            sector0@.len() == SECTOR_BYTES,
        ensures
            !has_boot_signature(sector0@) ==> r == Err::<FAT16SuperBlock, FsError>(FsError::InvalidBootSector),
            has_boot_signature(sector0@) && !sane_geometry(sector0@) ==> r == Err::<
                FAT16SuperBlock,
                FsError,
            >(FsError::InvalidGeometry),
            r is Ok ==> r->Ok_0.wf(),
            r is Err && r->Err_0 == FsError::InvalidBootSector ==> !has_boot_signature(sector0@),
            !has_boot_signature(sector0@) ==> final(driver).reads@ == old(driver).reads@ && final(driver).writes@
                == old(driver).writes@,
            r is Err && r->Err_0 == FsError::UnsupportedFatWidth ==> has_boot_signature(sector0@) && sane_geometry(
                sector0@,
            ),
            r is Err ==> (r->Err_0 is Io || r->Err_0 is InvalidBootSector || r->Err_0 is InvalidGeometry
                || r->Err_0 is UnsupportedFatWidth),
    {
        match Fat16BootSector::from_bytes(sector0) {
            Ok(boot_sector) => FAT16SuperBlock::new(driver, boot_sector),
            Err(e) => Err(e),
        }
    }

    /// Mounts the volume on a drive: reads its first sector, then as
    /// `from_boot_bytes`.
    pub fn super_block<D: DiskDriver>(driver: &mut LoggedDisk<D>) -> (r: Result<FAT16SuperBlock, FsError>)
        ensures
            r is Ok ==> r->Ok_0.wf(),
    {
        match read_sectors(driver, 0, 1) {
            Ok(sector0) => FAT16SuperBlock::from_boot_bytes(driver, &sector0),
            Err(e) => Err(FsError::Io(e)),
        }
    }

    /// The root directory.
    pub fn get_root(&self) -> (r: &FAT16Directory)
        ensures
            *r == self.root,
    {
        &self.root
    }

    /// Writes the allocation tables back to disk.
    pub fn write<D: DiskDriver>(&self, driver: &mut LoggedDisk<D>) -> (r: Result<(), FsError>)
        requires
            self.fats.data@.len() == self.fats.fats_sectors() * SECTOR_BYTES / 2,
            self.fats.fats_sectors() * SECTOR_BYTES <= usize::MAX,
            self.fats.start_sector_index + self.fats.fats_sectors() <= u64::MAX,
        ensures
            r is Err ==> (r->Err_0 is Io),
    {
        self.fats.flush(driver)
    }
}

} // verus!
