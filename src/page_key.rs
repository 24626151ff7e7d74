//! Keys of page-table pages: the table level in bits 60..62 and the
//! virtual-address bits that lead to the page.
use vstd::prelude::*;

verus! {

/// The key of one page-table page.
#[derive(Clone, Copy, Debug, PartialEq, Eq, Structural)]
pub struct PageKey {
    pub value: u64,
}

/// The span of virtual addresses that one entry of a level-`level` table
/// covers, times 512: `2^(12 + 9 * level)`.
pub open spec fn level_span(level: int) -> int {
    if level == 0 { 0x1000 }
    else if level == 1 { 0x20_0000 }
    else if level == 2 { 0x4000_0000 }
    else if level == 3 { 0x80_0000_0000 }
    else { 0x1_0000_0000_0000 }
}

/// The key of the level-`level` table that maps `va`: the level, then the
/// address bits above that table's span, within the 48-bit address space.
pub open spec fn key_of_address(level: int, va: int) -> int {
    level * 0x1000_0000_0000_0000 + (va % 0x1_0000_0000_0000) / level_span(level) * level_span(level)
}

/// The key of the level-`level` table reached through the given indices:
/// the indices above `level` are kept.
pub open spec fn key_of_indices(level: int, l4: int, l3: int, l2: int, l1: int) -> int {
    level * 0x1000_0000_0000_0000 + (if level <= 3 { l4 * 0x80_0000_0000 } else { 0 }) + (if level <= 2 {
        l3 * 0x4000_0000
    } else {
        0
    }) + (if level <= 1 { l2 * 0x20_0000 } else { 0 }) + (if level == 0 { l1 * 0x1000 } else { 0 })
}

impl PageKey {
    /// The key of the level-`level` table reached through the indices.
    pub fn from(level: u8, l4_index: u16, l3_index: u16, l2_index: u16, l1_index: u16) -> (r: PageKey)
        requires
            level <= 4,
            l4_index < 512,
            l3_index < 512,
            l2_index < 512,
            l1_index < 512,
        ensures
            r.value == key_of_indices(level as int, l4_index as int, l3_index as int, l2_index as int, l1_index as int),
    {
        let lv: u64 = level as u64;
        let a: u64 = l4_index as u64;
        let b: u64 = l3_index as u64;
        let c: u64 = l2_index as u64;
        let d: u64 = l1_index as u64;
        let level_bits: u64 = lv << 60u64;
        let l4: u64 = a << 39u64;
        let l3: u64 = b << 30u64;
        let l2: u64 = c << 21u64;
        let l1: u64 = d << 12u64;
        assert(lv << 60u64 == lv * 0x1000_0000_0000_0000 && a << 39u64 == a * 0x80_0000_0000 && b << 30u64
            == b * 0x4000_0000 && c << 21u64 == c * 0x20_0000 && d << 12u64 == d * 0x1000) by (bit_vector)
            requires lv <= 4, a < 512, b < 512, c < 512, d < 512;
        assert((lv << 60u64) | (a << 39u64) == (lv << 60u64) + (a << 39u64) && ((lv << 60u64) | (a << 39u64))
            | (b << 30u64) == (lv << 60u64) + (a << 39u64) + (b << 30u64) && (((lv << 60u64) | (a << 39u64))
            | (b << 30u64)) | (c << 21u64) == (lv << 60u64) + (a << 39u64) + (b << 30u64) + (c << 21u64)
            && ((((lv << 60u64) | (a << 39u64)) | (b << 30u64)) | (c << 21u64)) | (d << 12u64) == (lv
            << 60u64) + (a << 39u64) + (b << 30u64) + (c << 21u64) + (d << 12u64)) by (bit_vector)
            requires lv <= 4, a < 512, b < 512, c < 512, d < 512;
        let value: u64 = if level == 4 {
            level_bits
        } else if level == 3 {
            level_bits | l4
        } else if level == 2 {
            level_bits | l4 | l3
        } else if level == 1 {
            level_bits | l4 | l3 | l2
        } else {
            level_bits | l4 | l3 | l2 | l1
        };
        PageKey { value }
    }

    /// The key of the level-`level` table that maps `virtual_address`.
    pub fn from_virtual_address(level: u8, virtual_address: u64) -> (r: PageKey)
        requires
            level <= 4,
        ensures
            r.value == key_of_address(level as int, virtual_address as int),
    {
        let lv: u64 = level as u64;
        let va: u64 = virtual_address & 0x0000_FFFF_FFFF_F000;
        let level_bits: u64 = lv << 60u64;
        assert(lv << 60u64 == lv * 0x1000_0000_0000_0000) by (bit_vector)
            requires lv <= 4;
        let v: u64 = virtual_address;
        let value: u64 = if level == 4 {
            assert(lv << 60u64 | 0u64 == lv << 60u64) by (bit_vector);
            level_bits | 0
        } else if level == 3 {
            assert((lv << 60u64) | ((v & 0x0000_FFFF_FFFF_F000) & 0o777_000_000_000_0000) == (lv << 60u64)
                + (v % 0x1_0000_0000_0000) / 0x80_0000_0000 * 0x80_0000_0000) by (bit_vector)
                requires lv <= 4;
            level_bits | va & 0o777_000_000_000_0000
        } else if level == 2 {
            assert((lv << 60u64) | ((v & 0x0000_FFFF_FFFF_F000) & 0o777_777_000_000_0000) == (lv << 60u64)
                + (v % 0x1_0000_0000_0000) / 0x4000_0000 * 0x4000_0000) by (bit_vector)
                requires lv <= 4;
            level_bits | va & 0o777_777_000_000_0000
        } else if level == 1 {
            assert((lv << 60u64) | ((v & 0x0000_FFFF_FFFF_F000) & 0o777_777_777_000_0000) == (lv << 60u64)
                + (v % 0x1_0000_0000_0000) / 0x20_0000 * 0x20_0000) by (bit_vector)
                requires lv <= 4;
            level_bits | va & 0o777_777_777_000_0000
        } else {
            assert((lv << 60u64) | ((v & 0x0000_FFFF_FFFF_F000) & 0o777_777_777_777_0000) == (lv << 60u64)
                + (v % 0x1_0000_0000_0000) / 0x1000 * 0x1000) by (bit_vector)
                requires lv <= 4;
            level_bits | va & 0o777_777_777_777_0000
        };
        assert(level == 4 ==> (v % 0x1_0000_0000_0000) / 0x1_0000_0000_0000 == 0);
        PageKey { value }
    }

    /// The level of the table.
    pub open spec fn level_of(&self) -> int {
        (self.value as int / 0x1000_0000_0000_0000) % 8
    }

    /// The level of the table.
    pub fn level(&self) -> (r: u8)
        ensures
            r == self.level_of(),
    {
        let v: u64 = self.value;
        assert(((v >> 60u64) & 0x07) == (v / 0x1000_0000_0000_0000) % 8) by (bit_vector);
        ((v >> 60u64) & 0x07) as u8
    }

    /// The index, within its parent table, of the entry that leads to this
    /// table.
    pub fn index(&self) -> (r: u16)
        requires
            self.level_of() <= 4,
        ensures
            r == (self.value as int / level_span(self.level_of())) % 512,
    {
        let level: u8 = self.level();
        let bits: u64 = 12 + 9 * level as u64;
        let v: u64 = self.value;
        let shifted: u64 = v >> bits;
        proof {
            if level == 0 {
                assert(v >> 12u64 == v / 0x1000) by (bit_vector);
            } else if level == 1 {
                assert(v >> 21u64 == v / 0x20_0000) by (bit_vector);
            } else if level == 2 {
                assert(v >> 30u64 == v / 0x4000_0000) by (bit_vector);
            } else if level == 3 {
                assert(v >> 39u64 == v / 0x80_0000_0000) by (bit_vector);
            } else {
                assert(v >> 48u64 == v / 0x1_0000_0000_0000) by (bit_vector);
            }
        }
        assert(shifted & 0x1FF == shifted % 512) by (bit_vector);
        (shifted & 0x1FF) as u16
    }

    /// The key of the table one level down that maps `virtual_address`;
    /// none below level 0.
    pub fn get_sub_key(&self, virtual_address: u64) -> (r: Option<PageKey>)
        requires
            self.level_of() <= 4,
        ensures
            self.level_of() == 0 ==> r is None,
            self.level_of() > 0 ==> r == Some(
                PageKey { value: key_of_address(self.level_of() - 1, virtual_address as int) as u64 },
            ),
    {
        let level: u8 = self.level();
        if level == 0 {
            None
        } else {
            Some(PageKey::from_virtual_address(level - 1, virtual_address))
        }
    }
}

} // verus!
