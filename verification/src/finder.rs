//! Finder metadata: four-character codes, the Finder flag word, the icon
//! location, the folder id, and the Macintosh lock/protect word.

use vstd::prelude::*;

use crate::bytes::{be_i16_at, be_u16_at, be_u32_at, read_be_i16, read_be_u16, read_be_u32};

verus! {

/// A four-character code: a 4-byte tag, held big-endian in one word,
/// conventionally displayed as ASCII text.
#[derive(Debug, Clone, Copy, PartialEq, Eq, Structural)]
pub struct FourCC(pub u32);

impl FourCC {
    /// The four tag bytes, most significant first.
    pub fn bytes(&self) -> (r: [u8; 4])
        ensures
            r@ == seq![
                (self.0 / 0x100_0000) as u8,
                ((self.0 / 0x1_0000) % 0x100) as u8,
                ((self.0 / 0x100) % 0x100) as u8,
                (self.0 % 0x100) as u8,
            ],
    {
        let w = self.0;
        let r = [
            (w >> 24) as u8,
            ((w >> 16) & 0xFF) as u8,
            ((w >> 8) & 0xFF) as u8,
            (w & 0xFF) as u8,
        ];
        proof {
            assert((w >> 24) as u8 == (w / 0x100_0000) as u8
                && ((w >> 16) & 0xFF) as u8 == ((w / 0x1_0000) % 0x100) as u8
                && ((w >> 8) & 0xFF) as u8 == ((w / 0x100) % 0x100) as u8
                && (w & 0xFF) as u8 == (w % 0x100) as u8) by (bit_vector);
            assert(r@ =~= seq![
                (self.0 / 0x100_0000) as u8,
                ((self.0 / 0x1_0000) % 0x100) as u8,
                ((self.0 / 0x100) % 0x100) as u8,
                (self.0 % 0x100) as u8,
            ]);
        }
        r
    }
}

/// Mac file type code.
#[derive(Debug, Clone, Copy, PartialEq, Eq, Structural)]
pub struct FileType(pub FourCC);

/// Mac creator code.
#[derive(Debug, Clone, Copy, PartialEq, Eq, Structural)]
pub struct Creator(pub FourCC);

/// Various flags that are either manipulated by the Finder or influence the
/// way the Finder will present the file, held as the raw 16-bit word with one
/// accessor per documented bit position.
#[derive(Debug, Clone, Copy, PartialEq, Eq, Structural)]
pub struct FinderFlags(pub u16);

impl FinderFlags {
    /// The file is an alias (bit `0x8000`).
    pub open spec fn spec_is_alias(&self) -> bool {
        self.0 & 0x8000 != 0
    }

    pub fn is_alias(&self) -> (r: bool)
        ensures
            r == self.spec_is_alias(),
    {
        self.0 & 0x8000 != 0
    }

    /// The Finder does not show the file (bit `0x4000`).
    pub open spec fn spec_is_invisible(&self) -> bool {
        self.0 & 0x4000 != 0
    }

    pub fn is_invisible(&self) -> (r: bool)
        ensures
            r == self.spec_is_invisible(),
    {
        self.0 & 0x4000 != 0
    }

    /// The file carries a resource bundle (bit `0x2000`).
    pub open spec fn spec_has_bundle(&self) -> bool {
        self.0 & 0x2000 != 0
    }

    pub fn has_bundle(&self) -> (r: bool)
        ensures
            r == self.spec_has_bundle(),
    {
        self.0 & 0x2000 != 0
    }

    /// The file's name cannot be edited (bit `0x1000`).
    pub open spec fn spec_name_locked(&self) -> bool {
        self.0 & 0x1000 != 0
    }

    pub fn name_locked(&self) -> (r: bool)
        ensures
            r == self.spec_name_locked(),
    {
        self.0 & 0x1000 != 0
    }

    /// Opening the file makes a copy, like a pad of forms (bit `0x0800`).
    pub open spec fn spec_is_stationery(&self) -> bool {
        self.0 & 0x0800 != 0
    }

    pub fn is_stationery(&self) -> (r: bool)
        ensures
            r == self.spec_is_stationery(),
    {
        self.0 & 0x0800 != 0
    }

    /// The file carries its own icon resource (bit `0x0400`).
    pub open spec fn spec_has_custom_icon(&self) -> bool {
        self.0 & 0x0400 != 0
    }

    pub fn has_custom_icon(&self) -> (r: bool)
        ensures
            r == self.spec_has_custom_icon(),
    {
        self.0 & 0x0400 != 0
    }

    /// The Finder has recorded its information from the bundle (bit `0x0100`).
    pub open spec fn spec_has_been_inited(&self) -> bool {
        self.0 & 0x0100 != 0
    }

    pub fn has_been_inited(&self) -> (r: bool)
        ensures
            r == self.spec_has_been_inited(),
    {
        self.0 & 0x0100 != 0
    }

    /// The file carries no INIT resources (bit `0x0080`).
    pub open spec fn spec_has_no_inits(&self) -> bool {
        self.0 & 0x0080 != 0
    }

    pub fn has_no_inits(&self) -> (r: bool)
        ensures
            r == self.spec_has_no_inits(),
    {
        self.0 & 0x0080 != 0
    }

    /// The file is available to other users over a network (bit `0x0040`).
    pub open spec fn spec_is_shared(&self) -> bool {
        self.0 & 0x0040 != 0
    }

    pub fn is_shared(&self) -> (r: bool)
        ensures
            r == self.spec_is_shared(),
    {
        self.0 & 0x0040 != 0
    }

    /// Deprecated: launching requires a switch (bit `0x0020`).
    pub open spec fn spec_requires_switch_launch(&self) -> bool {
        self.0 & 0x0020 != 0
    }

    pub fn requires_switch_launch(&self) -> (r: bool)
        ensures
            r == self.spec_requires_switch_launch(),
    {
        self.0 & 0x0020 != 0
    }

    /// The label colour, a 3-bit value (bits `0x000E`).
    pub open spec fn spec_color(&self) -> u8 {
        ((self.0 >> 1) & 0x7) as u8
    }

    pub fn color(&self) -> (r: u8)
        ensures
            r == self.spec_color(),
    {
        ((self.0 >> 1) & 0x7) as u8
    }

    /// Deprecated: the file's icon lies on the desktop (bit `0x0001`).
    pub open spec fn spec_is_on_desktop(&self) -> bool {
        self.0 & 0x0001 != 0
    }

    pub fn is_on_desktop(&self) -> (r: bool)
        ensures
            r == self.spec_is_on_desktop(),
    {
        self.0 & 0x0001 != 0
    }
}

/// A 2-dimensional point in QuickDraw's coordinate system.
#[derive(Debug, Default, Clone, Copy, PartialEq, Eq, Structural)]
pub struct Point {
    pub vertical: i16,
    pub horizontal: i16,
}

/// The id of the window representing the folder containing this file.
#[derive(Debug, Default, Clone, Copy, PartialEq, Eq, Structural)]
pub struct Folder(pub u16);

/// The fixed 16-byte Finder information block.
#[derive(Debug, Clone, Copy, PartialEq, Eq, Structural)]
pub struct FinderInfo {
    pub file_type: FileType,
    pub creator: Creator,
    pub flags: FinderFlags,
    pub location: Point,
    pub folder: Folder,
}

/// What the 16 Finder-information bytes starting at position 0 of `b` hold:
/// file type, creator, flag word, location point, folder id, all big-endian.
pub open spec fn spec_finder_info(b: Seq<u8>) -> FinderInfo {
    FinderInfo {
        file_type: FileType(FourCC(be_u32_at(b, 0))),
        creator: Creator(FourCC(be_u32_at(b, 4))),
        flags: FinderFlags(be_u16_at(b, 8)),
        location: Point { vertical: be_i16_at(b, 10), horizontal: be_i16_at(b, 12) },
        folder: Folder(be_u16_at(b, 14)),
    }
}

impl FinderInfo {
    /// Decodes the fixed 16-byte big-endian Finder information block.
    pub fn from_bytes(b: &[u8]) -> (r: FinderInfo)
        requires
            b@.len() >= 16,
        ensures
            r == spec_finder_info(b@),
    {
        FinderInfo {
            file_type: FileType(FourCC(read_be_u32(b, 0))),
            creator: Creator(FourCC(read_be_u32(b, 4))),
            flags: FinderFlags(read_be_u16(b, 8)),
            location: Point {
                vertical: read_be_i16(b, 10),
                horizontal: read_be_i16(b, 12),
            },
            folder: Folder(read_be_u16(b, 14)),
        }
    }
}

/// The Macintosh file-information word, holding the "locked" and "protected"
/// bits in its two low-order positions.
#[derive(Debug, Default, Clone, Copy, PartialEq, Eq, Structural)]
pub struct MacInfo(pub u32);

/// What the 4 Macintosh file-information bytes starting at position 0 of `b`
/// hold: one big-endian 32-bit word.
pub open spec fn spec_mac_info(b: Seq<u8>) -> MacInfo {
    MacInfo(be_u32_at(b, 0))
}

impl MacInfo {
    /// Decodes the fixed 4-byte big-endian Macintosh file-information word.
    pub fn from_bytes(b: &[u8]) -> (r: MacInfo)
        requires
            b@.len() >= 4,
        ensures
            r == spec_mac_info(b@),
    {
        MacInfo(read_be_u32(b, 0))
    }

    /// The file may not be written to (bit `0x1`).
    pub open spec fn spec_is_locked(&self) -> bool {
        self.0 & 0x1 != 0
    }

    pub fn is_locked(&self) -> (r: bool)
        ensures
            r == self.spec_is_locked(),
    {
        self.0 & 0x1 != 0
    }

    /// The file may not be deleted (bit `0x2`).
    pub open spec fn spec_is_protected(&self) -> bool {
        self.0 & 0x2 != 0
    }

    pub fn is_protected(&self) -> (r: bool)
        ensures
            r == self.spec_is_protected(),
    {
        self.0 & 0x2 != 0
    }
}

} // verus!
