use crate::ttf::types::{
    be_i16, be_i16_seq, be_i32, be_i64, be_u16, be_u16_seq, be_u32, int16, uint16, uint32, Fixed, Reader,
    Version16Dot16, LONGDATETIME,
};
use vstd::prelude::*;

verus! {

/// The font header table (`head`).
pub struct HeadTable {
    pub major_version: uint16,
    pub minor_version: uint16,
    pub font_revision: Fixed,
    pub check_sum_adjustment: uint32,
    pub magic_number: uint32,
    pub flags: uint16,
    pub units_per_em: uint16,
    pub created: LONGDATETIME,
    pub modified: LONGDATETIME,
    pub x_min: int16,
    pub y_min: int16,
    pub x_max: int16,
    pub y_max: int16,
    pub mac_style: uint16,
    pub lowest_rec_ppem: uint16,
    pub font_direction_hint: int16,
    pub index_to_loc_format: int16,
    pub glyph_data_format: int16,
}

impl HeadTable {
    pub const TAG: &'static str = "head";

    /// The number of bytes the table takes.
    pub open spec fn size() -> int {
        54
    }

    /// `self` holds the `head` table stored at `d[p..]`.
    pub open spec fn is_read_from(&self, d: Seq<u8>, p: int) -> bool {
        &&& self.major_version == be_u16(d, p)
        &&& self.minor_version == be_u16(d, p + 2)
        &&& self.font_revision == be_i32(d, p + 4)
        &&& self.check_sum_adjustment == be_u32(d, p + 8)
        &&& self.magic_number == be_u32(d, p + 12)
        &&& self.flags == be_u16(d, p + 16)
        &&& self.units_per_em == be_u16(d, p + 18)
        &&& self.created.0 == be_i64(d, p + 20)
        &&& self.modified.0 == be_i64(d, p + 28)
        &&& self.x_min == be_i16(d, p + 36)
        &&& self.y_min == be_i16(d, p + 38)
        &&& self.x_max == be_i16(d, p + 40)
        &&& self.y_max == be_i16(d, p + 42)
        &&& self.mac_style == be_u16(d, p + 44)
        &&& self.lowest_rec_ppem == be_u16(d, p + 46)
        &&& self.font_direction_hint == be_i16(d, p + 48)
        &&& self.index_to_loc_format == be_i16(d, p + 50)
        &&& self.glyph_data_format == be_i16(d, p + 52)
    }

    pub fn read_from(reader: &mut Reader) -> (res: Self)
        requires
            old(reader).has(HeadTable::size()),
        ensures
            res.is_read_from(old(reader).data(), old(reader).pos()),
            final(reader).advanced(*old(reader), HeadTable::size()),
    {
        HeadTable {
            major_version: reader.read_uint16(),
            minor_version: reader.read_uint16(),
            font_revision: reader.read_fixed(),
            check_sum_adjustment: reader.read_uint32(),
            magic_number: reader.read_uint32(),
            flags: reader.read_uint16(),
            units_per_em: reader.read_uint16(),
            created: reader.read_longdatetime(),
            modified: reader.read_longdatetime(),
            x_min: reader.read_int16(),
            y_min: reader.read_int16(),
            x_max: reader.read_int16(),
            y_max: reader.read_int16(),
            mac_style: reader.read_uint16(),
            lowest_rec_ppem: reader.read_uint16(),
            font_direction_hint: reader.read_int16(),
            index_to_loc_format: reader.read_int16(),
            glyph_data_format: reader.read_int16(),
        }
    }
}

/// The `maxp` table in its short form: only the glyph count.
pub struct MaxpTable0_5 {
    pub version: Version16Dot16,
    pub num_glyphs: uint16,
}

/// The `maxp` table in its full form.
pub struct MaxpTable1_0 {
    pub version: Version16Dot16,
    pub num_glyphs: uint16,
    pub max_points: uint16,
    pub max_contours: uint16,
    pub max_composite_points: uint16,
    pub max_composite_contours: uint16,
    pub max_zones: uint16,
    pub max_twilight_points: uint16,
    pub max_storage: uint16,
    pub max_function_defs: uint16,
    pub max_instruction_defs: uint16,
    pub max_stack_elements: uint16,
    pub max_size_of_instructions: uint16,
    pub max_component_elements: uint16,
    pub max_component_depth: uint16,
}

pub enum MaxpTable {
    Version0_5(MaxpTable0_5),
    Version1_0(MaxpTable1_0),
}

impl MaxpTable {
    pub const TAG: &'static str = "maxp";

    /// The version word the short form is recognised by: `from_major_minor(0, 5)`.
    pub open spec fn short_version() -> u32 {
        5
    }

    /// The version word the full form is recognised by: `from_major_minor(1, 0)`.
    pub open spec fn full_version() -> u32 {
        0x10000
    }

    /// The version word of the table at `d[p..]`.
    pub open spec fn version_at(d: Seq<u8>, p: int) -> u32 {
        be_u32(d, p)
    }

    /// The table at `d[p..]` has a version this reader knows and lies inside `d`.
    pub open spec fn fits(d: Seq<u8>, p: int) -> bool {
        &&& p + 6 <= d.len()
        &&& {
            ||| MaxpTable::version_at(d, p) == MaxpTable::short_version()
            ||| (MaxpTable::version_at(d, p) == MaxpTable::full_version() && p + 32 <= d.len())
        }
    }

    /// The number of bytes the table at `d[p..]` takes.
    pub open spec fn size_at(d: Seq<u8>, p: int) -> int {
        if MaxpTable::version_at(d, p) == MaxpTable::short_version() {
            6
        } else {
            32
        }
    }

    /// `self` holds the `maxp` table stored at `d[p..]`, in the form its
    /// version word selects.
    pub open spec fn is_read_from(&self, d: Seq<u8>, p: int) -> bool {
        match self {
            MaxpTable::Version0_5(t) => {
                &&& MaxpTable::version_at(d, p) == MaxpTable::short_version()
                &&& t.version == Version16Dot16(be_u32(d, p))
                &&& t.num_glyphs == be_u16(d, p + 4)
            },
            MaxpTable::Version1_0(t) => {
                &&& MaxpTable::version_at(d, p) == MaxpTable::full_version()
                &&& t.version == Version16Dot16(be_u32(d, p))
                &&& t.num_glyphs == be_u16(d, p + 4)
                &&& t.max_points == be_u16(d, p + 6)
                &&& t.max_contours == be_u16(d, p + 8)
                &&& t.max_composite_points == be_u16(d, p + 10)
                &&& t.max_composite_contours == be_u16(d, p + 12)
                &&& t.max_zones == be_u16(d, p + 14)
                &&& t.max_twilight_points == be_u16(d, p + 16)
                &&& t.max_storage == be_u16(d, p + 18)
                &&& t.max_function_defs == be_u16(d, p + 20)
                &&& t.max_instruction_defs == be_u16(d, p + 22)
                &&& t.max_stack_elements == be_u16(d, p + 24)
                &&& t.max_size_of_instructions == be_u16(d, p + 26)
                &&& t.max_component_elements == be_u16(d, p + 28)
                &&& t.max_component_depth == be_u16(d, p + 30)
            },
        }
    }

    /// Reads the table at the cursor, or gives `None` where its version is
    /// neither form or it does not fit in the data.
    pub fn try_read_from(reader: &mut Reader) -> (res: Option<Self>)
        ensures
            res is Some <==> MaxpTable::fits(old(reader).data(), old(reader).pos()),
            res matches Some(t) ==> {
                &&& t.is_read_from(old(reader).data(), old(reader).pos())
                &&& final(reader).advanced(
                    *old(reader),
                    MaxpTable::size_at(old(reader).data(), old(reader).pos()),
                )
            },
    {
        if reader.remaining() < 6 {
            return None;
        }
        assert(((0u16 as u32) << 16u32) | (5u16 as u32) == 5u32) by (bit_vector);
        assert(((1u16 as u32) << 16u32) | (0u16 as u32) == 0x10000u32) by (bit_vector);
        let version = reader.read_version16dot16();
        let num_glyphs = reader.read_uint16();

        if version == Version16Dot16::from_major_minor(0, 5) {
            Some(MaxpTable::Version0_5(MaxpTable0_5 { version, num_glyphs }))
        } else if version == Version16Dot16::from_major_minor(1, 0) {
            if reader.remaining() < 26 {
                return None;
            }
            Some(
                MaxpTable::Version1_0(
                    MaxpTable1_0 {
                        version,
                        num_glyphs,
                        max_points: reader.read_uint16(),
                        max_contours: reader.read_uint16(),
                        max_composite_points: reader.read_uint16(),
                        max_composite_contours: reader.read_uint16(),
                        max_zones: reader.read_uint16(),
                        max_twilight_points: reader.read_uint16(),
                        max_storage: reader.read_uint16(),
                        max_function_defs: reader.read_uint16(),
                        max_instruction_defs: reader.read_uint16(),
                        max_stack_elements: reader.read_uint16(),
                        max_size_of_instructions: reader.read_uint16(),
                        max_component_elements: reader.read_uint16(),
                        max_component_depth: reader.read_uint16(),
                    },
                ),
            )
        } else {
            None
        }
    }

    pub fn read_from(reader: &mut Reader) -> (res: Self)
        requires
            MaxpTable::fits(old(reader).data(), old(reader).pos()),
        ensures
            res.is_read_from(old(reader).data(), old(reader).pos()),
            final(reader).advanced(
                *old(reader),
                MaxpTable::size_at(old(reader).data(), old(reader).pos()),
            ),
    {
        match MaxpTable::try_read_from(reader) {
            Some(t) => t,
            None => unreached(),
        }
    }
}

/// The full `maxp` table is the version word, then `num_glyphs`, then the
/// thirteen limits as consecutive 16-bit words in the order the table
/// declares them (`max_points` first, `max_component_depth` last).
pub proof fn lemma_maxp_full_word_layout(t: MaxpTable, d: Seq<u8>, p: int)
    requires
        t.is_read_from(d, p),
        t is Version1_0,
    ensures
        match t {
            MaxpTable::Version1_0(m) => {
                &&& m.version.0 == be_u32(d, p)
                &&& m.num_glyphs == be_u16(d, p + 4)
                &&& seq![
                    m.max_points,
                    m.max_contours,
                    m.max_composite_points,
                    m.max_composite_contours,
                    m.max_zones,
                    m.max_twilight_points,
                    m.max_storage,
                    m.max_function_defs,
                    m.max_instruction_defs,
                    m.max_stack_elements,
                    m.max_size_of_instructions,
                    m.max_component_elements,
                    m.max_component_depth,
                ] == be_u16_seq(d, p + 6, 13)
            },
            MaxpTable::Version0_5(_) => false,
        },
{
    if let MaxpTable::Version1_0(m) = t {
        let words = seq![
            m.max_points,
            m.max_contours,
            m.max_composite_points,
            m.max_composite_contours,
            m.max_zones,
            m.max_twilight_points,
            m.max_storage,
            m.max_function_defs,
            m.max_instruction_defs,
            m.max_stack_elements,
            m.max_size_of_instructions,
            m.max_component_elements,
            m.max_component_depth,
        ];
        assert(words =~= be_u16_seq(d, p + 6, 13));
    }
}

/// The `head` table's 16-bit fields lie where the table's layout puts them:
/// the version pair first, `flags` and `units_per_em` after the two 32-bit
/// words, the bounding box as four consecutive signed words in the order
/// x_min, y_min, x_max, y_max, then `mac_style` and `lowest_rec_ppem`, and
/// last the three signed format words.
pub proof fn lemma_head_word_layout(t: HeadTable, d: Seq<u8>, p: int)
    requires
        t.is_read_from(d, p),
    ensures
        seq![t.major_version, t.minor_version] == be_u16_seq(d, p, 2),
        seq![t.flags, t.units_per_em] == be_u16_seq(d, p + 16, 2),
        seq![t.x_min, t.y_min, t.x_max, t.y_max] == be_i16_seq(d, p + 36, 4),
        seq![t.mac_style, t.lowest_rec_ppem] == be_u16_seq(d, p + 44, 2),
        seq![t.font_direction_hint, t.index_to_loc_format, t.glyph_data_format] == be_i16_seq(
            d,
            p + 48,
            3,
        ),
{
    assert(seq![t.major_version, t.minor_version] =~= be_u16_seq(d, p, 2));
    assert(seq![t.flags, t.units_per_em] =~= be_u16_seq(d, p + 16, 2));
    assert(seq![t.x_min, t.y_min, t.x_max, t.y_max] =~= be_i16_seq(d, p + 36, 4));
    assert(seq![t.mac_style, t.lowest_rec_ppem] =~= be_u16_seq(d, p + 44, 2));
    assert(seq![t.font_direction_hint, t.index_to_loc_format, t.glyph_data_format]
        =~= be_i16_seq(d, p + 48, 3));
}

} // verus!
