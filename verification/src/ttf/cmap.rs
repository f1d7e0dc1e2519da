use crate::ttf::types::{
    be_i16_seq, be_u16, be_u16_seq, be_u32, int16, read_int16_vec, read_uint16_vec, uint16,
    uint24, uint32, uint8, Offset32, Reader,
};
use vstd::prelude::*;

verus! {

/// The header of the `cmap` table and its encoding records.
pub struct CmapHeader {
    pub version: uint16,
    pub num_tables: uint16,
    pub encoding_records: Vec<CmapEncodingRecord>,
}

/// Which platform and encoding a subtable serves, and where it starts
/// (relative to the `cmap` table).
pub struct CmapEncodingRecord {
    pub platform_id: PlatformId,
    pub encoding_id: uint16,
    pub offset: uint16,
}

/// Platform identifiers; a code outside 0..=4 is read as `Custom`.
#[derive(PartialEq, Eq, Structural, Debug, Clone, Copy)]
pub enum PlatformId {
    /// Code 0.
    Unicode,
    /// Code 1.
    Macintosh,
    /// Code 2.
    Iso,
    /// Code 3.
    Windows,
    /// Code 4.
    Custom,
}

/// The platform a known code stands for.
pub open spec fn platform_for_code(value: u16) -> Result<PlatformId, ()> {
    if value == 0 {
        Ok(PlatformId::Unicode)
    } else if value == 1 {
        Ok(PlatformId::Macintosh)
    } else if value == 2 {
        Ok(PlatformId::Iso)
    } else if value == 3 {
        Ok(PlatformId::Windows)
    } else if value == 4 {
        Ok(PlatformId::Custom)
    } else {
        Err(())
    }
}

impl PlatformId {
    /// The code each platform is numbered with: Unicode 0, Macintosh 1,
    /// ISO 2, Windows 3, Custom 4.
    pub open spec fn code(self) -> u16 {
        match self {
            PlatformId::Unicode => 0,
            PlatformId::Macintosh => 1,
            PlatformId::Iso => 2,
            PlatformId::Windows => 3,
            PlatformId::Custom => 4,
        }
    }
}

/// `PlatformId::try_from` gives back each platform from its code, gives a
/// platform only for its own code, and refuses exactly the codes above 4.
pub proof fn lemma_platform_codes_round_trip(id: PlatformId, value: u16)
    ensures
        platform_for_code(id.code()) == Ok::<PlatformId, ()>(id),
        platform_for_code(value) matches Ok(q) ==> q.code() == value,
        platform_for_code(value) is Err <==> value > 4,
{
}

impl TryFrom<uint16> for PlatformId {
    type Error = ();

    fn try_from(value: uint16) -> (res: Result<Self, Self::Error>) {
        match value {
            0 => Ok(PlatformId::Unicode),
            1 => Ok(PlatformId::Macintosh),
            2 => Ok(PlatformId::Iso),
            3 => Ok(PlatformId::Windows),
            4 => Ok(PlatformId::Custom),
            _ => Err(()),
        }
    }
}

impl vstd::std_specs::convert::TryFromSpecImpl<uint16> for PlatformId {
    open spec fn obeys_try_from_spec() -> bool {
        true
    }

    open spec fn try_from_spec(v: uint16) -> Result<Self, ()> {
        platform_for_code(v)
    }
}

/// Encoding identifiers of the Unicode platform: codes 0 to 6 in order.
pub enum UnicodeEncodingId {
    Unicode1_0,
    Unicode1_1,
    Iso10646,
    Unicode2_0BMP,
    Unicode2_0Full,
    UnicodeVariationSequences,
    UnicodeFull,
}

/// Encoding identifiers of the ISO platform: codes 0 to 2 in order.
pub enum IsoEncodingId {
    Ascii,
    Iso10646,
    Iso8859_1,
}

/// Encoding identifiers of the Windows platform: codes 0 to 5 in order, then
/// `UnicodeFull` with code 10.
pub enum WindowsEncodingId {
    Symbol,
    UnicodeBMP,
    ShiftJIS,
    Big5,
    Wansung,
    Johab,
    UnicodeFull,
}

/// The platform a record names: the known code, else `Custom`.
pub open spec fn platform_of(value: u16) -> PlatformId {
    match platform_for_code(value) {
        Ok(p) => p,
        Err(_) => PlatformId::Custom,
    }
}

impl CmapEncodingRecord {
    /// The record stored in the six bytes at `d[p..]`.
    pub open spec fn spec_at(d: Seq<u8>, p: int) -> CmapEncodingRecord {
        CmapEncodingRecord {
            platform_id: platform_of(be_u16(d, p)),
            encoding_id: be_u16(d, p + 2),
            offset: be_u16(d, p + 4),
        }
    }
}

/// An encoding record is three consecutive words: the platform code (read
/// through `platform_of`), the encoding id, the subtable offset.
pub proof fn lemma_encoding_record_word_layout(d: Seq<u8>, p: int)
    ensures
        ({
            let r = CmapEncodingRecord::spec_at(d, p);
            &&& r.platform_id == platform_of(be_u16_seq(d, p, 3)[0])
            &&& r.encoding_id == be_u16_seq(d, p, 3)[1]
            &&& r.offset == be_u16_seq(d, p, 3)[2]
            &&& (be_u16_seq(d, p, 3)[0] <= 4 ==> r.platform_id.code() == be_u16_seq(d, p, 3)[0])
        }),
{
}

impl CmapHeader {
    /// The number of bytes the header at `d[p..]` takes.
    pub open spec fn size_at(d: Seq<u8>, p: int) -> int {
        4 + 6 * be_u16(d, p + 2)
    }

    /// The header at `d[p..]` lies inside `d`.
    pub open spec fn fits(d: Seq<u8>, p: int) -> bool {
        &&& p + 4 <= d.len()
        &&& p + CmapHeader::size_at(d, p) <= d.len()
    }

    /// `self` holds the `cmap` header stored at `d[p..]`.
    pub open spec fn is_read_from(&self, d: Seq<u8>, p: int) -> bool {
        &&& self.version == be_u16(d, p)
        &&& self.num_tables == be_u16(d, p + 2)
        &&& self.encoding_records@ == Seq::new(
            self.num_tables as nat,
            |k: int| CmapEncodingRecord::spec_at(d, p + 4 + 6 * k),
        )
    }

    /// Reads the header at the cursor, or gives `None` where it does not
    /// fit in the data.
    pub fn try_read_from(reader: &mut Reader) -> (res: Option<Self>)
        ensures
            res is Some <==> CmapHeader::fits(old(reader).data(), old(reader).pos()),
            res matches Some(h) ==> {
                &&& h.is_read_from(old(reader).data(), old(reader).pos())
                &&& final(reader).advanced(
                    *old(reader),
                    CmapHeader::size_at(old(reader).data(), old(reader).pos()),
                )
            },
    {
        let ghost d = reader.data();
        let ghost p = reader.pos();
        if reader.remaining() < 4 {
            return None;
        }
        let version = reader.read_uint16();
        let num_tables = reader.read_uint16();
        if reader.remaining() / 6 < num_tables as usize {
            return None;
        }
        let mut encoding_records: Vec<CmapEncodingRecord> = Vec::new();
        let mut i: u16 = 0;
        while i < num_tables
            invariant
                reader.data() == d,
                0 <= p,
                reader.pos() == p + 4 + 6 * i,
                p + 4 + 6 * num_tables <= d.len(),
                i <= num_tables,
                encoding_records@ == Seq::new(
                    i as nat,
                    |k: int| CmapEncodingRecord::spec_at(d, p + 4 + 6 * k),
                ),
            decreases num_tables - i,
        {
            let platform_id = match PlatformId::try_from(reader.read_uint16()) {
                Ok(id) => id,
                Err(_) => PlatformId::Custom,
            };
            let encoding_id = reader.read_uint16();
            let offset = reader.read_uint16();
            encoding_records.push(CmapEncodingRecord { platform_id, encoding_id, offset });
            i = i + 1;
            assert(encoding_records@ =~= Seq::new(
                i as nat,
                |k: int| CmapEncodingRecord::spec_at(d, p + 4 + 6 * k),
            ));
        }
        Some(CmapHeader { version, num_tables, encoding_records })
    }

    pub fn read_from(reader: &mut Reader) -> (res: Self)
        requires
            CmapHeader::fits(old(reader).data(), old(reader).pos()),
        ensures
            res.is_read_from(old(reader).data(), old(reader).pos()),
            final(reader).advanced(
                *old(reader),
                CmapHeader::size_at(old(reader).data(), old(reader).pos()),
            ),
    {
        match CmapHeader::try_read_from(reader) {
            Some(h) => h,
            None => unreached(),
        }
    }
}

/// Subtable format 0: a byte glyph index for each of 256 codes.
pub struct SubtableFormat0 {
    pub format: uint16,
    pub length: uint16,
    pub language: uint16,
    pub glyph_id_array: [uint8; 256],
}

impl SubtableFormat0 {
    /// The format-0 body at `d[p..]` lies inside `d`.
    pub open spec fn fits(d: Seq<u8>, p: int) -> bool {
        p + 260 <= d.len()
    }

    /// `self` holds the format-0 body stored at `d[p..]` (after the format word).
    pub open spec fn is_read_from(&self, format: u16, d: Seq<u8>, p: int) -> bool {
        &&& self.format == format
        &&& self.length == be_u16(d, p)
        &&& self.language == be_u16(d, p + 2)
        &&& self.glyph_id_array@ == d.subrange(p + 4, p + 260)
    }

    fn read_from(reader: &mut Reader, format: uint16) -> (res: Option<Self>)
        ensures
            res is Some <==> SubtableFormat0::fits(old(reader).data(), old(reader).pos()),
            res matches Some(t) ==> {
                &&& t.is_read_from(format, old(reader).data(), old(reader).pos())
                &&& final(reader).advanced(*old(reader), 260)
            },
    {
        let ghost d = reader.data();
        let ghost p = reader.pos();
        if reader.remaining() < 260 {
            return None;
        }
        let length = reader.read_uint16();
        let language = reader.read_uint16();

        let mut glyph_id_array: [uint8; 256] = [0; 256];
        let mut i: usize = 0;
        while i < 256
            invariant
                reader.data() == d,
                0 <= p,
                p + 260 <= d.len(),
                reader.pos() == p + 4 + i,
                i <= 256,
                forall|k: int| 0 <= k < i ==> glyph_id_array@[k] == d[p + 4 + k],
            decreases 256 - i,
        {
            glyph_id_array[i] = reader.read_uint8();
            i = i + 1;
        }
        assert(glyph_id_array@ =~= d.subrange(p + 4, p + 260));
        Some(SubtableFormat0 { format, length, language, glyph_id_array })
    }
}

/// Subtable format 2 (high-byte mapping). Only the header and the 256
/// sub-header keys are read; the sub-headers and glyph array stay empty.
pub struct SubtableFormat2 {
    pub format: uint16,
    pub length: uint16,
    pub language: uint16,
    pub sub_header_keys: [uint16; 256],
    pub sub_headers: Vec<SubHeader>,
    pub glyph_id_array: Vec<uint16>,
}

pub struct SubHeader {
    pub first_code: uint16,
    pub entry_count: uint16,
    pub id_delta: int16,
    pub id_range_offset: uint16,
}

impl SubtableFormat2 {
    /// The part of a format-2 body that is read lies inside `d`.
    pub open spec fn fits(d: Seq<u8>, p: int) -> bool {
        p + 516 <= d.len()
    }

    /// `self` holds the format-2 header and keys stored at `d[p..]`.
    pub open spec fn is_read_from(&self, format: u16, d: Seq<u8>, p: int) -> bool {
        &&& self.format == format
        &&& self.length == be_u16(d, p)
        &&& self.language == be_u16(d, p + 2)
        &&& self.sub_header_keys@ == be_u16_seq(d, p + 4, 256)
        &&& self.sub_headers@.len() == 0
        &&& self.glyph_id_array@.len() == 0
    }

    fn read_from(reader: &mut Reader, format: uint16) -> (res: Option<Self>)
        ensures
            res is Some <==> SubtableFormat2::fits(old(reader).data(), old(reader).pos()),
            res matches Some(t) ==> {
                &&& t.is_read_from(format, old(reader).data(), old(reader).pos())
                &&& final(reader).advanced(*old(reader), 516)
            },
    {
        let ghost d = reader.data();
        let ghost p = reader.pos();
        if reader.remaining() < 516 {
            return None;
        }
        let length = reader.read_uint16();
        let language = reader.read_uint16();

        let mut sub_header_keys: [uint16; 256] = [0; 256];
        let mut i: usize = 0;
        while i < 256
            invariant
                reader.data() == d,
                0 <= p,
                p + 516 <= d.len(),
                reader.pos() == p + 4 + 2 * i,
                i <= 256,
                forall|k: int| 0 <= k < i ==> sub_header_keys@[k] == be_u16(d, p + 4 + 2 * k),
            decreases 256 - i,
        {
            sub_header_keys[i] = reader.read_uint16();
            i = i + 1;
        }
        assert(sub_header_keys@ =~= be_u16_seq(d, p + 4, 256));
        Some(
            SubtableFormat2 {
                format,
                length,
                language,
                sub_header_keys,
                sub_headers: Vec::new(),
                glyph_id_array: Vec::new(),
            },
        )
    }
}

/// Subtable format 4: segment mapping to delta values.
pub struct SubtableFormat4 {
    pub format: uint16,
    pub length: uint16,
    pub seg_count_x2: uint16,
    pub search_range: uint16,
    pub entry_selector: uint16,
    pub range_shift: uint16,
    pub end_code: Vec<uint16>,
    pub reserved_pad: uint16,
    pub start_code: Vec<uint16>,
    pub id_delta: Vec<int16>,
    pub id_range_offset: Vec<uint16>,
    pub glyph_id_array: Vec<uint16>,
}

impl SubtableFormat4 {
    /// The number of segments: half of `seg_count_x2`, rounded down.
    pub open spec fn seg_count(d: Seq<u8>, p: int) -> int {
        (be_u16(d, p + 2) / 2) as int
    }

    /// What `length` leaves for the glyph index array, in entries:
    /// `(length - 14 - 8 * seg_count) / 2`.
    pub open spec fn glyph_count(d: Seq<u8>, p: int) -> int {
        (be_u16(d, p) - 14 - 8 * SubtableFormat4::seg_count(d, p)) / 2
    }

    /// The number of bytes the format-4 body at `d[p..]` takes.
    pub open spec fn size_at(d: Seq<u8>, p: int) -> int {
        12 + 8 * SubtableFormat4::seg_count(d, p) + 2 * SubtableFormat4::glyph_count(d, p)
    }

    /// The format-4 body at `d[p..]` lies inside `d` and its `length` covers
    /// the fixed part and the segment arrays.
    pub open spec fn fits(d: Seq<u8>, p: int) -> bool {
        &&& p + 10 <= d.len()
        &&& p + 12 + 8 * SubtableFormat4::seg_count(d, p) <= d.len()
        &&& be_u16(d, p) >= 14 + 8 * SubtableFormat4::seg_count(d, p)
        &&& p + SubtableFormat4::size_at(d, p) <= d.len()
    }

    /// `self` holds the format-4 body stored at `d[p..]`.
    pub open spec fn is_read_from(&self, format: u16, d: Seq<u8>, p: int) -> bool {
        let n = SubtableFormat4::seg_count(d, p);
        &&& self.format == format
        &&& self.length == be_u16(d, p)
        &&& self.seg_count_x2 == be_u16(d, p + 2)
        &&& self.search_range == be_u16(d, p + 4)
        &&& self.entry_selector == be_u16(d, p + 6)
        &&& self.range_shift == be_u16(d, p + 8)
        &&& self.end_code@ == be_u16_seq(d, p + 10, n as nat)
        &&& self.reserved_pad == be_u16(d, p + 10 + 2 * n)
        &&& self.start_code@ == be_u16_seq(d, p + 12 + 2 * n, n as nat)
        &&& self.id_delta@ == be_i16_seq(d, p + 12 + 4 * n, n as nat)
        &&& self.id_range_offset@ == be_u16_seq(d, p + 12 + 6 * n, n as nat)
        &&& self.glyph_id_array@ == be_u16_seq(
            d,
            p + 12 + 8 * n,
            SubtableFormat4::glyph_count(d, p) as nat,
        )
    }

    fn read_from(reader: &mut Reader, format: uint16) -> (res: Option<Self>)
        ensures
            res is Some <==> SubtableFormat4::fits(old(reader).data(), old(reader).pos()),
            res matches Some(t) ==> {
                &&& t.is_read_from(format, old(reader).data(), old(reader).pos())
                &&& final(reader).advanced(
                    *old(reader),
                    SubtableFormat4::size_at(old(reader).data(), old(reader).pos()),
                )
            },
    {
        let ghost d = reader.data();
        let ghost p = reader.pos();
        if reader.remaining() < 10 {
            return None;
        }
        let length = reader.read_uint16();
        let seg_count_x2 = reader.read_uint16();
        let search_range = reader.read_uint16();
        let entry_selector = reader.read_uint16();
        let range_shift = reader.read_uint16();

        let seg_count = seg_count_x2 / 2;
        let n = seg_count as usize;
        if reader.remaining() < 8 * n + 2 {
            return None;
        }
        let end_code = read_uint16_vec(reader, n);
        let reserved_pad = reader.read_uint16();
        let start_code = read_uint16_vec(reader, n);
        let id_delta = read_int16_vec(reader, n);
        let id_range_offset = read_uint16_vec(reader, n);

        if (length as usize) < 14 || (length as usize) - 14 < n * 8 {
            return None;
        }
        let glyph_id_array_length = ((length as usize) - 14 - (n * 8)) / 2;
        if reader.remaining() / 2 < glyph_id_array_length {
            return None;
        }
        let glyph_id_array = read_uint16_vec(reader, glyph_id_array_length);

        Some(
            SubtableFormat4 {
                format,
                length,
                seg_count_x2,
                search_range,
                entry_selector,
                range_shift,
                end_code,
                reserved_pad,
                start_code,
                id_delta,
                id_range_offset,
                glyph_id_array,
            },
        )
    }
}

/// The format-4 body is one run of 16-bit words: the five header words, then
/// `end_code`, `reserved_pad`, `start_code`, `id_delta` (as raw words),
/// `id_range_offset` and `glyph_id_array`, each array `seg_count` long but
/// the last, back to back in that order.
pub proof fn lemma_format4_word_layout(t: SubtableFormat4, d: Seq<u8>, p: int)
    requires
        t.is_read_from(4, d, p),
    ensures
        be_u16_seq(d, p, 5) == seq![
            t.length,
            t.seg_count_x2,
            t.search_range,
            t.entry_selector,
            t.range_shift,
        ],
        be_u16_seq(d, p + 10, (4 * (t.seg_count_x2 / 2) + 1) as nat) == t.end_code@ + seq![
            t.reserved_pad,
        ] + t.start_code@ + t.id_delta@.map_values(|x: i16| x as u16) + t.id_range_offset@,
        be_u16_seq(d, p + 12 + 8 * (t.seg_count_x2 / 2), t.glyph_id_array@.len())
            == t.glyph_id_array@,
{
    let n = (t.seg_count_x2 / 2) as int;
    assert(be_u16_seq(d, p, 5) =~= seq![
        t.length,
        t.seg_count_x2,
        t.search_range,
        t.entry_selector,
        t.range_shift,
    ]);
    let words = be_u16_seq(d, p + 10, (4 * n + 1) as nat);
    let joined = t.end_code@ + seq![t.reserved_pad] + t.start_code@ + t.id_delta@.map_values(
        |x: i16| x as u16,
    ) + t.id_range_offset@;
    assert forall|k: int| 2 * n + 1 <= k < 3 * n + 1 implies words[k] == joined[k] by {
        let w = be_u16(d, p + 10 + 2 * k);
        assert(((w as i16) as u16) == w) by (bit_vector);
        assert(p + 12 + 4 * n + 2 * (k - (2 * n + 1)) == p + 10 + 2 * k);
    }
    assert forall|k: int| 0 <= k < 4 * n + 1 implies words[k] == joined[k] by {
        if k < n {
        } else if k == n {
        } else if k < 2 * n + 1 {
            assert(p + 12 + 2 * n + 2 * (k - (n + 1)) == p + 10 + 2 * k);
        } else if k < 3 * n + 1 {
        } else {
            assert(p + 12 + 6 * n + 2 * (k - (3 * n + 1)) == p + 10 + 2 * k);
        }
    }
    assert(words =~= joined);
    assert(be_u16_seq(d, p + 12 + 8 * n, t.glyph_id_array@.len()) =~= t.glyph_id_array@);
}

/// Subtable format 6: a dense run of glyph indices for consecutive codes.
pub struct SubtableFormat6 {
    pub format: uint16,
    pub length: uint16,
    pub language: uint16,
    pub first_code: uint16,
    pub entry_count: uint16,
    pub glyph_id_array: Vec<uint16>,
}

impl SubtableFormat6 {
    /// The number of bytes the format-6 body at `d[p..]` takes.
    pub open spec fn size_at(d: Seq<u8>, p: int) -> int {
        8 + 2 * be_u16(d, p + 6)
    }

    /// The format-6 body at `d[p..]` lies inside `d`.
    pub open spec fn fits(d: Seq<u8>, p: int) -> bool {
        &&& p + 8 <= d.len()
        &&& p + SubtableFormat6::size_at(d, p) <= d.len()
    }

    /// `self` holds the format-6 body stored at `d[p..]`.
    pub open spec fn is_read_from(&self, format: u16, d: Seq<u8>, p: int) -> bool {
        &&& self.format == format
        &&& self.length == be_u16(d, p)
        &&& self.language == be_u16(d, p + 2)
        &&& self.first_code == be_u16(d, p + 4)
        &&& self.entry_count == be_u16(d, p + 6)
        &&& self.glyph_id_array@ == be_u16_seq(d, p + 8, self.entry_count as nat)
    }

    fn read_from(reader: &mut Reader, format: uint16) -> (res: Option<Self>)
        ensures
            res is Some <==> SubtableFormat6::fits(old(reader).data(), old(reader).pos()),
            res matches Some(t) ==> {
                &&& t.is_read_from(format, old(reader).data(), old(reader).pos())
                &&& final(reader).advanced(
                    *old(reader),
                    SubtableFormat6::size_at(old(reader).data(), old(reader).pos()),
                )
            },
    {
        if reader.remaining() < 8 {
            return None;
        }
        let length = reader.read_uint16();
        let language = reader.read_uint16();
        let first_code = reader.read_uint16();
        let entry_count = reader.read_uint16();
        if reader.remaining() / 2 < entry_count as usize {
            return None;
        }
        let glyph_id_array = read_uint16_vec(reader, entry_count as usize);
        Some(SubtableFormat6 { format, length, language, first_code, entry_count, glyph_id_array })
    }
}

/// A run of codes mapped to consecutive glyph indices.
pub struct SequentialMapGroup {
    pub start_char_code: uint32,
    pub end_char_code: uint32,
    pub start_glyph_id: uint32,
}

impl SequentialMapGroup {
    /// The group stored in the 12 bytes at `d[p..]`.
    pub open spec fn spec_at(d: Seq<u8>, p: int) -> SequentialMapGroup {
        SequentialMapGroup {
            start_char_code: be_u32(d, p),
            end_char_code: be_u32(d, p + 4),
            start_glyph_id: be_u32(d, p + 8),
        }
    }
}

/// A sequential map group is three consecutive 32-bit words: start code,
/// end code, start glyph id.
pub proof fn lemma_sequential_group_word_layout(d: Seq<u8>, p: int)
    ensures
        ({
            let g = SequentialMapGroup::spec_at(d, p);
            seq![g.start_char_code, g.end_char_code, g.start_glyph_id] == Seq::new(
                3,
                |k: int| be_u32(d, p + 4 * k),
            )
        }),
{
    let g = SequentialMapGroup::spec_at(d, p);
    assert(seq![g.start_char_code, g.end_char_code, g.start_glyph_id] =~= Seq::new(
        3,
        |k: int| be_u32(d, p + 4 * k),
    ));
}

/// Reads `n` sequential map groups.
fn read_sequential_groups(reader: &mut Reader, n: uint32) -> (res: Vec<SequentialMapGroup>)
    requires
        old(reader).has(12 * n),
    ensures
        final(reader).advanced(*old(reader), 12 * n),
        res@ == Seq::new(
            n as nat,
            |k: int| SequentialMapGroup::spec_at(old(reader).data(), old(reader).pos() + 12 * k),
        ),
{
    let ghost d = reader.data();
    let ghost p = reader.pos();
    let mut groups: Vec<SequentialMapGroup> = Vec::new();
    let mut i: u32 = 0;
    while i < n
        invariant
            reader.data() == d,
            0 <= p,
            p + 12 * n <= d.len(),
            reader.pos() == p + 12 * i,
            i <= n,
            groups@ == Seq::new(i as nat, |k: int| SequentialMapGroup::spec_at(d, p + 12 * k)),
        decreases n - i,
    {
        let start_char_code = reader.read_uint32();
        let end_char_code = reader.read_uint32();
        let start_glyph_id = reader.read_uint32();
        groups.push(SequentialMapGroup { start_char_code, end_char_code, start_glyph_id });
        i = i + 1;
        assert(groups@ =~= Seq::new(
            i as nat,
            |k: int| SequentialMapGroup::spec_at(d, p + 12 * k),
        ));
    }
    groups
}

/// Subtable format 8: mixed 16-bit and 32-bit coverage. The `is32` bitmap
/// is not read and stays empty.
pub struct SubtableFormat8 {
    pub format: uint16,
    pub length: uint32,
    pub language: uint32,
    pub is32: Vec<uint32>,
    pub num_groups: uint32,
    pub groups: Vec<SequentialMapGroup>,
}

impl SubtableFormat8 {
    /// The number of bytes the format-8 body at `d[p..]` takes.
    pub open spec fn size_at(d: Seq<u8>, p: int) -> int {
        12 + 12 * be_u32(d, p + 8)
    }

    /// The format-8 body at `d[p..]` lies inside `d`.
    pub open spec fn fits(d: Seq<u8>, p: int) -> bool {
        &&& p + 12 <= d.len()
        &&& p + SubtableFormat8::size_at(d, p) <= d.len()
    }

    /// `self` holds the format-8 body stored at `d[p..]`.
    pub open spec fn is_read_from(&self, format: u16, d: Seq<u8>, p: int) -> bool {
        &&& self.format == format
        &&& self.length == be_u32(d, p)
        &&& self.language == be_u32(d, p + 4)
        &&& self.is32@.len() == 0
        &&& self.num_groups == be_u32(d, p + 8)
        &&& self.groups@ == Seq::new(
            self.num_groups as nat,
            |k: int| SequentialMapGroup::spec_at(d, p + 12 + 12 * k),
        )
    }

    fn read_from(reader: &mut Reader, format: uint16) -> (res: Option<Self>)
        ensures
            res is Some <==> SubtableFormat8::fits(old(reader).data(), old(reader).pos()),
            res matches Some(t) ==> {
                &&& t.is_read_from(format, old(reader).data(), old(reader).pos())
                &&& final(reader).advanced(
                    *old(reader),
                    SubtableFormat8::size_at(old(reader).data(), old(reader).pos()),
                )
            },
    {
        if reader.remaining() < 12 {
            return None;
        }
        let length = reader.read_uint32();
        let language = reader.read_uint32();
        let num_groups = reader.read_uint32();
        if ((reader.remaining() / 12) as u64) < num_groups as u64 {
            return None;
        }
        let groups = read_sequential_groups(reader, num_groups);
        Some(SubtableFormat8 { format, length, language, is32: Vec::new(), num_groups, groups })
    }
}

/// Subtable format 10: a trimmed array of glyph indices for 32-bit codes.
pub struct SubtableFormat10 {
    pub format: uint16,
    pub length: uint32,
    pub language: uint32,
    pub start_char_code: uint32,
    pub num_char_codes: uint32,
    pub glyph_id_array: Vec<uint16>,
}

impl SubtableFormat10 {
    /// The number of bytes the format-10 body at `d[p..]` takes.
    pub open spec fn size_at(d: Seq<u8>, p: int) -> int {
        16 + 2 * be_u32(d, p + 12)
    }

    /// The format-10 body at `d[p..]` lies inside `d`.
    pub open spec fn fits(d: Seq<u8>, p: int) -> bool {
        &&& p + 16 <= d.len()
        &&& p + SubtableFormat10::size_at(d, p) <= d.len()
    }

    /// `self` holds the format-10 body stored at `d[p..]`.
    pub open spec fn is_read_from(&self, format: u16, d: Seq<u8>, p: int) -> bool {
        &&& self.format == format
        &&& self.length == be_u32(d, p)
        &&& self.language == be_u32(d, p + 4)
        &&& self.start_char_code == be_u32(d, p + 8)
        &&& self.num_char_codes == be_u32(d, p + 12)
        &&& self.glyph_id_array@ == be_u16_seq(d, p + 16, self.num_char_codes as nat)
    }

    fn read_from(reader: &mut Reader, format: uint16) -> (res: Option<Self>)
        ensures
            res is Some <==> SubtableFormat10::fits(old(reader).data(), old(reader).pos()),
            res matches Some(t) ==> {
                &&& t.is_read_from(format, old(reader).data(), old(reader).pos())
                &&& final(reader).advanced(
                    *old(reader),
                    SubtableFormat10::size_at(old(reader).data(), old(reader).pos()),
                )
            },
    {
        if reader.remaining() < 16 {
            return None;
        }
        let length = reader.read_uint32();
        let language = reader.read_uint32();
        let start_char_code = reader.read_uint32();
        let num_char_codes = reader.read_uint32();
        if ((reader.remaining() / 2) as u64) < num_char_codes as u64 {
            return None;
        }
        let glyph_id_array = read_uint16_vec(reader, num_char_codes as usize);
        Some(
            SubtableFormat10 {
                format,
                length,
                language,
                start_char_code,
                num_char_codes,
                glyph_id_array,
            },
        )
    }
}

/// Subtable format 12: segmented coverage.
pub struct SubtableFormat12 {
    pub format: uint16,
    pub length: uint32,
    pub language: uint32,
    pub num_groups: uint32,
    pub groups: Vec<SequentialMapGroup>,
}

impl SubtableFormat12 {
    /// The number of bytes the format-12 body at `d[p..]` takes.
    pub open spec fn size_at(d: Seq<u8>, p: int) -> int {
        12 + 12 * be_u32(d, p + 8)
    }

    /// The format-12 body at `d[p..]` lies inside `d`.
    pub open spec fn fits(d: Seq<u8>, p: int) -> bool {
        &&& p + 12 <= d.len()
        &&& p + SubtableFormat12::size_at(d, p) <= d.len()
    }

    /// `self` holds the format-12 body stored at `d[p..]`.
    pub open spec fn is_read_from(&self, format: u16, d: Seq<u8>, p: int) -> bool {
        &&& self.format == format
        &&& self.length == be_u32(d, p)
        &&& self.language == be_u32(d, p + 4)
        &&& self.num_groups == be_u32(d, p + 8)
        &&& self.groups@ == Seq::new(
            self.num_groups as nat,
            |k: int| SequentialMapGroup::spec_at(d, p + 12 + 12 * k),
        )
    }

    fn read_from(reader: &mut Reader, format: uint16) -> (res: Option<Self>)
        ensures
            res is Some <==> SubtableFormat12::fits(old(reader).data(), old(reader).pos()),
            res matches Some(t) ==> {
                &&& t.is_read_from(format, old(reader).data(), old(reader).pos())
                &&& final(reader).advanced(
                    *old(reader),
                    SubtableFormat12::size_at(old(reader).data(), old(reader).pos()),
                )
            },
    {
        if reader.remaining() < 12 {
            return None;
        }
        let length = reader.read_uint32();
        let language = reader.read_uint32();
        let num_groups = reader.read_uint32();
        if ((reader.remaining() / 12) as u64) < num_groups as u64 {
            return None;
        }
        let groups = read_sequential_groups(reader, num_groups);
        Some(SubtableFormat12 { format, length, language, num_groups, groups })
    }
}

/// Formats 8 and 12 decode the bytes after the format word alike: read from
/// the same place, they agree on length, language, group count, groups and
/// size.
pub proof fn lemma_format8_format12_same_groups(
    a: SubtableFormat8,
    b: SubtableFormat12,
    d: Seq<u8>,
    p: int,
)
    requires
        a.is_read_from(8, d, p),
        b.is_read_from(12, d, p),
    ensures
        a.length == b.length,
        a.language == b.language,
        a.num_groups == b.num_groups,
        a.groups@ == b.groups@,
        SubtableFormat8::size_at(d, p) == SubtableFormat12::size_at(d, p),
        SubtableFormat8::fits(d, p) == SubtableFormat12::fits(d, p),
{
}

/// A run of codes all mapped to one glyph.
pub struct ConstantMapGroup {
    pub start_char_code: uint32,
    pub end_char_code: uint32,
    pub glyph_id: uint32,
}

impl ConstantMapGroup {
    /// The group stored in the 12 bytes at `d[p..]`.
    pub open spec fn spec_at(d: Seq<u8>, p: int) -> ConstantMapGroup {
        ConstantMapGroup {
            start_char_code: be_u32(d, p),
            end_char_code: be_u32(d, p + 4),
            glyph_id: be_u32(d, p + 8),
        }
    }
}

/// Subtable format 13: many-to-one range mappings.
pub struct SubtableFormat13 {
    pub format: uint16,
    pub length: uint32,
    pub language: uint32,
    pub num_groups: uint32,
    pub groups: Vec<ConstantMapGroup>,
}

impl SubtableFormat13 {
    /// The number of bytes the format-13 body at `d[p..]` takes.
    pub open spec fn size_at(d: Seq<u8>, p: int) -> int {
        12 + 12 * be_u32(d, p + 8)
    }

    /// The format-13 body at `d[p..]` lies inside `d`.
    pub open spec fn fits(d: Seq<u8>, p: int) -> bool {
        &&& p + 12 <= d.len()
        &&& p + SubtableFormat13::size_at(d, p) <= d.len()
    }

    /// `self` holds the format-13 body stored at `d[p..]`.
    pub open spec fn is_read_from(&self, format: u16, d: Seq<u8>, p: int) -> bool {
        &&& self.format == format
        &&& self.length == be_u32(d, p)
        &&& self.language == be_u32(d, p + 4)
        &&& self.num_groups == be_u32(d, p + 8)
        &&& self.groups@ == Seq::new(
            self.num_groups as nat,
            |k: int| ConstantMapGroup::spec_at(d, p + 12 + 12 * k),
        )
    }

    fn read_from(reader: &mut Reader, format: uint16) -> (res: Option<Self>)
        ensures
            res is Some <==> SubtableFormat13::fits(old(reader).data(), old(reader).pos()),
            res matches Some(t) ==> {
                &&& t.is_read_from(format, old(reader).data(), old(reader).pos())
                &&& final(reader).advanced(
                    *old(reader),
                    SubtableFormat13::size_at(old(reader).data(), old(reader).pos()),
                )
            },
    {
        let ghost d = reader.data();
        let ghost p = reader.pos();
        if reader.remaining() < 12 {
            return None;
        }
        let length = reader.read_uint32();
        let language = reader.read_uint32();
        let num_groups = reader.read_uint32();
        if ((reader.remaining() / 12) as u64) < num_groups as u64 {
            return None;
        }
        let mut groups: Vec<ConstantMapGroup> = Vec::new();
        let mut i: u32 = 0;
        while i < num_groups
            invariant
                reader.data() == d,
                0 <= p,
                p + 12 + 12 * num_groups <= d.len(),
                reader.pos() == p + 12 + 12 * i,
                i <= num_groups,
                groups@ == Seq::new(
                    i as nat,
                    |k: int| ConstantMapGroup::spec_at(d, p + 12 + 12 * k),
                ),
            decreases num_groups - i,
        {
            let start_char_code = reader.read_uint32();
            let end_char_code = reader.read_uint32();
            let glyph_id = reader.read_uint32();
            groups.push(ConstantMapGroup { start_char_code, end_char_code, glyph_id });
            i = i + 1;
            assert(groups@ =~= Seq::new(
                i as nat,
                |k: int| ConstantMapGroup::spec_at(d, p + 12 + 12 * k),
            ));
        }
        Some(SubtableFormat13 { format, length, language, num_groups, groups })
    }
}

/// Where the default and non-default variation tables of one selector lie.
pub struct VarSelectorRecord {
    pub var_selector: uint24,
    pub default_uvs_offset: Offset32,
    pub non_default_uvs_offset: Offset32,
}

impl VarSelectorRecord {
    /// `self` holds the 11-byte record stored at `d[p..]`.
    pub open spec fn is_read_from(&self, d: Seq<u8>, p: int) -> bool {
        &&& self.var_selector@ == d.subrange(p, p + 3)
        &&& self.default_uvs_offset == be_u32(d, p + 3)
        &&& self.non_default_uvs_offset == be_u32(d, p + 7)
    }
}

/// Subtable format 14: Unicode variation sequences (selector records only).
pub struct SubtableFormat14 {
    pub format: uint16,
    pub length: uint32,
    pub number_of_var_selector_records: uint32,
    pub var_selector_records: Vec<VarSelectorRecord>,
}

impl SubtableFormat14 {
    /// The number of bytes the format-14 body at `d[p..]` takes.
    pub open spec fn size_at(d: Seq<u8>, p: int) -> int {
        8 + 11 * be_u32(d, p + 4)
    }

    /// The format-14 body at `d[p..]` lies inside `d`.
    pub open spec fn fits(d: Seq<u8>, p: int) -> bool {
        &&& p + 8 <= d.len()
        &&& p + SubtableFormat14::size_at(d, p) <= d.len()
    }

    /// `self` holds the format-14 body stored at `d[p..]`.
    pub open spec fn is_read_from(&self, format: u16, d: Seq<u8>, p: int) -> bool {
        &&& self.format == format
        &&& self.length == be_u32(d, p)
        &&& self.number_of_var_selector_records == be_u32(d, p + 4)
        &&& self.var_selector_records@.len() == self.number_of_var_selector_records
        &&& forall|k: int|
            0 <= k < self.var_selector_records@.len() ==> (#[trigger] self.var_selector_records@[k]).is_read_from(d, p + 8 + 11 * k)
    }

    fn read_from(reader: &mut Reader, format: uint16) -> (res: Option<Self>)
        ensures
            res is Some <==> SubtableFormat14::fits(old(reader).data(), old(reader).pos()),
            res matches Some(t) ==> {
                &&& t.is_read_from(format, old(reader).data(), old(reader).pos())
                &&& final(reader).advanced(
                    *old(reader),
                    SubtableFormat14::size_at(old(reader).data(), old(reader).pos()),
                )
            },
    {
        let ghost d = reader.data();
        let ghost p = reader.pos();
        if reader.remaining() < 8 {
            return None;
        }
        let length = reader.read_uint32();
        let number_of_var_selector_records = reader.read_uint32();
        if ((reader.remaining() / 11) as u64) < number_of_var_selector_records as u64 {
            return None;
        }
        let mut var_selector_records: Vec<VarSelectorRecord> = Vec::new();
        let mut i: u32 = 0;
        while i < number_of_var_selector_records
            invariant
                reader.data() == d,
                0 <= p,
                p + 8 + 11 * number_of_var_selector_records <= d.len(),
                reader.pos() == p + 8 + 11 * i,
                i <= number_of_var_selector_records,
                var_selector_records@.len() == i,
                forall|k: int|
                    0 <= k < i ==> (#[trigger] var_selector_records@[k]).is_read_from(
                        d,
                        p + 8 + 11 * k,
                    ),
            decreases number_of_var_selector_records - i,
        {
            let var_selector = reader.read_uint24();
            let default_uvs_offset = reader.read_offset32();
            let non_default_uvs_offset = reader.read_offset32();
            var_selector_records.push(
                VarSelectorRecord { var_selector, default_uvs_offset, non_default_uvs_offset },
            );
            i = i + 1;
        }
        Some(
            SubtableFormat14 {
                format,
                length,
                number_of_var_selector_records,
                var_selector_records,
            },
        )
    }
}

/// A character-to-glyph mapping subtable, in one of the formats this reader knows.
pub enum CmapSubtable {
    Format0(SubtableFormat0),
    Format2(SubtableFormat2),
    Format4(SubtableFormat4),
    Format6(SubtableFormat6),
    Format8(SubtableFormat8),
    Format10(SubtableFormat10),
    Format12(SubtableFormat12),
    Format13(SubtableFormat13),
    Format14(SubtableFormat14),
}

impl CmapSubtable {
    /// The format word of the subtable at `d[q..]`.
    pub open spec fn format_at(d: Seq<u8>, q: int) -> u16 {
        be_u16(d, q)
    }

    /// The subtable at `d[q..]` has a known format and lies inside `d`.
    pub open spec fn fits(d: Seq<u8>, q: int) -> bool {
        let f = CmapSubtable::format_at(d, q);
        let p = q + 2;
        &&& 0 <= q
        &&& q + 2 <= d.len()
        &&& if f == 0 {
            SubtableFormat0::fits(d, p)
        } else if f == 2 {
            SubtableFormat2::fits(d, p)
        } else if f == 4 {
            SubtableFormat4::fits(d, p)
        } else if f == 6 {
            SubtableFormat6::fits(d, p)
        } else if f == 8 {
            SubtableFormat8::fits(d, p)
        } else if f == 10 {
            SubtableFormat10::fits(d, p)
        } else if f == 12 {
            SubtableFormat12::fits(d, p)
        } else if f == 13 {
            SubtableFormat13::fits(d, p)
        } else if f == 14 {
            SubtableFormat14::fits(d, p)
        } else {
            false
        }
    }

    /// The number of bytes the subtable at `d[q..]` takes, format word included.
    pub open spec fn size_at(d: Seq<u8>, q: int) -> int {
        let f = CmapSubtable::format_at(d, q);
        let p = q + 2;
        2 + if f == 0 {
            260
        } else if f == 2 {
            516
        } else if f == 4 {
            SubtableFormat4::size_at(d, p)
        } else if f == 6 {
            SubtableFormat6::size_at(d, p)
        } else if f == 8 {
            SubtableFormat8::size_at(d, p)
        } else if f == 10 {
            SubtableFormat10::size_at(d, p)
        } else if f == 12 {
            SubtableFormat12::size_at(d, p)
        } else if f == 13 {
            SubtableFormat13::size_at(d, p)
        } else {
            SubtableFormat14::size_at(d, p)
        }
    }

    /// `self` holds the subtable stored at `d[q..]`, in the variant its
    /// format word selects.
    pub open spec fn is_read_from(&self, d: Seq<u8>, q: int) -> bool {
        let f = CmapSubtable::format_at(d, q);
        let p = q + 2;
        match self {
            CmapSubtable::Format0(t) => f == 0 && t.is_read_from(f, d, p),
            CmapSubtable::Format2(t) => f == 2 && t.is_read_from(f, d, p),
            CmapSubtable::Format4(t) => f == 4 && t.is_read_from(f, d, p),
            CmapSubtable::Format6(t) => f == 6 && t.is_read_from(f, d, p),
            CmapSubtable::Format8(t) => f == 8 && t.is_read_from(f, d, p),
            CmapSubtable::Format10(t) => f == 10 && t.is_read_from(f, d, p),
            CmapSubtable::Format12(t) => f == 12 && t.is_read_from(f, d, p),
            CmapSubtable::Format13(t) => f == 13 && t.is_read_from(f, d, p),
            CmapSubtable::Format14(t) => f == 14 && t.is_read_from(f, d, p),
        }
    }

    /// Reads the subtable at the cursor, or gives `None` where its format is
    /// unknown or it does not fit in the data.
    pub fn try_read_from(reader: &mut Reader) -> (res: Option<Self>)
        ensures
            res is Some <==> CmapSubtable::fits(old(reader).data(), old(reader).pos()),
            res matches Some(t) ==> {
                &&& t.is_read_from(old(reader).data(), old(reader).pos())
                &&& final(reader).advanced(
                    *old(reader),
                    CmapSubtable::size_at(old(reader).data(), old(reader).pos()),
                )
            },
    {
        if reader.remaining() < 2 {
            return None;
        }
        let format = reader.read_uint16();
        match format {
            0 => match SubtableFormat0::read_from(reader, format) {
                Some(t) => Some(CmapSubtable::Format0(t)),
                None => None,
            },
            2 => match SubtableFormat2::read_from(reader, format) {
                Some(t) => Some(CmapSubtable::Format2(t)),
                None => None,
            },
            4 => match SubtableFormat4::read_from(reader, format) {
                Some(t) => Some(CmapSubtable::Format4(t)),
                None => None,
            },
            6 => match SubtableFormat6::read_from(reader, format) {
                Some(t) => Some(CmapSubtable::Format6(t)),
                None => None,
            },
            8 => match SubtableFormat8::read_from(reader, format) {
                Some(t) => Some(CmapSubtable::Format8(t)),
                None => None,
            },
            10 => match SubtableFormat10::read_from(reader, format) {
                Some(t) => Some(CmapSubtable::Format10(t)),
                None => None,
            },
            12 => match SubtableFormat12::read_from(reader, format) {
                Some(t) => Some(CmapSubtable::Format12(t)),
                None => None,
            },
            13 => match SubtableFormat13::read_from(reader, format) {
                Some(t) => Some(CmapSubtable::Format13(t)),
                None => None,
            },
            14 => match SubtableFormat14::read_from(reader, format) {
                Some(t) => Some(CmapSubtable::Format14(t)),
                None => None,
            },
            _ => None,
        }
    }

    pub fn read_from(reader: &mut Reader) -> (res: Self)
        requires
            CmapSubtable::fits(old(reader).data(), old(reader).pos()),
        ensures
            res.is_read_from(old(reader).data(), old(reader).pos()),
            final(reader).advanced(
                *old(reader),
                CmapSubtable::size_at(old(reader).data(), old(reader).pos()),
            ),
    {
        match CmapSubtable::try_read_from(reader) {
            Some(t) => t,
            None => unreached(),
        }
    }
}

} // verus!
