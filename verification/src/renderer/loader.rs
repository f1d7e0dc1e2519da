use crate::ttf::cmap::{CmapEncodingRecord, CmapHeader, CmapSubtable, PlatformId};
use crate::ttf::glyph::Glyph;
use crate::ttf::table::{HeadTable, MaxpTable, MaxpTable1_0};
use crate::ttf::table_directory::{lookup_tag, TTFTableDirectory, TTFTableRecord};
use crate::ttf::types::{
    be_u16, be_u32, lemma_tag_from_str_ascii, seek_target, Reader, Tag,
};
use vstd::prelude::*;
use vstd::utf8::is_ascii_chars;

verus! {

pub open spec fn head_tag() -> Tag {
    Tag::spec_from_chars('h', 'e', 'a', 'd')
}

pub open spec fn maxp_tag() -> Tag {
    Tag::spec_from_chars('m', 'a', 'x', 'p')
}

pub open spec fn cmap_tag() -> Tag {
    Tag::spec_from_chars('c', 'm', 'a', 'p')
}

pub open spec fn loca_tag() -> Tag {
    Tag::spec_from_chars('l', 'o', 'c', 'a')
}

pub open spec fn glyf_tag() -> Tag {
    Tag::spec_from_chars('g', 'l', 'y', 'f')
}

/// The table records of the directory at the start of `d`.
pub open spec fn directory_records(d: Seq<u8>) -> Seq<TTFTableRecord> {
    Seq::new(be_u16(d, 4) as nat, |k: int| TTFTableRecord::spec_at(d, 0 + 12 + 16 * k))
}

/// The encoding records of the `cmap` header at `d[cp..]`.
pub open spec fn encoding_records_at(d: Seq<u8>, cp: int) -> Seq<CmapEncodingRecord> {
    Seq::new(be_u16(d, cp + 2) as nat, |k: int| CmapEncodingRecord::spec_at(d, cp + 4 + 6 * k))
}

/// The record names the Windows platform with encoding 1 (Unicode BMP).
pub open spec fn is_windows_bmp(r: CmapEncodingRecord) -> bool {
    r.platform_id == PlatformId::Windows && r.encoding_id == 1
}

pub open spec fn is_first_windows_bmp(rs: Seq<CmapEncodingRecord>, i: int) -> bool {
    &&& 0 <= i < rs.len()
    &&& is_windows_bmp(rs[i])
    &&& forall|j: int| 0 <= j < i ==> !is_windows_bmp(rs[j])
}

/// The first Windows / Unicode BMP record, if any.
pub open spec fn first_windows_bmp(rs: Seq<CmapEncodingRecord>) -> Option<CmapEncodingRecord> {
    if exists|i: int| is_first_windows_bmp(rs, i) {
        Some(rs[choose|i: int| is_first_windows_bmp(rs, i)])
    } else {
        None
    }
}

/// Where the parts of a font lie in its data.
pub struct FontLayout {
    pub head_pos: int,
    pub maxp_pos: int,
    pub cmap_record: TTFTableRecord,
    pub cmap_pos: int,
    pub encoding: CmapEncodingRecord,
    pub subtable_pos: int,
    pub end: int,
}

/// The layout `Font::from_data` follows over `d`: the directory at the start,
/// then `head`, `maxp` and `cmap` each at its record's offset (the cursor
/// stays put where an offset lies beyond the data), and the subtable of the
/// first Windows / Unicode BMP encoding record. `None` where a table is
/// missing or does not fit, `maxp` is not the full form, there is no such
/// record, or the subtable's offset does not fit in a `usize`.
pub open spec fn font_layout(d: Seq<u8>) -> Option<FontLayout> {
    if !TTFTableDirectory::fits(d, 0) {
        None
    } else {
        let rs = directory_records(d);
        let len = d.len() as int;
        let dir_end = TTFTableDirectory::size_at(d, 0);
        match (lookup_tag(rs, head_tag()), lookup_tag(rs, maxp_tag()), lookup_tag(rs, cmap_tag())) {
            (Some(hr), Some(mr), Some(cr)) => {
                let hp = seek_target(dir_end, hr.offset as int, len);
                let mp = seek_target(hp + HeadTable::size(), mr.offset as int, len);
                let cp = seek_target(mp + 32, cr.offset as int, len);
                if hp + HeadTable::size() > len {
                    None
                } else if !MaxpTable::fits(d, mp) || MaxpTable::version_at(d, mp)
                    != MaxpTable::full_version() {
                    None
                } else if !CmapHeader::fits(d, cp) {
                    None
                } else {
                    match first_windows_bmp(encoding_records_at(d, cp)) {
                        None => None,
                        Some(er) => {
                            let target = cr.offset as int + er.offset as int;
                            let sp = seek_target(cp + CmapHeader::size_at(d, cp), target, len);
                            if target > usize::MAX || !CmapSubtable::fits(d, sp) {
                                None
                            } else {
                                Some(
                                    FontLayout {
                                        head_pos: hp,
                                        maxp_pos: mp,
                                        cmap_record: cr,
                                        cmap_pos: cp,
                                        encoding: er,
                                        subtable_pos: sp,
                                        end: sp + CmapSubtable::size_at(d, sp),
                                    },
                                )
                            }
                        },
                    }
                }
            },
            _ => None,
        }
    }
}

/// The first Windows / Unicode BMP record.
fn find_windows_bmp(records: &Vec<CmapEncodingRecord>) -> (res: Option<&CmapEncodingRecord>)
    ensures
        match res {
            Some(r) => first_windows_bmp(records@) == Some(*r),
            None => first_windows_bmp(records@) is None,
        },
{
    let ghost rs = records@;
    let n = records.len();
    let mut i: usize = 0;
    while i < n
        invariant
            n == rs.len(),
            rs == records@,
            i <= n,
            forall|j: int| 0 <= j < i ==> !is_windows_bmp(rs[j]),
        decreases n - i,
    {
        let record = &records[i];
        if record.platform_id == PlatformId::Windows && record.encoding_id == 1 {
            assert(is_first_windows_bmp(rs, i as int));
            proof {
                let c = choose|c: int| is_first_windows_bmp(rs, c);
                assert(c == i) by {
                    if c < i {
                        assert(!is_windows_bmp(rs[c]));
                    } else if c > i {
                        assert(!is_windows_bmp(rs[i as int]));
                    }
                }
            }
            return Some(record);
        }
        i = i + 1;
    }
    assert(!exists|c: int| is_first_windows_bmp(rs, c));
    None
}

/// `Tag::from_str` of a four-letter ASCII literal, with the tag it gives.
fn tag_of(s: &str) -> (res: Tag)
    requires
        s@.len() == 4,
        is_ascii_chars(s@),
    ensures
        res == Tag::spec_from_chars(s@[0], s@[1], s@[2], s@[3]),
{
    proof {
        lemma_tag_from_str_ascii(s);
    }
    Tag::from_str(s)
}

/// The positions of the glyphs: the reader's position after the first `k`
/// glyphs, where glyph `i` starts at `glyf_offset + loca[i]` (or where the
/// previous glyph ended, if that lies beyond the data). `None` where a start
/// does not fit in a `usize` or a glyph cannot be read.
pub open spec fn glyph_scan(d: Seq<u8>, loca: Seq<u32>, glyf_offset: int, pos0: int, k: nat) -> Option<
    int,
>
    decreases k,
{
    if k == 0 {
        Some(pos0)
    } else {
        match glyph_scan(d, loca, glyf_offset, pos0, (k - 1) as nat) {
            None => None,
            Some(pos) => {
                let target = glyf_offset + loca[k - 1] as int;
                let s = seek_target(pos, target, d.len() as int);
                if target > usize::MAX || !Glyph::fits(d, s) {
                    None
                } else {
                    Some(Glyph::end_at(d, s))
                }
            },
        }
    }
}

/// Where glyph `k` starts.
pub open spec fn glyph_start(d: Seq<u8>, loca: Seq<u32>, glyf_offset: int, pos0: int, k: nat) -> int {
    seek_target(
        glyph_scan(d, loca, glyf_offset, pos0, k).unwrap(),
        glyf_offset + loca[k as int] as int,
        d.len() as int,
    )
}

/// Once a glyph cannot be read, no longer run of glyphs can.
proof fn lemma_glyph_scan_fails_on(
    d: Seq<u8>,
    loca: Seq<u32>,
    glyf_offset: int,
    pos0: int,
    k: nat,
    m: nat,
)
    requires
        k <= m,
        glyph_scan(d, loca, glyf_offset, pos0, k) is None,
    ensures
        glyph_scan(d, loca, glyf_offset, pos0, m) is None,
    decreases m - k,
{
    if k < m {
        lemma_glyph_scan_fails_on(d, loca, glyf_offset, pos0, (k + 1) as nat, m);
    }
}

/// A font read from a TrueType file: its tables and the glyphs read so far.
pub struct Font<'a> {
    pub reader: Reader<'a>,
    pub directory: TTFTableDirectory,
    pub head: HeadTable,
    pub maxp: MaxpTable1_0,
    pub cmap: CmapSubtable,
    pub loca: Vec<u32>,
    pub glyf: Vec<Glyph>,
}

impl<'a> Font<'a> {
    /// `self` is the font `from_data` makes of `d`: the tables where
    /// `font_layout` puts them, no locations and no glyphs yet, and the reader
    /// just past the `cmap` subtable.
    pub open spec fn is_read_from(&self, d: Seq<u8>) -> bool {
        let l = font_layout(d).unwrap();
        &&& font_layout(d) is Some
        &&& self.reader.data() == d
        &&& self.reader.pos() == l.end
        &&& self.directory.is_read_from(d, 0)
        &&& self.head.is_read_from(d, l.head_pos)
        &&& MaxpTable::Version1_0(self.maxp).is_read_from(d, l.maxp_pos)
        &&& self.cmap.is_read_from(d, l.subtable_pos)
        &&& self.loca@.len() == 0
        &&& self.glyf@.len() == 0
    }

    /// Reads the font, or gives `None` exactly where `font_layout` finds no
    /// layout.
    pub fn try_from_data(data: &'a [u8]) -> (res: Option<Font<'a>>)
        ensures
            res is Some <==> font_layout(data@) is Some,
            res matches Some(f) ==> f.is_read_from(data@),
    {
        let ghost d = data@;
        let mut r = Reader::new(data);

        let table_directory = match TTFTableDirectory::try_read_from(&mut r) {
            Some(dir) => dir,
            None => {
                return None;
            },
        };
        assert(table_directory.table_records@ =~= directory_records(d));

        proof {
            reveal_strlit("head");
            reveal_strlit("maxp");
            reveal_strlit("cmap");
        }
        let head_offset = match table_directory.get_table_record(&tag_of(HeadTable::TAG)) {
            Some(record) => record.offset,
            None => {
                return None;
            },
        };
        let maxp_offset = match table_directory.get_table_record(&tag_of(MaxpTable::TAG)) {
            Some(record) => record.offset,
            None => {
                return None;
            },
        };

        r.seek(head_offset as usize);
        if r.remaining() < 54 {
            return None;
        }
        let head = HeadTable::read_from(&mut r);

        r.seek(maxp_offset as usize);
        let maxp = match MaxpTable::try_read_from(&mut r) {
            Some(m) => m,
            None => {
                return None;
            },
        };
        let maxp_1 = match maxp {
            MaxpTable::Version0_5(_) => {
                return None;
            },
            MaxpTable::Version1_0(table) => table,
        };

        let cmap_offset = match table_directory.get_table_record(&tag_of("cmap")) {
            Some(record) => record.offset,
            None => {
                return None;
            },
        };

        r.seek(cmap_offset as usize);
        let ghost cp = r.pos();
        let header = match CmapHeader::try_read_from(&mut r) {
            Some(h) => h,
            None => {
                return None;
            },
        };
        assert(header.encoding_records@ =~= encoding_records_at(d, cp));

        let record_offset = match find_windows_bmp(&header.encoding_records) {
            Some(record) => record.offset,
            None => {
                return None;
            },
        };

        if cmap_offset as usize > usize::MAX - record_offset as usize {
            return None;
        }
        r.seek(cmap_offset as usize + record_offset as usize);
        let cmap_subtable = match CmapSubtable::try_read_from(&mut r) {
            Some(t) => t,
            None => {
                return None;
            },
        };

        Some(
            Font {
                reader: r,
                directory: table_directory,
                head,
                maxp: maxp_1,
                cmap: cmap_subtable,
                loca: Vec::new(),
                glyf: Vec::new(),
            },
        )
    }

    /// Where `read_loca` reads the location table: the `loca` record's
    /// offset, or the current position if that lies beyond the data.
    pub open spec fn loca_pos(&self) -> Option<int> {
        match lookup_tag(self.directory.table_records@, loca_tag()) {
            Some(r) => Some(
                seek_target(self.reader.pos(), r.offset as int, self.reader.data().len() as int),
            ),
            None => None,
        }
    }

    /// The bytes per location entry: 2 for the short format (0), else 4.
    pub open spec fn loca_entry_size(&self) -> int {
        if self.head.index_to_loc_format == 0 {
            2
        } else {
            4
        }
    }

    /// The number of location entries: one more than the glyph count.
    pub open spec fn loca_count(&self) -> nat {
        (self.maxp.num_glyphs + 1) as nat
    }

    /// The font has a `loca` table and all its entries lie inside the data.
    pub open spec fn loca_fits(&self) -> bool {
        &&& self.loca_pos() is Some
        &&& self.loca_pos().unwrap() + self.loca_count() * self.loca_entry_size()
            <= self.reader.data().len()
    }

    /// Where the location table ends.
    pub open spec fn loca_end(&self) -> int {
        self.loca_pos().unwrap() + self.loca_count() * self.loca_entry_size()
    }

    /// The glyph offsets the location table holds: short entries are stored
    /// halved and doubled back, long entries are taken as they are.
    pub open spec fn loca_entries(&self) -> Seq<u32> {
        let d = self.reader.data();
        let lp = self.loca_pos().unwrap();
        if self.head.index_to_loc_format == 0 {
            Seq::new(self.loca_count(), |k: int| (be_u16(d, lp + 2 * k) as int * 2) as u32)
        } else {
            Seq::new(self.loca_count(), |k: int| be_u32(d, lp + 4 * k))
        }
    }

    /// `self` is `before` with the location table read.
    pub open spec fn loca_read_from(&self, before: &Font<'a>) -> bool {
        &&& self.loca@ == before.loca_entries()
        &&& self.reader.data() == before.reader.data()
        &&& self.reader.pos() == before.loca_end()
        &&& self.directory == before.directory
        &&& self.head == before.head
        &&& self.maxp == before.maxp
        &&& self.cmap == before.cmap
        &&& self.glyf == before.glyf
    }

    /// Reads the location table, or returns `false` where `loca_fits` does
    /// not hold.
    fn try_read_loca(&mut self) -> (res: bool)
        ensures
            res == old(self).loca_fits(),
            res ==> final(self).loca_read_from(old(self)),
    {
        proof {
            reveal_strlit("loca");
        }
        let loca_offset = match self.directory.get_table_record(&tag_of("loca")) {
            Some(record) => record.offset,
            None => {
                return false;
            },
        };
        self.reader.seek(loca_offset as usize);

        let num_glyphs = self.maxp.num_glyphs as usize;
        let entry_size: usize = if self.head.index_to_loc_format == 0 {
            2
        } else {
            4
        };
        if self.reader.remaining() / entry_size < num_glyphs + 1 {
            return false;
        }
        let ghost d = self.reader.data();
        let ghost lp = self.reader.pos();
        let ghost entries = old(self).loca_entries();
        let mut loca: Vec<u32> = Vec::new();
        let mut k: usize = 0;
        while k <= num_glyphs
            invariant
                self.reader.data() == d,
                0 <= lp,
                lp + (num_glyphs + 1) * entry_size <= d.len(),
                k <= num_glyphs + 1,
                num_glyphs == self.maxp.num_glyphs,
                self.head == old(self).head,
                entry_size == old(self).loca_entry_size(),
                self.reader.pos() == lp + k * entry_size,
                entries == old(self).loca_entries(),
                old(self).loca_pos() == Some(lp),
                old(self).reader.data() == d,
                self.maxp == old(self).maxp,
                self.directory == old(self).directory,
                self.cmap == old(self).cmap,
                self.glyf == old(self).glyf,
                loca@ == entries.take(k as int),
            decreases num_glyphs + 1 - k,
        {
            let entry = if self.head.index_to_loc_format == 0 {
                (self.reader.read_uint16() as u32) * 2
            } else {
                self.reader.read_uint32()
            };
            loca.push(entry);
            k = k + 1;
            assert(loca@ =~= entries.take(k as int));
        }
        assert(loca@ =~= entries);
        self.loca = loca;
        true
    }

    /// Reads the location table: one offset per glyph, plus one.
    pub fn read_loca(&mut self)
        requires
            old(self).loca_fits(),
        ensures
            final(self).loca_read_from(old(self)),
    {
        let ok = self.try_read_loca();
        if !ok {
            proof {
                assert(false);
            }
        }
    }

    /// The location table `read_glyf` walks: the one already read, else the
    /// one `read_loca` reads.
    pub open spec fn glyf_loca(&self) -> Seq<u32> {
        if self.loca@.len() == 0 {
            self.loca_entries()
        } else {
            self.loca@
        }
    }

    /// The reader's position once the location table is in place.
    pub open spec fn glyf_loca_end(&self) -> int {
        if self.loca@.len() == 0 {
            self.loca_end()
        } else {
            self.reader.pos()
        }
    }

    /// The offset of the `glyf` table.
    pub open spec fn glyf_offset(&self) -> int {
        lookup_tag(self.directory.table_records@, glyf_tag()).unwrap().offset as int
    }

    /// Where the walk over the glyphs starts: the `glyf` table, or where the
    /// location table ended if that lies beyond the data.
    pub open spec fn glyf_pos0(&self) -> int {
        seek_target(self.glyf_loca_end(), self.glyf_offset(), self.reader.data().len() as int)
    }

    /// `read_glyf` can run: the location table is there or can be read, the
    /// font has a `glyf` table, and every glyph the locations point at can
    /// be read.
    pub open spec fn glyf_fits(&self) -> bool {
        &&& self.loca@.len() == 0 ==> self.loca_fits()
        &&& lookup_tag(self.directory.table_records@, glyf_tag()) is Some
        &&& glyph_scan(
            self.reader.data(),
            self.glyf_loca(),
            self.glyf_offset(),
            self.glyf_pos0(),
            self.glyf_loca().len(),
        ) is Some
    }

    /// `self` is `before` with a glyph appended for each location entry, in
    /// order, each read where `glyph_start` puts it.
    pub open spec fn glyf_read_from(&self, before: &Font<'a>) -> bool {
        let d = before.reader.data();
        let loca = before.glyf_loca();
        let n = before.glyf@.len();
        &&& self.loca@ == loca
        &&& self.glyf@.len() == n + loca.len()
        &&& self.glyf@.take(n as int) == before.glyf@
        &&& forall|k: int|
            0 <= k < loca.len() ==> (#[trigger] self.glyf@[n + k]).is_read_from(
                d,
                glyph_start(d, loca, before.glyf_offset(), before.glyf_pos0(), k as nat),
            )
        &&& self.reader.data() == d
        &&& self.reader.pos() == glyph_scan(
            d,
            loca,
            before.glyf_offset(),
            before.glyf_pos0(),
            loca.len(),
        ).unwrap()
        &&& self.directory == before.directory
        &&& self.head == before.head
        &&& self.maxp == before.maxp
        &&& self.cmap == before.cmap
    }

    /// Reads every glyph the location table points at (reading the table
    /// first if it is empty), or returns `false` where `glyf_fits` does not
    /// hold.
    pub fn try_read_glyf(&mut self) -> (res: bool)
        ensures
            res == old(self).glyf_fits(),
            res ==> final(self).glyf_read_from(old(self)),
    {
        if self.loca.len() == 0 {
            if !self.try_read_loca() {
                return false;
            }
        }
        let ghost d = self.reader.data();
        let ghost loca = self.loca@;
        assert(loca == old(self).glyf_loca());
        assert(self.directory == old(self).directory);

        proof {
            reveal_strlit("glyf");
        }
        let glyf_offset = match self.directory.get_table_record(&tag_of("glyf")) {
            Some(record) => record.offset,
            None => {
                return false;
            },
        };
        self.reader.seek(glyf_offset as usize);
        let ghost goff = glyf_offset as int;
        let ghost pos0 = self.reader.pos();
        assert(goff == old(self).glyf_offset());
        assert(pos0 == old(self).glyf_pos0());

        let ghost n0 = self.glyf@.len();
        let n = self.loca.len();
        let mut k: usize = 0;
        while k < n
            invariant
                n == loca.len(),
                self.loca@ == loca,
                k <= n,
                self.reader.data() == d,
                glyph_scan(d, loca, goff, pos0, k as nat) == Some(self.reader.pos()),
                self.glyf@.len() == n0 + k,
                self.glyf@.take(n0 as int) == old(self).glyf@,
                forall|j: int|
                    0 <= j < k ==> (#[trigger] self.glyf@[n0 + j]).is_read_from(
                        d,
                        glyph_start(d, loca, goff, pos0, j as nat),
                    ),
                self.directory == old(self).directory,
                self.head == old(self).head,
                self.maxp == old(self).maxp,
                self.cmap == old(self).cmap,
                d == old(self).reader.data(),
                goff == old(self).glyf_offset(),
                goff == glyf_offset as int,
                pos0 == old(self).glyf_pos0(),
                loca == old(self).glyf_loca(),
                n0 == old(self).glyf@.len(),
            decreases n - k,
        {
            let offset = self.loca[k];
            assert(offset == loca[k as int]);
            assert(((k + 1) as nat - 1) as nat == k as nat);
            if glyf_offset as usize > usize::MAX - offset as usize {
                proof {
                    lemma_glyph_scan_fails_on(d, loca, goff, pos0, (k + 1) as nat, n as nat);
                }
                return false;
            }
            self.reader.seek(glyf_offset as usize + offset as usize);
            let glyph = match Glyph::try_read_from(&mut self.reader) {
                Some(g) => g,
                None => {
                    proof {
                        lemma_glyph_scan_fails_on(d, loca, goff, pos0, (k + 1) as nat, n as nat);
                    }
                    return false;
                },
            };
            let ghost before = self.glyf@;
            self.glyf.push(glyph);
            assert(self.glyf@.take(n0 as int) =~= before.take(n0 as int));
            k = k + 1;
        }
        true
    }

    /// Reads every glyph the location table points at, reading the table
    /// first if it is empty.
    pub fn read_glyf(&mut self)
        requires
            old(self).glyf_fits(),
        ensures
            final(self).glyf_read_from(old(self)),
    {
        let ok = self.try_read_glyf();
        if !ok {
            proof {
                assert(false);
            }
        }
    }

    pub fn from_data(data: &'a [u8]) -> (res: Font<'a>)
        requires
            font_layout(data@) is Some,
        ensures
            res.is_read_from(data@),
    {
        match Font::try_from_data(data) {
            Some(font) => font,
            None => unreached(),
        }
    }
}

} // verus!
