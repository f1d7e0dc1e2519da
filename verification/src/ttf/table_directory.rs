use crate::ttf::types::{be_u16, be_u32, uint16, uint32, Offset32, Reader, Tag};
use vstd::prelude::*;

verus! {

/// One entry of the table directory: where a table lies in the file.
#[derive(Debug)]
pub struct TTFTableRecord {
    pub tag: Tag,
    pub checksum: uint32,
    pub offset: Offset32,
    pub length: uint32,
}

impl TTFTableRecord {
    /// The record stored in the 16 bytes at `d[p..]`.
    pub open spec fn spec_at(d: Seq<u8>, p: int) -> TTFTableRecord {
        TTFTableRecord {
            tag: Tag(be_u32(d, p)),
            checksum: be_u32(d, p + 4),
            offset: be_u32(d, p + 8),
            length: be_u32(d, p + 12),
        }
    }

    fn read_from(reader: &mut Reader) -> (res: Self)
        requires
            old(reader).has(16),
        ensures
            final(reader).advanced(*old(reader), 16),
            res == TTFTableRecord::spec_at(old(reader).data(), old(reader).pos()),
    {
        TTFTableRecord {
            tag: reader.read_tag(),
            checksum: reader.read_uint32(),
            offset: reader.read_offset32(),
            length: reader.read_uint32(),
        }
    }
}

/// A table record is four consecutive 32-bit words: tag, checksum, offset,
/// length, in that order.
pub proof fn lemma_record_word_layout(d: Seq<u8>, p: int)
    ensures
        ({
            let r = TTFTableRecord::spec_at(d, p);
            seq![r.tag.0, r.checksum, r.offset, r.length] == Seq::new(
                4,
                |k: int| be_u32(d, p + 4 * k),
            )
        }),
{
    let r = TTFTableRecord::spec_at(d, p);
    assert(seq![r.tag.0, r.checksum, r.offset, r.length] =~= Seq::new(
        4,
        |k: int| be_u32(d, p + 4 * k),
    ));
}

/// `i` is the first position in `rs` whose record carries `tag`.
pub open spec fn is_first_with_tag(rs: Seq<TTFTableRecord>, tag: Tag, i: int) -> bool {
    &&& 0 <= i < rs.len()
    &&& rs[i].tag == tag
    &&& forall|j: int| 0 <= j < i ==> rs[j].tag != tag
}

/// The first record in `rs` with the given tag, if any.
pub open spec fn lookup_tag(rs: Seq<TTFTableRecord>, tag: Tag) -> Option<TTFTableRecord> {
    if exists|i: int| is_first_with_tag(rs, tag, i) {
        Some(rs[choose|i: int| is_first_with_tag(rs, tag, i)])
    } else {
        None
    }
}

/// The font's table directory: the header followed by `num_tables` records.
#[derive(Debug)]
pub struct TTFTableDirectory {
    pub sfnt_version: uint32,
    pub num_tables: uint16,
    pub search_range: uint16,
    pub entry_selector: uint16,
    pub range_shift: uint16,
    pub table_records: Vec<TTFTableRecord>,
}

impl TTFTableDirectory {
    /// The number of bytes the directory at `d[p..]` takes.
    pub open spec fn size_at(d: Seq<u8>, p: int) -> int {
        12 + 16 * be_u16(d, p + 4)
    }

    /// The directory at `d[p..]` lies inside `d`.
    pub open spec fn fits(d: Seq<u8>, p: int) -> bool {
        &&& p + 12 <= d.len()
        &&& p + TTFTableDirectory::size_at(d, p) <= d.len()
    }

    /// `self` holds the directory stored at `d[p..]`.
    pub open spec fn is_read_from(&self, d: Seq<u8>, p: int) -> bool {
        &&& self.sfnt_version == be_u32(d, p)
        &&& self.num_tables == be_u16(d, p + 4)
        &&& self.search_range == be_u16(d, p + 6)
        &&& self.entry_selector == be_u16(d, p + 8)
        &&& self.range_shift == be_u16(d, p + 10)
        &&& self.table_records@ == Seq::new(
            self.num_tables as nat,
            |k: int| TTFTableRecord::spec_at(d, p + 12 + 16 * k),
        )
    }

    /// Reads the directory at the cursor, or gives `None` where it does not
    /// fit in the data.
    pub fn try_read_from(reader: &mut Reader) -> (res: Option<Self>)
        ensures
            res is Some <==> TTFTableDirectory::fits(old(reader).data(), old(reader).pos()),
            res matches Some(dir) ==> {
                &&& dir.is_read_from(old(reader).data(), old(reader).pos())
                &&& final(reader).advanced(
                    *old(reader),
                    TTFTableDirectory::size_at(old(reader).data(), old(reader).pos()),
                )
            },
    {
        let ghost d = reader.data();
        let ghost p = reader.pos();
        if reader.remaining() < 12 {
            return None;
        }
        let sfnt_version = reader.read_uint32();
        let num_tables = reader.read_uint16();
        let search_range = reader.read_uint16();
        let entry_selector = reader.read_uint16();
        let range_shift = reader.read_uint16();
        if reader.remaining() / 16 < num_tables as usize {
            return None;
        }
        let mut table_records: Vec<TTFTableRecord> = Vec::new();
        let mut i: u16 = 0;
        while i < num_tables
            invariant
                reader.data() == d,
            0 <= p,
                reader.pos() == p + 12 + 16 * i,
                p + 12 + 16 * num_tables <= d.len(),
                i <= num_tables,
                table_records@ == Seq::new(
                    i as nat,
                    |k: int| TTFTableRecord::spec_at(d, p + 12 + 16 * k),
                ),
            decreases num_tables - i,
        {
            let record = TTFTableRecord::read_from(reader);
            table_records.push(record);
            i = i + 1;
            assert(table_records@ =~= Seq::new(
                i as nat,
                |k: int| TTFTableRecord::spec_at(d, p + 12 + 16 * k),
            ));
        }
        Some(
            TTFTableDirectory {
                sfnt_version,
                num_tables,
                search_range,
                entry_selector,
                range_shift,
                table_records,
            },
        )
    }

    pub fn read_from(reader: &mut Reader) -> (res: Self)
        requires
            TTFTableDirectory::fits(old(reader).data(), old(reader).pos()),
        ensures
            res.is_read_from(old(reader).data(), old(reader).pos()),
            final(reader).advanced(
                *old(reader),
                TTFTableDirectory::size_at(old(reader).data(), old(reader).pos()),
            ),
    {
        match TTFTableDirectory::try_read_from(reader) {
            Some(dir) => dir,
            None => unreached(),
        }
    }

    /// The first record carrying `tag`.
    pub fn get_table_record(&self, tag: &Tag) -> (res: Option<&TTFTableRecord>)
        ensures
            match res {
                Some(r) => lookup_tag(self.table_records@, *tag) == Some(*r),
                None => lookup_tag(self.table_records@, *tag) is None,
            },
    {
        let ghost rs = self.table_records@;
        let n = self.table_records.len();
        let mut i: usize = 0;
        while i < n
            invariant
                n == rs.len(),
                rs == self.table_records@,
                i <= n,
                forall|j: int| 0 <= j < i ==> rs[j].tag != *tag,
            decreases n - i,
        {
            let record = &self.table_records[i];
            if record.tag == *tag {
                assert(is_first_with_tag(rs, *tag, i as int));
                proof {
                    let c = choose|c: int| is_first_with_tag(rs, *tag, c);
                    assert(c == i) by {
                        if c < i {
                            assert(rs[c].tag != *tag);
                        } else if c > i {
                            assert(rs[i as int].tag != *tag);
                        }
                    }
                }
                return Some(record);
            }
            i = i + 1;
        }
        assert(!exists|c: int| is_first_with_tag(rs, *tag, c));
        None
    }
}

} // verus!
