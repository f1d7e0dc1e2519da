use vstd::prelude::*;
use vstd::string::*;
use vstd::utf8::*;

verus! {

#[allow(non_camel_case_types)]
pub type uint8 = u8;

#[allow(non_camel_case_types)]
pub type int8 = i8;

#[allow(non_camel_case_types)]
pub type uint16 = u16;

#[allow(non_camel_case_types)]
pub type int16 = i16;

#[allow(non_camel_case_types)]
pub type uint24 = [u8; 3];

#[allow(non_camel_case_types)]
pub type uint32 = u32;

#[allow(non_camel_case_types)]
pub type int32 = i32;

pub type Fixed = i32;

#[allow(clippy::upper_case_acronyms)]
pub type FWORD = i16;

#[allow(clippy::upper_case_acronyms)]
pub type UFWORD = u16;

pub type Offset8 = u8;

pub type Offset16 = u16;

pub type Offset24 = [u8; 3];

pub type Offset32 = u32;

/// Signed 2.14 fixed-point number, kept as its raw 16-bit pattern.
pub struct F2DOT14(pub i16);

/// Seconds since 1904-01-01 00:00 (the font's own epoch), raw 64-bit value.
#[allow(clippy::upper_case_acronyms)]
pub struct LONGDATETIME(pub i64);

/// Four-byte table identifier, packed big-endian into a `u32`.
#[derive(PartialEq, Eq, Structural, Debug)]
pub struct Tag(pub u32);

/// Version number with a 16-bit major part (high half) and a 16-bit minor part (low half).
#[derive(PartialEq, Eq, Structural, Debug)]
pub struct Version16Dot16(pub u32);

// ---------------------------------------------------------------------------
// Big-endian decoding of the byte stream, as mathematical functions.
// ---------------------------------------------------------------------------

/// The unsigned 16-bit big-endian value stored at `d[i..i + 2]`.
pub open spec fn be_u16(d: Seq<u8>, i: int) -> u16 {
    (d[i] as int * 0x100 + d[i + 1] as int) as u16
}

/// The signed (two's complement) 16-bit big-endian value stored at `d[i..i + 2]`.
pub open spec fn be_i16(d: Seq<u8>, i: int) -> i16 {
    be_u16(d, i) as i16
}

/// The unsigned 32-bit big-endian value stored at `d[i..i + 4]`.
pub open spec fn be_u32(d: Seq<u8>, i: int) -> u32 {
    (d[i] as int * 0x100_0000 + d[i + 1] as int * 0x1_0000 + d[i + 2] as int * 0x100
        + d[i + 3] as int) as u32
}

/// The signed (two's complement) 32-bit big-endian value stored at `d[i..i + 4]`.
pub open spec fn be_i32(d: Seq<u8>, i: int) -> i32 {
    be_u32(d, i) as i32
}

/// The unsigned 64-bit big-endian value stored at `d[i..i + 8]`.
pub open spec fn be_u64(d: Seq<u8>, i: int) -> u64 {
    (be_u32(d, i) as int * 0x1_0000_0000 + be_u32(d, i + 4) as int) as u64
}

/// The signed (two's complement) 64-bit big-endian value stored at `d[i..i + 8]`.
pub open spec fn be_i64(d: Seq<u8>, i: int) -> i64 {
    be_u64(d, i) as i64
}

/// `n` consecutive big-endian `u16` values starting at `d[i]`.
pub open spec fn be_u16_seq(d: Seq<u8>, i: int, n: nat) -> Seq<u16> {
    Seq::new(n, |k: int| be_u16(d, i + 2 * k))
}

/// `n` consecutive big-endian `i16` values starting at `d[i]`.
pub open spec fn be_i16_seq(d: Seq<u8>, i: int, n: nat) -> Seq<i16> {
    Seq::new(n, |k: int| be_i16(d, i + 2 * k))
}

/// Where `Reader::seek` leaves the position: at `offset` when it lies inside
/// the data, otherwise where it was.
pub open spec fn seek_target(pos: int, offset: int, len: int) -> int {
    if offset < len {
        offset
    } else {
        pos
    }
}

// ---------------------------------------------------------------------------
// Text of numbers, tags and versions.
// ---------------------------------------------------------------------------

/// The ASCII digit for `d < 10`.
pub open spec fn digit_char(d: nat) -> char {
    (48 + d) as char
}

/// The decimal notation of `n`, without leading zeros.
pub open spec fn decimal_text(n: nat) -> Seq<char>
    decreases n,
{
    if n < 10 {
        seq![digit_char(n)]
    } else {
        decimal_text(n / 10) + seq![digit_char(n % 10)]
    }
}

/// The value of at most four bytes packed big-endian, each new byte
/// shifted in from the right.
pub open spec fn tag_value(bytes: Seq<u8>) -> u32
    decreases bytes.len(),
{
    if bytes.len() == 0 {
        0
    } else {
        (tag_value(bytes.drop_last()) << 8u32) | (bytes.last() as u32)
    }
}

/// The first `min(4, len)` bytes of `bytes`.
pub open spec fn first_four(bytes: Seq<u8>) -> Seq<u8> {
    if bytes.len() < 4 {
        bytes
    } else {
        bytes.take(4)
    }
}

/// What `String::from_utf8_lossy` makes of the given bytes.
pub uninterp spec fn utf8_lossy_text(bytes: Seq<u8>) -> Seq<char>;

/// Calls `String::from_utf8_lossy` and takes the owned string.
/// Claimed: the text is the lossy decoding of exactly these bytes, and for
/// valid UTF-8 it is the plain decoding (as std documents).
#[verifier::external_body]
fn string_from_utf8_lossy(bytes: &[u8]) -> (res: String)
    ensures
        res@ == utf8_lossy_text(bytes@),
        valid_utf8(bytes@) ==> res@ == decode_utf8(bytes@),
{
    String::from_utf8_lossy(bytes).into_owned()
}

/// Formats `major` and `minor` with `format!("{}.{}", ..)`.
/// Claimed: integers are written in decimal, as std's `Display` documents.
#[verifier::external_body]
fn format_version(major: u32, minor: u32) -> (res: String)
    ensures
        res@ == decimal_text(major as nat) + seq!['.'] + decimal_text(minor as nat),
{
    format!("{}.{}", major, minor)
}

/// ASCII text as bytes.
pub open spec fn ascii_bytes(s: Seq<char>) -> Seq<u8> {
    s.map_values(|c: char| c as u8)
}

/// Formats `n` with `format!("{}", ..)` and takes the bytes.
/// Claimed: integers are written in decimal, as std's `Display` documents.
#[verifier::external_body]
pub(crate) fn decimal_bytes(n: u32) -> (res: Vec<u8>)
    ensures
        res@ == ascii_bytes(decimal_text(n as nat)),
{
    format!("{}", n).into_bytes()
}

impl Tag {
    /// The four bytes of the tag, most significant first.
    pub open spec fn bytes(&self) -> Seq<u8> {
        seq![
            ((self.0 >> 24u32) & 0xFFu32) as u8,
            ((self.0 >> 16u32) & 0xFFu32) as u8,
            ((self.0 >> 8u32) & 0xFFu32) as u8,
            (self.0 & 0xFFu32) as u8,
        ]
    }

    pub open spec fn spec_from_chars(c1: char, c2: char, c3: char, c4: char) -> Tag {
        Tag(
            ((c1 as u32) << 24u32) | ((c2 as u32) << 16u32) | ((c3 as u32) << 8u32) | (
            c4 as u32),
        )
    }

    /// Packs the first (at most four) bytes of the UTF-8 encoding of `s`.
    pub fn from_str(s: &str) -> (res: Self)
        ensures
            res.0 == tag_value(first_four(s.spec_bytes())),
    {
        let bytes = s.as_bytes();
        let n: usize = if bytes.len() < 4 {
            bytes.len()
        } else {
            4
        };
        let mut value: u32 = 0;
        let mut i: usize = 0;
        while i < n
            invariant
                n <= bytes@.len(),
                n == first_four(bytes@).len(),
                first_four(bytes@) == bytes@.take(n as int),
                i <= n,
                value == tag_value(bytes@.take(i as int)),
            decreases n - i,
        {
            assert(bytes@.take(i as int + 1).drop_last() =~= bytes@.take(i as int));
            value = (value << 8u32) | (bytes[i] as u32);
            i = i + 1;
        }
        Tag(value)
    }

    pub fn from_chars(c1: char, c2: char, c3: char, c4: char) -> (res: Self)
        ensures
            res == Tag::spec_from_chars(c1, c2, c3, c4),
    {
        let value = ((c1 as u32) << 24u32) | ((c2 as u32) << 16u32) | ((c3 as u32) << 8u32) | (
        c4 as u32);
        Tag(value)
    }

    /// The four bytes as text; bytes that are not valid UTF-8 become
    /// replacement characters.
    pub fn to_string(&self) -> (res: String)
        ensures
            res@ == utf8_lossy_text(self.bytes()),
            valid_utf8(self.bytes()) ==> res@ == decode_utf8(self.bytes()),
    {
        let bytes: [u8; 4] = [
            ((self.0 >> 24u32) & 0xFFu32) as u8,
            ((self.0 >> 16u32) & 0xFFu32) as u8,
            ((self.0 >> 8u32) & 0xFFu32) as u8,
            (self.0 & 0xFFu32) as u8,
        ];
        assert(bytes@ =~= self.bytes());
        string_from_utf8_lossy(bytes.as_slice())
    }
}

/// Four ASCII characters survive `Tag::from_chars` followed by `Tag::to_string`:
/// the tag's bytes are valid UTF-8 and decode to exactly those characters.
pub proof fn lemma_tag_chars_round_trip(c1: char, c2: char, c3: char, c4: char)
    requires
        c1 < '\u{80}',
        c2 < '\u{80}',
        c3 < '\u{80}',
        c4 < '\u{80}',
    ensures
        valid_utf8(Tag::spec_from_chars(c1, c2, c3, c4).bytes()),
        decode_utf8(Tag::spec_from_chars(c1, c2, c3, c4).bytes()) == seq![c1, c2, c3, c4],
{
    let chars = seq![c1, c2, c3, c4];
    let t = Tag::spec_from_chars(c1, c2, c3, c4);
    let (u1, u2, u3, u4) = (c1 as u32, c2 as u32, c3 as u32, c4 as u32);
    assert(((((u1 << 24u32) | (u2 << 16u32) | (u3 << 8u32) | u4) >> 24u32) & 0xFFu32) as u8
        == u1 as u8) by (bit_vector)
        requires
            u1 < 128,
            u2 < 128,
            u3 < 128,
            u4 < 128,
    ;
    assert(((((u1 << 24u32) | (u2 << 16u32) | (u3 << 8u32) | u4) >> 16u32) & 0xFFu32) as u8
        == u2 as u8) by (bit_vector)
        requires
            u1 < 128,
            u2 < 128,
            u3 < 128,
            u4 < 128,
    ;
    assert(((((u1 << 24u32) | (u2 << 16u32) | (u3 << 8u32) | u4) >> 8u32) & 0xFFu32) as u8
        == u3 as u8) by (bit_vector)
        requires
            u1 < 128,
            u2 < 128,
            u3 < 128,
            u4 < 128,
    ;
    assert((((u1 << 24u32) | (u2 << 16u32) | (u3 << 8u32) | u4) & 0xFFu32) as u8 == u4 as u8)
        by (bit_vector)
        requires
            u1 < 128,
            u2 < 128,
            u3 < 128,
            u4 < 128,
    ;
    assert(is_ascii_chars(chars));
    is_ascii_chars_encode_utf8(chars);
    assert(t.bytes() =~= encode_utf8(chars));
    encode_utf8_valid_utf8(chars);
    encode_utf8_decode_utf8(chars);
}

/// For a four-character ASCII string, `Tag::from_str` and `Tag::from_chars`
/// on its characters give the same tag.
pub proof fn lemma_tag_from_str_ascii(s: &str)
    requires
        s@.len() == 4,
        is_ascii_chars(s@),
    ensures
        tag_value(first_four(s.spec_bytes())) == Tag::spec_from_chars(s@[0], s@[1], s@[2], s@[3]).0,
{
    let cs = s@;
    let bs = s.spec_bytes();
    is_ascii_chars_encode_utf8(cs);
    assert(bs.len() == 4);
    assert(first_four(bs) =~= bs);
    let (b0, b1, b2, b3) = (bs[0], bs[1], bs[2], bs[3]);
    assert(bs.drop_last() =~= seq![b0, b1, b2]);
    assert(bs.drop_last().drop_last() =~= seq![b0, b1]);
    assert(bs.drop_last().drop_last().drop_last() =~= seq![b0]);
    assert(bs.drop_last().drop_last().drop_last().drop_last() =~= Seq::<u8>::empty());
    reveal_with_fuel(tag_value, 5);
    let (u0, u1, u2, u3) = (cs[0] as u32, cs[1] as u32, cs[2] as u32, cs[3] as u32);
    assert(cs[0] as u8 == b0 && cs[1] as u8 == b1 && cs[2] as u8 == b2 && cs[3] as u8 == b3);
    assert(u0 < 128 && u1 < 128 && u2 < 128 && u3 < 128);
    assert(b0 as u32 == u0 && b1 as u32 == u1 && b2 as u32 == u2 && b3 as u32 == u3);
    assert((((((0u32 << 8u32) | u0) << 8u32 | u1) << 8u32 | u2) << 8u32) | u3 == (u0 << 24u32) | (
    u1 << 16u32) | (u2 << 8u32) | u3) by (bit_vector)
        requires
            u0 < 128,
            u1 < 128,
            u2 < 128,
            u3 < 128,
    ;
}

impl Version16Dot16 {
    pub open spec fn spec_from_major_minor(major: u16, minor: u16) -> Version16Dot16 {
        Version16Dot16(((major as u32) << 16u32) | (minor as u32))
    }

    /// The high 16 bits.
    pub open spec fn major(&self) -> u32 {
        self.0 >> 16u32
    }

    /// The low 16 bits.
    pub open spec fn minor(&self) -> u32 {
        self.0 & 0xFFFFu32
    }

    pub fn from_major_minor(major: u16, minor: u16) -> (res: Self)
        ensures
            res == Version16Dot16::spec_from_major_minor(major, minor),
    {
        Version16Dot16(((major as u32) << 16u32) | (minor as u32))
    }

    /// The version as `major.minor`, both in decimal.
    pub fn to_string(&self) -> (res: String)
        ensures
            res@ == decimal_text(self.major() as nat) + seq!['.'] + decimal_text(
                self.minor() as nat,
            ),
    {
        let major = self.0 >> 16u32;
        let minor = self.0 & 0xFFFFu32;
        format_version(major, minor)
    }
}

/// The parts of a version built from `major` and `minor` are `major` and `minor`,
/// so `from_major_minor(a, b).to_string()` is `"a.b"`.
pub proof fn lemma_version_parts(major: u16, minor: u16)
    ensures
        Version16Dot16::spec_from_major_minor(major, minor).major() == major as u32,
        Version16Dot16::spec_from_major_minor(major, minor).minor() == minor as u32,
{
    let (a, b) = (major as u32, minor as u32);
    assert(((a << 16u32) | b) >> 16u32 == a) by (bit_vector)
        requires
            a < 0x10000,
            b < 0x10000,
    ;
    assert(((a << 16u32) | b) & 0xFFFFu32 == b) by (bit_vector)
        requires
            a < 0x10000,
            b < 0x10000,
    ;
}

// ---------------------------------------------------------------------------
// Dates.
// ---------------------------------------------------------------------------

#[verifier::external_type_specification]
#[verifier::external_body]
pub struct ExSystemTime(std::time::SystemTime);

/// Seconds that `LONGDATETIME::to_datetime` and `LONGDATETIME::to_string`
/// add to the Unix epoch before the stored value. (TrueType counts from
/// 1904-01-01, which lies this many seconds *before* the Unix epoch; these
/// functions add the shift instead, so the stored value 0 stands for
/// 2036-01-02 00:00:00 UTC.)
pub const EPOCH_SHIFT_SECS: u64 = 2082844800;

/// The largest Unix timestamp that chrono's `DateTime<Utc>` can hold
/// (the last second of year 262142).
pub const MAX_UTC_TIMESTAMP: i64 = 8210266876799;

/// The text `"%Y-%m-%d %H:%M:%S"` that chrono gives the UTC time `secs`
/// seconds after the Unix epoch.
pub uninterp spec fn utc_timestamp_text(secs: int) -> Seq<char>;

/// A `SystemTime` together with the number of whole seconds after the Unix
/// epoch that it stands for. Only the std calls below make one, so the count
/// is always the one std's documentation gives for `time`.
pub struct UnixTime {
    pub time: std::time::SystemTime,
    unix_secs: Ghost<int>,
}

impl UnixTime {
    /// The number of whole seconds after the Unix epoch that `time` stands for.
    pub closed spec fn unix_seconds(&self) -> int {
        self.unix_secs@
    }
}

/// `std::time::UNIX_EPOCH`. Claimed: it stands 0 seconds after the Unix
/// epoch, as std documents (1970-01-01 00:00:00 UTC).
#[verifier::external_body]
fn unix_epoch() -> (res: UnixTime)
    ensures
        res.unix_seconds() == 0,
{
    UnixTime { time: std::time::UNIX_EPOCH, unix_secs: Ghost(0) }
}

/// `SystemTime::checked_add` of `Duration::from_secs(secs)`. Claimed, as std
/// documents: a returned instant lies `secs` seconds after `t`. Nothing is
/// claimed of when `None` comes back: whether the instant can be represented
/// depends on the platform.
#[verifier::external_body]
fn unix_time_checked_add_secs(t: UnixTime, secs: u64) -> (res: Option<UnixTime>)
    ensures
        res matches Some(r) ==> r.unix_seconds() == t.unix_seconds() + secs,
{
    match t.time.checked_add(std::time::Duration::from_secs(secs)) {
        Some(time) => Some(UnixTime { time, unix_secs: Ghost(t.unix_secs@ + secs) }),
        None => None,
    }
}

/// chrono's `DateTime::<Utc>::from_timestamp(secs, 0)`, formatted with
/// `"%Y-%m-%d %H:%M:%S"`. Claimed: the text depends on `secs` alone (UTC, no
/// local time zone). chrono documents `from_timestamp` as succeeding for every
/// timestamp up to `DateTime::<Utc>::MAX_UTC`, which `requires` keeps to.
#[verifier::external_body]
fn format_utc_timestamp(secs: i64) -> (res: String)
    requires
        0 <= secs <= MAX_UTC_TIMESTAMP,
    ensures
        res@ == utc_timestamp_text(secs as int),
{
    match chrono::DateTime::<chrono::Utc>::from_timestamp(secs, 0) {
        Some(dt) => dt.format("%Y-%m-%d %H:%M:%S").to_string(),
        None => String::new(),
    }
}

impl LONGDATETIME {
    /// The Unix timestamp that `to_datetime` and `to_string` stand for: the
    /// stored seconds added to the Unix epoch shifted by `EPOCH_SHIFT_SECS`.
    pub open spec fn unix_seconds(&self) -> int {
        self.0 + EPOCH_SHIFT_SECS
    }

    /// The instant `EPOCH_SHIFT_SECS + (self.0 as u64)` seconds after the
    /// Unix epoch (a negative value, cast, counts as a huge number of
    /// seconds), or `None` where the platform's `SystemTime` cannot
    /// represent it.
    pub fn to_datetime(&self) -> (res: Option<UnixTime>)
        ensures
            res matches Some(t) ==> t.unix_seconds() == EPOCH_SHIFT_SECS + (self.0 as u64),
    {
        let shifted = unix_time_checked_add_secs(unix_epoch(), EPOCH_SHIFT_SECS);
        match shifted {
            Some(t) => unix_time_checked_add_secs(t, self.0 as u64),
            None => None,
        }
    }

    /// The instant as UTC text `YYYY-MM-DD hh:mm:ss`.
    pub fn to_string(&self) -> (res: String)
        requires
            0 <= self.0,
            self.unix_seconds() <= MAX_UTC_TIMESTAMP,
        ensures
            res@ == utc_timestamp_text(self.unix_seconds()),
    {
        let secs: i64 = self.0 + (EPOCH_SHIFT_SECS as i64);
        format_utc_timestamp(secs)
    }
}

/// `seek` then `tell`: the position is the offset when it lies inside the
/// data, and stays what it was otherwise.
pub proof fn lemma_seek_tell(pos: int, offset: int, len: int)
    ensures
        0 <= offset < len ==> seek_target(pos, offset, len) == offset,
        offset >= len ==> seek_target(pos, offset, len) == pos,
{
}

// ---------------------------------------------------------------------------
// The byte reader.
// ---------------------------------------------------------------------------

/// A cursor over a font file. Reads are big-endian and advance the cursor.
pub struct Reader<'a> {
    full_data: &'a [u8],
    pos: usize,
}

impl<'a> Reader<'a> {
    #[verifier::type_invariant]
    spec fn inv(self) -> bool {
        self.pos <= self.full_data@.len()
    }

    /// All the bytes the reader was made over.
    pub closed spec fn data(&self) -> Seq<u8> {
        self.full_data@
    }

    /// The offset of the next byte to be read.
    pub closed spec fn pos(&self) -> int {
        self.pos as int
    }

    /// `self` holds the same data as `before`, with the cursor `n` bytes further.
    pub open spec fn advanced(&self, before: Reader<'a>, n: int) -> bool {
        &&& self.data() == before.data()
        &&& self.pos() == before.pos() + n
    }

    /// `n` more bytes can be read.
    pub open spec fn has(&self, n: int) -> bool {
        &&& 0 <= self.pos()
        &&& self.pos() + n <= self.data().len()
    }

    pub fn new(data: &'a [u8]) -> (res: Self)
        ensures
            res.data() == data@,
            res.pos() == 0,
    {
        Reader { full_data: data, pos: 0 }
    }

    /// Moves the cursor to `offset` if it lies inside the data; otherwise
    /// the cursor stays where it is.
    pub fn seek(&mut self, offset: usize)
        ensures
            final(self).data() == old(self).data(),
            final(self).pos() == seek_target(
                old(self).pos(),
                offset as int,
                old(self).data().len() as int,
            ),
    {
        if offset < self.full_data.len() {
            self.pos = offset;
        }
    }

    pub fn tell(&self) -> (res: usize)
        ensures
            res == self.pos(),
            0 <= self.pos(),
    {
        self.pos
    }

    /// The number of bytes left after the cursor.
    pub fn remaining(&self) -> (res: usize)
        ensures
            res == self.data().len() - self.pos(),
            0 <= self.pos() <= self.data().len(),
    {
        proof {
            use_type_invariant(self);
        }
        self.full_data.len() - self.pos
    }

    fn peek_u16(&self) -> (res: u16)
        requires
            self.has(2),
        ensures
            res == be_u16(self.data(), self.pos()),
    {
        let p = self.pos;
        (self.full_data[p] as u16) * 0x100 + (self.full_data[p + 1] as u16)
    }

    fn peek_u32(&self) -> (res: u32)
        requires
            self.has(4),
        ensures
            res == be_u32(self.data(), self.pos()),
    {
        let p = self.pos;
        (self.full_data[p] as u32) * 0x100_0000 + (self.full_data[p + 1] as u32) * 0x1_0000 + (
        self.full_data[p + 2] as u32) * 0x100 + (self.full_data[p + 3] as u32)
    }

    fn peek_u64(&self) -> (res: u64)
        requires
            self.has(8),
        ensures
            res == be_u64(self.data(), self.pos()),
    {
        let p = self.pos;
        let hi = (self.full_data[p] as u64) * 0x100_0000 + (self.full_data[p + 1] as u64)
            * 0x1_0000 + (self.full_data[p + 2] as u64) * 0x100 + (self.full_data[p + 3] as u64);
        let lo = (self.full_data[p + 4] as u64) * 0x100_0000 + (self.full_data[p + 5] as u64)
            * 0x1_0000 + (self.full_data[p + 6] as u64) * 0x100 + (self.full_data[p + 7] as u64);
        hi * 0x1_0000_0000 + lo
    }

    fn skip(&mut self, n: usize)
        requires
            old(self).has(n as int),
        ensures
            final(self).advanced(*old(self), n as int),
    {
        let len = self.full_data.len();
        assert(self.pos + n <= len);
        self.pos = self.pos + n;
    }

    pub fn read_uint8(&mut self) -> (res: uint8)
        requires
            old(self).has(1),
        ensures
            final(self).advanced(*old(self), 1),
            res == old(self).data()[old(self).pos()],
    {
        let v = self.full_data[self.pos];
        self.skip(1);
        v
    }

    pub fn read_int8(&mut self) -> (res: int8)
        requires
            old(self).has(1),
        ensures
            final(self).advanced(*old(self), 1),
            res == old(self).data()[old(self).pos()] as i8,
    {
        let v = self.full_data[self.pos] as i8;
        self.skip(1);
        v
    }

    pub fn read_uint16(&mut self) -> (res: uint16)
        requires
            old(self).has(2),
        ensures
            final(self).advanced(*old(self), 2),
            res == be_u16(old(self).data(), old(self).pos()),
    {
        let v = self.peek_u16();
        self.skip(2);
        v
    }

    pub fn read_int16(&mut self) -> (res: int16)
        requires
            old(self).has(2),
        ensures
            final(self).advanced(*old(self), 2),
            res == be_i16(old(self).data(), old(self).pos()),
    {
        let v = self.peek_u16() as i16;
        self.skip(2);
        v
    }

    pub fn read_uint24(&mut self) -> (res: uint24)
        requires
            old(self).has(3),
        ensures
            final(self).advanced(*old(self), 3),
            res@ == old(self).data().subrange(old(self).pos(), old(self).pos() + 3),
    {
        let p = self.pos;
        let v = [self.full_data[p], self.full_data[p + 1], self.full_data[p + 2]];
        assert(v@ =~= self.data().subrange(p as int, p + 3));
        self.skip(3);
        v
    }

    pub fn read_uint32(&mut self) -> (res: uint32)
        requires
            old(self).has(4),
        ensures
            final(self).advanced(*old(self), 4),
            res == be_u32(old(self).data(), old(self).pos()),
    {
        let v = self.peek_u32();
        self.skip(4);
        v
    }

    pub fn read_int32(&mut self) -> (res: int32)
        requires
            old(self).has(4),
        ensures
            final(self).advanced(*old(self), 4),
            res == be_i32(old(self).data(), old(self).pos()),
    {
        let v = self.peek_u32() as i32;
        self.skip(4);
        v
    }

    pub fn read_fixed(&mut self) -> (res: Fixed)
        requires
            old(self).has(4),
        ensures
            final(self).advanced(*old(self), 4),
            res == be_i32(old(self).data(), old(self).pos()),
    {
        let v = self.peek_u32() as i32;
        self.skip(4);
        v
    }

    pub fn read_fword(&mut self) -> (res: FWORD)
        requires
            old(self).has(2),
        ensures
            final(self).advanced(*old(self), 2),
            res == be_i16(old(self).data(), old(self).pos()),
    {
        let v = self.peek_u16() as i16;
        self.skip(2);
        v
    }

    pub fn read_ufword(&mut self) -> (res: UFWORD)
        requires
            old(self).has(2),
        ensures
            final(self).advanced(*old(self), 2),
            res == be_u16(old(self).data(), old(self).pos()),
    {
        let v = self.peek_u16();
        self.skip(2);
        v
    }

    pub fn read_f2dot14(&mut self) -> (res: F2DOT14)
        requires
            old(self).has(2),
        ensures
            final(self).advanced(*old(self), 2),
            res.0 == be_i16(old(self).data(), old(self).pos()),
    {
        let v = self.peek_u16() as i16;
        self.skip(2);
        F2DOT14(v)
    }

    pub fn read_longdatetime(&mut self) -> (res: LONGDATETIME)
        requires
            old(self).has(8),
        ensures
            final(self).advanced(*old(self), 8),
            res.0 == be_i64(old(self).data(), old(self).pos()),
    {
        let v = self.peek_u64() as i64;
        self.skip(8);
        LONGDATETIME(v)
    }

    pub fn read_tag(&mut self) -> (res: Tag)
        requires
            old(self).has(4),
        ensures
            final(self).advanced(*old(self), 4),
            res == Tag(be_u32(old(self).data(), old(self).pos())),
    {
        let v = self.peek_u32();
        self.skip(4);
        Tag(v)
    }

    pub fn read_offset8(&mut self) -> (res: Offset8)
        requires
            old(self).has(1),
        ensures
            final(self).advanced(*old(self), 1),
            res == old(self).data()[old(self).pos()],
    {
        let v = self.full_data[self.pos];
        self.skip(1);
        v
    }

    pub fn read_offset16(&mut self) -> (res: Offset16)
        requires
            old(self).has(2),
        ensures
            final(self).advanced(*old(self), 2),
            res == be_u16(old(self).data(), old(self).pos()),
    {
        let v = self.peek_u16();
        self.skip(2);
        v
    }

    pub fn read_offset24(&mut self) -> (res: Offset24)
        requires
            old(self).has(3),
        ensures
            final(self).advanced(*old(self), 3),
            res@ == old(self).data().subrange(old(self).pos(), old(self).pos() + 3),
    {
        let p = self.pos;
        let v = [self.full_data[p], self.full_data[p + 1], self.full_data[p + 2]];
        assert(v@ =~= self.data().subrange(p as int, p + 3));
        self.skip(3);
        v
    }

    pub fn read_offset32(&mut self) -> (res: Offset32)
        requires
            old(self).has(4),
        ensures
            final(self).advanced(*old(self), 4),
            res == be_u32(old(self).data(), old(self).pos()),
    {
        let v = self.peek_u32();
        self.skip(4);
        v
    }

    pub fn read_version16dot16(&mut self) -> (res: Version16Dot16)
        requires
            old(self).has(4),
        ensures
            final(self).advanced(*old(self), 4),
            res == Version16Dot16(be_u32(old(self).data(), old(self).pos())),
    {
        let v = self.peek_u32();
        self.skip(4);
        Version16Dot16(v)
    }

    /// The next `size` bytes, borrowed from the data.
    pub fn read(&mut self, size: usize) -> (res: &'a [u8])
        requires
            old(self).has(size as int),
        ensures
            final(self).advanced(*old(self), size as int),
            res@ == old(self).data().subrange(old(self).pos(), old(self).pos() + size),
    {
        let d: &'a [u8] = self.full_data;
        let p = self.pos;
        let len = d.len();
        assert(p + size <= len);
        let buf = &d[p..p + size];
        self.skip(size);
        buf
    }
}

/// Reads `n` consecutive big-endian `u16` values.
pub(crate) fn read_uint16_vec(reader: &mut Reader, n: usize) -> (res: Vec<u16>)
    requires
        old(reader).has(2 * n),
    ensures
        final(reader).advanced(*old(reader), 2 * n),
        res@ == be_u16_seq(old(reader).data(), old(reader).pos(), n as nat),
{
    let ghost d = reader.data();
    let ghost p = reader.pos();
    let mut v: Vec<u16> = Vec::new();
    let mut i: usize = 0;
    while i < n
        invariant
            reader.data() == d,
            0 <= p,
            reader.pos() == p + 2 * i,
            p + 2 * n <= d.len(),
            i <= n,
            v@ == be_u16_seq(d, p, i as nat),
        decreases n - i,
    {
        let x = reader.read_uint16();
        v.push(x);
        i = i + 1;
        assert(v@ =~= be_u16_seq(d, p, i as nat));
    }
    v
}

/// Reads `n` consecutive big-endian `i16` values.
pub(crate) fn read_int16_vec(reader: &mut Reader, n: usize) -> (res: Vec<i16>)
    requires
        old(reader).has(2 * n),
    ensures
        final(reader).advanced(*old(reader), 2 * n),
        res@ == be_i16_seq(old(reader).data(), old(reader).pos(), n as nat),
{
    let ghost d = reader.data();
    let ghost p = reader.pos();
    let mut v: Vec<i16> = Vec::new();
    let mut i: usize = 0;
    while i < n
        invariant
            reader.data() == d,
            0 <= p,
            reader.pos() == p + 2 * i,
            p + 2 * n <= d.len(),
            i <= n,
            v@ == be_i16_seq(d, p, i as nat),
        decreases n - i,
    {
        let x = reader.read_int16();
        v.push(x);
        i = i + 1;
        assert(v@ =~= be_i16_seq(d, p, i as nat));
    }
    v
}

/// Reads `n` bytes into a vector.
pub(crate) fn read_uint8_vec(reader: &mut Reader, n: usize) -> (res: Vec<u8>)
    requires
        old(reader).has(n as int),
    ensures
        final(reader).advanced(*old(reader), n as int),
        res@ == old(reader).data().subrange(old(reader).pos(), old(reader).pos() + n),
{
    let ghost d = reader.data();
    let ghost p = reader.pos();
    let mut v: Vec<u8> = Vec::new();
    let mut i: usize = 0;
    while i < n
        invariant
            reader.data() == d,
            0 <= p,
            reader.pos() == p + i,
            p + n <= d.len(),
            i <= n,
            v@ == d.subrange(p, p + i),
        decreases n - i,
    {
        let x = reader.read_uint8();
        assert(x == d[p + i]);
        v.push(x);
        i = i + 1;
        assert(v@ =~= d.subrange(p, p + i));
    }
    v
}

} // verus!
