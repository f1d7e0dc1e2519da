use crate::ttf::types::{
    be_i16, be_i16_seq, be_u16, be_u16_seq, int16, read_uint16_vec, read_uint8_vec, uint16, uint8, Reader,
};
use vstd::prelude::*;

verus! {

/// The fixed header every glyph starts with.
#[derive(Debug)]
pub struct GlyphHeader {
    pub number_of_contours: int16,
    pub x_min: int16,
    pub y_min: int16,
    pub x_max: int16,
    pub y_max: int16,
}

/// One outline point in font units, with whether it lies on the curve.
#[derive(Debug)]
pub struct GlyphPoint {
    pub x: int16,
    pub y: int16,
    pub on_curve: bool,
}

/// A glyph made of its own contours.
#[derive(Debug)]
pub struct SimpleGlyph {
    pub header: GlyphHeader,
    pub end_pts_of_contours: Vec<uint16>,
    pub instruction_length: uint16,
    pub instructions: Vec<uint8>,
    pub points: Vec<GlyphPoint>,
}

/// A glyph built from other glyphs; only its header is read.
#[derive(Debug)]
pub struct CompositeGlyph {
    pub header: GlyphHeader,
}

#[derive(Debug)]
pub enum Glyph {
    Simple(SimpleGlyph),
    Composite(CompositeGlyph),
}

/// Flag bit: the point lies on the curve.
pub const ON_CURVE: u8 = 0x01;

/// Flag bit: the x delta is one unsigned byte.
pub const X_SHORT: u8 = 0x02;

/// Flag bit: the y delta is one unsigned byte.
pub const Y_SHORT: u8 = 0x04;

/// Flag bit: the next byte says how many more times this flag repeats.
pub const REPEAT: u8 = 0x08;

/// Flag bit: with `X_SHORT`, the x byte is positive; without it, x repeats
/// the previous value.
pub const X_SAME: u8 = 0x10;

/// Flag bit: with `Y_SHORT`, the y byte is positive; without it, y repeats
/// the previous value.
pub const Y_SAME: u8 = 0x20;

/// `pre` put in front of the sequence of a successful scan.
pub open spec fn prepend<A>(pre: Seq<A>, r: Option<(Seq<A>, int)>) -> Option<(Seq<A>, int)> {
    match r {
        Some((s, e)) => Some((pre + s, e)),
        None => None,
    }
}

proof fn lemma_prepend_prepend<A>(a: Seq<A>, b: Seq<A>, r: Option<(Seq<A>, int)>)
    ensures
        prepend(a, prepend(b, r)) == prepend(a + b, r),
{
    if let Some((s, e)) = r {
        assert(a + (b + s) =~= (a + b) + s);
    }
}

/// The flags read from `d[q..]` once `i` of the `num_points` points have
/// flags, and where the flag bytes end. A flag with `REPEAT` set is followed
/// by a count of extra copies. `None` where a byte lies beyond the data or
/// the point counter would pass `u16::MAX`.
pub open spec fn flags_from(d: Seq<u8>, q: int, i: int, num_points: int) -> Option<(Seq<u8>, int)>
    decreases (if i < num_points {
        num_points - i
    } else {
        0
    }),
{
    if i >= num_points {
        Some((Seq::empty(), q))
    } else if !(0 <= q < d.len()) {
        None
    } else {
        let flag = d[q];
        if flag & REPEAT != 0 {
            if q + 1 >= d.len() {
                None
            } else {
                let r = d[q + 1] as int;
                if i + 1 + r > 0xFFFF {
                    None
                } else {
                    let rest = flags_from(d, q + 2, i + 1 + r, num_points);
                    prepend(Seq::new((1 + r) as nat, |k: int| flag), rest)
                }
            }
        } else {
            prepend(seq![flag], flags_from(d, q + 1, i + 1, num_points))
        }
    }
}

/// A coordinate is a 16-bit signed value.
pub open spec fn fits_i16(v: int) -> bool {
    -0x8000 <= v <= 0x7FFF
}

/// One coordinate step for `flag`, starting from `curr` with the delta bytes
/// at `d[q..]`: the new coordinate and where its delta ends. `None` where the
/// delta lies beyond the data or the sum leaves the 16-bit range.
pub open spec fn coord_step(
    d: Seq<u8>,
    q: int,
    flag: u8,
    curr: int,
    short_bit: u8,
    same_bit: u8,
) -> Option<(int, int)> {
    if flag & short_bit != 0 {
        if !(0 <= q < d.len()) {
            None
        } else {
            let x = d[q] as int;
            let c = if flag & same_bit != 0 {
                curr + x
            } else {
                curr - x
            };
            if fits_i16(c) {
                Some((c, q + 1))
            } else {
                None
            }
        }
    } else if flag & same_bit == 0 {
        if !(0 <= q && q + 2 <= d.len()) {
            None
        } else {
            let c = curr + be_i16(d, q) as int;
            if fits_i16(c) {
                Some((c, q + 2))
            } else {
                None
            }
        }
    } else {
        Some((curr, q))
    }
}

/// The absolute coordinates for `flags[k..]`, accumulated from `curr` over
/// the deltas at `d[q..]`, and where the deltas end.
pub open spec fn coords_from(
    d: Seq<u8>,
    q: int,
    flags: Seq<u8>,
    k: int,
    curr: int,
    short_bit: u8,
    same_bit: u8,
) -> Option<(Seq<i16>, int)>
    decreases flags.len() - k,
{
    if k >= flags.len() {
        Some((Seq::empty(), q))
    } else {
        match coord_step(d, q, flags[k], curr, short_bit, same_bit) {
            Some((c, q2)) => prepend(
                seq![c as i16],
                coords_from(d, q2, flags, k + 1, c, short_bit, same_bit),
            ),
            None => None,
        }
    }
}

/// The parts of a glyph with contours, as stored at `d[p..]`.
pub struct SimpleLayout {
    pub end_pts: Seq<u16>,
    pub instruction_length: u16,
    pub instructions: Seq<u8>,
    pub flags: Seq<u8>,
    pub xs: Seq<i16>,
    pub ys: Seq<i16>,
    pub end: int,
}

impl SimpleLayout {
    /// The points: coordinates paired with the on-curve bit of their flag.
    pub open spec fn points(&self) -> Seq<GlyphPoint> {
        Seq::new(
            self.flags.len(),
            |k: int| GlyphPoint { x: self.xs[k], y: self.ys[k], on_curve: self.flags[k] & ON_CURVE != 0 },
        )
    }
}

/// The contour end points, instructions, flags and coordinates of the glyph
/// with `number_of_contours > 0` stored at `d[p..]`. `None` where a part lies
/// beyond the data, the last end point is `u16::MAX`, or a count or a
/// coordinate overflows.
pub open spec fn simple_layout(d: Seq<u8>, p: int) -> Option<SimpleLayout> {
    let n = be_i16(d, p) as int;
    let ip = p + 10 + 2 * n;
    if !(0 <= p && 0 < n && ip + 2 <= d.len()) {
        None
    } else {
        let end_pts = be_u16_seq(d, p + 10, n as nat);
        let il = be_u16(d, ip);
        let fq = ip + 2 + il;
        if fq > d.len() || end_pts.last() == 0xFFFF {
            None
        } else {
            match flags_from(d, fq, 0, end_pts.last() + 1) {
                None => None,
                Some((flags, xq)) => match coords_from(d, xq, flags, 0, 0, X_SHORT, X_SAME) {
                    None => None,
                    Some((xs, yq)) => match coords_from(d, yq, flags, 0, 0, Y_SHORT, Y_SAME) {
                        None => None,
                        Some((ys, e)) => Some(
                            SimpleLayout {
                                end_pts,
                                instruction_length: il,
                                instructions: d.subrange(ip + 2, fq),
                                flags,
                                xs,
                                ys,
                                end: e,
                            },
                        ),
                    },
                },
            }
        }
    }
}

impl GlyphHeader {
    /// The header stored in the 10 bytes at `d[p..]`.
    pub open spec fn spec_at(d: Seq<u8>, p: int) -> GlyphHeader {
        GlyphHeader {
            number_of_contours: be_i16(d, p),
            x_min: be_i16(d, p + 2),
            y_min: be_i16(d, p + 4),
            x_max: be_i16(d, p + 6),
            y_max: be_i16(d, p + 8),
        }
    }
}

/// A glyph header is five consecutive signed words: the contour count, then
/// the bounding box as x_min, y_min, x_max, y_max.
pub proof fn lemma_glyph_header_word_layout(d: Seq<u8>, p: int)
    ensures
        ({
            let h = GlyphHeader::spec_at(d, p);
            seq![h.number_of_contours, h.x_min, h.y_min, h.x_max, h.y_max] == be_i16_seq(d, p, 5)
        }),
{
    let h = GlyphHeader::spec_at(d, p);
    assert(seq![h.number_of_contours, h.x_min, h.y_min, h.x_max, h.y_max] =~= be_i16_seq(
        d,
        p,
        5,
    ));
}

/// The flags read while `i < num_points`, as `flags_from` describes.
fn read_flags(reader: &mut Reader, num_points: u16) -> (res: Option<Vec<u8>>)
    ensures
        res is Some <==> flags_from(
            old(reader).data(),
            old(reader).pos(),
            0,
            num_points as int,
        ) is Some,
        res matches Some(flags) ==> {
            &&& final(reader).data() == old(reader).data()
            &&& flags_from(old(reader).data(), old(reader).pos(), 0, num_points as int) == Some(
                (flags@, final(reader).pos()),
            )
        },
{
    let ghost d = reader.data();
    let ghost q0 = reader.pos();
    let ghost total = flags_from(d, q0, 0, num_points as int);
    let mut i: u16 = 0;
    let mut flags: Vec<uint8> = Vec::new();
    assert(flags@ + Seq::<u8>::empty() =~= Seq::<u8>::empty());
    while i < num_points
        invariant
            reader.data() == d,
            d == old(reader).data(),
            q0 == old(reader).pos(),
            total == flags_from(d, q0, 0, num_points as int),
            total == prepend(flags@, flags_from(d, reader.pos(), i as int, num_points as int)),
        decreases (if i < num_points {
            num_points - i
        } else {
            0
        }),
    {
        let ghost before = flags@;
        if reader.remaining() < 1 {
            return None;
        }
        let flag = reader.read_uint8();
        flags.push(flag);
        i = i + 1;

        if flag & 0x08 != 0 {
            if reader.remaining() < 1 {
                return None;
            }
            let repeat_count = reader.read_uint8();
            if (i as u32) + (repeat_count as u32) > 0xFFFF {
                return None;
            }
            let ghost i1 = i;
            let mut j: u8 = 0;
            while j < repeat_count
                invariant
                    j <= repeat_count,
                    i == i1 + j,
                    i1 + repeat_count <= 0xFFFF,
                    flags@ == before + Seq::new((1 + j) as nat, |k: int| flag),
                decreases repeat_count - j,
            {
                flags.push(flag);
                i = i + 1;
                j = j + 1;
                assert(flags@ =~= before + Seq::new((1 + j) as nat, |k: int| flag));
            }
            proof {
                lemma_prepend_prepend(
                    before,
                    Seq::new((1 + repeat_count) as nat, |k: int| flag),
                    flags_from(d, reader.pos(), i as int, num_points as int),
                );
            }
        } else {
            proof {
                lemma_prepend_prepend(
                    before,
                    seq![flag],
                    flags_from(d, reader.pos(), i as int, num_points as int),
                );
            }
        }
    }
    assert(flags@ + Seq::<u8>::empty() =~= flags@);
    Some(flags)
}

/// One coordinate per flag, accumulated from 0 over the deltas at the
/// cursor, as `coords_from` describes.
fn read_coordinates(reader: &mut Reader, flags: &Vec<uint8>, short_bit: u8, same_bit: u8) -> (res:
    Option<Vec<int16>>)
    ensures
        res is Some <==> coords_from(
            old(reader).data(),
            old(reader).pos(),
            flags@,
            0,
            0,
            short_bit,
            same_bit,
        ) is Some,
        res matches Some(cs) ==> {
            &&& final(reader).data() == old(reader).data()
            &&& coords_from(old(reader).data(), old(reader).pos(), flags@, 0, 0, short_bit, same_bit)
                == Some((cs@, final(reader).pos()))
        },
{
    let ghost d = reader.data();
    let ghost q0 = reader.pos();
    let ghost total = coords_from(d, q0, flags@, 0, 0, short_bit, same_bit);
    let mut curr: int16 = 0;
    let mut coordinates: Vec<int16> = Vec::new();
    let mut k: usize = 0;
    assert(coordinates@ + Seq::<i16>::empty() =~= Seq::<i16>::empty());
    while k < flags.len()
        invariant
            reader.data() == d,
            d == old(reader).data(),
            q0 == old(reader).pos(),
            k <= flags@.len(),
            total == coords_from(d, q0, flags@, 0, 0, short_bit, same_bit),
            total == prepend(
                coordinates@,
                coords_from(d, reader.pos(), flags@, k as int, curr as int, short_bit, same_bit),
            ),
        decreases flags@.len() - k,
    {
        let flag = flags[k];
        let short = flag & short_bit != 0;
        let same = flag & same_bit != 0;
        if short {
            if reader.remaining() < 1 {
                return None;
            }
            let x = reader.read_uint8() as int16;
            let dx = if same {
                x
            } else {
                -x
            };
            let sum = curr as i32 + dx as i32;
            if sum < -0x8000 || sum > 0x7FFF {
                return None;
            }
            curr = curr + dx;
        } else {
            if !same {
                if reader.remaining() < 2 {
                    return None;
                }
                let dx = reader.read_int16();
                let sum = curr as i32 + dx as i32;
                if sum < -0x8000 || sum > 0x7FFF {
                    return None;
                }
                curr = curr + dx;
            }
        }
        proof {
            lemma_prepend_prepend(
                coordinates@,
                seq![curr],
                coords_from(d, reader.pos(), flags@, k + 1, curr as int, short_bit, same_bit),
            );
        }
        coordinates.push(curr);
        k = k + 1;
        assert(coordinates@ =~= coordinates@.drop_last() + seq![curr]);
    }
    assert(coordinates@ + Seq::<i16>::empty() =~= coordinates@);
    Some(coordinates)
}

impl Glyph {
    /// The glyph at `d[p..]` can be read: its header lies inside `d`, and for
    /// a glyph with contours so do all its parts, without overflow.
    pub open spec fn fits(d: Seq<u8>, p: int) -> bool {
        &&& 0 <= p
        &&& p + 10 <= d.len()
        &&& be_i16(d, p) > 0 ==> simple_layout(d, p) is Some
    }

    /// Where the glyph at `d[p..]` ends.
    pub open spec fn end_at(d: Seq<u8>, p: int) -> int {
        if be_i16(d, p) > 0 {
            simple_layout(d, p).unwrap().end
        } else {
            p + 10
        }
    }

    /// `self` holds the glyph stored at `d[p..]`: simple with its contours
    /// for a positive contour count, simple and empty for zero, composite
    /// (header only) for a negative count.
    pub open spec fn is_read_from(&self, d: Seq<u8>, p: int) -> bool {
        let header = GlyphHeader::spec_at(d, p);
        let n = header.number_of_contours;
        match self {
            Glyph::Simple(s) => {
                &&& n >= 0
                &&& s.header == header
                &&& if n > 0 {
                    let l = simple_layout(d, p).unwrap();
                    &&& s.end_pts_of_contours@ == l.end_pts
                    &&& s.instruction_length == l.instruction_length
                    &&& s.instructions@ == l.instructions
                    &&& s.points@ == l.points()
                } else {
                    &&& s.end_pts_of_contours@.len() == 0
                    &&& s.instruction_length == 0
                    &&& s.instructions@.len() == 0
                    &&& s.points@.len() == 0
                }
            },
            Glyph::Composite(c) => n < 0 && c.header == header,
        }
    }

    /// Reads the glyph at the cursor, or gives `None` where it cannot be read.
    pub fn try_read_from(reader: &mut Reader) -> (res: Option<Self>)
        ensures
            res is Some <==> Glyph::fits(old(reader).data(), old(reader).pos()),
            res matches Some(g) ==> {
                &&& g.is_read_from(old(reader).data(), old(reader).pos())
                &&& final(reader).data() == old(reader).data()
                &&& final(reader).pos() == Glyph::end_at(old(reader).data(), old(reader).pos())
            },
    {
        let ghost d = reader.data();
        let ghost p = reader.pos();
        if reader.remaining() < 10 {
            return None;
        }
        let header = GlyphHeader {
            number_of_contours: reader.read_int16(),
            x_min: reader.read_int16(),
            y_min: reader.read_int16(),
            x_max: reader.read_int16(),
            y_max: reader.read_int16(),
        };

        if header.number_of_contours > 0 {
            let n = header.number_of_contours as usize;
            if reader.remaining() / 2 < n + 1 {
                return None;
            }
            let end_pts_of_contours = read_uint16_vec(reader, n);
            let instruction_length = reader.read_uint16();
            if reader.remaining() < instruction_length as usize {
                return None;
            }
            let instructions = read_uint8_vec(reader, instruction_length as usize);
            let ghost fq = reader.pos();
            assert(instructions@ == d.subrange(p + 12 + 2 * n, fq));

            let last = end_pts_of_contours[n - 1];
            assert(last == end_pts_of_contours@.last());
            if last == 0xFFFF {
                return None;
            }
            let num_points = last + 1;

            let flags = match read_flags(reader, num_points) {
                Some(f) => f,
                None => {
                    return None;
                },
            };
            let ghost xq = reader.pos();
            let x_coordinates = match read_coordinates(reader, &flags, 0x02, 0x10) {
                Some(xs) => xs,
                None => {
                    return None;
                },
            };
            let ghost yq = reader.pos();
            let y_coordinates = match read_coordinates(reader, &flags, 0x04, 0x20) {
                Some(ys) => ys,
                None => {
                    return None;
                },
            };
            let ghost layout = simple_layout(d, p).unwrap();
            proof {
                lemma_coords_len(d, xq, flags@, 0, 0, X_SHORT, X_SAME);
                lemma_coords_len(d, yq, flags@, 0, 0, Y_SHORT, Y_SAME);
            }
            assert(layout.xs == x_coordinates@);
            assert(layout.ys == y_coordinates@);

            let mut points: Vec<GlyphPoint> = Vec::new();
            let mut k: usize = 0;
            while k < flags.len()
                invariant
                    k <= flags@.len(),
                    layout.flags == flags@,
                    layout.xs == x_coordinates@,
                    layout.ys == y_coordinates@,
                    x_coordinates@.len() == flags@.len(),
                    y_coordinates@.len() == flags@.len(),
                    points@ == layout.points().take(k as int),
                decreases flags@.len() - k,
            {
                let flag = flags[k];
                points.push(
                    GlyphPoint {
                        x: x_coordinates[k],
                        y: y_coordinates[k],
                        on_curve: flag & 0x01 != 0,
                    },
                );
                k = k + 1;
                assert(points@ =~= layout.points().take(k as int));
            }
            assert(points@ =~= layout.points());

            Some(
                Glyph::Simple(
                    SimpleGlyph {
                        header,
                        end_pts_of_contours,
                        instruction_length,
                        instructions,
                        points,
                    },
                ),
            )
        } else if header.number_of_contours == 0 {
            Some(
                Glyph::Simple(
                    SimpleGlyph {
                        header,
                        end_pts_of_contours: Vec::new(),
                        instruction_length: 0,
                        instructions: Vec::new(),
                        points: Vec::new(),
                    },
                ),
            )
        } else {
            Some(Glyph::Composite(CompositeGlyph { header }))
        }
    }

    pub fn read_from(reader: &mut Reader) -> (res: Self)
        requires
            Glyph::fits(old(reader).data(), old(reader).pos()),
        ensures
            res.is_read_from(old(reader).data(), old(reader).pos()),
            final(reader).data() == old(reader).data(),
            final(reader).pos() == Glyph::end_at(old(reader).data(), old(reader).pos()),
    {
        match Glyph::try_read_from(reader) {
            Some(g) => g,
            None => unreached(),
        }
    }
}

/// A successful coordinate scan gives one coordinate per remaining flag.
proof fn lemma_coords_len(
    d: Seq<u8>,
    q: int,
    flags: Seq<u8>,
    k: int,
    curr: int,
    short_bit: u8,
    same_bit: u8,
)
    requires
        0 <= k <= flags.len(),
    ensures
        coords_from(d, q, flags, k, curr, short_bit, same_bit) matches Some((cs, e)) ==> cs.len()
            == flags.len() - k,
    decreases flags.len() - k,
{
    if k < flags.len() {
        if let Some((c, q2)) = coord_step(d, q, flags[k], curr, short_bit, same_bit) {
            lemma_coords_len(d, q2, flags, k + 1, c, short_bit, same_bit);
        }
    }
}

/// A successful flag scan gives at least one flag for every point still to
/// come: repeats may overshoot, never fall short.
proof fn lemma_flags_len(d: Seq<u8>, q: int, i: int, num_points: int)
    ensures
        flags_from(d, q, i, num_points) matches Some((fs, e)) ==> fs.len() >= num_points - i,
    decreases (if i < num_points {
        num_points - i
    } else {
        0
    }),
{
    if i < num_points && 0 <= q < d.len() {
        let flag = d[q];
        if flag & REPEAT != 0 {
            if q + 1 < d.len() {
                let r = d[q + 1] as int;
                if i + 1 + r <= 0xFFFF {
                    lemma_flags_len(d, q + 2, i + 1 + r, num_points);
                }
            }
        } else {
            lemma_flags_len(d, q + 1, i + 1, num_points);
        }
    }
}

/// A glyph with contours has a point for every point its contours declare
/// (at least last end point + 1), and one x and one y coordinate per point.
pub proof fn lemma_glyph_points_cover_contours(d: Seq<u8>, p: int)
    requires
        simple_layout(d, p) is Some,
    ensures
        simple_layout(d, p).unwrap().points().len() >= simple_layout(d, p).unwrap().end_pts.last()
            + 1,
        simple_layout(d, p).unwrap().xs.len() == simple_layout(d, p).unwrap().flags.len(),
        simple_layout(d, p).unwrap().ys.len() == simple_layout(d, p).unwrap().flags.len(),
{
    let n = be_i16(d, p) as int;
    let ip = p + 10 + 2 * n;
    let end_pts = be_u16_seq(d, p + 10, n as nat);
    let fq = ip + 2 + be_u16(d, ip);
    lemma_flags_len(d, fq, 0, end_pts.last() + 1);
    let (flags, xq) = flags_from(d, fq, 0, end_pts.last() + 1).unwrap();
    lemma_coords_len(d, xq, flags, 0, 0, X_SHORT, X_SAME);
    let (xs, yq) = coords_from(d, xq, flags, 0, 0, X_SHORT, X_SAME).unwrap();
    lemma_coords_len(d, yq, flags, 0, 0, Y_SHORT, Y_SAME);
}

/// Flag bytes without the repeat bit are taken one per point, exactly as
/// many as the points still to come.
proof fn lemma_flags_without_repeats(d: Seq<u8>, q: int, i: int, num_points: int)
    requires
        0 <= q,
        i <= num_points,
        q + (num_points - i) <= d.len(),
        forall|k: int| 0 <= k < num_points - i ==> #[trigger] d[q + k] & 0x08u8 == 0,
    ensures
        flags_from(d, q, i, num_points) == Some(
            (d.subrange(q, q + (num_points - i)), q + (num_points - i)),
        ),
    decreases num_points - i,
{
    if i < num_points {
        assert(d[q + 0] & 0x08u8 == 0);
        assert forall|k: int| 0 <= k < num_points - (i + 1) implies #[trigger] d[(q + 1) + k]
            & 0x08u8 == 0 by {
            assert(d[q + (k + 1)] & 0x08u8 == 0);
        }
        lemma_flags_without_repeats(d, q + 1, i + 1, num_points);
        assert(seq![d[q]] + d.subrange(q + 1, q + (num_points - i)) =~= d.subrange(
            q,
            q + (num_points - i),
        ));
    } else {
        assert(d.subrange(q, q) =~= Seq::<u8>::empty());
    }
}

/// The last contour end point of the glyph at `d[p..]` (a glyph with contours).
pub open spec fn last_end_point(d: Seq<u8>, p: int) -> int {
    be_u16(d, p + 10 + 2 * (be_i16(d, p) - 1)) as int
}

/// Where the flag bytes of the glyph at `d[p..]` start: after the header, the
/// end points, the instruction length and the instructions.
pub open spec fn flag_bytes_start(d: Seq<u8>, p: int) -> int {
    p + 12 + 2 * be_i16(d, p) + be_u16(d, p + 10 + 2 * be_i16(d, p))
}

/// A glyph with contours has exactly one point per point its contours
/// declare (last end point + 1) when no flag byte repeats, and each point is
/// on the curve exactly when its flag byte says so.
pub proof fn lemma_glyph_point_count_without_repeats(g: Glyph, d: Seq<u8>, p: int)
    requires
        Glyph::fits(d, p),
        g.is_read_from(d, p),
        be_i16(d, p) > 0,
        flag_bytes_start(d, p) + last_end_point(d, p) + 1 <= d.len(),
        forall|k: int|
            0 <= k <= last_end_point(d, p) ==> #[trigger] d[flag_bytes_start(d, p) + k] & 0x08u8
                == 0,
    ensures
        g matches Glyph::Simple(s) && {
            &&& s.points@.len() == last_end_point(d, p) + 1
            &&& s.end_pts_of_contours@.last() == last_end_point(d, p)
            &&& forall|k: int|
                0 <= k <= last_end_point(d, p) ==> (#[trigger] s.points@[k]).on_curve == (d[flag_bytes_start(d, p) + k] & 0x01u8 != 0)
        },
{
    let n = be_i16(d, p) as int;
    let fq = flag_bytes_start(d, p);
    let end_pts = be_u16_seq(d, p + 10, n as nat);
    let last = last_end_point(d, p);
    assert(end_pts.last() == last);
    assert forall|k: int| 0 <= k < (last + 1) - 0 implies #[trigger] d[fq + k] & 0x08u8 == 0 by {
        assert(d[flag_bytes_start(d, p) + k] & 0x08u8 == 0);
    }
    lemma_flags_without_repeats(d, fq, 0, last + 1);
    let l = simple_layout(d, p).unwrap();
    assert(l.flags == d.subrange(fq, fq + last + 1));
    lemma_glyph_points_cover_contours(d, p);
}

/// The sum of the `m` bytes at `d[q..]`.
pub open spec fn byte_sum(d: Seq<u8>, q: int, m: nat) -> int
    decreases m,
{
    if m == 0 {
        0
    } else {
        d[q] as int + byte_sum(d, q + 1, (m - 1) as nat)
    }
}

/// With every remaining flag saying "one positive byte", the coordinates are
/// the running sums of consecutive delta bytes, starting from `curr`.
proof fn lemma_coords_short_positive(
    d: Seq<u8>,
    q: int,
    flags: Seq<u8>,
    k: int,
    curr: int,
    short_bit: u8,
    same_bit: u8,
)
    requires
        0 <= k <= flags.len(),
        coords_from(d, q, flags, k, curr, short_bit, same_bit) is Some,
        forall|j: int|
            k <= j < flags.len() ==> #[trigger] flags[j] & short_bit != 0 && flags[j] & same_bit
                != 0,
    ensures
        coords_from(d, q, flags, k, curr, short_bit, same_bit) == Some(
            (
                Seq::new(
                    (flags.len() - k) as nat,
                    |j: int| (curr + byte_sum(d, q, (j + 1) as nat)) as i16,
                ),
                q + (flags.len() - k),
            ),
        ),
        forall|j: int|
            0 <= j < flags.len() - k ==> fits_i16(#[trigger] byte_sum(d, q, (j + 1) as nat) + curr),
    decreases flags.len() - k,
{
    if k < flags.len() {
        assert(flags[k] & short_bit != 0 && flags[k] & same_bit != 0);
        let c = curr + d[q] as int;
        lemma_coords_short_positive(d, q + 1, flags, k + 1, c, short_bit, same_bit);
        let rest = Seq::new(
            (flags.len() - (k + 1)) as nat,
            |j: int| (c + byte_sum(d, q + 1, (j + 1) as nat)) as i16,
        );
        let all = Seq::new(
            (flags.len() - k) as nat,
            |j: int| (curr + byte_sum(d, q, (j + 1) as nat)) as i16,
        );
        assert forall|j: int| 0 <= j < all.len() implies all[j] == (seq![c as i16] + rest)[j] by {
            if j > 0 {
                assert(byte_sum(d, q, (j + 1) as nat) == d[q] as int + byte_sum(
                    d,
                    q + 1,
                    j as nat,
                ));
                assert(((j - 1) + 1) as nat == j as nat);
            } else {
                assert(byte_sum(d, q, 1) == d[q] as int + byte_sum(d, q + 1, 0));
            }
        }
        assert(all =~= seq![c as i16] + rest);
        assert forall|j: int| 0 <= j < flags.len() - k implies fits_i16(
            #[trigger] byte_sum(d, q, (j + 1) as nat) + curr,
        ) by {
            assert(byte_sum(d, q, (j + 1) as nat) == d[q] as int + byte_sum(d, q + 1, j as nat));
            if j > 0 {
                assert(((j - 1) + 1) as nat == j as nat);
                assert(fits_i16(byte_sum(d, q + 1, ((j - 1) + 1) as nat) + c));
            } else {
                assert(byte_sum(d, q + 1, 0) == 0);
            }
        }
    }
}

/// For a glyph whose flag bytes give one positive byte for x and for y and
/// never repeat, point `k` sits at the sums of the first `k + 1` x bytes and
/// of the first `k + 1` y bytes; the x bytes follow the flags and the y bytes
/// follow the x bytes.
pub proof fn lemma_glyph_short_positive_coordinates(g: Glyph, d: Seq<u8>, p: int)
    requires
        Glyph::fits(d, p),
        g.is_read_from(d, p),
        be_i16(d, p) > 0,
        flag_bytes_start(d, p) + last_end_point(d, p) + 1 <= d.len(),
        forall|k: int|
            0 <= k <= last_end_point(d, p) ==> #[trigger] d[flag_bytes_start(d, p) + k] & 0x08u8
                == 0 && d[flag_bytes_start(d, p) + k] & 0x36u8 == 0x36u8,
    ensures
        g matches Glyph::Simple(s) && forall|k: int|
            0 <= k <= last_end_point(d, p) ==> {
                let xq = flag_bytes_start(d, p) + last_end_point(d, p) + 1;
                let yq = xq + last_end_point(d, p) + 1;
                &&& (#[trigger] s.points@[k]).x as int == byte_sum(d, xq, (k + 1) as nat)
                &&& s.points@[k].y as int == byte_sum(d, yq, (k + 1) as nat)
            },
{
    let fq = flag_bytes_start(d, p);
    let last = last_end_point(d, p);
    let np = last + 1;
    let xq = fq + np;
    let yq = xq + np;
    assert forall|k: int| 0 <= k < np - 0 implies #[trigger] d[fq + k] & 0x08u8 == 0 by {
        assert(d[flag_bytes_start(d, p) + k] & 0x08u8 == 0);
    }
    lemma_flags_without_repeats(d, fq, 0, np);
    lemma_glyph_point_count_without_repeats(g, d, p);
    let flags = d.subrange(fq, fq + np);
    let l = simple_layout(d, p).unwrap();
    assert(l.flags == flags);
    assert forall|j: int| 0 <= j < flags.len() implies #[trigger] flags[j] & X_SHORT != 0
        && flags[j] & X_SAME != 0 && flags[j] & Y_SHORT != 0 && flags[j] & Y_SAME != 0 by {
        let f = flags[j];
        assert(f == d[flag_bytes_start(d, p) + j]);
        assert(f & 0x36u8 == 0x36u8 ==> f & 0x02u8 != 0 && f & 0x10u8 != 0 && f & 0x04u8 != 0
            && f & 0x20u8 != 0) by (bit_vector);
    }
    lemma_coords_short_positive(d, xq, flags, 0, 0, X_SHORT, X_SAME);
    assert(flags_from(d, fq, 0, np) == Some((flags, xq)));
    lemma_coords_short_positive(d, yq, flags, 0, 0, Y_SHORT, Y_SAME);
    lemma_glyph_points_cover_contours(d, p);
    let xs = l.xs;
    let ys = l.ys;
    assert forall|k: int| 0 <= k <= last implies {
        &&& (#[trigger] l.points()[k]).x as int == byte_sum(d, xq, (k + 1) as nat)
        &&& l.points()[k].y as int == byte_sum(d, yq, (k + 1) as nat)
    } by {
        assert(fits_i16(byte_sum(d, xq, (k + 1) as nat) + 0));
        assert(fits_i16(byte_sum(d, yq, (k + 1) as nat) + 0));
    }
}

} // verus!
