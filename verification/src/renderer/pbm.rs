use crate::ttf::types::{ascii_bytes, decimal_bytes, decimal_text};
use vstd::prelude::*;

verus! {

/// A black-and-white image, row by row from the top; `true` is a set pixel.
pub struct Image {
    pub width: u32,
    pub height: u32,
    pub data: Vec<bool>,
}

/// `y * width + x` stays below `width * height` for a pixel inside the image.
proof fn lemma_index_in_image(x: int, y: int, width: int, height: int)
    requires
        0 <= x < width,
        0 <= y < height,
    ensures
        y * width + x < width * height,
        y * width + x >= 0,
{
    assert(y * width + x < width * height) by (nonlinear_arith)
        requires
            0 <= x < width,
            0 <= y < height,
    ;
    assert(y * width >= 0) by (nonlinear_arith)
        requires
            0 <= y,
            0 <= width,
    ;
}

impl Image {
    /// The pixel in column `x` of row `y`.
    pub open spec fn pixel(&self, x: int, y: int) -> bool {
        self.data@[y * self.width + x]
    }

    /// Where pixel (`x`, `y`) is kept in `data`.
    pub open spec fn index_of(&self, x: int, y: int) -> int {
        y * self.width + x
    }

    /// `width * height` fits in a `u32`, as `new` computes it.
    pub open spec fn size_fits(width: u32, height: u32) -> bool {
        width * height <= u32::MAX
    }

    /// A blank image: `width * height` pixels, none set.
    pub fn new(width: u32, height: u32) -> (res: Self)
        requires
            Image::size_fits(width, height),
        ensures
            res.width == width,
            res.height == height,
            res.data@ == Seq::new((width * height) as nat, |i: int| false),
    {
        let data = vec![false; (width * height) as usize];
        assert(data@ =~= Seq::new((width * height) as nat, |i: int| false));
        Image { width, height, data }
    }

    /// The pixel can be set: for a pixel inside the image, its index fits in
    /// a `u32` and lies inside `data`.
    pub open spec fn can_set(&self, x: u32, y: u32) -> bool {
        x < self.width && y < self.height ==> {
            &&& self.index_of(x as int, y as int) <= u32::MAX
            &&& self.index_of(x as int, y as int) < self.data@.len()
        }
    }

    /// Sets pixel (`x`, `y`) to `value`; a pixel outside the image is ignored.
    pub fn set_pixel(&mut self, x: u32, y: u32, value: bool)
        requires
            old(self).can_set(x, y),
        ensures
            final(self).width == old(self).width,
            final(self).height == old(self).height,
            final(self).data@ == if x < old(self).width && y < old(self).height {
                old(self).data@.update(old(self).index_of(x as int, y as int), value)
            } else {
                old(self).data@
            },
    {
        if x < self.width && y < self.height {
            proof {
                assert(y * self.width >= 0) by (nonlinear_arith)
                    requires
                        0 <= y,
                        0 <= self.width,
                ;
            }
            let index = (y * self.width + x) as usize;
            self.data.set(index, value);
        }
    }

    /// Every pixel inside the image can be read: `data` holds at least
    /// `width * height` pixels and every index fits in a `u32`.
    pub open spec fn can_encode(&self) -> bool {
        &&& self.width * self.height <= self.data@.len()
        &&& self.width * self.height <= u32::MAX + 1
    }

    /// Row `y` as plain PBM text: `1` for a set pixel, `0` otherwise, then a newline.
    pub open spec fn pbm_row(&self, y: int) -> Seq<u8> {
        Seq::new(
            self.width as nat,
            |x: int|
                if self.pixel(x, y) {
                    '1' as u8
                } else {
                    '0' as u8
                },
        ) + seq!['\n' as u8]
    }

    /// The first `k` rows as plain PBM text.
    pub open spec fn pbm_rows(&self, k: nat) -> Seq<u8>
        decreases k,
    {
        if k == 0 {
            Seq::empty()
        } else {
            self.pbm_rows((k - 1) as nat) + self.pbm_row(k - 1)
        }
    }

    /// The `P1 width height` header line.
    pub open spec fn pbm_header(&self) -> Seq<u8> {
        ascii_bytes(seq!['P', '1', '\n']) + ascii_bytes(decimal_text(self.width as nat)) + seq![
            ' ' as u8,
        ] + ascii_bytes(decimal_text(self.height as nat)) + seq!['\n' as u8]
    }

    /// The image as a plain (ASCII) PBM file.
    pub open spec fn pbm_text(&self) -> Seq<u8> {
        self.pbm_header() + self.pbm_rows(self.height as nat)
    }

    /// The text of one pixel in a plain PPM file: white or black.
    pub open spec fn ppm_pixel(&self, x: int, y: int) -> Seq<u8> {
        if self.pixel(x, y) {
            ascii_bytes(seq!['2', '5', '5', ' ', '2', '5', '5', ' ', '2', '5', '5'])
        } else {
            ascii_bytes(seq!['0', ' ', '0', ' ', '0'])
        }
    }

    /// The first `k` pixels of row `y` in a plain PPM file, each followed by a space.
    pub open spec fn ppm_cells(&self, y: int, k: nat) -> Seq<u8>
        decreases k,
    {
        if k == 0 {
            Seq::empty()
        } else {
            self.ppm_cells(y, (k - 1) as nat) + self.ppm_pixel(k - 1, y) + seq![' ' as u8]
        }
    }

    /// The first `k` rows of a plain PPM file.
    pub open spec fn ppm_rows(&self, k: nat) -> Seq<u8>
        decreases k,
    {
        if k == 0 {
            Seq::empty()
        } else {
            self.ppm_rows((k - 1) as nat) + self.ppm_cells(k - 1, self.width as nat) + seq![
                '\n' as u8,
            ]
        }
    }

    /// The `P3 width height 255` header.
    pub open spec fn ppm_header(&self) -> Seq<u8> {
        ascii_bytes(seq!['P', '3', '\n']) + ascii_bytes(decimal_text(self.width as nat)) + seq![
            ' ' as u8,
        ] + ascii_bytes(decimal_text(self.height as nat)) + ascii_bytes(
            seq!['\n', '2', '5', '5', '\n'],
        )
    }

    /// The image as a plain (ASCII) PPM file.
    pub open spec fn ppm_text(&self) -> Seq<u8> {
        self.ppm_header() + self.ppm_rows(self.height as nat)
    }

    /// The image as the bytes of a plain PBM file.
    pub fn to_pbm(&self) -> (res: Vec<u8>)
        requires
            self.can_encode(),
        ensures
            res@ == self.pbm_text(),
    {
        let mut out: Vec<u8> = Vec::new();
        out.push('P' as u8);
        out.push('1' as u8);
        out.push('\n' as u8);
        let mut w = decimal_bytes(self.width);
        out.append(&mut w);
        out.push(' ' as u8);
        let mut h = decimal_bytes(self.height);
        out.append(&mut h);
        out.push('\n' as u8);
        assert(out@ =~= self.pbm_header());
        let ghost header = out@;

        let mut y: u32 = 0;
        while y < self.height
            invariant
                self.can_encode(),
                y <= self.height,
                out@ == header + self.pbm_rows(y as nat),
            decreases self.height - y,
        {
            let ghost before = out@;
            let mut x: u32 = 0;
            while x < self.width
                invariant
                    self.can_encode(),
                    y < self.height,
                    x <= self.width,
                    out@ == before + Seq::new(
                        x as nat,
                        |i: int|
                            if self.pixel(i, y as int) {
                                '1' as u8
                            } else {
                                '0' as u8
                            },
                    ),
                decreases self.width - x,
            {
                proof {
                    lemma_index_in_image(x as int, y as int, self.width as int, self.height as int);
                }
                let value = if self.data[(y * self.width + x) as usize] {
                    '1' as u8
                } else {
                    '0' as u8
                };
                out.push(value);
                x = x + 1;
                assert(out@ =~= before + Seq::new(
                    x as nat,
                    |i: int|
                        if self.pixel(i, y as int) {
                            '1' as u8
                        } else {
                            '0' as u8
                        },
                ));
            }
            out.push('\n' as u8);
            y = y + 1;
            assert(out@ =~= header + self.pbm_rows(y as nat));
        }
        out
    }

    /// The image as the bytes of a plain PPM file.
    pub fn to_ppm(&self) -> (res: Vec<u8>)
        requires
            self.can_encode(),
        ensures
            res@ == self.ppm_text(),
    {
        let mut out: Vec<u8> = Vec::new();
        out.push('P' as u8);
        out.push('3' as u8);
        out.push('\n' as u8);
        let mut w = decimal_bytes(self.width);
        out.append(&mut w);
        out.push(' ' as u8);
        let mut h = decimal_bytes(self.height);
        out.append(&mut h);
        out.push('\n' as u8);
        out.push('2' as u8);
        out.push('5' as u8);
        out.push('5' as u8);
        out.push('\n' as u8);
        assert(out@ =~= self.ppm_header());
        let ghost header = out@;

        let mut y: u32 = 0;
        while y < self.height
            invariant
                self.can_encode(),
                y <= self.height,
                out@ == header + self.ppm_rows(y as nat),
            decreases self.height - y,
        {
            let ghost before = out@;
            let mut x: u32 = 0;
            while x < self.width
                invariant
                    self.can_encode(),
                    y < self.height,
                    x <= self.width,
                    out@ == before + self.ppm_cells(y as int, x as nat),
                decreases self.width - x,
            {
                proof {
                    lemma_index_in_image(x as int, y as int, self.width as int, self.height as int);
                }
                let ghost cells = out@;
                if self.data[(y * self.width + x) as usize] {
                    out.push('2' as u8);
                    out.push('5' as u8);
                    out.push('5' as u8);
                    out.push(' ' as u8);
                    out.push('2' as u8);
                    out.push('5' as u8);
                    out.push('5' as u8);
                    out.push(' ' as u8);
                    out.push('2' as u8);
                    out.push('5' as u8);
                    out.push('5' as u8);
                } else {
                    out.push('0' as u8);
                    out.push(' ' as u8);
                    out.push('0' as u8);
                    out.push(' ' as u8);
                    out.push('0' as u8);
                }
                out.push(' ' as u8);
                assert(out@ =~= cells + self.ppm_pixel(x as int, y as int) + seq![' ' as u8]);
                x = x + 1;
                assert(out@ =~= before + self.ppm_cells(y as int, x as nat));
            }
            out.push('\n' as u8);
            y = y + 1;
            assert(out@ =~= header + self.ppm_rows(y as nat));
        }
        out
    }
}

/// Distinct pixels inside an image are kept at distinct indices.
proof fn lemma_index_unique(w: int, x1: int, y1: int, x2: int, y2: int)
    requires
        0 <= x1 < w,
        0 <= x2 < w,
        0 <= y1,
        0 <= y2,
        y1 * w + x1 == y2 * w + x2,
    ensures
        x1 == x2,
        y1 == y2,
{
    if y1 < y2 {
        assert(y1 * w + x1 < y2 * w + x2) by (nonlinear_arith)
            requires
                0 <= x1 < w,
                0 <= x2,
                y1 < y2,
        ;
    } else if y2 < y1 {
        assert(y2 * w + x2 < y1 * w + x1) by (nonlinear_arith)
            requires
                0 <= x2 < w,
                0 <= x1,
                y2 < y1,
        ;
    }
}

/// Reading back a write: after `set_pixel(x, y, value)` on a pixel inside the
/// image, that pixel reads `value` and every other pixel reads what it did.
pub proof fn lemma_pixel_after_set(before: &Image, after: &Image, x: u32, y: u32, value: bool)
    requires
        before.can_encode(),
        x < before.width,
        y < before.height,
        after.width == before.width,
        after.height == before.height,
        after.data@ == before.data@.update(before.index_of(x as int, y as int), value),
    ensures
        after.pixel(x as int, y as int) == value,
        forall|x2: int, y2: int|
            0 <= x2 < before.width && 0 <= y2 < before.height && (x2 != x || y2 != y)
                ==> #[trigger] after.pixel(x2, y2) == before.pixel(x2, y2),
{
    lemma_index_in_image(x as int, y as int, before.width as int, before.height as int);
    assert forall|x2: int, y2: int|
        0 <= x2 < before.width && 0 <= y2 < before.height && (x2 != x || y2 != y) implies #[trigger] after.pixel(
        x2,
        y2,
    ) == before.pixel(x2, y2) by {
        lemma_index_in_image(x2, y2, before.width as int, before.height as int);
        if before.index_of(x2, y2) == before.index_of(x as int, y as int) {
            lemma_index_unique(before.width as int, x2, y2, x as int, y as int);
        }
    }
}

/// The PPM cell and the PBM character of one pixel show the same thing, and
/// after `set_pixel(x, y, value)` on a pixel inside the image both show
/// `value` for that pixel (white / `1` for set, black / `0` for unset) while
/// every other pixel shows what it did before.
pub proof fn lemma_set_pixel_shows_in_text(
    before: &Image,
    after: &Image,
    x: u32,
    y: u32,
    value: bool,
)
    requires
        before.can_encode(),
        x < before.width,
        y < before.height,
        after.width == before.width,
        after.height == before.height,
        after.data@ == before.data@.update(before.index_of(x as int, y as int), value),
    ensures
        after.pbm_row(y as int)[x as int] == (if value {
            '1' as u8
        } else {
            '0' as u8
        }),
        after.ppm_pixel(x as int, y as int) == (if value {
            ascii_bytes(seq!['2', '5', '5', ' ', '2', '5', '5', ' ', '2', '5', '5'])
        } else {
            ascii_bytes(seq!['0', ' ', '0', ' ', '0'])
        }),
        forall|x2: int, y2: int|
            0 <= x2 < before.width && 0 <= y2 < before.height && (x2 != x || y2 != y) ==> {
                &&& #[trigger] after.ppm_pixel(x2, y2) == before.ppm_pixel(x2, y2)
                &&& after.pbm_row(y2)[x2] == before.pbm_row(y2)[x2]
            },
{
    lemma_pixel_after_set(before, after, x, y, value);
    assert forall|x2: int, y2: int|
        0 <= x2 < before.width && 0 <= y2 < before.height && (x2 != x || y2 != y) implies {
        &&& #[trigger] after.ppm_pixel(x2, y2) == before.ppm_pixel(x2, y2)
        &&& after.pbm_row(y2)[x2] == before.pbm_row(y2)[x2]
    } by {
        assert(after.pixel(x2, y2) == before.pixel(x2, y2));
    }
}

/// In every image, the PPM cell of a pixel is white exactly where its PBM
/// character is `1`.
pub proof fn lemma_ppm_agrees_with_pbm(img: &Image, x: int, y: int)
    requires
        0 <= x < img.width,
        0 <= y < img.height,
    ensures
        img.ppm_pixel(x, y) == (if img.pbm_row(y)[x] == '1' as u8 {
            ascii_bytes(seq!['2', '5', '5', ' ', '2', '5', '5', ' ', '2', '5', '5'])
        } else {
            ascii_bytes(seq!['0', ' ', '0', ' ', '0'])
        }),
{
}

} // verus!
