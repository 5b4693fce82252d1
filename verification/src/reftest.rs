//! Reference tests: how two images are compared, when a comparison counts
//! as a pass, how an image becomes a data URI, and how a manifest of tests
//! is read.

use crate::geometry::DeviceSize;
use vstd::prelude::*;

verus! {

pub struct ReftestOptions {
    /// These override values that are lower.
    pub allow_max_difference: usize,
    pub allow_num_differences: usize,
}

impl ReftestOptions {
    pub fn default() -> (o: Self)
        ensures
            o.allow_max_difference == 0,
            o.allow_num_differences == 0,
    {
        ReftestOptions { allow_max_difference: 0, allow_num_differences: 0 }
    }
}

#[derive(Debug, Copy, Clone, PartialEq, Eq, Structural)]
pub enum ReftestOp {
    Equal,
    NotEqual,
}

impl ReftestOp {
    /// The operator as a manifest writes it.
    pub fn to_string(&self) -> (s: String)
        ensures
            s@ == match *self {
                ReftestOp::Equal => "=="@,
                ReftestOp::NotEqual => "!="@,
            },
    {
        match *self {
            ReftestOp::Equal => String::from_str("=="),
            ReftestOp::NotEqual => String::from_str("!="),
        }
    }
}

/// One test of a manifest: the two paths, how their images are to relate,
/// and how far two images that count as equal may differ.
pub struct Reftest {
    pub op: ReftestOp,
    pub test: Vec<u8>,
    pub reference: Vec<u8>,
    pub max_difference: usize,
    pub num_differences: usize,
}

/// A test as contracts see it.
pub ghost struct ReftestModel {
    pub op: ReftestOp,
    pub test: Seq<u8>,
    pub reference: Seq<u8>,
    pub max_difference: usize,
    pub num_differences: usize,
}

impl Reftest {
    pub open spec fn view(&self) -> ReftestModel {
        ReftestModel {
            op: self.op,
            test: self.test@,
            reference: self.reference@,
            max_difference: self.max_difference,
            num_differences: self.num_differences,
        }
    }

    /// The test as a manifest line: the test path, the operator and the
    /// reference path, with one space between them.
    pub open spec fn spec_display(self) -> Seq<u8> {
        self.test@ + seq![0x20u8] + (match self.op {
            ReftestOp::Equal => seq![0x3du8, 0x3du8],
            ReftestOp::NotEqual => seq![0x21u8, 0x3du8],
        }) + seq![0x20u8] + self.reference@
    }

    pub fn display(&self) -> (line: Vec<u8>)
        ensures
            line@ == self.spec_display(),
    {
        let mut line: Vec<u8> = Vec::new();
        let mut i: usize = 0;
        while i < self.test.len()
            invariant
                i <= self.test@.len(),
                line@ == self.test@.subrange(0, i as int),
            decreases self.test@.len() - i,
        {
            line.push(self.test[i]);
            assert(line@ == self.test@.subrange(0, i + 1));
            i += 1;
        }
        assert(line@ == self.test@);
        line.push(0x20);
        match self.op {
            ReftestOp::Equal => {
                line.push(0x3d);
            },
            ReftestOp::NotEqual => {
                line.push(0x21);
            },
        }
        line.push(0x3d);
        line.push(0x20);
        let ghost head = line@;
        let mut j: usize = 0;
        while j < self.reference.len()
            invariant
                j <= self.reference@.len(),
                line@ == head + self.reference@.subrange(0, j as int),
            decreases self.reference@.len() - j,
        {
            line.push(self.reference[j]);
            assert(line@ == head + self.reference@.subrange(0, j + 1));
            j += 1;
        }
        assert(self.reference@.subrange(0, self.reference@.len() as int) == self.reference@);
        assert(line@ == self.spec_display());
        line
    }
}

/// An image of four bytes to the pixel, row after row.
pub struct ReftestImage {
    pub data: Vec<u8>,
    pub size: DeviceSize,
}

#[derive(Debug, Copy, Clone, PartialEq, Eq, Structural)]
pub enum ReftestImageComparison {
    Equal,
    NotEqual { max_difference: usize, count_different: usize },
}

/// How far two bytes are apart.
pub open spec fn byte_distance(a: u8, b: u8) -> int {
    if a >= b {
        a - b
    } else {
        b - a
    }
}

/// Pixel `p` is not the same in the two images.
pub open spec fn pixel_differs(a: Seq<u8>, b: Seq<u8>, p: int) -> bool {
    a[4 * p] != b[4 * p] || a[4 * p + 1] != b[4 * p + 1] || a[4 * p + 2] != b[4 * p + 2] || a[4
        * p + 3] != b[4 * p + 3]
}

/// The larger of two numbers.
pub open spec fn larger(x: int, y: int) -> int {
    if x >= y {
        x
    } else {
        y
    }
}

/// How far pixel `p` is apart in the two images: the largest distance of
/// one of its four channels.
pub open spec fn pixel_distance(a: Seq<u8>, b: Seq<u8>, p: int) -> int {
    larger(
        larger(byte_distance(a[4 * p], b[4 * p]), byte_distance(a[4 * p + 1], b[4 * p + 1])),
        larger(
            byte_distance(a[4 * p + 2], b[4 * p + 2]),
            byte_distance(a[4 * p + 3], b[4 * p + 3]),
        ),
    )
}

/// How many of the first `n` pixels differ.
pub open spec fn count_different(a: Seq<u8>, b: Seq<u8>, n: int) -> int
    decreases n,
{
    if n <= 0 {
        0
    } else {
        count_different(a, b, n - 1) + if pixel_differs(a, b, n - 1) {
            1int
        } else {
            0int
        }
    }
}

/// The largest distance among the first `n` pixels.
pub open spec fn max_difference(a: Seq<u8>, b: Seq<u8>, n: int) -> int
    decreases n,
{
    if n <= 0 {
        0
    } else {
        larger(max_difference(a, b, n - 1), pixel_distance(a, b, n - 1))
    }
}

/// What the comparison of two images of `n` pixels says.
pub open spec fn comparison(a: Seq<u8>, b: Seq<u8>, n: int) -> ReftestImageComparison {
    if count_different(a, b, n) != 0 {
        ReftestImageComparison::NotEqual {
            max_difference: max_difference(a, b, n) as usize,
            count_different: count_different(a, b, n) as usize,
        }
    } else {
        ReftestImageComparison::Equal
    }
}

/// Whether a test passes, given what the comparison of its two images
/// said. Images that are to be equal may differ in as many pixels, and by
/// as much, as the test allows.
pub open spec fn spec_passes(t: ReftestModel, outcome: ReftestImageComparison) -> bool {
    match (t.op, outcome) {
        (ReftestOp::Equal, ReftestImageComparison::Equal) => true,
        (
            ReftestOp::Equal,
            ReftestImageComparison::NotEqual { max_difference, count_different },
        ) => !(max_difference > t.max_difference || count_different > t.num_differences),
        (ReftestOp::NotEqual, ReftestImageComparison::Equal) => false,
        (ReftestOp::NotEqual, ReftestImageComparison::NotEqual { .. }) => true,
    }
}

pub fn reftest_passes(t: &Reftest, outcome: ReftestImageComparison) -> (pass: bool)
    ensures
        pass == spec_passes(t@, outcome),
{
    match (t.op, outcome) {
        (ReftestOp::Equal, ReftestImageComparison::Equal) => true,
        (
            ReftestOp::Equal,
            ReftestImageComparison::NotEqual { max_difference, count_different },
        ) => !(max_difference > t.max_difference || count_different > t.num_differences),
        (ReftestOp::NotEqual, ReftestImageComparison::Equal) => false,
        (ReftestOp::NotEqual, ReftestImageComparison::NotEqual { .. }) => true,
    }
}

/// The part of a window that is read back for an image of `size`: its
/// bottom left corner, as left, top, width and height; nothing if the
/// window is smaller than the image.
pub fn readback_rect(window: DeviceSize, size: DeviceSize) -> (r: Option<(u32, u32, u32, u32)>)
    ensures
        r == if size.width <= window.width && size.height <= window.height {
            Some((0u32, (window.height - size.height) as u32, size.width, size.height))
        } else {
            None
        },
{
    if size.width <= window.width && size.height <= window.height {
        Some((0, window.height - size.height, size.width, size.height))
    } else {
        None
    }
}

proof fn lemma_comparison_bounds(a: Seq<u8>, b: Seq<u8>, n: int)
    requires
        0 <= n,
    ensures
        0 <= count_different(a, b, n) <= n,
        0 <= max_difference(a, b, n) <= 255,
    decreases n,
{
    if n > 0 {
        lemma_comparison_bounds(a, b, n - 1);
    }
}

fn distance(a: u8, b: u8) -> (d: usize)
    ensures
        d == byte_distance(a, b),
{
    if a >= b {
        (a - b) as usize
    } else {
        (b - a) as usize
    }
}

/// The image with its rows in the opposite order: byte `i` of the result
/// is the byte of the same column in the row counted from the other end.
pub open spec fn flipped(data: Seq<u8>, stride: int, height: int) -> Seq<u8> {
    Seq::new(
        data.len(),
        |i: int|
            if stride > 0 {
                data[(height - 1 - i / stride) * stride + i % stride]
            } else {
                data[i]
            },
    )
}

/// The PNG file that holds an RGBA image of 8 bits to the channel, or
/// nothing where the encoder refuses the image.
pub uninterp spec fn png_encoding(data: Seq<u8>, width: u32, height: u32) -> Option<Seq<u8>>;

/// The base64 text of some bytes, in the standard alphabet with padding.
pub uninterp spec fn base64_encoding(input: Seq<u8>) -> Seq<char>;

/// `image::png::PNGEncoder::encode` with `ColorType::RGBA(8)`, writing into
/// a vector: the PNG file of the image. The file depends on the pixels and
/// the size alone. The encoder refuses an image without width or height,
/// and pixels that are not four bytes for each pixel of the size; with four
/// bytes for each pixel it refuses nothing else.
#[verifier::external_body]
fn encode_png(data: &Vec<u8>, width: u32, height: u32) -> (r: Option<Vec<u8>>)
    requires
        data@.len() == 4 * width * height,
        32 * width <= usize::MAX,
    ensures
        match r {
            Some(png) => Some(png@),
            None => None,
        } == png_encoding(data@, width, height),
        r is None <==> width == 0 || height == 0,
{
    let mut png: Vec<u8> = Vec::new();
    let encoder = image::png::PNGEncoder::new(&mut png);
    match encoder.encode(&data[..], width, height, image::ColorType::RGBA(8)) {
        Ok(()) => Some(png),
        Err(_) => None,
    }
}

/// `base64::encode`: the base64 text of the bytes. The text depends on the
/// bytes alone. The call is left out where the length of the text does not
/// fit a `usize`.
#[verifier::external_body]
fn encode_base64(input: &Vec<u8>) -> (r: String)
    requires
        (input@.len() / 3 + 1) * 4 <= usize::MAX,
    ensures
        r@ == base64_encoding(input@),
{
    base64::encode(input)
}

/// The data URI of a PNG file.
pub fn data_uri_from_png(png: &Vec<u8>) -> (uri: String)
    requires
        (png@.len() / 3 + 1) * 4 <= usize::MAX,
    ensures
        uri@ == "data:image/png;base64,"@ + base64_encoding(png@),
{
    let text = encode_base64(png);
    String::from_str("data:image/png;base64,").concat(text.as_str())
}

impl ReftestImage {
    /// There are four bytes for each pixel of the size.
    pub open spec fn wf(&self) -> bool {
        self.data@.len() == 4 * self.size.width * self.size.height
    }

    /// An image of the given pixels, if they are four bytes for each pixel
    /// of the size.
    pub fn new(data: Vec<u8>, size: DeviceSize) -> (r: Option<ReftestImage>)
        ensures
            r is Some <==> data@.len() == 4 * size.width * size.height,
            r matches Some(image) ==> image.data@ == data@ && image.size == size && image.wf(),
    {
        assert(0 <= size.width as int * size.height as int <= 0xffff_ffff * 0xffff_ffff)
            by (nonlinear_arith)
            requires
                0 <= size.width <= 0xffff_ffff,
                0 <= size.height <= 0xffff_ffff,
        ;
        let pixels: u64 = size.width as u64 * size.height as u64;
        assert(4 * size.width * size.height == 4 * (size.width as int * size.height as int))
            by (nonlinear_arith);
        let len = data.len();
        assert(len <= 0xffff_ffff_ffff_ffff);
        if pixels <= 0x3fff_ffff_ffff_ffff && len as u64 == 4 * pixels {
            Some(ReftestImage { data, size })
        } else {
            None
        }
    }

    /// Compares two images of one size pixel by pixel: how many pixels
    /// differ, and by how much at most.
    pub fn compare(&self, other: &ReftestImage) -> (r: ReftestImageComparison)
        requires
            self.size == other.size,
            self.data@.len() == other.data@.len(),
            self.data@.len() % 4 == 0,
        ensures
            r == comparison(self.data@, other.data@, self.data@.len() as int / 4),
    {
        let len = self.data.len();
        let n = len / 4;
        let mut count: usize = 0;
        let mut max: usize = 0;
        let mut p: usize = 0;
        while p < n
            invariant
                p <= n,
                n == len / 4,
                len == self.data@.len(),
                self.data@.len() == other.data@.len(),
                self.data@.len() % 4 == 0,
                count == count_different(self.data@, other.data@, p as int),
                max == max_difference(self.data@, other.data@, p as int),
            decreases n - p,
        {
            proof {
                lemma_comparison_bounds(self.data@, other.data@, p as int);
            }
            assert(4 * p + 3 < len);
            let a0 = self.data[4 * p];
            let a1 = self.data[4 * p + 1];
            let a2 = self.data[4 * p + 2];
            let a3 = self.data[4 * p + 3];
            let b0 = other.data[4 * p];
            let b1 = other.data[4 * p + 1];
            let b2 = other.data[4 * p + 2];
            let b3 = other.data[4 * p + 3];
            if a0 != b0 || a1 != b1 || a2 != b2 || a3 != b3 {
                count += 1;
            }
            let d0 = distance(a0, b0);
            let d1 = distance(a1, b1);
            let d2 = distance(a2, b2);
            let d3 = distance(a3, b3);
            let first = if d0 >= d1 {
                d0
            } else {
                d1
            };
            let second = if d2 >= d3 {
                d2
            } else {
                d3
            };
            let pixel = if first >= second {
                first
            } else {
                second
            };
            if pixel > max {
                max = pixel;
            }
            p += 1;
        }
        if count != 0 {
            ReftestImageComparison::NotEqual { max_difference: max, count_different: count }
        } else {
            ReftestImageComparison::Equal
        }
    }

    /// The pixels with the rows in the opposite order.
    pub fn flip_rows(&self) -> (out: Vec<u8>)
        requires
            self.wf(),
        ensures
            out@ == flipped(self.data@, 4 * self.size.width, self.size.height as int),
    {
        let height = self.size.height as usize;
        let len = self.data.len();
        let mut out: Vec<u8> = Vec::new();
        if self.size.width == 0 || height == 0 {
            assert(len == 0) by (nonlinear_arith)
                requires
                    len == 4 * self.size.width * self.size.height,
                    self.size.width == 0 || self.size.height == 0,
            ;
            assert(out@ =~= flipped(self.data@, 4 * self.size.width, self.size.height as int));
            return out;
        }
        let stride: usize = len / height;
        assert(stride == 4 * self.size.width && len == stride * height) by (nonlinear_arith)
            requires
                len == 4 * self.size.width * self.size.height,
                height == self.size.height,
                height > 0,
                stride == len as int / height as int,
        ;
        let mut y: usize = 0;
        while y < height
            invariant
                y <= height,
                height == self.size.height,
                stride == 4 * self.size.width,
                stride > 0,
                len == stride * height,
                len == self.data@.len(),
                out@.len() == y * stride,
                forall|i: int|
                    0 <= i < out@.len() ==> out@[i] == self.data@[(height - 1 - i / (stride as int))
                        * stride + i % (stride as int)],
            decreases height - y,
        {
            let src_row = height - y - 1;
            assert(src_row * stride + stride <= len && y * stride + stride <= len)
                by (nonlinear_arith)
                requires
                    src_row < height,
                    y < height,
                    len == stride * height,
                    stride > 0,
            ;
            let src_start = src_row * stride;
            let mut x: usize = 0;
            while x < stride
                invariant
                    x <= stride,
                    y < height,
                    stride > 0,
                    src_start == (height - y - 1) * stride,
                    src_start + stride <= len,
                    len == self.data@.len(),
                    out@.len() == y * stride + x,
                    forall|i: int|
                        0 <= i < out@.len() ==> out@[i] == self.data@[(height - 1 - i / (
                        stride as int)) * stride + i % (stride as int)],
                decreases stride - x,
            {
                let ghost at = out@.len() as int;
                out.push(self.data[src_start + x]);
                proof {
                    assert(at / (stride as int) == y && at % (stride as int) == x)
                        by (nonlinear_arith)
                        requires
                            at == y * stride + x,
                            0 <= x < stride,
                            y >= 0,
                    ;
                }
                x += 1;
            }
            assert(out@.len() == (y + 1) * stride) by (nonlinear_arith)
                requires
                    out@.len() == y * stride + stride,
            ;
            y += 1;
        }
        assert(out@.len() == len) by (nonlinear_arith)
            requires
                out@.len() == y * stride,
                y == height,
                len == stride * height,
        ;
        assert(out@ =~= flipped(self.data@, 4 * self.size.width, self.size.height as int));
        out
    }

    /// The image as a data URI of a PNG file, top row first; nothing for
    /// an image without width or height, which the encoder refuses, or
    /// where the file is too long for its text to fit a `usize`.
    pub fn create_data_uri(&self) -> (r: Option<String>)
        requires
            self.wf(),
            32 * self.size.width <= usize::MAX,
        ensures
            png_encoding(
                flipped(self.data@, 4 * self.size.width, self.size.height as int),
                self.size.width,
                self.size.height,
            ) is None <==> self.size.width == 0 || self.size.height == 0,
            r is Some ==> self.size.width > 0 && self.size.height > 0,
            match png_encoding(
                flipped(self.data@, 4 * self.size.width, self.size.height as int),
                self.size.width,
                self.size.height,
            ) {
                Some(png) => if (png.len() / 3 + 1) * 4 <= usize::MAX {
                    r matches Some(uri) && uri@ == "data:image/png;base64,"@ + base64_encoding(png)
                } else {
                    r is None
                },
                None => r is None,
            },
    {
        let rows = self.flip_rows();
        match encode_png(&rows, self.size.width, self.size.height) {
            Some(png) => {
                if png.len() / 3 < usize::MAX / 4 {
                    Some(data_uri_from_png(&png))
                } else {
                    None
                }
            },
            None => None,
        }
    }
}

/// What separates the pieces of a text.
#[derive(Debug, Copy, Clone, PartialEq, Eq, Structural)]
pub enum Separator {
    /// A space, a tab, a line feed, a vertical tab, a form feed or a
    /// carriage return.
    Whitespace,
    Newline,
    Comma,
    Slash,
}

pub open spec fn is_separator(kind: Separator, b: u8) -> bool {
    match kind {
        Separator::Whitespace => b == 0x20 || (0x09 <= b && b <= 0x0d),
        Separator::Newline => b == 0x0a,
        Separator::Comma => b == 0x2c,
        Separator::Slash => b == 0x2f,
    }
}

/// The pieces that are complete, and the piece that is being read.
pub ghost struct SplitState {
    pub done: Seq<Seq<u8>>,
    pub current: Seq<u8>,
}

/// Where the splitting stands after the first `n` bytes.
pub open spec fn split_upto(s: Seq<u8>, kind: Separator, n: int) -> SplitState
    decreases n,
{
    if n <= 0 || n > s.len() {
        SplitState { done: Seq::empty(), current: Seq::empty() }
    } else {
        let before = split_upto(s, kind, n - 1);
        if is_separator(kind, s[n - 1]) {
            if before.current.len() > 0 {
                SplitState { done: before.done.push(before.current), current: Seq::empty() }
            } else {
                before
            }
        } else {
            SplitState { done: before.done, current: before.current.push(s[n - 1]) }
        }
    }
}

/// The pieces of a text: the longest runs of bytes that are no separators,
/// in order. No piece is empty.
pub open spec fn pieces(s: Seq<u8>, kind: Separator) -> Seq<Seq<u8>> {
    let end = split_upto(s, kind, s.len() as int);
    if end.current.len() > 0 {
        end.done.push(end.current)
    } else {
        end.done
    }
}

/// What a list of byte vectors holds.
pub open spec fn views(v: Seq<Vec<u8>>) -> Seq<Seq<u8>> {
    Seq::new(v.len(), |i: int| v[i]@)
}

fn is_separator_byte(kind: Separator, b: u8) -> (r: bool)
    ensures
        r == is_separator(kind, b),
{
    match kind {
        Separator::Whitespace => b == 0x20 || (0x09 <= b && b <= 0x0d),
        Separator::Newline => b == 0x0a,
        Separator::Comma => b == 0x2c,
        Separator::Slash => b == 0x2f,
    }
}

/// Splits a text at its separators and drops the empty pieces.
pub fn split(s: &[u8], kind: Separator) -> (out: Vec<Vec<u8>>)
    ensures
        views(out@) == pieces(s@, kind),
{
    let mut done: Vec<Vec<u8>> = Vec::new();
    let mut current: Vec<u8> = Vec::new();
    let mut n: usize = 0;
    assert(views(done@) =~= Seq::<Seq<u8>>::empty());
    while n < s.len()
        invariant
            n <= s@.len(),
            views(done@) == split_upto(s@, kind, n as int).done,
            current@ == split_upto(s@, kind, n as int).current,
        decreases s@.len() - n,
    {
        let b = s[n];
        if is_separator_byte(kind, b) {
            if current.len() > 0 {
                let ghost before = views(done@);
                let ghost piece = current@;
                let mut finished: Vec<u8> = Vec::new();
                std::mem::swap(&mut finished, &mut current);
                done.push(finished);
                assert(views(done@) =~= before.push(piece));
            }
        } else {
            current.push(b);
        }
        n += 1;
    }
    if current.len() > 0 {
        let ghost before = views(done@);
        let ghost piece = current@;
        done.push(current);
        assert(views(done@) =~= before.push(piece));
    }
    done
}

/// Whether the byte after the first `n` bytes would lie in a comment: a
/// comment runs from a `#` to the end of its line.
pub open spec fn in_comment(text: Seq<u8>, n: int) -> bool
    decreases n,
{
    if n <= 0 || n > text.len() {
        false
    } else if text[n - 1] == 0x0a {
        false
    } else if text[n - 1] == 0x23 {
        true
    } else {
        in_comment(text, n - 1)
    }
}

/// The text with every comment blanked out.
pub open spec fn uncommented(text: Seq<u8>) -> Seq<u8> {
    Seq::new(
        text.len(),
        |i: int|
            if in_comment(text, i + 1) {
                0x20u8
            } else {
                text[i]
            },
    )
}

/// Blanks out the comments of a text.
pub fn strip_comments(text: &[u8]) -> (out: Vec<u8>)
    ensures
        out@ == uncommented(text@),
{
    let mut out: Vec<u8> = Vec::new();
    let mut inside = false;
    let mut n: usize = 0;
    while n < text.len()
        invariant
            n <= text@.len(),
            inside == in_comment(text@, n as int),
            out@.len() == n,
            forall|i: int| 0 <= i < n ==> out@[i] == uncommented(text@)[i],
        decreases text@.len() - n,
    {
        let b = text[n];
        if b == 0x0a {
            inside = false;
        } else if b == 0x23 {
            inside = true;
        }
        if inside {
            out.push(0x20);
        } else {
            out.push(b);
        }
        n += 1;
    }
    assert(out@ =~= uncommented(text@));
    out
}

/// The words that a manifest knows.
#[derive(Debug, Copy, Clone, PartialEq, Eq, Structural)]
pub enum Word {
    Include,
    Platform,
    Fuzzy,
    IsEqual,
    IsNotEqual,
}

/// How a word is spelled: `include`, `platform`, `fuzzy`, `==`, `!=`.
pub open spec fn spelling(word: Word) -> Seq<u8> {
    match word {
        Word::Include => seq![0x69u8, 0x6eu8, 0x63u8, 0x6cu8, 0x75u8, 0x64u8, 0x65u8],
        Word::Platform => seq![0x70u8, 0x6cu8, 0x61u8, 0x74u8, 0x66u8, 0x6fu8, 0x72u8, 0x6du8],
        Word::Fuzzy => seq![0x66u8, 0x75u8, 0x7au8, 0x7au8, 0x79u8],
        Word::IsEqual => seq![0x3du8, 0x3du8],
        Word::IsNotEqual => seq![0x21u8, 0x3du8],
    }
}

fn spell(word: Word) -> (w: Vec<u8>)
    ensures
        w@ == spelling(word),
{
    let mut w: Vec<u8> = Vec::new();
    match word {
        Word::Include => {
            w.push(0x69);
            w.push(0x6e);
            w.push(0x63);
            w.push(0x6c);
            w.push(0x75);
            w.push(0x64);
            w.push(0x65);
        },
        Word::Platform => {
            w.push(0x70);
            w.push(0x6c);
            w.push(0x61);
            w.push(0x74);
            w.push(0x66);
            w.push(0x6f);
            w.push(0x72);
            w.push(0x6d);
        },
        Word::Fuzzy => {
            w.push(0x66);
            w.push(0x75);
            w.push(0x7a);
            w.push(0x7a);
            w.push(0x79);
        },
        Word::IsEqual => {
            w.push(0x3d);
            w.push(0x3d);
        },
        Word::IsNotEqual => {
            w.push(0x21);
            w.push(0x3d);
        },
    }
    assert(w@ =~= spelling(word));
    w
}

/// The text begins with `prefix`.
pub open spec fn begins_with(t: Seq<u8>, prefix: Seq<u8>) -> bool {
    prefix.len() <= t.len() && t.subrange(0, prefix.len() as int) == prefix
}

fn has_prefix(t: &Vec<u8>, prefix: &Vec<u8>) -> (r: bool)
    ensures
        r == begins_with(t@, prefix@),
{
    if prefix.len() > t.len() {
        return false;
    }
    let mut i: usize = 0;
    while i < prefix.len()
        invariant
            i <= prefix@.len() <= t@.len(),
            t@.subrange(0, i as int) == prefix@.subrange(0, i as int),
        decreases prefix@.len() - i,
    {
        if t[i] != prefix[i] {
            assert(t@.subrange(0, prefix@.len() as int)[i as int] != prefix@[i as int]);
            return false;
        }
        assert(t@.subrange(0, i + 1) =~= t@.subrange(0, i as int).push(t@[i as int]));
        assert(prefix@.subrange(0, i + 1) =~= prefix@.subrange(0, i as int).push(
            prefix@[i as int],
        ));
        i += 1;
    }
    assert(prefix@.subrange(0, prefix@.len() as int) =~= prefix@);
    true
}

fn same_bytes(a: &Vec<u8>, b: &Vec<u8>) -> (r: bool)
    ensures
        r == (a@ == b@),
{
    if a.len() != b.len() {
        return false;
    }
    let same = has_prefix(a, b);
    proof {
        assert(a@.subrange(0, a@.len() as int) =~= a@);
    }
    same
}

fn copy_bytes(a: &Vec<u8>) -> (r: Vec<u8>)
    ensures
        r@ == a@,
{
    let mut r: Vec<u8> = Vec::new();
    let mut i: usize = 0;
    while i < a.len()
        invariant
            i <= a@.len(),
            r@ == a@.subrange(0, i as int),
        decreases a@.len() - i,
    {
        r.push(a[i]);
        assert(r@ =~= a@.subrange(0, i + 1));
        i += 1;
    }
    assert(a@.subrange(0, a@.len() as int) =~= a@);
    r
}

/// Where byte `b` first stands from `from` on, or the length of the text.
pub open spec fn position_from(s: Seq<u8>, b: u8, from: int) -> int
    decreases s.len() - from,
{
    if from < 0 || from >= s.len() {
        s.len() as int
    } else if s[from] == b {
        from
    } else {
        position_from(s, b, from + 1)
    }
}

proof fn lemma_position(s: Seq<u8>, b: u8, from: int)
    requires
        0 <= from <= s.len(),
    ensures
        from <= position_from(s, b, from) <= s.len(),
        position_from(s, b, from) < s.len() ==> s[position_from(s, b, from)] == b,
    decreases s.len() - from,
{
    if from < s.len() && s[from] != b {
        lemma_position(s, b, from + 1);
    }
}

/// The arguments of a call such as `fuzzy(1,2)`: what stands between the
/// first `(` and a `)` at the very end, split at the commas. A text of
/// another shape has no arguments.
pub open spec fn call_args(t: Seq<u8>) -> Seq<Seq<u8>> {
    let open = position_from(t, 0x28u8, 0);
    if open < t.len() && t.last() == 0x29u8 {
        pieces(t.subrange(open + 1, t.len() - 1), Separator::Comma)
    } else {
        Seq::empty()
    }
}

fn parse_call(t: &Vec<u8>) -> (args: Vec<Vec<u8>>)
    ensures
        views(args@) == call_args(t@),
{
    let mut open: usize = 0;
    while open < t.len() && t[open] != 0x28
        invariant
            open <= t@.len(),
            position_from(t@, 0x28u8, 0) == position_from(t@, 0x28u8, open as int),
        decreases t@.len() - open,
    {
        open += 1;
    }
    if open < t.len() && t[t.len() - 1] == 0x29 {
        let mut inner: Vec<u8> = Vec::new();
        let mut i: usize = open + 1;
        while i < t.len() - 1
            invariant
                open + 1 <= i <= t@.len() - 1,
                inner@ == t@.subrange(open + 1, i as int),
            decreases t@.len() - i,
        {
            inner.push(t[i]);
            assert(inner@ =~= t@.subrange(open + 1, i + 1));
            i += 1;
        }
        split(inner.as_slice(), Separator::Comma)
    } else {
        let args: Vec<Vec<u8>> = Vec::new();
        assert(views(args@) =~= Seq::<Seq<u8>>::empty());
        args
    }
}

/// The number that the first `n` bytes spell in decimal digits, if they
/// are all digits.
pub open spec fn digits_value(s: Seq<u8>, n: int) -> Option<int>
    decreases n,
{
    if n <= 0 || n > s.len() {
        Some(0int)
    } else {
        match digits_value(s, n - 1) {
            Some(v) => if 0x30 <= s[n - 1] && s[n - 1] <= 0x39 {
                Some(v * 10 + (s[n - 1] - 0x30))
            } else {
                None
            },
            None => None,
        }
    }
}

/// The text without the plus sign that it may begin with.
pub open spec fn unsigned_part(s: Seq<u8>) -> Seq<u8> {
    if s.len() > 0 && s[0] == 0x2b {
        s.subrange(1, s.len() as int)
    } else {
        s
    }
}

/// The number that a text spells in decimal digits, with or without a plus
/// sign before them, if it is one that a `usize` holds.
pub open spec fn spec_parse_number(s: Seq<u8>) -> Option<usize> {
    spec_parse_digits(unsigned_part(s))
}

/// The number that a text of decimal digits spells, if it is one that a
/// `usize` holds.
pub open spec fn spec_parse_digits(s: Seq<u8>) -> Option<usize> {
    if s.len() == 0 {
        None
    } else {
        match digits_value(s, s.len() as int) {
            Some(v) => if v <= usize::MAX {
                Some(v as usize)
            } else {
                None
            },
            None => None,
        }
    }
}

proof fn lemma_digits_are_natural(s: Seq<u8>, n: int)
    requires
        0 <= n <= s.len(),
    ensures
        digits_value(s, n) matches Some(v) ==> 0 <= v,
    decreases n,
{
    if n > 0 {
        lemma_digits_are_natural(s, n - 1);
    }
}

proof fn lemma_digits_grow(s: Seq<u8>, k: int, n: int)
    requires
        0 <= k <= n <= s.len(),
    ensures
        digits_value(s, n) matches Some(v) ==> digits_value(s, k) matches Some(u) && 0 <= u <= v,
    decreases n - k,
{
    lemma_digits_are_natural(s, n);
    if k < n {
        lemma_digits_grow(s, k, n - 1);
        lemma_digits_are_natural(s, n - 1);
    }
}

pub fn parse_number(s: &Vec<u8>) -> (r: Option<usize>)
    ensures
        r == spec_parse_number(s@),
{
    if s.len() > 0 && s[0] == 0x2b {
        let mut digits: Vec<u8> = Vec::new();
        let mut i: usize = 1;
        while i < s.len()
            invariant
                1 <= i <= s@.len(),
                digits@ == s@.subrange(1, i as int),
            decreases s@.len() - i,
        {
            digits.push(s[i]);
            assert(digits@ =~= s@.subrange(1, i + 1));
            i += 1;
        }
        parse_digits(&digits)
    } else {
        parse_digits(s)
    }
}

fn parse_digits(s: &Vec<u8>) -> (r: Option<usize>)
    ensures
        r == spec_parse_digits(s@),
{
    if s.len() == 0 {
        return None;
    }
    let mut value: usize = 0;
    let mut n: usize = 0;
    while n < s.len()
        invariant
            n <= s@.len(),
            digits_value(s@, n as int) == Some(value as int),
        decreases s@.len() - n,
    {
        let b = s[n];
        if b < 0x30 || b > 0x39 {
            proof {
                lemma_digits_grow(s@, n + 1, s@.len() as int);
            }
            return None;
        }
        let digit = (b - 0x30) as usize;
        if value > (usize::MAX - digit) / 10 {
            proof {
                lemma_digits_grow(s@, n + 1, s@.len() as int);
                assert(value * 10 + digit > usize::MAX) by (nonlinear_arith)
                    requires
                        value > (usize::MAX - digit) / 10,
                        0 <= digit <= 9,
                ;
            }
            return None;
        }
        assert(value * 10 + digit <= usize::MAX) by (nonlinear_arith)
            requires
                value <= (usize::MAX - digit) / 10,
                0 <= digit <= 9,
        ;
        value = value * 10 + digit;
        n += 1;
    }
    Some(value)
}

/// What a line has said so far about the test that it names.
#[derive(Debug, Copy, Clone, PartialEq, Eq, Structural)]
pub struct LineState {
    pub max_difference: usize,
    pub max_count: usize,
    pub op: ReftestOp,
}

#[derive(Debug, Copy, Clone, PartialEq, Eq, Structural)]
pub enum ManifestError {
    /// `include` stands after other words of its line.
    IncludeNotFirst,
    /// A line ends where a path is due.
    MissingPath,
    /// `fuzzy` without two numbers.
    BadFuzzy,
}

/// What a line of a manifest asks for.
pub enum ManifestEntry {
    /// Another manifest is to be read in this place.
    Include(Vec<u8>),
    Test(Reftest),
}

/// An entry as contracts see it.
pub ghost enum EntryModel {
    Include(Seq<u8>),
    Test(ReftestModel),
}

impl ManifestEntry {
    pub open spec fn view(&self) -> EntryModel {
        match self {
            ManifestEntry::Include(path) => EntryModel::Include(path@),
            ManifestEntry::Test(t) => EntryModel::Test(t@),
        }
    }
}

/// What a list of entries holds.
pub open spec fn entry_models(v: Seq<ManifestEntry>) -> Seq<EntryModel> {
    Seq::new(v.len(), |i: int| v[i]@)
}

/// What a line starts with.
pub open spec fn line_start() -> LineState {
    LineState { max_difference: 0, max_count: 0, op: ReftestOp::Equal }
}

/// The larger of two numbers.
pub open spec fn larger_of(a: usize, b: usize) -> usize {
    if a >= b {
        a
    } else {
        b
    }
}

/// What the words of a line ask for, read from word `i` on. `include`
/// names another manifest. `platform(..)` drops the line unless it names
/// the platform. `fuzzy(d,n)` sets how far the images may differ. `==` and
/// `!=` set how the images are to relate. Any other word is the path of the
/// test, and the word after it the path of the reference; what the options
/// allow overrides what the line allows, where it is more.
pub open spec fn interpret(
    words: Seq<Seq<u8>>,
    i: int,
    state: LineState,
    platform: Seq<u8>,
    allow_max_difference: usize,
    allow_num_differences: usize,
) -> Result<Option<EntryModel>, ManifestError>
    decreases words.len() - i,
{
    if i < 0 || i >= words.len() {
        Ok(None)
    } else {
        let w = words[i];
        if w == spelling(Word::Include) {
            if i != 0 {
                Err(ManifestError::IncludeNotFirst)
            } else if words.len() < 2 {
                Err(ManifestError::MissingPath)
            } else {
                Ok(Some(EntryModel::Include(words[1])))
            }
        } else if begins_with(w, spelling(Word::Platform)) {
            if call_args(w).contains(platform) {
                interpret(
                    words,
                    i + 1,
                    state,
                    platform,
                    allow_max_difference,
                    allow_num_differences,
                )
            } else {
                Ok(None)
            }
        } else if begins_with(w, spelling(Word::Fuzzy)) {
            let args = call_args(w);
            if args.len() >= 2 && spec_parse_number(args[0]) is Some && spec_parse_number(
                args[1],
            ) is Some {
                interpret(
                    words,
                    i + 1,
                    LineState {
                        max_difference: spec_parse_number(args[0])->0,
                        max_count: spec_parse_number(args[1])->0,
                        op: state.op,
                    },
                    platform,
                    allow_max_difference,
                    allow_num_differences,
                )
            } else {
                Err(ManifestError::BadFuzzy)
            }
        } else if w == spelling(Word::IsEqual) {
            interpret(
                words,
                i + 1,
                LineState {
                    max_difference: state.max_difference,
                    max_count: state.max_count,
                    op: ReftestOp::Equal,
                },
                platform,
                allow_max_difference,
                allow_num_differences,
            )
        } else if w == spelling(Word::IsNotEqual) {
            interpret(
                words,
                i + 1,
                LineState {
                    max_difference: state.max_difference,
                    max_count: state.max_count,
                    op: ReftestOp::NotEqual,
                },
                platform,
                allow_max_difference,
                allow_num_differences,
            )
        } else if i + 1 >= words.len() {
            Err(ManifestError::MissingPath)
        } else {
            Ok(
                Some(
                    EntryModel::Test(
                        ReftestModel {
                            op: state.op,
                            test: words[i],
                            reference: words[i + 1],
                            max_difference: larger_of(state.max_difference, allow_max_difference),
                            num_differences: larger_of(state.max_count, allow_num_differences),
                        },
                    ),
                ),
            )
        }
    }
}

fn contains_bytes(list: &Vec<Vec<u8>>, wanted: &Vec<u8>) -> (r: bool)
    ensures
        r == views(list@).contains(wanted@),
{
    let mut i: usize = 0;
    while i < list.len()
        invariant
            i <= list@.len(),
            forall|k: int| 0 <= k < i ==> views(list@)[k] != wanted@,
        decreases list@.len() - i,
    {
        if same_bytes(&list[i], wanted) {
            assert(views(list@)[i as int] == wanted@);
            return true;
        }
        i += 1;
    }
    false
}

/// Reads what the words of one line ask for.
pub fn interpret_line(words: &Vec<Vec<u8>>, platform: &Vec<u8>, options: &ReftestOptions) -> (r:
    Result<Option<ManifestEntry>, ManifestError>)
    ensures
        match r {
            Ok(Some(entry)) => Ok(Some(entry@)),
            Ok(None) => Ok(None),
            Err(e) => Err(e),
        } == interpret(
            views(words@),
            0,
            line_start(),
            platform@,
            options.allow_max_difference,
            options.allow_num_differences,
        ),
{
    let include_word = spell(Word::Include);
    let platform_word = spell(Word::Platform);
    let fuzzy = spell(Word::Fuzzy);
    let is_equal = spell(Word::IsEqual);
    let is_not_equal = spell(Word::IsNotEqual);
    let mut state = LineState { max_difference: 0, max_count: 0, op: ReftestOp::Equal };
    let ghost all = views(words@);
    let mut i: usize = 0;
    while i < words.len()
        invariant
            i <= words@.len(),
            all == views(words@),
            include_word@ == spelling(Word::Include),
            platform_word@ == spelling(Word::Platform),
            fuzzy@ == spelling(Word::Fuzzy),
            is_equal@ == spelling(Word::IsEqual),
            is_not_equal@ == spelling(Word::IsNotEqual),
            interpret(
                all,
                0,
                line_start(),
                platform@,
                options.allow_max_difference,
                options.allow_num_differences,
            ) == interpret(
                all,
                i as int,
                state,
                platform@,
                options.allow_max_difference,
                options.allow_num_differences,
            ),
        decreases words@.len() - i,
    {
        let w = &words[i];
        assert(all[i as int] == w@);
        if same_bytes(w, &include_word) {
            if i != 0 {
                return Err(ManifestError::IncludeNotFirst);
            }
            if words.len() < 2 {
                return Err(ManifestError::MissingPath);
            }
            let path = copy_bytes(&words[1]);
            assert(all[1] == path@);
            return Ok(Some(ManifestEntry::Include(path)));
        } else if has_prefix(w, &platform_word) {
            let args = parse_call(w);
            if !contains_bytes(&args, platform) {
                return Ok(None);
            }
        } else if has_prefix(w, &fuzzy) {
            let args = parse_call(w);
            if args.len() < 2 {
                return Err(ManifestError::BadFuzzy);
            }
            assert(views(args@)[0] == args@[0]@ && views(args@)[1] == args@[1]@);
            match (parse_number(&args[0]), parse_number(&args[1])) {
                (Some(d), Some(n)) => {
                    state = LineState { max_difference: d, max_count: n, op: state.op };
                },
                _ => {
                    return Err(ManifestError::BadFuzzy);
                },
            }
        } else if same_bytes(w, &is_equal) {
            state = LineState {
                max_difference: state.max_difference,
                max_count: state.max_count,
                op: ReftestOp::Equal,
            };
        } else if same_bytes(w, &is_not_equal) {
            state = LineState {
                max_difference: state.max_difference,
                max_count: state.max_count,
                op: ReftestOp::NotEqual,
            };
        } else {
            if i + 1 >= words.len() {
                return Err(ManifestError::MissingPath);
            }
            let test = copy_bytes(w);
            let reference = copy_bytes(&words[i + 1]);
            assert(all[i + 1] == reference@);
            return Ok(
                Some(
                    ManifestEntry::Test(
                        Reftest {
                            op: state.op,
                            test,
                            reference,
                            max_difference: if state.max_difference
                                >= options.allow_max_difference {
                                state.max_difference
                            } else {
                                options.allow_max_difference
                            },
                            num_differences: if state.max_count >= options.allow_num_differences {
                                state.max_count
                            } else {
                                options.allow_num_differences
                            },
                        },
                    ),
                ),
            );
        }
        i += 1;
    }
    Ok(None)
}

/// The entries of the first `n` lines, in order, or the fault of the first
/// line that has one.
pub open spec fn entries_upto(
    lines: Seq<Seq<u8>>,
    n: int,
    platform: Seq<u8>,
    allow_max_difference: usize,
    allow_num_differences: usize,
) -> Result<Seq<EntryModel>, ManifestError>
    decreases n,
{
    if n <= 0 || n > lines.len() {
        Ok(Seq::empty())
    } else {
        match entries_upto(lines, n - 1, platform, allow_max_difference, allow_num_differences) {
            Err(e) => Err(e),
            Ok(entries) => match interpret(
                pieces(lines[n - 1], Separator::Whitespace),
                0,
                line_start(),
                platform,
                allow_max_difference,
                allow_num_differences,
            ) {
                Err(e) => Err(e),
                Ok(None) => Ok(entries),
                Ok(Some(entry)) => Ok(entries.push(entry)),
            },
        }
    }
}

/// How many bytes the blank takes that starts at byte `i`, if one of the
/// blanks that take more than one byte starts there: the next line sign, the
/// space that does not break, the ogham space, the spaces from the en quad
/// to the hair space, the line and paragraph separators, the narrow and the
/// medium mathematical space, and the ideographic space. Else 0.
pub open spec fn wide_blank_at(s: Seq<u8>, i: int) -> int {
    if 0 <= i && i + 1 < s.len() && s[i] == 0xc2 && (s[i + 1] == 0x85 || s[i + 1] == 0xa0) {
        2
    } else if 0 <= i && i + 2 < s.len() && ((s[i] == 0xe1 && s[i + 1] == 0x9a && s[i + 2] == 0x80)
        || (s[i] == 0xe2 && s[i + 1] == 0x80 && ((0x80 <= s[i + 2] && s[i + 2] <= 0x8a) || s[i + 2]
        == 0xa8 || s[i + 2] == 0xa9 || s[i + 2] == 0xaf)) || (s[i] == 0xe2 && s[i + 1] == 0x81
        && s[i + 2] == 0x9f) || (s[i] == 0xe3 && s[i + 1] == 0x80 && s[i + 2] == 0x80)) {
        3
    } else {
        0
    }
}

/// Byte `i` belongs to a blank that takes more than one byte.
pub open spec fn in_wide_blank(s: Seq<u8>, i: int) -> bool {
    wide_blank_at(s, i) >= 2 || wide_blank_at(s, i - 1) >= 2 || wide_blank_at(s, i - 2) >= 3
}

/// The text with a space in place of every byte of a blank that takes more
/// than one byte, so that the words of the text are those that stand
/// between blanks of any kind.
pub open spec fn blanked(s: Seq<u8>) -> Seq<u8> {
    Seq::new(
        s.len(),
        |i: int|
            if in_wide_blank(s, i) {
                0x20u8
            } else {
                s[i]
            },
    )
}

fn wide_blank_len(s: &[u8], i: usize) -> (n: usize)
    requires
        i < s@.len(),
    ensures
        n == wide_blank_at(s@, i as int),
{
    let len = s.len();
    if len - i >= 2 && s[i] == 0xc2 && (s[i + 1] == 0x85 || s[i + 1] == 0xa0) {
        2
    } else if len - i >= 3 && ((s[i] == 0xe1 && s[i + 1] == 0x9a && s[i + 2] == 0x80) || (s[i]
        == 0xe2 && s[i + 1] == 0x80 && ((0x80 <= s[i + 2] && s[i + 2] <= 0x8a) || s[i + 2] == 0xa8
        || s[i + 2] == 0xa9 || s[i + 2] == 0xaf)) || (s[i] == 0xe2 && s[i + 1] == 0x81 && s[i + 2]
        == 0x9f) || (s[i] == 0xe3 && s[i + 1] == 0x80 && s[i + 2] == 0x80)) {
        3
    } else {
        0
    }
}

/// Puts a space in place of every byte of a blank that takes more than one
/// byte.
pub fn blank_wide_spaces(s: &[u8]) -> (out: Vec<u8>)
    ensures
        out@ == blanked(s@),
{
    let mut out: Vec<u8> = Vec::new();
    let mut i: usize = 0;
    while i < s.len()
        invariant
            i <= s@.len(),
            out@ == blanked(s@).subrange(0, i as int),
        decreases s@.len() - i,
    {
        let here = wide_blank_len(s, i) >= 2;
        let one_back = i >= 1 && wide_blank_len(s, i - 1) >= 2;
        let two_back = i >= 2 && wide_blank_len(s, i - 2) >= 3;
        if here || one_back || two_back {
            out.push(0x20);
        } else {
            out.push(s[i]);
        }
        assert(out@ =~= blanked(s@).subrange(0, i + 1));
        i += 1;
    }
    assert(blanked(s@).subrange(0, s@.len() as int) =~= blanked(s@));
    out
}

/// What a manifest asks for: blanks of any kind part its words, its
/// comments are dropped, and each line that is left is read by its words.
pub open spec fn manifest_entries(
    text: Seq<u8>,
    platform: Seq<u8>,
    allow_max_difference: usize,
    allow_num_differences: usize,
) -> Result<Seq<EntryModel>, ManifestError> {
    let lines = pieces(uncommented(blanked(text)), Separator::Newline);
    entries_upto(
        lines,
        lines.len() as int,
        platform,
        allow_max_difference,
        allow_num_differences,
    )
}

proof fn lemma_entries_fault_stays(
    lines: Seq<Seq<u8>>,
    at: int,
    n: int,
    platform: Seq<u8>,
    allow_max_difference: usize,
    allow_num_differences: usize,
)
    requires
        0 <= at <= n <= lines.len(),
        entries_upto(lines, at, platform, allow_max_difference, allow_num_differences) is Err,
    ensures
        entries_upto(lines, n, platform, allow_max_difference, allow_num_differences)
            == entries_upto(lines, at, platform, allow_max_difference, allow_num_differences),
    decreases n - at,
{
    if at < n {
        lemma_entries_fault_stays(
            lines,
            at,
            n - 1,
            platform,
            allow_max_difference,
            allow_num_differences,
        );
    }
}

/// Reads a manifest for the given platform.
pub fn parse_manifest(text: &[u8], platform: &Vec<u8>, options: &ReftestOptions) -> (r: Result<
    Vec<ManifestEntry>,
    ManifestError,
>)
    ensures
        match r {
            Ok(entries) => Ok(entry_models(entries@)),
            Err(e) => Err(e),
        } == manifest_entries(
            text@,
            platform@,
            options.allow_max_difference,
            options.allow_num_differences,
        ),
{
    let plain = blank_wide_spaces(text);
    let stripped = strip_comments(plain.as_slice());
    let lines = split(stripped.as_slice(), Separator::Newline);
    let ghost all = views(lines@);
    let mut entries: Vec<ManifestEntry> = Vec::new();
    let mut n: usize = 0;
    assert(entry_models(entries@) =~= Seq::<EntryModel>::empty());
    while n < lines.len()
        invariant
            n <= lines@.len(),
            all == views(lines@),
            all == pieces(uncommented(blanked(text@)), Separator::Newline),
            entries_upto(
                all,
                n as int,
                platform@,
                options.allow_max_difference,
                options.allow_num_differences,
            ) == Ok::<Seq<EntryModel>, ManifestError>(entry_models(entries@)),
        decreases lines@.len() - n,
    {
        assert(all[n as int] == lines@[n as int]@);
        let words = split(lines[n].as_slice(), Separator::Whitespace);
        assert(views(words@) == pieces(all[n as int], Separator::Whitespace));
        match interpret_line(&words, platform, options) {
            Err(e) => {
                proof {
                    assert(entries_upto(
                        all,
                        n + 1,
                        platform@,
                        options.allow_max_difference,
                        options.allow_num_differences,
                    ) == Err::<Seq<EntryModel>, ManifestError>(e));
                    lemma_entries_fault_stays(
                        all,
                        n + 1,
                        all.len() as int,
                        platform@,
                        options.allow_max_difference,
                        options.allow_num_differences,
                    );
                }
                return Err(e);
            },
            Ok(None) => {},
            Ok(Some(entry)) => {
                let ghost before = entry_models(entries@);
                let ghost model = entry@;
                entries.push(entry);
                assert(entry_models(entries@) =~= before.push(model));
            },
        }
        n += 1;
    }
    Ok(entries)
}

/// The path starts at the root.
pub open spec fn is_absolute(path: Seq<u8>) -> bool {
    path.len() > 0 && path[0] == 0x2f
}

/// The name `.`, which stands for the place where one is.
pub open spec fn is_dot(name: Seq<u8>) -> bool {
    name.len() == 1 && name[0] == 0x2e
}

/// The first `n` pieces of a path without those that are `.`; only the
/// `.` that a relative path begins with counts as a name.
pub open spec fn names_upto(all: Seq<Seq<u8>>, relative: bool, n: int) -> Seq<Seq<u8>>
    decreases n,
{
    if n <= 0 || n > all.len() {
        Seq::empty()
    } else if is_dot(all[n - 1]) && !(relative && n == 1) {
        names_upto(all, relative, n - 1)
    } else {
        names_upto(all, relative, n - 1).push(all[n - 1])
    }
}

/// The names of a path: what stands between its slashes, without what is
/// empty and without `.`, but for a `.` that a relative path begins with.
/// So `a//b`, `a/./b`, `a/b/` and `a/b/.` have the names of `a/b`, and
/// `./a/b` has one more.
pub open spec fn path_names(path: Seq<u8>) -> Seq<Seq<u8>> {
    let all = pieces(path, Separator::Slash);
    names_upto(all, !is_absolute(path), all.len() as int)
}

fn names_of(path: &Vec<u8>) -> (names: Vec<Vec<u8>>)
    ensures
        views(names@) == path_names(path@),
{
    let all = split(path.as_slice(), Separator::Slash);
    let relative = !(path.len() > 0 && path[0] == 0x2f);
    let mut names: Vec<Vec<u8>> = Vec::new();
    let mut n: usize = 0;
    assert(views(names@) =~= names_upto(views(all@), relative, 0));
    while n < all.len()
        invariant
            n <= all@.len(),
            relative == !is_absolute(path@),
            views(all@) == pieces(path@, Separator::Slash),
            views(names@) == names_upto(views(all@), relative, n as int),
        decreases all@.len() - n,
    {
        let dot = all[n].len() == 1 && all[n][0] == 0x2e;
        assert(views(all@)[n as int] == all@[n as int]@);
        if !(dot && !(relative && n == 0)) {
            let ghost before = views(names@);
            names.push(copy_bytes(&all[n]));
            assert(views(names@) =~= before.push(all@[n as int]@));
        }
        n += 1;
    }
    names
}

/// The path lies at or below `prefix`: the names of `prefix` are the first
/// names of the path, and a prefix that starts at the root, or has names,
/// only holds paths that start where it starts.
pub open spec fn path_starts_with(path: Seq<u8>, prefix: Seq<u8>) -> bool {
    let names = path_names(path);
    let first = path_names(prefix);
    &&& is_absolute(path) == is_absolute(prefix) || (first.len() == 0 && !is_absolute(prefix))
    &&& first.len() <= names.len()
    &&& names.subrange(0, first.len() as int) == first
}

pub fn starts_with(path: &Vec<u8>, prefix: &Vec<u8>) -> (r: bool)
    ensures
        r == path_starts_with(path@, prefix@),
{
    let names = names_of(path);
    let first = names_of(prefix);
    let path_absolute = path.len() > 0 && path[0] == 0x2f;
    let prefix_absolute = prefix.len() > 0 && prefix[0] == 0x2f;
    if path_absolute != prefix_absolute && !(first.len() == 0 && !prefix_absolute) {
        return false;
    }
    if first.len() > names.len() {
        return false;
    }
    let mut i: usize = 0;
    while i < first.len()
        invariant
            i <= first@.len() <= names@.len(),
            views(names@) == path_names(path@),
            views(first@) == path_names(prefix@),
            views(names@).subrange(0, i as int) == views(first@).subrange(0, i as int),
        decreases first@.len() - i,
    {
        if !same_bytes(&names[i], &first[i]) {
            assert(views(names@)[i as int] == names@[i as int]@);
            assert(views(first@)[i as int] == first@[i as int]@);
            assert(views(names@).subrange(0, first@.len() as int)[i as int] != views(
                first@,
            )[i as int]);
            return false;
        }
        assert(views(names@)[i as int] == names@[i as int]@);
        assert(views(first@)[i as int] == first@[i as int]@);
        assert(views(names@).subrange(0, i + 1) =~= views(names@).subrange(0, i as int).push(
            views(names@)[i as int],
        ));
        assert(views(first@).subrange(0, i + 1) =~= views(first@).subrange(0, i as int).push(
            views(first@)[i as int],
        ));
        i += 1;
    }
    assert(views(first@).subrange(0, first@.len() as int) =~= views(first@));
    true
}

/// The path `path` as seen from the directory `dir`: a path that starts at
/// the root stands for itself; any other is put behind the directory, with
/// a slash between them unless the directory is empty or ends in one.
pub open spec fn spec_join(dir: Seq<u8>, path: Seq<u8>) -> Seq<u8> {
    if is_absolute(path) {
        path
    } else if dir.len() == 0 || dir.last() == 0x2f {
        dir + path
    } else {
        dir.push(0x2f) + path
    }
}

pub fn join(dir: &Vec<u8>, path: &Vec<u8>) -> (r: Vec<u8>)
    ensures
        r@ == spec_join(dir@, path@),
{
    if path.len() > 0 && path[0] == 0x2f {
        return copy_bytes(path);
    }
    let mut r = copy_bytes(dir);
    if dir.len() > 0 && dir[dir.len() - 1] != 0x2f {
        r.push(0x2f);
    }
    let ghost front = r@;
    let mut i: usize = 0;
    while i < path.len()
        invariant
            i <= path@.len(),
            r@ == front + path@.subrange(0, i as int),
        decreases path@.len() - i,
    {
        r.push(path[i]);
        assert(r@ =~= front + path@.subrange(0, i + 1));
        i += 1;
    }
    assert(path@.subrange(0, path@.len() as int) =~= path@);
    r
}

/// A test with its two paths as seen from the directory of its manifest.
pub open spec fn joined_test(dir: Seq<u8>, t: ReftestModel) -> ReftestModel {
    ReftestModel {
        op: t.op,
        test: spec_join(dir, t.test),
        reference: spec_join(dir, t.reference),
        max_difference: t.max_difference,
        num_differences: t.num_differences,
    }
}

/// The manifests that the first `n` entries include, as seen from the
/// directory, in order.
pub open spec fn includes_upto(dir: Seq<u8>, entries: Seq<EntryModel>, n: int) -> Seq<Seq<u8>>
    decreases n,
{
    if n <= 0 || n > entries.len() {
        Seq::empty()
    } else {
        match entries[n - 1] {
            EntryModel::Include(path) => includes_upto(dir, entries, n - 1).push(
                spec_join(dir, path),
            ),
            EntryModel::Test(_) => includes_upto(dir, entries, n - 1),
        }
    }
}

/// The paths of the manifests that a manifest in `dir` includes, in the
/// order of its lines.
pub fn included_manifests(dir: &Vec<u8>, entries: &Vec<ManifestEntry>) -> (paths: Vec<Vec<u8>>)
    ensures
        views(paths@) == includes_upto(dir@, entry_models(entries@), entries@.len() as int),
{
    let mut paths: Vec<Vec<u8>> = Vec::new();
    let mut n: usize = 0;
    assert(views(paths@) =~= Seq::<Seq<u8>>::empty());
    while n < entries.len()
        invariant
            n <= entries@.len(),
            views(paths@) == includes_upto(dir@, entry_models(entries@), n as int),
        decreases entries@.len() - n,
    {
        assert(entry_models(entries@)[n as int] == entries@[n as int]@);
        match &entries[n] {
            ManifestEntry::Include(path) => {
                let ghost before = views(paths@);
                let joined = join(dir, path);
                paths.push(joined);
                assert(views(paths@) =~= before.push(spec_join(dir@, path@)));
            },
            ManifestEntry::Test(_) => {},
        }
        n += 1;
    }
    paths
}

/// What a list of tests holds.
pub open spec fn test_models(v: Seq<Reftest>) -> Seq<ReftestModel> {
    Seq::new(v.len(), |i: int| v[i]@)
}

/// What a list of lists of tests holds.
pub open spec fn list_models(v: Seq<Vec<Reftest>>) -> Seq<Seq<ReftestModel>> {
    Seq::new(v.len(), |i: int| test_models(v[i]@))
}

/// The tests of the first `n` entries of a manifest in `dir`, in the order
/// of its lines. A test has its paths as seen from `dir`. An include line
/// stands for the tests of the manifest that it names, in their order:
/// `included` holds them, one list for each include line, and a line for
/// which it holds none stands for no test.
pub open spec fn tests_upto(
    dir: Seq<u8>,
    entries: Seq<EntryModel>,
    included: Seq<Seq<ReftestModel>>,
    n: int,
) -> Seq<ReftestModel>
    decreases n,
{
    if n <= 0 || n > entries.len() {
        Seq::empty()
    } else {
        let before = tests_upto(dir, entries, included, n - 1);
        match entries[n - 1] {
            EntryModel::Test(t) => before.push(joined_test(dir, t)),
            EntryModel::Include(_) => {
                let k = includes_upto(dir, entries, n - 1).len() as int;
                if k < included.len() {
                    before + included[k]
                } else {
                    before
                }
            },
        }
    }
}

fn copy_test(t: &Reftest) -> (r: Reftest)
    ensures
        r@ == t@,
{
    Reftest {
        op: t.op,
        test: copy_bytes(&t.test),
        reference: copy_bytes(&t.reference),
        max_difference: t.max_difference,
        num_differences: t.num_differences,
    }
}

/// The tests that the entries of a manifest in `dir` stand for, with the
/// tests of each included manifest in the place of its include line.
pub fn manifest_tests(
    dir: &Vec<u8>,
    entries: &Vec<ManifestEntry>,
    included: &Vec<Vec<Reftest>>,
) -> (tests: Vec<Reftest>)
    ensures
        test_models(tests@) == tests_upto(
            dir@,
            entry_models(entries@),
            list_models(included@),
            entries@.len() as int,
        ),
{
    let ghost all = entry_models(entries@);
    let ghost lists = list_models(included@);
    let mut tests: Vec<Reftest> = Vec::new();
    let mut seen: usize = 0;
    let mut n: usize = 0;
    assert(test_models(tests@) =~= Seq::<ReftestModel>::empty());
    while n < entries.len()
        invariant
            n <= entries@.len(),
            all == entry_models(entries@),
            lists == list_models(included@),
            seen == includes_upto(dir@, all, n as int).len(),
            seen <= n,
            test_models(tests@) == tests_upto(dir@, all, lists, n as int),
        decreases entries@.len() - n,
    {
        assert(all[n as int] == entries@[n as int]@);
        match &entries[n] {
            ManifestEntry::Test(t) => {
                let ghost before = test_models(tests@);
                let joined = Reftest {
                    op: t.op,
                    test: join(dir, &t.test),
                    reference: join(dir, &t.reference),
                    max_difference: t.max_difference,
                    num_differences: t.num_differences,
                };
                tests.push(joined);
                assert(test_models(tests@) =~= before.push(joined_test(dir@, t@)));
            },
            ManifestEntry::Include(_) => {
                if seen < included.len() {
                    let list = &included[seen];
                    let ghost before = test_models(tests@);
                    assert(lists[seen as int] == test_models(list@));
                    let mut i: usize = 0;
                    while i < list.len()
                        invariant
                            i <= list@.len(),
                            test_models(tests@) == before + test_models(list@).subrange(
                                0,
                                i as int,
                            ),
                        decreases list@.len() - i,
                    {
                        let ghost so_far = test_models(tests@);
                        tests.push(copy_test(&list[i]));
                        assert(test_models(tests@) =~= so_far.push(list@[i as int]@));
                        assert(test_models(list@).subrange(0, i + 1) =~= test_models(
                            list@,
                        ).subrange(0, i as int).push(list@[i as int]@));
                        assert(test_models(tests@) =~= before + test_models(list@).subrange(
                            0,
                            i + 1,
                        ));
                        i += 1;
                    }
                    assert(test_models(list@).subrange(0, list@.len() as int) =~= test_models(
                        list@,
                    ));
                }
                seen += 1;
            },
        }
        n += 1;
    }
    tests
}

/// The tests of a manifest and of the manifests that it includes.
pub struct ReftestManifest {
    pub reftests: Vec<Reftest>,
}

/// The places among the first `n` tests of those whose test or reference
/// lies at or below `prefix`, in order.
pub open spec fn found_upto(tests: Seq<Reftest>, prefix: Seq<u8>, n: int) -> Seq<int>
    decreases n,
{
    if n <= 0 || n > tests.len() {
        Seq::empty()
    } else if path_starts_with(tests[n - 1].test@, prefix) || path_starts_with(
        tests[n - 1].reference@,
        prefix,
    ) {
        found_upto(tests, prefix, n - 1).push(n - 1)
    } else {
        found_upto(tests, prefix, n - 1)
    }
}

/// The numbers that a list of places holds.
pub open spec fn places(v: Seq<usize>) -> Seq<int> {
    Seq::new(v.len(), |i: int| v[i] as int)
}

impl ReftestManifest {
    /// Reads the manifest with the text `text` that lies in the directory
    /// `dir`, for the given platform. `included` holds the tests of the
    /// manifests that it includes, one list for each include line, in the
    /// order of the lines. The tests come in the order of the lines, those
    /// of an included manifest in the place of its include line, and the
    /// paths of the manifest's own tests are as seen from `dir`. A line
    /// with a fault gives the error of the first such line.
    pub fn new(
        dir: &Vec<u8>,
        text: &[u8],
        platform: &Vec<u8>,
        options: &ReftestOptions,
        included: &Vec<Vec<Reftest>>,
    ) -> (r: Result<ReftestManifest, ManifestError>)
        ensures
            match manifest_entries(
                text@,
                platform@,
                options.allow_max_difference,
                options.allow_num_differences,
            ) {
                Ok(entries) => r matches Ok(m) && test_models(m.reftests@) == tests_upto(
                    dir@,
                    entries,
                    list_models(included@),
                    entries.len() as int,
                ),
                Err(e) => r matches Err(fault) && fault == e,
            },
    {
        match parse_manifest(text, platform, options) {
            Ok(entries) => Ok(
                ReftestManifest { reftests: manifest_tests(dir, &entries, included) },
            ),
            Err(e) => Err(e),
        }
    }

    /// The places of the tests whose test or reference lies at or below
    /// `prefix`.
    pub fn find(&self, prefix: &Vec<u8>) -> (found: Vec<usize>)
        ensures
            places(found@) == found_upto(self.reftests@, prefix@, self.reftests@.len() as int),
    {
        let mut found: Vec<usize> = Vec::new();
        let mut n: usize = 0;
        assert(places(found@) =~= Seq::<int>::empty());
        while n < self.reftests.len()
            invariant
                n <= self.reftests@.len(),
                places(found@) == found_upto(self.reftests@, prefix@, n as int),
            decreases self.reftests@.len() - n,
        {
            let t = &self.reftests[n];
            if starts_with(&t.test, prefix) || starts_with(&t.reference, prefix) {
                let ghost before = places(found@);
                found.push(n);
                assert(places(found@) =~= before.push(n as int));
            }
            n += 1;
        }
        found
    }
}

} // verus!
