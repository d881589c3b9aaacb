//! The native file format: a magic line, a line with width and height, a line
//! with the largest sample, and the samples, three to a pixel, row after
//! row, as decimal text (`P3`) or as single bytes (`P6`).

use crate::error::ImageError;
use crate::grid::Grid;
use crate::image::{Image, PPMFormat, Picture};
use crate::matrix::Matrix;
use crate::pixel::PixelRGB;
use crate::text::{
    decimal, find_line_end, find_next_line, find_token_end, line_end, next_line, number, numbers,
    pass_comments, pass_spaces, push_decimal, read_number, read_numbers, skip_comments,
    skip_spaces, token_end,
};
use vstd::prelude::*;

verus! {

/// What the lines before the samples say.
pub struct Header {
    pub width: usize,
    pub height: usize,
    pub max_intensity: usize,
    /// Where the samples begin.
    pub data_start: int,
}

/// The header that the bytes after the magic hold. What is left of the magic
/// line is passed over, and so is every comment line. The next line must
/// begin with two numbers, the width and the height; what follows them on
/// that line is passed over. The line after that, comments apart, must hold
/// one number and nothing else: the largest sample.
pub open spec fn header(s: Seq<u8>, lenient: bool) -> Option<Header> {
    let l1 = skip_comments(s, next_line(s, 0), lenient);
    let e1 = line_end(s, l1);
    let a0 = skip_spaces(s, l1, e1);
    let a1 = token_end(s, a0, e1);
    let b0 = skip_spaces(s, a1, e1);
    let b1 = token_end(s, b0, e1);
    let l2 = skip_comments(s, next_line(s, l1), lenient);
    let e2 = line_end(s, l2);
    let c0 = skip_spaces(s, l2, e2);
    let c1 = token_end(s, c0, e2);
    if number(s, a0, a1) is Some && number(s, b0, b1) is Some && number(s, c0, c1) is Some
        && skip_spaces(s, c1, e2) == e2 {
        Some(
            Header {
                width: number(s, a0, a1)->0,
                height: number(s, b0, b1)->0,
                max_intensity: number(s, c0, c1)->0,
                data_start: next_line(s, l2),
            },
        )
    } else {
        None
    }
}

/// The samples of one channel, row after row: every third of `values`,
/// beginning with the one at `offset`.
pub open spec fn channel_cells(values: Seq<usize>, offset: int, count: nat) -> Seq<usize> {
    Seq::new(count, |k: int| values[3 * k + offset])
}

/// The image that a header and the samples after it describe.
pub open spec fn picture_of(h: Header, format: PPMFormat, values: Seq<usize>) -> Picture {
    let w = h.width as nat;
    let r = h.height as nat;
    Picture {
        max_intensity: h.max_intensity as nat,
        format,
        red: Grid::from_cells(w, r, channel_cells(values, 0, w * r)),
        green: Grid::from_cells(w, r, channel_cells(values, 1, w * r)),
        blue: Grid::from_cells(w, r, channel_cells(values, 2, w * r)),
    }
}

/// The bytes from `start` on, each as a sample.
pub open spec fn raw_samples(s: Seq<u8>, start: int) -> Seq<usize> {
    s.subrange(start, s.len() as int).map_values(|b: u8| b as usize)
}

/// The image that the bytes after the magic of a text file describe: there
/// must be exactly three numbers for every pixel.
pub open spec fn decode_ascii(s: Seq<u8>) -> Option<Picture> {
    match header(s, false) {
        Some(h) => match numbers(s, h.data_start) {
            Some(values) => if values.len() == h.width * h.height * 3 {
                Some(picture_of(h, PPMFormat::P3, values))
            } else {
                None
            },
            None => None,
        },
        None => None,
    }
}

/// The image that the bytes after the magic of a binary file describe: there
/// must be exactly three bytes for every pixel.
pub open spec fn decode_binary(s: Seq<u8>) -> Option<Picture> {
    match header(s, true) {
        Some(h) => if s.len() - h.data_start == h.width * h.height * 3 {
            Some(picture_of(h, PPMFormat::P6, raw_samples(s, h.data_start)))
        } else {
            None
        },
        None => None,
    }
}

/// The image that a file describes: the file begins with `P3` or `P6`, and
/// what follows is read as text or as binary.
pub open spec fn decode(bytes: Seq<u8>) -> Option<Picture> {
    if bytes.len() >= 2 && bytes[0] == 80 && bytes[1] == 51 {
        decode_ascii(bytes.subrange(2, bytes.len() as int))
    } else if bytes.len() >= 2 && bytes[0] == 80 && bytes[1] == 54 {
        decode_binary(bytes.subrange(2, bytes.len() as int))
    } else {
        None
    }
}

/// The sample as one byte: what is left of it after division by 256.
pub open spec fn low_byte(sample: usize) -> u8 {
    (sample % 256) as u8
}

pub open spec fn pixel_text(p: PixelRGB) -> Seq<u8> {
    decimal(p.r as nat) + seq![32u8] + decimal(p.g as nat) + seq![32u8] + decimal(p.b as nat)
}

pub open spec fn pixel_bytes(p: PixelRGB) -> Seq<u8> {
    seq![low_byte(p.r), low_byte(p.g), low_byte(p.b)]
}

impl Picture {
    /// The three header lines, with `magic` as the digit of the first.
    pub open spec fn header_text(self, magic: u8) -> Seq<u8> {
        seq![80u8, magic, 10u8] + decimal(self.width()) + seq![32u8] + decimal(self.height())
            + seq![10u8] + decimal(self.max_intensity) + seq![10u8]
    }

    /// The first `cols` pixels of row `r` as text, one blank between two
    /// pixels.
    pub open spec fn row_text(self, r: int, cols: int) -> Seq<u8>
        decreases cols,
    {
        if cols <= 0 {
            Seq::empty()
        } else if cols == 1 {
            pixel_text(self.pixel(r, 0))
        } else {
            self.row_text(r, cols - 1) + seq![32u8] + pixel_text(self.pixel(r, cols - 1))
        }
    }

    /// The first `rows` rows as text, a line each.
    pub open spec fn rows_text(self, rows: int) -> Seq<u8>
        decreases rows,
    {
        if rows <= 0 {
            Seq::empty()
        } else {
            self.rows_text(rows - 1) + self.row_text(rows - 1, self.width() as int) + seq![10u8]
        }
    }

    /// The first `cols` pixels of row `r` as bytes.
    pub open spec fn row_bytes(self, r: int, cols: int) -> Seq<u8>
        decreases cols,
    {
        if cols <= 0 {
            Seq::empty()
        } else {
            self.row_bytes(r, cols - 1) + pixel_bytes(self.pixel(r, cols - 1))
        }
    }

    /// The first `rows` rows as bytes.
    pub open spec fn rows_bytes(self, rows: int) -> Seq<u8>
        decreases rows,
    {
        if rows <= 0 {
            Seq::empty()
        } else {
            self.rows_bytes(rows - 1) + self.row_bytes(rows - 1, self.width() as int)
        }
    }

    /// The image as a text file.
    pub open spec fn ascii_file(self) -> Seq<u8> {
        self.header_text(51) + self.rows_text(self.height() as int)
    }

    /// The image as a binary file.
    pub open spec fn binary_file(self) -> Seq<u8> {
        self.header_text(54) + self.rows_bytes(self.height() as int)
    }

    /// The image as a file of the given encoding.
    pub open spec fn file(self, format: PPMFormat) -> Seq<u8> {
        match format {
            PPMFormat::P3 => self.ascii_file(),
            PPMFormat::P6 => self.binary_file(),
        }
    }
}

/// Reads the header that the bytes after the magic hold: width, height,
/// largest sample, and the index at which the samples begin.
pub fn read_header(s: &[u8], lenient: bool) -> (found: Option<(usize, usize, usize, usize)>)
    ensures
        found is Some <==> header(s@, lenient) is Some,
        found matches Some(f) ==> {
            let h = header(s@, lenient)->0;
            f.0 == h.width && f.1 == h.height && f.2 == h.max_intensity && f.3 == h.data_start
                && f.3 <= s@.len()
        },
{
    let first = find_next_line(s, 0);
    let l1 = pass_comments(s, first, lenient);
    let e1 = find_line_end(s, l1);
    let a0 = pass_spaces(s, l1, e1);
    let a1 = find_token_end(s, a0, e1);
    let b0 = pass_spaces(s, a1, e1);
    let b1 = find_token_end(s, b0, e1);
    let after = find_next_line(s, l1);
    let l2 = pass_comments(s, after, lenient);
    let e2 = find_line_end(s, l2);
    let c0 = pass_spaces(s, l2, e2);
    let c1 = find_token_end(s, c0, e2);
    let tail = pass_spaces(s, c1, e2);
    let start = find_next_line(s, l2);
    let width = read_number(s, a0, a1);
    let height = read_number(s, b0, b1);
    let max_intensity = read_number(s, c0, c1);
    if width.is_none() || height.is_none() || max_intensity.is_none() || tail != e2 {
        return None;
    }
    Some((width.unwrap(), height.unwrap(), max_intensity.unwrap(), start))
}

/// The three channels that `values` holds, three samples to a pixel.
fn channels_of(values: &Vec<usize>, width: usize, height: usize, Ghost(h): Ghost<Header>) -> (made:
    (Matrix<usize>, Matrix<usize>, Matrix<usize>))
    requires
        values@.len() == width * height * 3,
        h.width == width,
        h.height == height,
    ensures
        ({
            let p = picture_of(h, PPMFormat::P3, values@);
            made.0@ == p.red && made.1@ == p.green && made.2@ == p.blue && p.wf()
        }),
{
    let n: usize = values.len() / 3;
    assert(n == width * height);
    let mut red: Vec<usize> = Vec::new();
    let mut green: Vec<usize> = Vec::new();
    let mut blue: Vec<usize> = Vec::new();
    let mut k: usize = 0;
    while k < n
        invariant
            k <= n,
            values@.len() == n * 3 <= usize::MAX,
            red@ == channel_cells(values@, 0, k as nat),
            green@ == channel_cells(values@, 1, k as nat),
            blue@ == channel_cells(values@, 2, k as nat),
        decreases n - k,
    {
        red.push(values[3 * k]);
        green.push(values[3 * k + 1]);
        blue.push(values[3 * k + 2]);
        k += 1;
        proof {
            assert(red@ =~= channel_cells(values@, 0, k as nat));
            assert(green@ =~= channel_cells(values@, 1, k as nat));
            assert(blue@ =~= channel_cells(values@, 2, k as nat));
        }
    }
    let made_red = Matrix::from_vec(width, height, red);
    let made_green = Matrix::from_vec(width, height, green);
    let made_blue = Matrix::from_vec(width, height, blue);
    (made_red.unwrap(), made_green.unwrap(), made_blue.unwrap())
}

/// `width * height * 3`, where that is at most `limit`.
fn sample_count(width: usize, height: usize, limit: usize) -> (count: Option<usize>)
    ensures
        count is Some <==> width * height * 3 <= limit,
        count matches Some(n) ==> n == width * height * 3,
{
    match width.checked_mul(height) {
        Some(cells) => match cells.checked_mul(3) {
            Some(n) => if n <= limit {
                Some(n)
            } else {
                None
            },
            None => None,
        },
        None => {
            proof {
                assert(width * height * 3 >= width * height) by (nonlinear_arith)
                    requires
                        width * height >= 0,
                ;
            }
            None
        },
    }
}

impl Image {
    /// Reads an image from the bytes that follow the magic `P3`.
    pub fn parse_ppm_ascii(body: &[u8]) -> (made: Result<Image, ImageError>)
        ensures
            decode_ascii(body@) is Some ==> made is Ok && made->Ok_0@ == decode_ascii(body@)->0,
            decode_ascii(body@) is None ==> made == Err::<Image, ImageError>(
                ImageError::FormatError,
            ),
    {
        let (width, height, intensity, start) = match read_header(body, false) {
            Some(found) => found,
            None => {
                return Err(ImageError::FormatError);
            },
        };
        let pixel_values = match read_numbers(body, start) {
            Some(values) => values,
            None => {
                return Err(ImageError::FormatError);
            },
        };
        let count = sample_count(width, height, pixel_values.len());
        if count.is_none() || count.unwrap() != pixel_values.len() {
            return Err(ImageError::FormatError);
        }
        let ghost h = header(body@, false)->0;
        let (red, green, blue) = channels_of(&pixel_values, width, height, Ghost(h));
        Image::from_channels(intensity, red, green, blue, PPMFormat::P3)
    }

    /// Reads an image from the bytes that follow the magic `P6`.
    pub fn parse_ppm_binary(body: &[u8]) -> (made: Result<Image, ImageError>)
        ensures
            decode_binary(body@) is Some ==> made is Ok && made->Ok_0@ == decode_binary(body@)->0,
            decode_binary(body@) is None ==> made == Err::<Image, ImageError>(
                ImageError::FormatError,
            ),
    {
        let (width, height, intensity, start) = match read_header(body, true) {
            Some(found) => found,
            None => {
                return Err(ImageError::FormatError);
            },
        };
        let given: usize = body.len() - start;
        let count = sample_count(width, height, given);
        if count.is_none() || count.unwrap() != given {
            return Err(ImageError::FormatError);
        }
        let mut values: Vec<usize> = Vec::new();
        let mut k: usize = start;
        while k < body.len()
            invariant
                start <= k <= body@.len(),
                values@ == body@.subrange(start as int, k as int).map_values(|b: u8| b as usize),
            decreases body@.len() - k,
        {
            values.push(body[k] as usize);
            k += 1;
            proof {
                assert(values@ =~= body@.subrange(start as int, k as int).map_values(
                    |b: u8| b as usize,
                ));
            }
        }
        let ghost h = header(body@, true)->0;
        let (red, green, blue) = channels_of(&values, width, height, Ghost(h));
        Image::from_channels(intensity, red, green, blue, PPMFormat::P6)
    }

    /// Reads an image from the bytes of a file in the native format.
    pub fn from_bytes(data: &[u8]) -> (made: Result<Image, ImageError>)
        ensures
            decode(data@) is Some ==> made is Ok && made->Ok_0@ == decode(data@)->0,
            decode(data@) is None ==> made == Err::<Image, ImageError>(ImageError::FormatError),
    {
        if data.len() < 2 || data[0] != 80 {
            return Err(ImageError::FormatError);
        }
        let body = &data[2..data.len()];
        if data[1] == 51 {
            Self::parse_ppm_ascii(body)
        } else if data[1] == 54 {
            Self::parse_ppm_binary(body)
        } else {
            Err(ImageError::FormatError)
        }
    }
}

fn push_header(out: &mut Vec<u8>, magic: u8, image: &Image)
    ensures
        final(out)@ == old(out)@ + image@.header_text(magic),
{
    out.push(80);
    out.push(magic);
    out.push(10);
    push_decimal(out, image.width());
    out.push(32);
    push_decimal(out, image.height());
    out.push(10);
    push_decimal(out, image.max_intensity());
    out.push(10);
    proof {
        assert(out@ =~= old(out)@ + image@.header_text(magic));
    }
}

impl Image {
    /// Appends the image as a text file: the header, then every row on a line
    /// of its own, the samples in decimal with one blank between two.
    pub fn write_ascii(&self, writer: &mut Vec<u8>)
        ensures
            final(writer)@ == old(writer)@ + self@.ascii_file(),
    {
        let width = self.width();
        let height = self.height();
        push_header(writer, 51, self);
        let ghost head = writer@;
        let mut row: usize = 0;
        while row < height
            invariant
                row <= height,
                self@.wf(),
                self@.width() == width,
                self@.height() == height,
                writer@ == head + self@.rows_text(row as int),
            decreases height - row,
        {
            let ghost begun = writer@;
            let mut col: usize = 0;
            while col < width
                invariant
                    row < height,
                    col <= width,
                    self@.wf(),
                    self@.width() == width,
                    self@.height() == height,
                    writer@ == begun + self@.row_text(row as int, col as int),
                decreases width - col,
            {
                let pixel = self.get_pixel(row, col).unwrap();
                if col > 0 {
                    writer.push(32);
                }
                push_decimal(writer, pixel.r);
                writer.push(32);
                push_decimal(writer, pixel.g);
                writer.push(32);
                push_decimal(writer, pixel.b);
                col += 1;
                proof {
                    assert(writer@ =~= begun + self@.row_text(row as int, col as int));
                }
            }
            writer.push(10);
            row += 1;
            proof {
                assert(writer@ =~= head + self@.rows_text(row as int));
            }
        }
        proof {
            assert(writer@ =~= old(writer)@ + self@.ascii_file());
        }
    }

    /// Appends the image as a binary file: the header, then every sample as
    /// one byte, the remainder of its division by 256.
    pub fn write_binary(&self, writer: &mut Vec<u8>)
        ensures
            final(writer)@ == old(writer)@ + self@.binary_file(),
    {
        let width = self.width();
        let height = self.height();
        push_header(writer, 54, self);
        let ghost head = writer@;
        let mut row: usize = 0;
        while row < height
            invariant
                row <= height,
                self@.wf(),
                self@.width() == width,
                self@.height() == height,
                writer@ == head + self@.rows_bytes(row as int),
            decreases height - row,
        {
            let ghost begun = writer@;
            let mut col: usize = 0;
            while col < width
                invariant
                    row < height,
                    col <= width,
                    self@.wf(),
                    self@.width() == width,
                    self@.height() == height,
                    writer@ == begun + self@.row_bytes(row as int, col as int),
                decreases width - col,
            {
                let pixel = self.get_pixel(row, col).unwrap();
                writer.push((pixel.r % 256) as u8);
                writer.push((pixel.g % 256) as u8);
                writer.push((pixel.b % 256) as u8);
                col += 1;
                proof {
                    assert(writer@ =~= begun + self@.row_bytes(row as int, col as int));
                }
            }
            row += 1;
            proof {
                assert(writer@ =~= head + self@.rows_bytes(row as int));
            }
        }
        proof {
            assert(writer@ =~= old(writer)@ + self@.binary_file());
        }
    }

    /// Appends the image as a file of the given encoding.
    pub fn write_format(&self, writer: &mut Vec<u8>, format: PPMFormat)
        ensures
            final(writer)@ == old(writer)@ + self@.file(format),
    {
        match format {
            PPMFormat::P3 => self.write_ascii(writer),
            PPMFormat::P6 => self.write_binary(writer),
        }
    }

    /// Appends the image as a file of its own encoding.
    pub fn write(&self, writer: &mut Vec<u8>)
        ensures
            final(writer)@ == old(writer)@ + self@.file(self@.format),
    {
        self.write_format(writer, self.format())
    }

    /// Appends the image as a file of its own encoding.
    pub fn write_to(&self, writer: &mut Vec<u8>)
        ensures
            final(writer)@ == old(writer)@ + self@.file(self@.format),
    {
        self.write(writer)
    }

    /// The image as a file of the given encoding.
    pub fn bytes_format(&self, format: PPMFormat) -> (buffer: Vec<u8>)
        ensures
            buffer@ == self@.file(format),
    {
        let mut buffer: Vec<u8> = Vec::new();
        self.write_format(&mut buffer, format);
        proof {
            assert(buffer@ =~= self@.file(format));
        }
        buffer
    }

    /// The image as a file of its own encoding.
    pub fn bytes(&self) -> (buffer: Vec<u8>)
        ensures
            buffer@ == self@.file(self@.format),
    {
        self.bytes_format(self.format())
    }

    /// The image as a file of its own encoding.
    pub fn to_bytes(&self) -> (buffer: Vec<u8>)
        ensures
            buffer@ == self@.file(self@.format),
    {
        self.bytes()
    }
}

} // verus!
