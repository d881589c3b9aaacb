//! An RGB image: three channel matrices of one shape, and its mathematical
//! model.

use crate::error::ImageError;
use crate::grid::Grid;
use crate::matrix::Matrix;
use crate::pixel::PixelRGB;
use vstd::prelude::*;

verus! {

/// The two encodings of the native file format: `P3` is text, `P6` binary.
#[derive(Clone, Copy, Debug, PartialEq, Eq, Structural)]
pub enum PPMFormat {
    P3,
    P6,
}

/// What an image is: its three channels, the largest sample it is meant to
/// hold and the encoding it is written in.
#[verifier::ext_equal]
pub struct Picture {
    pub max_intensity: nat,
    pub format: PPMFormat,
    pub red: Grid<usize>,
    pub green: Grid<usize>,
    pub blue: Grid<usize>,
}

impl Picture {
    /// The three channels are well formed and have one shape.
    pub open spec fn wf(self) -> bool {
        &&& self.red.wf()
        &&& self.green.wf()
        &&& self.blue.wf()
        &&& self.green.width == self.red.width
        &&& self.blue.width == self.red.width
        &&& self.green.height() == self.red.height()
        &&& self.blue.height() == self.red.height()
    }

    pub open spec fn width(self) -> nat {
        self.red.width
    }

    pub open spec fn height(self) -> nat {
        self.red.height()
    }

    pub open spec fn has(self, r: int, c: int) -> bool {
        self.red.has(r, c)
    }

    /// The pixel at `(r, c)`: the three samples that the channels hold there.
    pub open spec fn pixel(self, r: int, c: int) -> PixelRGB {
        PixelRGB { r: self.red.rows[r][c], g: self.green.rows[r][c], b: self.blue.rows[r][c] }
    }

    /// Row `r` as a sequence of pixels.
    pub open spec fn pixel_row(self, r: int) -> Seq<PixelRGB> {
        Seq::new(self.width(), |c: int| self.pixel(r, c))
    }

    /// The same image with other channels.
    pub open spec fn with_channels(
        self,
        red: Grid<usize>,
        green: Grid<usize>,
        blue: Grid<usize>,
    ) -> Picture {
        Picture { max_intensity: self.max_intensity, format: self.format, red, green, blue }
    }

    /// The image of the given shape whose every pixel is `color`.
    pub open spec fn uniform(
        width: nat,
        height: nat,
        max_intensity: nat,
        format: PPMFormat,
        color: PixelRGB,
    ) -> Picture {
        Picture {
            max_intensity,
            format,
            red: Grid::filled(width, height, color.r),
            green: Grid::filled(width, height, color.g),
            blue: Grid::filled(width, height, color.b),
        }
    }

    pub open spec fn with_pixel(self, r: int, c: int, color: PixelRGB) -> Picture {
        self.with_channels(
            self.red.with_cell(r, c, color.r),
            self.green.with_cell(r, c, color.g),
            self.blue.with_cell(r, c, color.b),
        )
    }

    /// Whether every sample is at most `max_intensity`.
    pub open spec fn in_range(self) -> bool {
        forall|r: int, c: int|
            #![trigger self.red.rows[r][c]]
            #![trigger self.green.rows[r][c]]
            #![trigger self.blue.rows[r][c]]
            self.has(r, c) ==> self.red.rows[r][c] <= self.max_intensity && self.green.rows[r][c]
                <= self.max_intensity && self.blue.rows[r][c] <= self.max_intensity
    }
}

/// Representation of a 2D RGB image. The three channels always have the
/// width and the height of the image.
#[derive(Debug)]
pub struct Image {
    width: usize,
    height: usize,
    max_intensity: usize,
    red_channel: Matrix<usize>,
    blue_channel: Matrix<usize>,
    green_channel: Matrix<usize>,
    format: PPMFormat,
}

impl View for Image {
    type V = Picture;

    closed spec fn view(&self) -> Picture {
        Picture {
            max_intensity: self.max_intensity as nat,
            format: self.format,
            red: self.red_channel@,
            green: self.green_channel@,
            blue: self.blue_channel@,
        }
    }
}

impl Image {
    #[verifier::type_invariant]
    spec fn inv(&self) -> bool {
        &&& self.red_channel@.wf()
        &&& self.green_channel@.wf()
        &&& self.blue_channel@.wf()
        &&& self.red_channel@.width == self.width
        &&& self.green_channel@.width == self.width
        &&& self.blue_channel@.width == self.width
        &&& self.red_channel@.height() == self.height
        &&& self.green_channel@.height() == self.height
        &&& self.blue_channel@.height() == self.height
    }

    /// An image of the given shape with every sample 0.
    pub fn new(width: usize, height: usize, intensity: usize, format: PPMFormat) -> (made: Image)
        requires
            width * height <= usize::MAX,
        ensures
            made@ == Picture::uniform(
                width as nat,
                height as nat,
                intensity as nat,
                format,
                PixelRGB { r: 0, g: 0, b: 0 },
            ),
            made@.wf(),
    {
        Image {
            width,
            height,
            max_intensity: intensity,
            red_channel: Matrix::new_filled(width, height, 0),
            blue_channel: Matrix::new_filled(width, height, 0),
            green_channel: Matrix::new_filled(width, height, 0),
            format,
        }
    }

    /// The image made of three channels, which must have one shape.
    pub fn from_channels(
        max_intensity: usize,
        red: Matrix<usize>,
        green: Matrix<usize>,
        blue: Matrix<usize>,
        format: PPMFormat,
    ) -> (made: Result<Image, ImageError>)
        ensures
            ({
                let p = Picture {
                    max_intensity: max_intensity as nat,
                    format,
                    red: red@,
                    green: green@,
                    blue: blue@,
                };
                &&& p.wf() ==> made is Ok && made->Ok_0@ == p
                &&& !p.wf() ==> made == Err::<Image, ImageError>(ImageError::ShapeMismatch)
            }),
    {
        let width = red.width();
        let height = red.height();
        if green.width() != width || blue.width() != width || green.height() != height
            || blue.height() != height {
            return Err(ImageError::ShapeMismatch);
        }
        Ok(
            Image {
                width,
                height,
                max_intensity,
                red_channel: red,
                blue_channel: blue,
                green_channel: green,
                format,
            },
        )
    }

    /// Takes the three channels out, red, green and blue, and leaves an image
    /// without pixels behind.
    pub fn take_channels(&mut self) -> (channels: (Matrix<usize>, Matrix<usize>, Matrix<usize>))
        ensures
            channels.0@ == old(self)@.red,
            channels.1@ == old(self)@.green,
            channels.2@ == old(self)@.blue,
            old(self)@.wf(),
            final(self)@ == old(self)@.with_channels(
                Grid::filled(0, 0, 0),
                Grid::filled(0, 0, 0),
                Grid::filled(0, 0, 0),
            ),
    {
        proof {
            use_type_invariant(&*self);
        }
        let mut taken = Image::new(0, 0, self.max_intensity, self.format);
        core::mem::swap(self, &mut taken);
        (taken.red_channel, taken.green_channel, taken.blue_channel)
    }

    /// Puts three channels of one shape in the place of those the image has.
    pub fn put_channels(&mut self, red: Matrix<usize>, green: Matrix<usize>, blue: Matrix<usize>)
        requires
            old(self)@.with_channels(red@, green@, blue@).wf(),
        ensures
            final(self)@ == old(self)@.with_channels(red@, green@, blue@),
            final(self)@.wf(),
    {
        let width = red.width();
        let height = red.height();
        *self = Image {
            width,
            height,
            max_intensity: self.max_intensity,
            red_channel: red,
            blue_channel: blue,
            green_channel: green,
            format: self.format,
        };
    }

    pub fn width(&self) -> (w: usize)
        ensures
            w == self@.width(),
            self@.wf(),
            self@.width() * self@.height() <= usize::MAX,
    {
        proof {
            use_type_invariant(self);
        }
        let _ = self.red_channel.width();
        self.width
    }

    pub fn height(&self) -> (h: usize)
        ensures
            h == self@.height(),
            self@.wf(),
            self@.width() * self@.height() <= usize::MAX,
    {
        proof {
            use_type_invariant(self);
        }
        let _ = self.red_channel.height();
        self.height
    }

    pub fn max_intensity(&self) -> (m: usize)
        ensures
            m == self@.max_intensity,
    {
        self.max_intensity
    }

    pub fn format(&self) -> (f: PPMFormat)
        ensures
            f == self@.format,
    {
        self.format
    }

    /// Changes the encoding the image is written in.
    pub fn set_format(&mut self, format: PPMFormat)
        ensures
            final(self)@ == (Picture { format, ..old(self)@ }),
    {
        proof {
            use_type_invariant(&*self);
        }
        self.format = format;
    }

    pub fn red_channel(&self) -> (channel: &Matrix<usize>)
        ensures
            channel@ == self@.red,
            self@.wf(),
    {
        proof {
            use_type_invariant(self);
        }
        &self.red_channel
    }

    pub fn green_channel(&self) -> (channel: &Matrix<usize>)
        ensures
            channel@ == self@.green,
            self@.wf(),
    {
        proof {
            use_type_invariant(self);
        }
        &self.green_channel
    }

    pub fn blue_channel(&self) -> (channel: &Matrix<usize>)
        ensures
            channel@ == self@.blue,
            self@.wf(),
    {
        proof {
            use_type_invariant(self);
        }
        &self.blue_channel
    }

    /// The pixel at `(row, col)`, or nothing where the image has no such
    /// pixel.
    pub fn get_pixel(&self, row: usize, col: usize) -> (pixel: Option<PixelRGB>)
        ensures
            self@.has(row as int, col as int) ==> pixel == Some(
                self@.pixel(row as int, col as int),
            ),
            !self@.has(row as int, col as int) ==> pixel is None,
    {
        proof {
            use_type_invariant(self);
        }
        if row < self.height && col < self.width {
            Some(
                PixelRGB {
                    r: *self.red_channel.at(row, col),
                    g: *self.green_channel.at(row, col),
                    b: *self.blue_channel.at(row, col),
                },
            )
        } else {
            None
        }
    }

    /// Sets the pixel at `(row, col)` to `color`; does nothing where the image
    /// has no such pixel.
    pub fn set_pixel(&mut self, row: usize, col: usize, color: PixelRGB)
        ensures
            old(self)@.has(row as int, col as int) ==> final(self)@ == old(self)@.with_pixel(
                row as int,
                col as int,
                color,
            ),
            !old(self)@.has(row as int, col as int) ==> final(self)@ == old(self)@,
            final(self)@.wf(),
    {
        proof {
            use_type_invariant(&*self);
        }
        if row < self.height && col < self.width {
            self.red_channel.put(row, col, color.r);
            self.green_channel.put(row, col, color.g);
            self.blue_channel.put(row, col, color.b);
        }
    }

    /// Sets every pixel to `color`.
    pub fn fill(&mut self, color: PixelRGB)
        ensures
            final(self)@ == Picture::uniform(
                old(self)@.width(),
                old(self)@.height(),
                old(self)@.max_intensity,
                old(self)@.format,
                color,
            ),
            final(self)@.wf(),
    {
        proof {
            use_type_invariant(&*self);
        }
        self.red_channel.fill(color.r);
        self.green_channel.fill(color.g);
        self.blue_channel.fill(color.b);
    }

    /// Whether every sample is at most the largest the image is meant to
    /// hold.
    pub fn samples_in_range(&self) -> (ok: bool)
        ensures
            ok == self@.in_range(),
    {
        proof {
            use_type_invariant(self);
        }
        let limit = self.max_intensity;
        let mut row: usize = 0;
        while row < self.height
            invariant
                row <= self.height,
                self@.wf(),
                self@.width() == self.width,
                self@.height() == self.height,
                limit == self@.max_intensity,
                self.red_channel@ == self@.red,
                self.green_channel@ == self@.green,
                self.blue_channel@ == self@.blue,
                forall|r: int, c: int|
                    #![trigger self@.red.rows[r][c]]
                    #![trigger self@.green.rows[r][c]]
                    #![trigger self@.blue.rows[r][c]]
                    self@.has(r, c) && r < row ==> self@.red.rows[r][c] <= limit
                        && self@.green.rows[r][c] <= limit && self@.blue.rows[r][c] <= limit,
            decreases self.height - row,
        {
            let mut col: usize = 0;
            while col < self.width
                invariant
                    row < self.height,
                    col <= self.width,
                    self@.wf(),
                    self@.width() == self.width,
                    self@.height() == self.height,
                    limit == self@.max_intensity,
                    self.red_channel@ == self@.red,
                    self.green_channel@ == self@.green,
                    self.blue_channel@ == self@.blue,
                    forall|r: int, c: int|
                        #![trigger self@.red.rows[r][c]]
                        #![trigger self@.green.rows[r][c]]
                        #![trigger self@.blue.rows[r][c]]
                        self@.has(r, c) && (r < row || (r == row && c < col))
                            ==> self@.red.rows[r][c] <= limit && self@.green.rows[r][c] <= limit
                            && self@.blue.rows[r][c] <= limit,
                decreases self.width - col,
            {
                if *self.red_channel.at(row, col) > limit || *self.green_channel.at(row, col)
                    > limit || *self.blue_channel.at(row, col) > limit {
                    assert(self@.has(row as int, col as int));
                    return false;
                }
                col += 1;
            }
            row += 1;
        }
        true
    }
}

impl Picture {
    pub open spec fn transposed(self) -> Picture {
        self.with_channels(self.red.transposed(), self.green.transposed(), self.blue.transposed())
    }

    /// Rows in reverse order: a reflection about the horizontal axis.
    pub open spec fn mirrored_x(self) -> Picture {
        self.with_channels(self.red.mirrored_x(), self.green.mirrored_x(), self.blue.mirrored_x())
    }

    /// Columns in reverse order: a reflection about the vertical axis.
    pub open spec fn mirrored_y(self) -> Picture {
        self.with_channels(self.red.mirrored_y(), self.green.mirrored_y(), self.blue.mirrored_y())
    }
}

impl Image {
    /// Mirrors the image about the horizontal axis: the rows change places.
    pub fn mirror_x(&mut self)
        ensures
            final(self)@ == old(self)@.mirrored_x(),
            final(self)@.wf(),
    {
        let (mut red, mut green, mut blue) = self.take_channels();
        red.mirror_x();
        green.mirror_x();
        blue.mirror_x();
        self.put_channels(red, green, blue);
    }

    /// Mirrors the image about the vertical axis: the columns change places.
    pub fn mirror_y(&mut self)
        ensures
            final(self)@ == old(self)@.mirrored_y(),
            final(self)@.wf(),
    {
        let (mut red, mut green, mut blue) = self.take_channels();
        red.mirror_y();
        green.mirror_y();
        blue.mirror_y();
        self.put_channels(red, green, blue);
    }

    /// Transposes the image: the pixel at `(r, c)` goes to `(c, r)`.
    pub fn transpose(&mut self)
        ensures
            final(self)@ == old(self)@.transposed(),
            final(self)@.wf(),
    {
        let (mut red, mut green, mut blue) = self.take_channels();
        red.transpose();
        green.transpose();
        blue.transpose();
        self.put_channels(red, green, blue);
    }
}

} // verus!
