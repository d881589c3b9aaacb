//! Cropping: cutting an image down to a rectangle of its own pixels.

use crate::image::{Image, Picture};
use vstd::prelude::*;

verus! {

/// Method to use when cropping an image: the sides from which pixels are
/// taken away.
#[derive(Clone, Copy, Debug, PartialEq, Eq, Structural)]
pub enum CropMethod {
    Left,
    Right,
    LeftRight,
    Top,
    Bottom,
    TopBottom,
    LeftTop,
    LeftBottom,
    RightTop,
    RightBottom,
    Rectangular,
}

impl CropMethod {
    /// The methods that change the width alone.
    pub open spec fn is_horizontal(self) -> bool {
        self is Left || self is Right || self is LeftRight
    }

    /// The methods that change the height alone.
    pub open spec fn is_vertical(self) -> bool {
        self is Top || self is Bottom || self is TopBottom
    }
}

/// A rectangle of pixels: the column and the row of its top left corner, its
/// width and its height.
pub struct Frame {
    pub x: int,
    pub y: int,
    pub width: nat,
    pub height: nat,
}

impl Picture {
    pub open spec fn window(self, x: int, y: int, width: nat, height: nat) -> Picture {
        self.with_channels(
            self.red.window(x, y, width, height),
            self.green.window(x, y, width, height),
            self.blue.window(x, y, width, height),
        )
    }

    pub open spec fn framed(self, frame: Frame) -> Picture {
        self.window(frame.x, frame.y, frame.width, frame.height)
    }

    pub open spec fn holds_frame(self, frame: Frame) -> bool {
        self.red.holds_window(frame.x, frame.y, frame.width, frame.height)
    }

    /// Whether a crop to the given size does anything at all: the size must
    /// not be 0 in either direction and not exceed the image.
    pub open spec fn crop_applies(self, new_width: nat, new_height: nat) -> bool {
        0 < new_width <= self.width() && 0 < new_height <= self.height()
    }

    /// The rectangle that a crop to the given size keeps. Where two sides
    /// share what is taken away, the left or top side gives up the smaller
    /// half. A rectangular crop is placed by its offsets, and centred in each
    /// direction for which none is given.
    pub open spec fn crop_frame(
        self,
        new_width: nat,
        new_height: nat,
        method: CropMethod,
        x_offset: Option<usize>,
        y_offset: Option<usize>,
    ) -> Frame {
        let w = self.width();
        let h = self.height();
        let spare_x = w - new_width;
        let spare_y = h - new_height;
        match method {
            CropMethod::Left => Frame { x: spare_x, y: 0, width: new_width, height: h },
            CropMethod::Right => Frame { x: 0, y: 0, width: new_width, height: h },
            CropMethod::LeftRight => Frame { x: spare_x / 2, y: 0, width: new_width, height: h },
            CropMethod::Top => Frame { x: 0, y: spare_y, width: w, height: new_height },
            CropMethod::Bottom => Frame { x: 0, y: 0, width: w, height: new_height },
            CropMethod::TopBottom => Frame { x: 0, y: spare_y / 2, width: w, height: new_height },
            CropMethod::LeftTop => Frame {
                x: spare_x,
                y: spare_y,
                width: new_width,
                height: new_height,
            },
            CropMethod::LeftBottom => Frame {
                x: spare_x,
                y: 0,
                width: new_width,
                height: new_height,
            },
            CropMethod::RightTop => Frame {
                x: 0,
                y: spare_y,
                width: new_width,
                height: new_height,
            },
            CropMethod::RightBottom => Frame { x: 0, y: 0, width: new_width, height: new_height },
            CropMethod::Rectangular => Frame {
                x: match x_offset {
                    Some(x) => x as int,
                    None => spare_x / 2,
                },
                y: match y_offset {
                    Some(y) => y as int,
                    None => spare_y / 2,
                },
                width: new_width,
                height: new_height,
            },
        }
    }

    /// What a crop leaves: the rectangle it keeps, or the image itself where
    /// the crop does not apply.
    pub open spec fn cropped(
        self,
        new_width: nat,
        new_height: nat,
        method: CropMethod,
        x_offset: Option<usize>,
        y_offset: Option<usize>,
    ) -> Picture {
        if self.crop_applies(new_width, new_height) {
            self.framed(self.crop_frame(new_width, new_height, method, x_offset, y_offset))
        } else {
            self
        }
    }

    /// The image cut down to `new_width` columns by a horizontal method; the
    /// one- sided methods leave alone an image that is no wider than that.
    pub open spec fn cropped_width(self, new_width: nat, method: CropMethod) -> Picture {
        if method is LeftRight || 0 < new_width < self.width() {
            self.framed(self.crop_frame(new_width, self.height(), method, None, None))
        } else {
            self
        }
    }

    /// The image cut down to `new_height` rows by a vertical method; the
    /// one-sided methods leave alone an image that is no higher than that.
    pub open spec fn cropped_height(self, new_height: nat, method: CropMethod) -> Picture {
        if method is TopBottom || 0 < new_height < self.height() {
            self.framed(self.crop_frame(self.width(), new_height, method, None, None))
        } else {
            self
        }
    }

    /// The rectangle that covers a well-formed image is the image.
    pub proof fn lemma_whole_window(self)
        requires
            self.wf(),
        ensures
            self.window(0, 0, self.width(), self.height()) == self,
    {
        let whole = self.window(0, 0, self.width(), self.height());
        whole.red.lemma_equal_by_cells(self.red);
        whole.green.lemma_equal_by_cells(self.green);
        whole.blue.lemma_equal_by_cells(self.blue);
    }

    /// A rectangle inside the image is a well-formed image of its own size
    /// whose pixels are those of the image, moved by the corner.
    pub proof fn lemma_window(self, x: int, y: int, width: nat, height: nat)
        requires
            self.wf(),
            self.red.holds_window(x, y, width, height),
        ensures
            self.window(x, y, width, height).wf(),
            self.window(x, y, width, height).width() == width,
            self.window(x, y, width, height).height() == height,
            forall|r: int, c: int|
                0 <= r < height && 0 <= c < width ==> #[trigger] self.window(
                    x,
                    y,
                    width,
                    height,
                ).pixel(r, c) == self.pixel(y + r, x + c),
    {
    }

    /// A rectangle of a rectangle is a rectangle of the image.
    pub proof fn lemma_window_of_window(
        self,
        x1: int,
        y1: int,
        w1: nat,
        h1: nat,
        x2: int,
        y2: int,
        w2: nat,
        h2: nat,
    )
        requires
            self.wf(),
            self.red.holds_window(x1, y1, w1, h1),
            0 <= x2 && x2 + w2 <= w1,
            0 <= y2 && y2 + h2 <= h1,
        ensures
            self.window(x1, y1, w1, h1).window(x2, y2, w2, h2) == self.window(
                x1 + x2,
                y1 + y2,
                w2,
                h2,
            ),
    {
        let a = self.window(x1, y1, w1, h1).window(x2, y2, w2, h2);
        let b = self.window(x1 + x2, y1 + y2, w2, h2);
        a.red.lemma_equal_by_cells(b.red);
        a.green.lemma_equal_by_cells(b.green);
        a.blue.lemma_equal_by_cells(b.blue);
    }
}

impl Image {
    /// Cuts the image down to the rectangle of the given size whose top left
    /// corner is at row `y_offset`, column `x_offset`.
    pub fn crop_rect(
        &mut self,
        new_width: usize,
        new_height: usize,
        x_offset: usize,
        y_offset: usize,
    )
        requires
            old(self)@.red.holds_window(
                x_offset as int,
                y_offset as int,
                new_width as nat,
                new_height as nat,
            ),
        ensures
            final(self)@ == old(self)@.window(
                x_offset as int,
                y_offset as int,
                new_width as nat,
                new_height as nat,
            ),
            final(self)@.wf(),
    {
        let new_red = self.red_channel().window(x_offset, y_offset, new_width, new_height);
        let new_green = self.green_channel().window(x_offset, y_offset, new_width, new_height);
        let new_blue = self.blue_channel().window(x_offset, y_offset, new_width, new_height);
        self.put_channels(new_red, new_green, new_blue);
    }

    /// Takes columns away on the left until `new_width` are left. Does
    /// nothing where `new_width` is 0 or the image is no wider than that.
    pub fn crop_left(&mut self, new_width: usize)
        ensures
            final(self)@ == old(self)@.cropped_width(new_width as nat, CropMethod::Left),
            final(self)@.wf(),
    {
        let width = self.width();
        let height = self.height();
        if new_width >= width || new_width == 0 {
            return ;
        }
        let cols_to_trim = width - new_width;
        self.crop_rect(new_width, height, cols_to_trim, 0);
    }

    /// Takes columns away on the right until `new_width` are left. Does
    /// nothing where `new_width` is 0 or the image is no wider than that.
    pub fn crop_right(&mut self, new_width: usize)
        ensures
            final(self)@ == old(self)@.cropped_width(new_width as nat, CropMethod::Right),
            final(self)@.wf(),
    {
        let width = self.width();
        let height = self.height();
        if new_width >= width || new_width == 0 {
            return ;
        }
        self.crop_rect(new_width, height, 0, 0);
    }

    /// Takes rows away at the top until `new_height` are left. Does nothing
    /// where `new_height` is 0 or the image is no higher than that.
    pub fn crop_top(&mut self, new_height: usize)
        ensures
            final(self)@ == old(self)@.cropped_height(new_height as nat, CropMethod::Top),
            final(self)@.wf(),
    {
        let width = self.width();
        let height = self.height();
        if new_height >= height || new_height == 0 {
            return ;
        }
        let rows_to_trim = height - new_height;
        self.crop_rect(width, new_height, 0, rows_to_trim);
    }

    /// Takes rows away at the bottom until `new_height` are left. Does
    /// nothing where `new_height` is 0 or the image is no higher than that.
    pub fn crop_bottom(&mut self, new_height: usize)
        ensures
            final(self)@ == old(self)@.cropped_height(new_height as nat, CropMethod::Bottom),
            final(self)@.wf(),
    {
        let width = self.width();
        let height = self.height();
        if new_height >= height || new_height == 0 {
            return ;
        }
        self.crop_rect(width, new_height, 0, 0);
    }

    /// Cuts the image down to `new_width` columns by a horizontal method.
    pub fn crop_width(&mut self, new_width: usize, method: CropMethod)
        requires
            method.is_horizontal(),
            method is LeftRight ==> new_width <= old(self)@.width(),
        ensures
            final(self)@ == old(self)@.cropped_width(new_width as nat, method),
            final(self)@.wf(),
    {
        match method {
            CropMethod::Left => self.crop_left(new_width),
            CropMethod::Right => self.crop_right(new_width),
            _ => {
                let width = self.width();
                let height = self.height();
                let total_trim = width - new_width;
                let left_trim = total_trim / 2;
                self.crop_rect(new_width, height, left_trim, 0);
            },
        }
    }

    /// Cuts the image down to `new_height` rows by a vertical method.
    pub fn crop_height(&mut self, new_height: usize, method: CropMethod)
        requires
            method.is_vertical(),
            method is TopBottom ==> new_height <= old(self)@.height(),
        ensures
            final(self)@ == old(self)@.cropped_height(new_height as nat, method),
            final(self)@.wf(),
    {
        match method {
            CropMethod::Top => self.crop_top(new_height),
            CropMethod::Bottom => self.crop_bottom(new_height),
            _ => {
                let width = self.width();
                let height = self.height();
                let total_trim = height - new_height;
                let top_trim = total_trim / 2;
                self.crop_rect(width, new_height, 0, top_trim);
            },
        }
    }

    /// Crops the image to the given size by the given method. Does nothing
    /// where one of the sizes is 0 or exceeds the image. A method that names
    /// sides of one direction only leaves the other direction as it is.
    pub fn crop(
        &mut self,
        new_width: usize,
        new_height: usize,
        method: CropMethod,
        rect_center_x: Option<usize>,
        rect_center_y: Option<usize>,
    )
        requires
            method is Rectangular && old(self)@.crop_applies(new_width as nat, new_height as nat)
                ==> old(self)@.holds_frame(
                old(self)@.crop_frame(
                    new_width as nat,
                    new_height as nat,
                    method,
                    rect_center_x,
                    rect_center_y,
                ),
            ),
        ensures
            final(self)@ == old(self)@.cropped(
                new_width as nat,
                new_height as nat,
                method,
                rect_center_x,
                rect_center_y,
            ),
            final(self)@.wf(),
    {
        let width = self.width();
        let height = self.height();
        if new_width == 0 || new_height == 0 || new_width > width || new_height > height {
            return ;
        }
        let ghost before = self@;
        let w_diff = width - new_width;
        let h_diff = height - new_height;
        proof {
            before.lemma_whole_window();
        }

        match method {
            CropMethod::Left => {
                self.crop_left(new_width);
            },
            CropMethod::Right => {
                self.crop_right(new_width);
            },
            CropMethod::LeftRight => {
                let left_trim = w_diff / 2;
                let right_trim = w_diff - left_trim;
                self.crop_right(width - right_trim);
                proof {
                    before.lemma_window(0, 0, (width - right_trim) as nat, height as nat);
                    before.lemma_window_of_window(
                        0,
                        0,
                        (width - right_trim) as nat,
                        height as nat,
                        left_trim as int,
                        0,
                        new_width as nat,
                        height as nat,
                    );
                    self@.lemma_whole_window();
                }
                self.crop_left(new_width);
            },
            CropMethod::Top => {
                self.crop_top(new_height);
            },
            CropMethod::Bottom => {
                self.crop_bottom(new_height);
            },
            CropMethod::TopBottom => {
                let top_trim = h_diff / 2;
                let bottom_trim = h_diff - top_trim;
                self.crop_bottom(height - bottom_trim);
                proof {
                    before.lemma_window(0, 0, width as nat, (height - bottom_trim) as nat);
                    before.lemma_window_of_window(
                        0,
                        0,
                        width as nat,
                        (height - bottom_trim) as nat,
                        0,
                        top_trim as int,
                        width as nat,
                        new_height as nat,
                    );
                    self@.lemma_whole_window();
                }
                self.crop_top(new_height);
            },
            CropMethod::LeftTop => {
                self.crop_left(new_width);
                proof {
                    before.lemma_window(w_diff as int, 0, new_width as nat, height as nat);
                    before.lemma_window_of_window(
                        w_diff as int,
                        0,
                        new_width as nat,
                        height as nat,
                        0,
                        h_diff as int,
                        new_width as nat,
                        new_height as nat,
                    );
                    self@.lemma_whole_window();
                }
                self.crop_top(new_height);
            },
            CropMethod::LeftBottom => {
                self.crop_left(new_width);
                proof {
                    before.lemma_window(w_diff as int, 0, new_width as nat, height as nat);
                    before.lemma_window_of_window(
                        w_diff as int,
                        0,
                        new_width as nat,
                        height as nat,
                        0,
                        0,
                        new_width as nat,
                        new_height as nat,
                    );
                    self@.lemma_whole_window();
                }
                self.crop_bottom(new_height);
            },
            CropMethod::RightTop => {
                self.crop_right(new_width);
                proof {
                    before.lemma_window(0, 0, new_width as nat, height as nat);
                    before.lemma_window_of_window(
                        0,
                        0,
                        new_width as nat,
                        height as nat,
                        0,
                        h_diff as int,
                        new_width as nat,
                        new_height as nat,
                    );
                    self@.lemma_whole_window();
                }
                self.crop_top(new_height);
            },
            CropMethod::RightBottom => {
                self.crop_right(new_width);
                proof {
                    before.lemma_window(0, 0, new_width as nat, height as nat);
                    before.lemma_window_of_window(
                        0,
                        0,
                        new_width as nat,
                        height as nat,
                        0,
                        0,
                        new_width as nat,
                        new_height as nat,
                    );
                    self@.lemma_whole_window();
                }
                self.crop_bottom(new_height);
            },
            CropMethod::Rectangular => {
                let x_offset = match rect_center_x {
                    Some(x) => x,
                    None => (width - new_width) / 2,
                };
                let y_offset = match rect_center_y {
                    Some(y) => y,
                    None => (height - new_height) / 2,
                };
                self.crop_rect(new_width, new_height, x_offset, y_offset);
            },
        }
    }
}

} // verus!
