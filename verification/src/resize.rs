//! Resizing: each axis grows by scaling or shrinks by cropping, first the
//! width, then the height.

use crate::crop::CropMethod;
use crate::error::ImageError;
use crate::image::{Image, Picture};
use crate::scale::ScaleMethod;
use vstd::prelude::*;

verus! {

impl Picture {
    /// Whether an axis has to shrink and no crop method is given for it.
    pub open spec fn lacks_crop_method(
        self,
        width: nat,
        height: nat,
        crop_x: Option<CropMethod>,
        crop_y: Option<CropMethod>,
    ) -> bool {
        (width < self.width() && crop_x is None) || (height < self.height() && crop_y is None)
    }

    /// The image brought to the given width: scaled where that is more than
    /// it has, cropped where it is less.
    pub open spec fn resized_width(
        self,
        width: nat,
        method: ScaleMethod,
        crop_x: Option<CropMethod>,
    ) -> Picture {
        if width > self.width() {
            self.scaled(width, self.height(), method)
        } else if width < self.width() {
            self.cropped_width(width, crop_x->0)
        } else {
            self
        }
    }

    /// The image brought to the given height: scaled where that is more than
    /// it has, cropped where it is less.
    pub open spec fn resized_height(
        self,
        height: nat,
        method: ScaleMethod,
        crop_y: Option<CropMethod>,
    ) -> Picture {
        if height > self.height() {
            self.scaled(self.width(), height, method)
        } else if height < self.height() {
            self.cropped_height(height, crop_y->0)
        } else {
            self
        }
    }

    /// The image brought to the given width and then to the given height.
    pub open spec fn resized(
        self,
        width: nat,
        height: nat,
        method: ScaleMethod,
        crop_x: Option<CropMethod>,
        crop_y: Option<CropMethod>,
    ) -> Picture {
        self.resized_width(width, method, crop_x).resized_height(height, method, crop_y)
    }
}

impl Image {
    /// Brings the image to the given size: an axis that has to grow is
    /// scaled by `method`, one that has to shrink is cropped by the method
    /// given for it. Where an axis has to shrink and no crop method is given
    /// for it, the image is left as it is and the call fails.
    pub fn resize(
        &mut self,
        target_width: usize,
        target_height: usize,
        method: ScaleMethod,
        crop_x: Option<CropMethod>,
        crop_y: Option<CropMethod>,
    ) -> (done: Result<(), ImageError>)
        requires
            target_width < old(self)@.width() && crop_x is Some ==> crop_x->0.is_horizontal(),
            target_height < old(self)@.height() && crop_y is Some ==> crop_y->0.is_vertical(),
            target_width > old(self)@.width() ==> target_width * old(self)@.height()
                <= usize::MAX,
            target_height > old(self)@.height() ==> old(self)@.resized_width(
                target_width as nat,
                method,
                crop_x,
            ).width() * target_height <= usize::MAX,
        ensures
            old(self)@.lacks_crop_method(target_width as nat, target_height as nat, crop_x, crop_y)
                ==> done == Err::<(), ImageError>(ImageError::MissingCropMethod) && final(self)@
                == old(self)@,
            !old(self)@.lacks_crop_method(
                target_width as nat,
                target_height as nat,
                crop_x,
                crop_y,
            ) ==> done is Ok && final(self)@ == old(self)@.resized(
                target_width as nat,
                target_height as nat,
                method,
                crop_x,
                crop_y,
            ),
            final(self)@.wf(),
    {
        let width = self.width();
        let height = self.height();
        if (target_width < width && crop_x.is_none()) || (target_height < height
            && crop_y.is_none()) {
            return Err(ImageError::MissingCropMethod);
        }
        if target_width > width {
            self.scale(target_width, height, method);
        } else if target_width < width {
            let crop_method = crop_x.unwrap();
            self.crop_width(target_width, crop_method);
        }
        let width = self.width();
        let ghost half = self@;
        assert(half == old(self)@.resized_width(target_width as nat, method, crop_x));
        assert(half.height() == height) by {
            old(self)@.lemma_resized_width(target_width as nat, method, crop_x);
        }

        if target_height > height {
            self.scale(width, target_height, method);
        } else if target_height < height {
            let crop_method = crop_y.unwrap();
            self.crop_height(target_height, crop_method);
        }
        Ok(())
    }
}

impl Picture {
    /// Bringing an image to a width leaves its height.
    pub proof fn lemma_resized_width(
        self,
        width: nat,
        method: ScaleMethod,
        crop_x: Option<CropMethod>,
    )
        requires
            self.wf(),
            width < self.width() ==> crop_x is Some && crop_x->0.is_horizontal(),
            width < self.width() && crop_x->0 is LeftRight ==> width <= self.width(),
        ensures
            self.resized_width(width, method, crop_x).height() == self.height(),
    {
    }
}

} // verus!
