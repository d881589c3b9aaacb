//! Reading back what was written: a file that the library writes of an image
//! is read back as that image.

use crate::codec::rgb8_file;
use crate::grid::Grid;
use crate::image::{PPMFormat, Picture};
use crate::pixel::PixelRGB;
use crate::ppm::{
    decode, decode_ascii, decode_binary, header, low_byte, picture_of, pixel_bytes, pixel_text,
    raw_samples, Header,
};
use crate::text::{
    decimal, is_comment, is_digit, is_space, lemma_decimal, lemma_line_end, lemma_line_end_is,
    lemma_number_of_decimal, lemma_numbers_skip, lemma_numbers_step, lemma_skip_comments,
    lemma_skip_spaces_is, lemma_token_end_is, next_line, numbers, skip_comments,
};
use vstd::prelude::*;

verus! {

/// The header lines as they are written, from the end of the magic on.
pub open spec fn head_lines(width: nat, height: nat, max_intensity: nat) -> Seq<u8> {
    seq![10u8] + decimal(width) + seq![32u8] + decimal(height) + seq![10u8] + decimal(
        max_intensity,
    ) + seq![10u8]
}

/// A written header is read back as it was written, whatever follows it.
pub proof fn lemma_header_read_back(
    width: usize,
    height: usize,
    max_intensity: usize,
    data: Seq<u8>,
    lenient: bool,
)
    ensures
        header(head_lines(width as nat, height as nat, max_intensity as nat) + data, lenient)
            == Some(
            Header {
                width,
                height,
                max_intensity,
                data_start: head_lines(
                    width as nat,
                    height as nat,
                    max_intensity as nat,
                ).len() as int,
            },
        ),
{
    let dw = decimal(width as nat);
    let dh = decimal(height as nat);
    let dm = decimal(max_intensity as nat);
    let head = head_lines(width as nat, height as nat, max_intensity as nat);
    let s = head + data;
    let a1 = 1 + dw.len() as int;
    let b0 = a1 + 1;
    let b1 = b0 + dh.len() as int;
    let l2 = b1 + 1;
    let c1 = l2 + dm.len() as int;
    let start = c1 + 1;
    lemma_decimal(width as nat);
    lemma_decimal(height as nat);
    lemma_decimal(max_intensity as nat);
    assert(head.len() == start);
    assert(s[0] == 10);
    assert(s.subrange(1, a1) =~= dw);
    assert(s[a1] == 32);
    assert(s.subrange(b0, b1) =~= dh);
    assert(s[b1] == 10);
    assert(s.subrange(l2, c1) =~= dm);
    assert(s[c1] == 10);
    lemma_number_of_decimal(s, 1, a1, width);
    lemma_number_of_decimal(s, b0, b1, height);
    lemma_number_of_decimal(s, l2, c1, max_intensity);

    // the magic line ends at once
    lemma_line_end_is(s, 0, 0);
    assert(next_line(s, 0) == 1);

    // the line of width and height
    assert forall|k: int| 1 <= k < b1 implies #[trigger] s[k] != 10 by {
        if k < a1 {
            assert(is_digit(s[k]));
        } else if k > a1 {
            assert(is_digit(s[k]));
        }
    }
    lemma_line_end_is(s, 1, b1);
    lemma_skip_spaces_is(s, 1, 1, b1);
    assert(!is_comment(s, 1, lenient));
    assert(skip_comments(s, 1, lenient) == 1);
    assert forall|k: int| 1 <= k < a1 implies !is_space(#[trigger] s[k]) by {
        assert(is_digit(s[k]));
    }
    lemma_token_end_is(s, 1, a1, b1);
    lemma_skip_spaces_is(s, a1, b0, b1);
    assert forall|k: int| b0 <= k < b1 implies !is_space(#[trigger] s[k]) by {
        assert(is_digit(s[k]));
    }
    lemma_token_end_is(s, b0, b1, b1);
    assert(next_line(s, 1) == l2);

    // the line of the largest sample
    assert forall|k: int| l2 <= k < c1 implies #[trigger] s[k] != 10 by {
        assert(is_digit(s[k]));
    }
    lemma_line_end_is(s, l2, c1);
    lemma_skip_spaces_is(s, l2, l2, c1);
    assert(!is_comment(s, l2, lenient));
    assert(skip_comments(s, l2, lenient) == l2);
    assert forall|k: int| l2 <= k < c1 implies !is_space(#[trigger] s[k]) by {
        assert(is_digit(s[k]));
    }
    lemma_token_end_is(s, l2, c1, c1);
    lemma_skip_spaces_is(s, c1, c1, c1);
    assert(next_line(s, l2) == start);
}

/// The three samples of a pixel.
pub open spec fn pixel_samples(p: PixelRGB) -> Seq<usize> {
    seq![p.r, p.g, p.b]
}

impl Picture {
    /// The samples of the first `cols` pixels of row `r`, three to a pixel.
    pub open spec fn row_samples(self, r: int, cols: int) -> Seq<usize>
        decreases cols,
    {
        if cols <= 0 {
            Seq::empty()
        } else {
            self.row_samples(r, cols - 1) + pixel_samples(self.pixel(r, cols - 1))
        }
    }

    /// The samples of the first `rows` rows, row after row.
    pub open spec fn samples(self, rows: int) -> Seq<usize>
        decreases rows,
    {
        if rows <= 0 {
            Seq::empty()
        } else {
            self.samples(rows - 1) + self.row_samples(rows - 1, self.width() as int)
        }
    }

    /// Whether every sample fits in a byte.
    pub open spec fn byte_sized(self) -> bool {
        forall|r: int, c: int|
            #![trigger self.red.rows[r][c]]
            #![trigger self.green.rows[r][c]]
            #![trigger self.blue.rows[r][c]]
            self.has(r, c) ==> self.red.rows[r][c] <= 255 && self.green.rows[r][c] <= 255
                && self.blue.rows[r][c] <= 255
    }

    pub proof fn lemma_row_sample_at(self, r: int, cols: int, c: int)
        requires
            0 <= c < cols,
        ensures
            self.row_samples(r, cols).len() == 3 * cols,
            self.row_samples(r, cols)[3 * c] == self.red.rows[r][c],
            self.row_samples(r, cols)[3 * c + 1] == self.green.rows[r][c],
            self.row_samples(r, cols)[3 * c + 2] == self.blue.rows[r][c],
        decreases cols,
    {
        let before = self.row_samples(r, cols - 1);
        let last = pixel_samples(self.pixel(r, cols - 1));
        let all = self.row_samples(r, cols);
        assert(all == before + last);
        assert(last.len() == 3);
        if c < cols - 1 {
            self.lemma_row_sample_at(r, cols - 1, c);
            assert(all[3 * c] == before[3 * c]);
            assert(all[3 * c + 1] == before[3 * c + 1]);
            assert(all[3 * c + 2] == before[3 * c + 2]);
        } else {
            if cols > 1 {
                self.lemma_row_sample_at(r, cols - 1, c - 1);
            } else {
                assert(before.len() == 0);
            }
            assert(before.len() == 3 * c);
            assert(all[3 * c] == last[0]);
            assert(all[3 * c + 1] == last[1]);
            assert(all[3 * c + 2] == last[2]);
        }
    }

    pub proof fn lemma_row_samples(self, r: int, cols: int)
        requires
            0 <= cols,
        ensures
            self.row_samples(r, cols).len() == 3 * cols,
            forall|c: int|
                0 <= c < cols ==> {
                    &&& #[trigger] self.row_samples(r, cols)[3 * c] == self.red.rows[r][c]
                    &&& self.row_samples(r, cols)[3 * c + 1] == self.green.rows[r][c]
                    &&& self.row_samples(r, cols)[3 * c + 2] == self.blue.rows[r][c]
                },
    {
        if cols > 0 {
            self.lemma_row_sample_at(r, cols, 0);
        }
        assert forall|c: int| 0 <= c < cols implies {
            &&& #[trigger] self.row_samples(r, cols)[3 * c] == self.red.rows[r][c]
            &&& self.row_samples(r, cols)[3 * c + 1] == self.green.rows[r][c]
            &&& self.row_samples(r, cols)[3 * c + 2] == self.blue.rows[r][c]
        } by {
            self.lemma_row_sample_at(r, cols, c);
        }
    }

    pub proof fn lemma_samples(self, rows: int)
        requires
            0 <= rows,
        ensures
            self.samples(rows).len() == 3 * (rows * self.width()),
            forall|r: int, c: int|
                0 <= r < rows && 0 <= c < self.width() ==> {
                    &&& #[trigger] self.samples(rows)[3 * (r * self.width() + c)]
                        == self.red.rows[r][c]
                    &&& self.samples(rows)[3 * (r * self.width() + c) + 1] == self.green.rows[r][c]
                    &&& self.samples(rows)[3 * (r * self.width() + c) + 2] == self.blue.rows[r][c]
                },
        decreases rows,
    {
        let w = self.width() as int;
        if rows > 0 {
            self.lemma_samples(rows - 1);
            self.lemma_row_samples(rows - 1, w);
            let before = self.samples(rows - 1);
            let row = self.row_samples(rows - 1, w);
            let all = self.samples(rows);
            assert(3 * ((rows - 1) * w) + 3 * w == 3 * (rows * w)) by (nonlinear_arith);
            assert forall|r: int, c: int| 0 <= r < rows && 0 <= c < w implies {
                &&& #[trigger] all[3 * (r * w + c)] == self.red.rows[r][c]
                &&& all[3 * (r * w + c) + 1] == self.green.rows[r][c]
                &&& all[3 * (r * w + c) + 2] == self.blue.rows[r][c]
            } by {
                if r < rows - 1 {
                    assert(r * w + c < (rows - 1) * w) by (nonlinear_arith)
                        requires
                            0 <= r < rows - 1,
                            0 <= c < w,
                    ;
                    assert(0 <= r * w) by (nonlinear_arith)
                        requires
                            0 <= r,
                            0 <= w,
                    ;
                    assert(before[3 * (r * w + c)] == self.red.rows[r][c]);
                } else {
                    assert(row[3 * c] == self.red.rows[r][c]);
                    assert(3 * (r * w + c) == before.len() + 3 * c) by (nonlinear_arith)
                        requires
                            before.len() == 3 * ((rows - 1) * w),
                            r == rows - 1,
                    ;
                }
            }
        } else {
            assert(rows * w == 0) by (nonlinear_arith)
                requires
                    rows == 0,
            ;
        }
    }

    /// An image is the image that its header and its samples describe.
    pub proof fn lemma_picture_of_samples(self, h: Header, format: PPMFormat)
        requires
            self.wf(),
            h.width == self.width(),
            h.height == self.height(),
            h.max_intensity == self.max_intensity,
        ensures
            picture_of(h, format, self.samples(self.height() as int)) == (Picture {
                format,
                ..self
            }),
    {
        let w = self.width() as int;
        let rows = self.height() as int;
        let values = self.samples(rows);
        let made = picture_of(h, format, values);
        self.lemma_samples(rows);
        assert forall|r: int, c: int| 0 <= r < rows && 0 <= c < w implies 0 <= #[trigger] (r * w
            + c) < w * rows by {
            assert(0 <= r * w && r * w + w <= w * rows) by (nonlinear_arith)
                requires
                    0 <= r < rows,
                    0 <= w,
            ;
        }
        assert forall|r: int, c: int| made.red.has(r, c) implies made.red.rows[r][c]
            == self.red.rows[r][c] by {
            assert(0 <= r * w + c < w * rows);
            assert(values[3 * (r * w + c)] == self.red.rows[r][c]);
        }
        assert forall|r: int, c: int| made.green.has(r, c) implies made.green.rows[r][c]
            == self.green.rows[r][c] by {
            assert(0 <= r * w + c < w * rows);
            assert(values[3 * (r * w + c)] == self.red.rows[r][c]);
        }
        assert forall|r: int, c: int| made.blue.has(r, c) implies made.blue.rows[r][c]
            == self.blue.rows[r][c] by {
            assert(0 <= r * w + c < w * rows);
            assert(values[3 * (r * w + c)] == self.red.rows[r][c]);
        }
        made.red.lemma_equal_by_cells(self.red);
        made.green.lemma_equal_by_cells(self.green);
        made.blue.lemma_equal_by_cells(self.blue);
    }
}

/// Where `s` holds the text of a pixel from `i` on, before white space or
/// the end, its three samples are the first of the numbers from `i` on.
pub proof fn lemma_pixel_read_back(s: Seq<u8>, i: int, p: PixelRGB)
    requires
        0 <= i,
        i + pixel_text(p).len() <= s.len(),
        s.subrange(i, i + pixel_text(p).len()) == pixel_text(p),
        i + pixel_text(p).len() == s.len() || is_space(s[i + pixel_text(p).len()]),
    ensures
        numbers(s, i) == (match numbers(s, i + pixel_text(p).len()) {
            Some(rest) => Some(pixel_samples(p) + rest),
            None => None,
        }),
{
    let dr = decimal(p.r as nat);
    let dg = decimal(p.g as nat);
    let db = decimal(p.b as nat);
    let text = pixel_text(p);
    let i1: int = i + dr.len();
    let i2 = i1 + 1;
    let i3 = i2 + dg.len();
    let i4 = i3 + 1;
    let i5 = i4 + db.len();
    assert(text.len() == i5 - i);
    assert forall|k: int| 0 <= k < text.len() implies s[i + k] == #[trigger] text[k] by {
        assert(s.subrange(i, i + text.len())[k] == s[i + k]);
    }
    assert(s.subrange(i, i1) =~= dr) by {
        assert forall|k: int| 0 <= k < dr.len() implies s.subrange(i, i1)[k] == dr[k] by {
            assert(text[k] == dr[k]);
        }
    }
    assert(s[i1] == 32) by {
        assert(text[i1 - i] == 32);
    }
    assert(s.subrange(i2, i3) =~= dg) by {
        assert forall|k: int| 0 <= k < dg.len() implies s.subrange(i2, i3)[k] == dg[k] by {
            assert(text[i2 - i + k] == dg[k]);
        }
    }
    assert(s[i3] == 32) by {
        assert(text[i3 - i] == 32);
    }
    assert(s.subrange(i4, i5) =~= db) by {
        assert forall|k: int| 0 <= k < db.len() implies s.subrange(i4, i5)[k] == db[k] by {
            assert(text[i4 - i + k] == db[k]);
        }
    }
    lemma_numbers_step(s, i, i1, p.r);
    lemma_numbers_skip(s, i1, i2);
    lemma_numbers_step(s, i2, i3, p.g);
    lemma_numbers_skip(s, i3, i4);
    lemma_numbers_step(s, i4, i5, p.b);
    match numbers(s, i5) {
        Some(rest) => {
            assert(seq![p.r] + (seq![p.g] + (seq![p.b] + rest)) =~= pixel_samples(p) + rest);
        },
        None => {},
    }
}

impl Picture {
    /// Where the text of the first pixels of a row stands between `pre` and
    /// `suf`, and `suf` is empty or begins with white space, their samples
    /// are the first of the numbers from the end of `pre` on.
    pub proof fn lemma_row_read_back(self, r: int, cols: int, pre: Seq<u8>, suf: Seq<u8>)
        requires
            1 <= cols,
            suf.len() == 0 || is_space(suf[0]),
        ensures
            numbers(pre + self.row_text(r, cols) + suf, pre.len() as int) == (match numbers(
                pre + self.row_text(r, cols) + suf,
                (pre.len() + self.row_text(r, cols).len()) as int,
            ) {
                Some(rest) => Some(self.row_samples(r, cols) + rest),
                None => None,
            }),
        decreases cols,
    {
        let text = self.row_text(r, cols);
        let s = pre + text + suf;
        let last = self.pixel(r, cols - 1);
        let word = pixel_text(last);
        let end: int = (pre.len() + text.len()) as int;
        if cols == 1 {
            assert(s.subrange(pre.len() as int, end) =~= word);
            if suf.len() > 0 {
                assert(s[end] == suf[0]);
            }
            lemma_pixel_read_back(s, pre.len() as int, last);
            assert(self.row_samples(r, 1) =~= pixel_samples(last)) by {
                assert(self.row_samples(r, 0) =~= Seq::<usize>::empty());
            }
        } else {
            let before = self.row_text(r, cols - 1);
            let more = seq![32u8] + word + suf;
            assert(s =~= pre + before + more);
            self.lemma_row_read_back(r, cols - 1, pre, more);
            let q: int = (pre.len() + before.len()) as int;
            assert(s[q] == 32);
            lemma_numbers_skip(s, q, q + 1);
            assert(s.subrange(q + 1, end) =~= word);
            if suf.len() > 0 {
                assert(s[end] == suf[0]);
            }
            lemma_pixel_read_back(s, q + 1, last);
            match numbers(s, end) {
                Some(rest) => {
                    assert(self.row_samples(r, cols - 1) + (pixel_samples(last) + rest)
                        =~= self.row_samples(r, cols) + rest);
                },
                None => {},
            }
        }
    }

    /// Where the text of the first rows stands between `pre` and `suf`, their
    /// samples are the first of the numbers from the end of `pre` on.
    pub proof fn lemma_rows_read_back(self, rows: int, pre: Seq<u8>, suf: Seq<u8>)
        requires
            0 <= rows,
        ensures
            numbers(pre + self.rows_text(rows) + suf, pre.len() as int) == (match numbers(
                pre + self.rows_text(rows) + suf,
                (pre.len() + self.rows_text(rows).len()) as int,
            ) {
                Some(rest) => Some(self.samples(rows) + rest),
                None => None,
            }),
        decreases rows,
    {
        let text = self.rows_text(rows);
        let s = pre + text + suf;
        let end: int = (pre.len() + text.len()) as int;
        if rows == 0 {
            match numbers(s, end) {
                Some(rest) => {
                    assert(self.samples(0) + rest =~= rest);
                },
                None => {},
            }
        } else {
            let w = self.width() as int;
            let before = self.rows_text(rows - 1);
            let line = self.row_text(rows - 1, w);
            let more = line + seq![10u8] + suf;
            assert(s =~= pre + before + more);
            self.lemma_rows_read_back(rows - 1, pre, more);
            let q: int = (pre.len() + before.len()) as int;
            let q2: int = q + line.len();
            assert(s[q2] == 10);
            assert(end == q2 + 1);
            lemma_numbers_skip(s, q2, q2 + 1);
            if w >= 1 {
                assert(s =~= (pre + before) + line + (seq![10u8] + suf));
                self.lemma_row_read_back(rows - 1, w, pre + before, seq![10u8] + suf);
            } else {
                assert(line.len() == 0);
                assert(self.row_samples(rows - 1, w) =~= Seq::<usize>::empty());
            }
            match numbers(s, end) {
                Some(rest) => {
                    assert(self.samples(rows - 1) + (self.row_samples(rows - 1, w) + rest)
                        =~= self.samples(rows) + rest);
                    if w < 1 {
                        assert(self.row_samples(rows - 1, w) + rest =~= rest);
                    }
                },
                None => {},
            }
        }
    }

    /// The bytes of the first pixels of a row are their samples, each cut
    /// down to a byte.
    pub proof fn lemma_row_bytes(self, r: int, cols: int)
        requires
            0 <= cols,
        ensures
            self.row_bytes(r, cols) == self.row_samples(r, cols).map_values(
                |v: usize| low_byte(v),
            ),
        decreases cols,
    {
        if cols > 0 {
            self.lemma_row_bytes(r, cols - 1);
            assert(pixel_bytes(self.pixel(r, cols - 1)) =~= pixel_samples(
                self.pixel(r, cols - 1),
            ).map_values(|v: usize| low_byte(v)));
        }
        assert(self.row_bytes(r, cols) =~= self.row_samples(r, cols).map_values(
            |v: usize| low_byte(v),
        ));
    }

    /// The bytes of the first rows are their samples, each cut down to a
    /// byte.
    pub proof fn lemma_rows_bytes(self, rows: int)
        requires
            0 <= rows,
        ensures
            self.rows_bytes(rows) == self.samples(rows).map_values(|v: usize| low_byte(v)),
        decreases rows,
    {
        if rows > 0 {
            self.lemma_rows_bytes(rows - 1);
            self.lemma_row_bytes(rows - 1, self.width() as int);
        }
        assert(self.rows_bytes(rows) =~= self.samples(rows).map_values(|v: usize| low_byte(v)));
    }

    /// The samples of an image whose samples fit in a byte fit in a byte.
    pub proof fn lemma_samples_byte_sized(self, rows: int)
        requires
            self.wf(),
            self.byte_sized(),
            0 <= rows <= self.height(),
        ensures
            forall|k: int|
                0 <= k < self.samples(rows).len() ==> #[trigger] self.samples(rows)[k] <= 255,
        decreases rows,
    {
        if rows > 0 {
            let before = self.samples(rows - 1);
            let row = self.row_samples(rows - 1, self.width() as int);
            let all = self.samples(rows);
            self.lemma_samples_byte_sized(rows - 1);
            self.lemma_row_samples_byte_sized(rows - 1, self.width() as int);
            assert(all == before + row);
            assert forall|k: int| 0 <= k < all.len() implies #[trigger] all[k] <= 255 by {
                if k < before.len() {
                    assert(all[k] == before[k]);
                } else {
                    assert(all[k] == row[k - before.len()]);
                }
            }
        }
    }

    pub proof fn lemma_row_samples_byte_sized(self, r: int, cols: int)
        requires
            self.wf(),
            self.byte_sized(),
            0 <= r < self.height(),
            0 <= cols <= self.width(),
        ensures
            forall|k: int|
                0 <= k < self.row_samples(r, cols).len() ==> #[trigger] self.row_samples(
                    r,
                    cols,
                )[k] <= 255,
        decreases cols,
    {
        if cols > 0 {
            let before = self.row_samples(r, cols - 1);
            let last = pixel_samples(self.pixel(r, cols - 1));
            let all = self.row_samples(r, cols);
            self.lemma_row_samples_byte_sized(r, cols - 1);
            assert(self.has(r, cols - 1));
            assert(self.green.has(r, cols - 1));
            assert(self.blue.has(r, cols - 1));
            assert(self.red.rows[r][cols - 1] <= 255);
            assert(self.green.rows[r][cols - 1] <= 255);
            assert(self.blue.rows[r][cols - 1] <= 255);
            assert(all == before + last);
            assert forall|k: int| 0 <= k < all.len() implies #[trigger] all[k] <= 255 by {
                if k < before.len() {
                    assert(all[k] == before[k]);
                } else {
                    let j = k - before.len();
                    assert(all[k] == last[j]);
                    assert(j == 0 || j == 1 || j == 2);
                }
            }
        }
    }

    /// The bytes written of an image whose samples fit in a byte are, as
    /// samples, the samples of the image.
    pub proof fn lemma_raw_samples(self, head: Seq<u8>)
        requires
            self.wf(),
            self.byte_sized(),
        ensures
            raw_samples(head + self.rows_bytes(self.height() as int), head.len() as int)
                == self.samples(self.height() as int),
    {
        let rows = self.height() as int;
        let data = self.rows_bytes(rows);
        let body = head + data;
        let values = self.samples(rows);
        self.lemma_rows_bytes(rows);
        self.lemma_samples_byte_sized(rows);
        assert(body.subrange(head.len() as int, body.len() as int) =~= data);
        let raw = raw_samples(body, head.len() as int);
        assert(raw.len() == values.len());
        assert forall|k: int| 0 <= k < raw.len() implies raw[k] == values[k] by {
            assert(values[k] <= 255);
            assert(data[k] == low_byte(values[k]));
        }
        assert(raw =~= values);
    }

    /// A text file written of an image is read back as that image.
    pub proof fn lemma_ascii_round_trip(self)
        requires
            self.wf(),
            self.width() <= usize::MAX,
            self.height() <= usize::MAX,
            self.max_intensity <= usize::MAX,
        ensures
            decode(self.ascii_file()) == Some(Picture { format: PPMFormat::P3, ..self }),
    {
        let file = self.ascii_file();
        let head = head_lines(self.width(), self.height(), self.max_intensity);
        let rows = self.height() as int;
        let text = self.rows_text(rows);
        let body = head + text;
        assert(file =~= seq![80u8, 51u8] + body);
        assert(file.subrange(2, file.len() as int) =~= body);
        lemma_header_read_back(
            self.width() as usize,
            self.height() as usize,
            self.max_intensity as usize,
            text,
            false,
        );
        let h = header(body, false)->0;
        let none = Seq::<u8>::empty();
        assert(body =~= head + text + none);
        self.lemma_rows_read_back(rows, head, none);
        assert(numbers(body, body.len() as int) == Some(Seq::<usize>::empty()));
        assert(self.samples(rows) + Seq::<usize>::empty() =~= self.samples(rows));
        self.lemma_samples(rows);
        assert(3 * (rows * self.width()) == h.width * h.height * 3) by (nonlinear_arith)
            requires
                h.width == self.width(),
                h.height == rows,
        ;
        self.lemma_picture_of_samples(h, PPMFormat::P3);
    }

    /// A binary file written of an image whose samples fit in a byte is read
    /// back as that image.
    #[verifier::rlimit(30)]
    pub proof fn lemma_binary_round_trip(self)
        requires
            self.wf(),
            self.byte_sized(),
            self.width() <= usize::MAX,
            self.height() <= usize::MAX,
            self.max_intensity <= usize::MAX,
        ensures
            decode(self.binary_file()) == Some(Picture { format: PPMFormat::P6, ..self }),
    {
        let file = self.binary_file();
        let head = head_lines(self.width(), self.height(), self.max_intensity);
        let rows = self.height() as int;
        let data = self.rows_bytes(rows);
        let body = head + data;
        assert(file =~= seq![80u8, 54u8] + body);
        assert(file.subrange(2, file.len() as int) =~= body);
        lemma_header_read_back(
            self.width() as usize,
            self.height() as usize,
            self.max_intensity as usize,
            data,
            true,
        );
        let h = header(body, true)->0;
        self.lemma_samples(rows);
        self.lemma_rows_bytes(rows);
        assert(data.len() == 3 * (rows * self.width()));
        assert(3 * (rows * self.width()) == h.width * h.height * 3) by (nonlinear_arith)
            requires
                h.width == self.width(),
                h.height == rows,
        ;
        self.lemma_raw_samples(head);
        self.lemma_picture_of_samples(h, PPMFormat::P6);
    }
}

/// The channel with every sample cut down to a byte.
pub open spec fn cut_to_bytes(g: Grid<usize>) -> Grid<usize> {
    Grid::build(g.width, g.height(), |r: int, c: int| (g.rows[r][c] % 256) as usize)
}

impl Picture {
    /// The image with every sample cut down to a byte, as a binary file
    /// holds it.
    pub open spec fn as_bytes(self) -> Picture {
        Picture {
            max_intensity: self.max_intensity,
            format: PPMFormat::P6,
            red: cut_to_bytes(self.red),
            green: cut_to_bytes(self.green),
            blue: cut_to_bytes(self.blue),
        }
    }

    /// The image that a header and the samples of an image, each cut down to
    /// a byte, describe is that image with every sample cut down.
    pub proof fn lemma_picture_of_bytes(self, h: Header, raw: Seq<usize>)
        requires
            self.wf(),
            h.width == self.width(),
            h.height == self.height(),
            h.max_intensity == self.max_intensity,
            raw.len() == self.samples(self.height() as int).len(),
            forall|k: int|
                0 <= k < raw.len() ==> #[trigger] raw[k] == self.samples(self.height() as int)[k]
                    % 256,
        ensures
            picture_of(h, PPMFormat::P6, raw) == self.as_bytes(),
            self.as_bytes().wf(),
            self.as_bytes().byte_sized(),
    {
        let rows = self.height() as int;
        let w = self.width() as int;
        let values = self.samples(rows);
        self.lemma_samples(rows);
        assert(w * rows == rows * w) by (nonlinear_arith);
        assert(raw.len() == 3 * (w * rows));
        let made = picture_of(h, PPMFormat::P6, raw);
        let goal = self.as_bytes();
        assert forall|r: int, c: int| made.red.has(r, c) implies made.red.rows[r][c]
            == goal.red.rows[r][c] by {
            lemma_cell_index(r, c, w, rows);
            let k = r * w + c;
            assert(values[3 * k] == self.red.rows[r][c]);
            assert(0 <= 3 * k < raw.len());
            assert(raw[3 * k] == values[3 * k] % 256);
        }
        assert forall|r: int, c: int| made.green.has(r, c) implies made.green.rows[r][c]
            == goal.green.rows[r][c] by {
            lemma_cell_index(r, c, w, rows);
            let k = r * w + c;
            assert(values[3 * k] == self.red.rows[r][c]);
            assert(0 <= 3 * k + 1 < raw.len());
            assert(raw[3 * k + 1] == values[3 * k + 1] % 256);
        }
        assert forall|r: int, c: int| made.blue.has(r, c) implies made.blue.rows[r][c]
            == goal.blue.rows[r][c] by {
            lemma_cell_index(r, c, w, rows);
            let k = r * w + c;
            assert(values[3 * k] == self.red.rows[r][c]);
            assert(0 <= 3 * k + 2 < raw.len());
            assert(raw[3 * k + 2] == values[3 * k + 2] % 256);
        }
        made.red.lemma_equal_by_cells(goal.red);
        made.green.lemma_equal_by_cells(goal.green);
        made.blue.lemma_equal_by_cells(goal.blue);
    }

    /// A binary file written of an image is read back as that image with
    /// every sample cut down to a byte.
    #[verifier::rlimit(30)]
    pub proof fn lemma_binary_read_back(self)
        requires
            self.wf(),
            self.width() <= usize::MAX,
            self.height() <= usize::MAX,
            self.max_intensity <= usize::MAX,
        ensures
            decode(self.binary_file()) == Some(self.as_bytes()),
            self.as_bytes().wf(),
            self.as_bytes().byte_sized(),
    {
        let file = self.binary_file();
        let head = head_lines(self.width(), self.height(), self.max_intensity);
        let rows = self.height() as int;
        let w = self.width() as int;
        let data = self.rows_bytes(rows);
        let body = head + data;
        assert(file =~= seq![80u8, 54u8] + body);
        assert(file.subrange(2, file.len() as int) =~= body);
        lemma_header_read_back(
            self.width() as usize,
            self.height() as usize,
            self.max_intensity as usize,
            data,
            true,
        );
        let h = header(body, true)->0;
        self.lemma_samples(rows);
        self.lemma_rows_bytes(rows);
        let values = self.samples(rows);
        assert(data.len() == 3 * (rows * w));
        assert(3 * (rows * w) == h.width * h.height * 3) by (nonlinear_arith)
            requires
                h.width == w,
                h.height == rows,
        ;
        assert(body.subrange(h.data_start, body.len() as int) =~= data);
        let raw = raw_samples(body, h.data_start);
        assert forall|k: int| 0 <= k < raw.len() implies #[trigger] raw[k] == values[k] % 256 by {
            assert(data[k] == low_byte(values[k]));
        }
        self.lemma_picture_of_bytes(h, raw);
    }
}

/// A cell index of a grid lies within its cells.
pub proof fn lemma_cell_index(r: int, c: int, w: int, h: int)
    requires
        0 <= r < h,
        0 <= c < w,
    ensures
        0 <= r * w,
        0 <= r * w + c < w * h,
        r * w + w <= w * h,
{
    assert(0 <= r * w && r * w + w <= w * h) by (nonlinear_arith)
        requires
            0 <= r < h,
            0 <= w,
    ;
}

/// The image that a header and samples describe is well formed and has the
/// size that the header gives.
pub proof fn lemma_picture_of(h: Header, format: PPMFormat, values: Seq<usize>)
    ensures
        picture_of(h, format, values).wf(),
        picture_of(h, format, values).width() == h.width,
        picture_of(h, format, values).height() == h.height,
        picture_of(h, format, values).max_intensity == h.max_intensity,
        picture_of(h, format, values).format == format,
{
}

/// The samples of the first pixels of a row of the image that a header and
/// samples describe are those samples.
pub proof fn lemma_row_samples_of(
    h: Header,
    format: PPMFormat,
    values: Seq<usize>,
    r: int,
    cols: int,
)
    requires
        values.len() == h.width * h.height * 3,
        0 <= r < h.height,
        0 <= cols <= h.width,
    ensures
        0 <= 3 * (r * h.width) <= 3 * (r * h.width) + 3 * cols <= values.len(),
        picture_of(h, format, values).row_samples(r, cols) == values.subrange(
            3 * (r * h.width),
            3 * (r * h.width) + 3 * cols,
        ),
    decreases cols,
{
    let w = h.width as int;
    let rows = h.height as int;
    let p = picture_of(h, format, values);
    let a = 3 * (r * w);
    lemma_cell_index(r, 0, w + 1, rows);
    assert(0 <= r * w && r * w + w <= w * rows) by (nonlinear_arith)
        requires
            0 <= r < rows,
            0 <= w,
    ;
    assert(values.len() == 3 * (w * rows)) by (nonlinear_arith)
        requires
            values.len() == w * rows * 3,
    ;
    if cols > 0 {
        let c = cols - 1;
        lemma_row_samples_of(h, format, values, r, c);
        lemma_cell_index(r, c, w, rows);
        let k = r * w + c;
        assert(p.red.rows[r][c] == values[3 * k]);
        assert(p.green.rows[r][c] == values[3 * k + 1]);
        assert(p.blue.rows[r][c] == values[3 * k + 2]);
        assert(3 * k == a + 3 * c);
        assert(p.row_samples(r, cols) =~= values.subrange(a, a + 3 * cols));
    } else {
        assert(p.row_samples(r, cols) =~= values.subrange(a, a + 3 * cols));
    }
}

/// The samples of the first rows of the image that a header and samples
/// describe are those samples.
pub proof fn lemma_samples_of(h: Header, format: PPMFormat, values: Seq<usize>, rows: int)
    requires
        values.len() == h.width * h.height * 3,
        0 <= rows <= h.height,
    ensures
        0 <= 3 * (rows * h.width) <= values.len(),
        picture_of(h, format, values).samples(rows) == values.take(3 * (rows * h.width)),
    decreases rows,
{
    let w = h.width as int;
    let p = picture_of(h, format, values);
    assert(0 <= rows * w <= h.height * w) by (nonlinear_arith)
        requires
            0 <= rows <= h.height,
            0 <= w,
    ;
    assert(values.len() == 3 * (h.height * w)) by (nonlinear_arith)
        requires
            values.len() == w * h.height * 3,
    ;
    if rows > 0 {
        lemma_samples_of(h, format, values, rows - 1);
        lemma_row_samples_of(h, format, values, rows - 1, w);
        assert(3 * ((rows - 1) * w) + 3 * w == 3 * (rows * w)) by (nonlinear_arith);
        assert(p.samples(rows) =~= values.take(3 * (rows * w)));
    } else {
        assert(rows * w == 0) by (nonlinear_arith)
            requires
                rows == 0,
        ;
        assert(p.samples(rows) =~= values.take(3 * (rows * w)));
    }
}

/// Where a header is found the samples begin inside the bytes or at their
/// end.
pub proof fn lemma_header_bounds(s: Seq<u8>, lenient: bool)
    requires
        header(s, lenient) is Some,
    ensures
        0 <= header(s, lenient)->0.data_start <= s.len(),
{
    lemma_line_end(s, 0);
    let l1 = skip_comments(s, next_line(s, 0), lenient);
    lemma_skip_comments(s, next_line(s, 0), lenient);
    lemma_line_end(s, l1);
    let l2 = skip_comments(s, next_line(s, l1), lenient);
    lemma_skip_comments(s, next_line(s, l1), lenient);
    lemma_line_end(s, l2);
}

/// A text file that is read as an image is, written of that image, read as
/// the same image.
pub proof fn lemma_round_trip_ascii(body: Seq<u8>)
    requires
        decode_ascii(body) is Some,
    ensures
        decode_ascii(body)->0.wf(),
        decode_ascii(body)->0.format == PPMFormat::P3,
        decode(decode_ascii(body)->0.ascii_file()) == decode_ascii(body),
{
    let p = decode_ascii(body)->0;
    let h = header(body, false)->0;
    let values = numbers(body, h.data_start)->0;
    lemma_picture_of(h, PPMFormat::P3, values);
    p.lemma_ascii_round_trip();
}

/// The image that a header and bytes describe has samples that fit in a
/// byte, and its samples are written as those bytes.
pub proof fn lemma_binary_read(h: Header, data: Seq<u8>)
    requires
        data.len() == h.width * h.height * 3,
    ensures
        picture_of(h, PPMFormat::P6, data.map_values(|b: u8| b as usize)).byte_sized(),
        picture_of(h, PPMFormat::P6, data.map_values(|b: u8| b as usize)).rows_bytes(
            h.height as int,
        ) == data,
{
    let values = data.map_values(|b: u8| b as usize);
    let p = picture_of(h, PPMFormat::P6, values);
    let w = h.width as int;
    let rows = h.height as int;
    assert(values.len() == 3 * (rows * w)) by (nonlinear_arith)
        requires
            values.len() == w * rows * 3,
    ;
    assert forall|r: int, c: int| p.has(r, c) implies p.red.rows[r][c] <= 255
        && p.green.rows[r][c] <= 255 && p.blue.rows[r][c] <= 255 by {
        lemma_cell_index(r, c, w, rows);
        let k = r * w + c;
        assert(p.red.rows[r][c] == values[3 * k]);
        assert(p.green.rows[r][c] == values[3 * k + 1]);
        assert(p.blue.rows[r][c] == values[3 * k + 2]);
    }
    lemma_samples_of(h, PPMFormat::P6, values, rows);
    p.lemma_rows_bytes(rows);
    assert(values.take(3 * (rows * w)) =~= values);
    assert(p.rows_bytes(rows) =~= data) by {
        assert forall|k: int| 0 <= k < data.len() implies p.rows_bytes(rows)[k] == data[k] by {
            assert(values[k] == data[k] as usize);
        }
    }
}

/// A binary file that is read as an image is, written of that image, read
/// as the same image, and the bytes of the samples are written as they were
/// read.
#[verifier::rlimit(30)]
pub proof fn lemma_round_trip_binary(body: Seq<u8>)
    requires
        decode_binary(body) is Some,
    ensures
        decode_binary(body)->0.wf(),
        decode_binary(body)->0.format == PPMFormat::P6,
        decode(decode_binary(body)->0.binary_file()) == decode_binary(body),
        ({
            let p = decode_binary(body)->0;
            let n = 3 * (p.height() * p.width());
            n <= body.len() && p.rows_bytes(p.height() as int) == body.subrange(
                body.len() - n,
                body.len() as int,
            )
        }),
{
    let p = decode_binary(body)->0;
    let h = header(body, true)->0;
    lemma_header_bounds(body, true);
    let data = body.subrange(h.data_start, body.len() as int);
    let values = data.map_values(|b: u8| b as usize);
    assert(values == raw_samples(body, h.data_start));
    assert(p == picture_of(h, PPMFormat::P6, values));
    lemma_picture_of(h, PPMFormat::P6, values);
    lemma_binary_read(h, data);
    p.lemma_binary_round_trip();
    assert(3 * (p.height() * p.width()) == h.width * h.height * 3) by (nonlinear_arith)
        requires
            p.height() == h.height,
            p.width() == h.width,
    ;
}

/// A file that is read as an image is read as a well-formed image whose
/// width, height and largest sample are numbers that a `usize` holds.
pub proof fn lemma_decoded(bytes: Seq<u8>)
    requires
        decode(bytes) is Some,
    ensures
        decode(bytes)->0.wf(),
        decode(bytes)->0.width() <= usize::MAX,
        decode(bytes)->0.height() <= usize::MAX,
        decode(bytes)->0.max_intensity <= usize::MAX,
{
    let body = bytes.subrange(2, bytes.len() as int);
    if bytes[1] == 51 {
        let h = header(body, false)->0;
        lemma_picture_of(h, PPMFormat::P3, numbers(body, h.data_start)->0);
    } else {
        let h = header(body, true)->0;
        lemma_picture_of(h, PPMFormat::P6, raw_samples(body, h.data_start));
    }
}

/// Whatever file is read as an image, the file written of that image is
/// read as the same image: the size, the largest sample and every sample of
/// every pixel are kept. Of a binary file the bytes of the samples are
/// written back as they were read.
#[verifier::rlimit(30)]
pub proof fn lemma_round_trip(bytes: Seq<u8>)
    requires
        decode(bytes) is Some,
    ensures
        ({
            let p = decode(bytes)->0;
            let n = 3 * (p.height() * p.width());
            &&& p.wf()
            &&& decode(p.file(p.format)) == Some(p)
            &&& p.format == PPMFormat::P6 ==> n <= bytes.len() && p.rows_bytes(p.height() as int)
                == bytes.subrange(bytes.len() - n, bytes.len() as int)
        }),
{
    let body = bytes.subrange(2, bytes.len() as int);
    if bytes[1] == 51 {
        assert(decode(bytes) == decode_ascii(body));
        lemma_round_trip_ascii(body);
        let p = decode_ascii(body)->0;
        assert(p.file(p.format) == p.ascii_file());
    } else {
        assert(decode(bytes) == decode_binary(body));
        lemma_round_trip_binary(body);
        let p = decode_binary(body)->0;
        assert(p.file(p.format) == p.binary_file());
        let n = 3 * (p.height() * p.width());
        assert(body.len() == bytes.len() - 2);
        assert(body.subrange(body.len() - n, body.len() as int) =~= bytes.subrange(
            bytes.len() - n,
            bytes.len() as int,
        ));
    }
}

/// The binary file written of 8-bit RGB samples is read as the image of the
/// given size whose samples they are, with 255 as the largest sample.
pub proof fn lemma_rgb8_read_back(width: u32, height: u32, samples: Seq<u8>)
    requires
        samples.len() >= width * height * 3,
    ensures
        decode(rgb8_file(width, height, samples)) == Some(
            picture_of(
                Header {
                    width: width as usize,
                    height: height as usize,
                    max_intensity: 255,
                    data_start: 0,
                },
                PPMFormat::P6,
                samples.take(width * height * 3).map_values(|b: u8| b as usize),
            ),
        ),
{
    let file = rgb8_file(width, height, samples);
    let data = samples.take(width * height * 3);
    let head = head_lines(width as nat, height as nat, 255);
    let body = head + data;
    assert(file =~= seq![80u8, 54u8] + body);
    assert(file.subrange(2, file.len() as int) =~= body);
    lemma_header_read_back(width as usize, height as usize, 255, data, true);
    let h = header(body, true)->0;
    assert(body.subrange(h.data_start, body.len() as int) =~= data);
}

} // verus!
