//! Other file formats: which format a file name asks for, and the handing
//! over of encoded data to the general-purpose codec.

use crate::error::ImageError;
use crate::image::{Image, PPMFormat, Picture};
use crate::ppm::{decode, picture_of, Header};
use crate::round_trip::{
    lemma_binary_read, lemma_decoded, lemma_picture_of, lemma_rgb8_read_back,
};
use crate::text::{decimal, push_decimal};
use vstd::prelude::*;
use vstd::string::is_ascii_spec_bytes;
use vstd::utf8::is_ascii_chars;

verus! {

/// The file formats that a file name can ask for.
#[derive(Clone, Copy, Debug, PartialEq, Eq, Structural)]
pub enum ImageKind {
    Png,
    Jpeg,
    Gif,
    WebP,
    Pnm,
    Tiff,
    Tga,
    Dds,
    Bmp,
    Ico,
    Hdr,
    OpenExr,
    Farbfeld,
    Avif,
    Qoi,
    Pcx,
}

/// An ASCII capital as its small letter; every other character as itself.
pub open spec fn lowered(c: char) -> char {
    if 'A' <= c && c <= 'Z' {
        ((c as int) + 32) as char
    } else {
        c
    }
}

/// Whether `ext` is `name` but for the case of its ASCII letters.
pub open spec fn spells(ext: Seq<char>, name: Seq<char>) -> bool {
    &&& ext.len() == name.len()
    &&& forall|i: int| 0 <= i < ext.len() ==> lowered(#[trigger] ext[i]) == name[i]
}

/// The format that a file extension stands for.
pub open spec fn kind_of(ext: Seq<char>) -> Option<ImageKind> {
    if spells(ext, "png"@) {
        Some(ImageKind::Png)
    } else if spells(ext, "jpg"@) || spells(ext, "jpeg"@) {
        Some(ImageKind::Jpeg)
    } else if spells(ext, "gif"@) {
        Some(ImageKind::Gif)
    } else if spells(ext, "webp"@) {
        Some(ImageKind::WebP)
    } else if spells(ext, "pnm"@) {
        Some(ImageKind::Pnm)
    } else if spells(ext, "tiff"@) || spells(ext, "tif"@) {
        Some(ImageKind::Tiff)
    } else if spells(ext, "tga"@) {
        Some(ImageKind::Tga)
    } else if spells(ext, "dds"@) {
        Some(ImageKind::Dds)
    } else if spells(ext, "bmp"@) {
        Some(ImageKind::Bmp)
    } else if spells(ext, "ico"@) {
        Some(ImageKind::Ico)
    } else if spells(ext, "hdr"@) {
        Some(ImageKind::Hdr)
    } else if spells(ext, "exr"@) {
        Some(ImageKind::OpenExr)
    } else if spells(ext, "ff"@) || spells(ext, "farbfeld"@) {
        Some(ImageKind::Farbfeld)
    } else if spells(ext, "avif"@) {
        Some(ImageKind::Avif)
    } else if spells(ext, "qoi"@) {
        Some(ImageKind::Qoi)
    } else if spells(ext, "pcx"@) {
        Some(ImageKind::Pcx)
    } else {
        None
    }
}

/// Whether the ASCII text `ext` is `name` but for the case of its letters.
fn is_name(ext: &str, name: &str) -> (yes: bool)
    requires
        ext.is_ascii(),
        name.is_ascii(),
    ensures
        yes == spells(ext@, name@),
{
    broadcast use is_ascii_spec_bytes;

    let e = ext.as_bytes();
    let n = name.as_bytes();
    if e.len() != n.len() {
        return false;
    }
    let mut i: usize = 0;
    while i < e.len()
        invariant
            i <= e@.len() == n@.len(),
            e@.len() == ext@.len(),
            n@.len() == name@.len(),
            is_ascii_chars(ext@),
            is_ascii_chars(name@),
            forall|k: int| 0 <= k < e@.len() ==> #[trigger] e@[k] == ext@[k] as u8,
            forall|k: int| 0 <= k < n@.len() ==> #[trigger] n@[k] == name@[k] as u8,
            forall|k: int| 0 <= k < i ==> lowered(#[trigger] ext@[k]) == name@[k],
        decreases e@.len() - i,
    {
        let b = e[i];
        let low: u8 = if b >= 65 && b <= 90 {
            b + 32
        } else {
            b
        };
        if low != n[i] {
            assert(lowered(ext@[i as int]) != name@[i as int]);
            return false;
        }
        i += 1;
    }
    true
}

/// The format that a file extension stands for, whatever the case of its
/// letters; nothing where it stands for none.
pub fn kind_of_extension(ext: &str) -> (kind: Option<ImageKind>)
    ensures
        kind == kind_of(ext@),
{
    proof {
        reveal_strlit("png");
        reveal_strlit("jpg");
        reveal_strlit("jpeg");
        reveal_strlit("gif");
        reveal_strlit("webp");
        reveal_strlit("pnm");
        reveal_strlit("tiff");
        reveal_strlit("tif");
        reveal_strlit("tga");
        reveal_strlit("dds");
        reveal_strlit("bmp");
        reveal_strlit("ico");
        reveal_strlit("hdr");
        reveal_strlit("exr");
        reveal_strlit("ff");
        reveal_strlit("farbfeld");
        reveal_strlit("avif");
        reveal_strlit("qoi");
        reveal_strlit("pcx");
    }
    if !ext.is_ascii() {
        proof {
            let i = choose|i: int| 0 <= i < ext@.len() && !('\0' <= #[trigger] ext@[i] <= '\u{7f}');
            assert(lowered(ext@[i]) == ext@[i]);
            assert forall|name: Seq<char>| is_ascii_chars(name) implies !spells(ext@, name) by {
                if ext@.len() == name.len() {
                    assert('\0' <= name[i] <= '\u{7f}');
                }
            }
        }
        return None;
    }
    if is_name(ext, "png") {
        Some(ImageKind::Png)
    } else if is_name(ext, "jpg") || is_name(ext, "jpeg") {
        Some(ImageKind::Jpeg)
    } else if is_name(ext, "gif") {
        Some(ImageKind::Gif)
    } else if is_name(ext, "webp") {
        Some(ImageKind::WebP)
    } else if is_name(ext, "pnm") {
        Some(ImageKind::Pnm)
    } else if is_name(ext, "tiff") || is_name(ext, "tif") {
        Some(ImageKind::Tiff)
    } else if is_name(ext, "tga") {
        Some(ImageKind::Tga)
    } else if is_name(ext, "dds") {
        Some(ImageKind::Dds)
    } else if is_name(ext, "bmp") {
        Some(ImageKind::Bmp)
    } else if is_name(ext, "ico") {
        Some(ImageKind::Ico)
    } else if is_name(ext, "hdr") {
        Some(ImageKind::Hdr)
    } else if is_name(ext, "exr") {
        Some(ImageKind::OpenExr)
    } else if is_name(ext, "ff") || is_name(ext, "farbfeld") {
        Some(ImageKind::Farbfeld)
    } else if is_name(ext, "avif") {
        Some(ImageKind::Avif)
    } else if is_name(ext, "qoi") {
        Some(ImageKind::Qoi)
    } else if is_name(ext, "pcx") {
        Some(ImageKind::Pcx)
    } else {
        None
    }
}

impl ImageKind {
    /// The extension by which the format is usually known.
    pub open spec fn usual_extension(self) -> Seq<char> {
        match self {
            ImageKind::Png => "png"@,
            ImageKind::Jpeg => "jpg"@,
            ImageKind::Gif => "gif"@,
            ImageKind::WebP => "webp"@,
            ImageKind::Pnm => "pnm"@,
            ImageKind::Tiff => "tiff"@,
            ImageKind::Tga => "tga"@,
            ImageKind::Dds => "dds"@,
            ImageKind::Bmp => "bmp"@,
            ImageKind::Ico => "ico"@,
            ImageKind::Hdr => "hdr"@,
            ImageKind::OpenExr => "exr"@,
            ImageKind::Farbfeld => "ff"@,
            ImageKind::Avif => "avif"@,
            ImageKind::Qoi => "qoi"@,
            ImageKind::Pcx => "pcx"@,
        }
    }

    /// The extension by which the format is usually known.
    pub fn extension(self) -> (ext: &'static str)
        ensures
            ext@ == self.usual_extension(),
    {
        match self {
            ImageKind::Png => "png",
            ImageKind::Jpeg => "jpg",
            ImageKind::Gif => "gif",
            ImageKind::WebP => "webp",
            ImageKind::Pnm => "pnm",
            ImageKind::Tiff => "tiff",
            ImageKind::Tga => "tga",
            ImageKind::Dds => "dds",
            ImageKind::Bmp => "bmp",
            ImageKind::Ico => "ico",
            ImageKind::Hdr => "hdr",
            ImageKind::OpenExr => "exr",
            ImageKind::Farbfeld => "ff",
            ImageKind::Avif => "avif",
            ImageKind::Qoi => "qoi",
            ImageKind::Pcx => "pcx",
        }
    }
}

/// The extension that `std::path::Path::extension` finds in a path, on the
/// platform that the library is built for: the part of the last component of
/// the path after its last dot, where that component has a dot that is not
/// its first character.
pub uninterp spec fn extension_of(path: Seq<char>) -> Option<Seq<char>>;

/// The width, the height and the 8-bit RGB samples that the `image` crate
/// decodes from the contents of a file whose format it knows by the given
/// extension; nothing where it knows no such format or cannot decode.
pub uninterp spec fn decoded_rgb8(contents: Seq<u8>, extension: Seq<char>) -> Option<
    (u32, u32, Seq<u8>),
>;

/// The bytes that the `image` crate encodes, in the format it knows by the
/// extension `target`, of the picture that it decodes from the contents of a
/// file whose format it knows by the extension `source`; nothing where one
/// of the steps fails.
pub uninterp spec fn transcoded(contents: Seq<u8>, source: Seq<char>, target: Seq<char>) -> Option<
    Seq<u8>,
>;

/// The extension that was found in a path, as characters.
pub open spec fn found_extension(ext: Option<String>) -> Option<Seq<char>> {
    match ext {
        Some(e) => Some(e@),
        None => None,
    }
}

/// What the codec decoded, as plain values.
pub open spec fn decoded_parts(decoded: Option<(u32, u32, Vec<u8>)>) -> Option<
    (u32, u32, Seq<u8>),
> {
    match decoded {
        Some(d) => Some((d.0, d.1, d.2@)),
        None => None,
    }
}

/// What the codec encoded, as plain values.
pub open spec fn encoded_parts(encoded: Option<Vec<u8>>) -> Option<Seq<u8>> {
    match encoded {
        Some(bytes) => Some(bytes@),
        None => None,
    }
}

/// `std::path::Path::extension`, with `OsStr::to_str` to hand the extension
/// out as text. Claimed: what comes back is the extension of the path by
/// name; an extension holds no dot; a path without a dot has no extension.
#[verifier::external_body]
fn path_extension(path: &str) -> (ext: Option<String>)
    ensures
        found_extension(ext) == extension_of(path@),
        ext matches Some(e) ==> !e@.contains('.') && path@.contains('.'),
{
    std::path::Path::new(path).extension().and_then(|e| e.to_str()).map(|e| e.to_string())
}

/// Decodes the contents of an image file with the `image` crate:
/// `ImageFormat::from_extension` picks the format,
/// `load_from_memory_with_format` decodes, `DynamicImage::to_rgb8` converts,
/// and the picture is handed out as its width, its height and its samples.
/// Claimed: what comes back is the decoded picture by name.
#[verifier::external_body]
fn decode_rgb8(contents: &[u8], extension: &str) -> (decoded: Option<(u32, u32, Vec<u8>)>)
    ensures
        decoded_parts(decoded) == decoded_rgb8(contents@, extension@),
{
    let format = ::image::ImageFormat::from_extension(extension)?;
    let rgb = ::image::load_from_memory_with_format(contents, format).ok()?.to_rgb8();
    Some((rgb.width(), rgb.height(), rgb.into_raw()))
}

/// Decodes the contents of an image file and encodes the picture in another
/// format with the `image` crate: `ImageFormat::from_extension` picks both
/// formats, `load_from_memory_with_format` decodes and
/// `DynamicImage::write_to` encodes. Claimed: what comes back is the encoded
/// file by name.
#[verifier::external_body]
fn transcode(contents: &[u8], source: &str, target: &str) -> (encoded: Option<Vec<u8>>)
    ensures
        encoded_parts(encoded) == transcoded(contents@, source@, target@),
{
    let from = ::image::ImageFormat::from_extension(source)?;
    let to = ::image::ImageFormat::from_extension(target)?;
    let picture = ::image::load_from_memory_with_format(contents, from).ok()?;
    let mut out = std::io::Cursor::new(Vec::new());
    picture.write_to(&mut out, to).ok()?;
    Some(out.into_inner())
}

/// Decodes the contents of an image file, their format guessed from their
/// first bytes, and encodes the picture in another format with the `image`
/// crate: `load_from_memory` decodes, `ImageFormat::from_extension` picks
/// the format to write and `DynamicImage::write_to` encodes. The guess
/// consults what the process has registered with the crate, so nothing is
/// claimed of what comes back.
#[verifier::external_body]
fn reencode(contents: &[u8], target: &str) -> (encoded: Option<Vec<u8>>) {
    let to = ::image::ImageFormat::from_extension(target)?;
    let picture = ::image::load_from_memory(contents).ok()?;
    let mut out = std::io::Cursor::new(Vec::new());
    picture.write_to(&mut out, to).ok()?;
    Some(out.into_inner())
}

/// What `infer_type` makes of the extension that a path was found to have.
pub open spec fn inferred(ext: Option<Seq<char>>) -> Result<ImageKind, ImageError> {
    match ext {
        None => Err(ImageError::MissingExtension),
        Some(e) => match kind_of(e) {
            Some(kind) => Ok(kind),
            None => Err(ImageError::UnknownExtension),
        },
    }
}

/// The format that an extension found in a path asks for.
pub fn kind_of_found(ext: Option<&str>) -> (kind: Result<ImageKind, ImageError>)
    ensures
        kind == inferred(
            match ext {
                Some(e) => Some(e@),
                None => None,
            },
        ),
{
    match ext {
        None => Err(ImageError::MissingExtension),
        Some(e) => match kind_of_extension(e) {
            Some(kind) => Ok(kind),
            None => Err(ImageError::UnknownExtension),
        },
    }
}

/// Infers the format of an image from the extension of its path.
pub fn infer_type(path: &str) -> (kind: Result<ImageKind, ImageError>)
    ensures
        kind == inferred(extension_of(path@)),
        !path@.contains('.') ==> kind == Err::<ImageKind, ImageError>(
            ImageError::MissingExtension,
        ),
{
    match path_extension(path) {
        None => kind_of_found(None),
        Some(ext) => kind_of_found(Some(ext.as_str())),
    }
}

/// The bytes of a binary file of the native format, largest sample 255, for
/// an image given as 8-bit RGB samples, three to a pixel, row after row.
pub open spec fn rgb8_file(width: u32, height: u32, samples: Seq<u8>) -> Seq<u8> {
    seq![80u8, 54u8, 10u8] + decimal(width as nat) + seq![32u8] + decimal(height as nat) + seq![
        10u8,
    ] + decimal(255) + seq![10u8] + samples.take(width * height * 3)
}

/// Writes 8-bit RGB samples as a binary file of the native format. Samples
/// beyond the last pixel are left out. Fails where there are too few samples
/// for the size.
pub fn rgb8_to_ppm(width: u32, height: u32, samples: &[u8]) -> (file: Result<Vec<u8>, ImageError>)
    ensures
        samples@.len() >= width * height * 3 ==> file is Ok && file->Ok_0@ == rgb8_file(
            width,
            height,
            samples@,
        ),
        samples@.len() < width * height * 3 ==> file == Err::<Vec<u8>, ImageError>(
            ImageError::ShapeMismatch,
        ),
{
    assert(width * height * 3 <= 0xffff_ffff * 0xffff_ffff * 3) by (nonlinear_arith)
        requires
            0 <= width <= 0xffff_ffff,
            0 <= height <= 0xffff_ffff,
    ;
    let needed: u128 = (width as u128) * (height as u128) * 3;
    if (samples.len() as u128) < needed {
        return Err(ImageError::ShapeMismatch);
    }
    let count: usize = needed as usize;
    let mut buffer: Vec<u8> = Vec::new();
    buffer.push(80);
    buffer.push(54);
    buffer.push(10);
    push_decimal(&mut buffer, width as usize);
    buffer.push(32);
    push_decimal(&mut buffer, height as usize);
    buffer.push(10);
    push_decimal(&mut buffer, 255);
    buffer.push(10);
    let ghost head = buffer@;
    let mut k: usize = 0;
    while k < count
        invariant
            k <= count <= samples@.len(),
            buffer@ == head + samples@.take(k as int),
        decreases count - k,
    {
        buffer.push(samples[k]);
        k += 1;
        proof {
            assert(buffer@ =~= head + samples@.take(k as int));
        }
    }
    proof {
        assert(buffer@ =~= rgb8_file(width, height, samples@));
    }
    Ok(buffer)
}

/// Whether the extension found in a path is `ppm`: letter for letter where
/// `exact`, else whatever the case of its letters.
fn is_ppm(ext: &Option<String>, exact: bool) -> (yes: bool)
    ensures
        yes == (ext matches Some(e) && if exact {
            e@ == "ppm"@
        } else {
            spells(e@, "ppm"@)
        }),
{
    proof {
        reveal_strlit("ppm");
    }
    match ext {
        None => false,
        Some(e) => {
            let text = e.as_str();
            if !text.is_ascii() {
                proof {
                    let i = choose|i: int|
                        0 <= i < text@.len() && !('\0' <= #[trigger] text@[i] <= '\u{7f}');
                    assert(lowered(text@[i]) == text@[i]);
                    if text@.len() == 3 {
                        assert('\0' <= "ppm"@[i] <= '\u{7f}');
                    }
                }
                return false;
            }
            if exact {
                broadcast use is_ascii_spec_bytes;

                let bytes = text.as_bytes();
                let same = bytes.len() == 3 && bytes[0] == 112 && bytes[1] == 112 && bytes[2]
                    == 109;
                proof {
                    if same {
                        assert(text@ =~= "ppm"@);
                    } else if text@.len() == 3 {
                        assert(text@[0] != "ppm"@[0] || text@[1] != "ppm"@[1] || text@[2]
                            != "ppm"@[2]);
                    }
                }
                same
            } else {
                is_name(text, "ppm")
            }
        },
    }
}

/// The bytes that a call hands back, or its error.
pub open spec fn file_bytes(file: Result<Vec<u8>, ImageError>) -> Result<Seq<u8>, ImageError> {
    match file {
        Ok(bytes) => Ok(bytes@),
        Err(e) => Err(e),
    }
}

/// The binary native file that a native file becomes: the file written of
/// the image that its contents are read as.
pub open spec fn native_ppm(contents: Seq<u8>) -> Result<Seq<u8>, ImageError> {
    match decode(contents) {
        Some(p) => Ok(p.binary_file()),
        None => Err(ImageError::FormatError),
    }
}

/// The binary native file that what the codec decoded becomes: the file of
/// its 8-bit RGB samples, where there are enough of them for its size.
pub open spec fn decoded_ppm(decoded: Option<(u32, u32, Seq<u8>)>) -> Result<
    Seq<u8>,
    ImageError,
> {
    match decoded {
        None => Err(ImageError::CodecFailure),
        Some((width, height, samples)) => if samples.len() >= width * height * 3 {
            Ok(rgb8_file(width, height, samples))
        } else {
            Err(ImageError::ShapeMismatch)
        },
    }
}

/// The binary native file of an image file in whose path the extension `ext`
/// was found: with the extension `ppm` what the native file becomes, with
/// any other what becomes of what the codec decodes by that extension, and
/// without one a failure of the codec.
pub open spec fn ppm_by_extension(ext: Option<Seq<char>>, contents: Seq<u8>) -> Result<
    Seq<u8>,
    ImageError,
> {
    match ext {
        Some(e) => if e == "ppm"@ {
            native_ppm(contents)
        } else {
            decoded_ppm(decoded_rgb8(contents, e))
        },
        None => Err(ImageError::CodecFailure),
    }
}

/// What is handed back for what the encoder gave: its bytes, or a failure of
/// the codec where it gave none.
pub open spec fn encoded_or_failure(encoded: Option<Seq<u8>>) -> Result<Seq<u8>, ImageError> {
    match encoded {
        Some(bytes) => Ok(bytes),
        None => Err(ImageError::CodecFailure),
    }
}

/// Whether bytes are a binary native file of a well-formed image whose
/// samples fit in a byte.
pub open spec fn is_binary_native(bytes: Seq<u8>) -> bool {
    let read = decode(bytes);
    &&& read is Some
    &&& read->0.wf()
    &&& read->0.format == PPMFormat::P6
    &&& read->0.byte_sized()
}

/// A native file as a binary native file: its contents are read as an image
/// and the image is written out in the binary encoding.
pub fn native_to_ppm(contents: &[u8]) -> (file: Result<Vec<u8>, ImageError>)
    ensures
        file_bytes(file) == native_ppm(contents@),
        file matches Ok(bytes) ==> is_binary_native(bytes@),
{
    match Image::from_bytes(contents) {
        Ok(image) => {
            let _ = image.width();
            let _ = image.max_intensity();
            proof {
                image@.lemma_binary_read_back();
            }
            Ok(image.bytes_format(PPMFormat::P6))
        },
        Err(e) => Err(e),
    }
}

/// What the codec decoded as a binary native file: nothing decoded is a
/// failure of the codec; a width, a height and 8-bit RGB samples are written
/// out with 255 as the largest sample.
pub fn decoded_to_ppm(decoded: Option<(u32, u32, Vec<u8>)>) -> (file: Result<Vec<u8>, ImageError>)
    ensures
        file_bytes(file) == decoded_ppm(decoded_parts(decoded)),
        file matches Ok(bytes) ==> is_binary_native(bytes@),
{
    match decoded {
        None => Err(ImageError::CodecFailure),
        Some((width, height, samples)) => {
            let file = rgb8_to_ppm(width, height, samples.as_slice());
            proof {
                if file is Ok {
                    let h = Header {
                        width: width as usize,
                        height: height as usize,
                        max_intensity: 255,
                        data_start: 0,
                    };
                    let data = samples@.take(width * height * 3);
                    lemma_rgb8_read_back(width, height, samples@);
                    lemma_picture_of(h, PPMFormat::P6, data.map_values(|b: u8| b as usize));
                    lemma_binary_read(h, data);
                }
            }
            file
        },
    }
}

/// The binary native file of an image file in whose path the extension `ext`
/// was found. With the extension `ppm` the contents are read as a native
/// file; with any other they are handed to the general-purpose codec, which
/// picks the decoder by the extension; without one the call fails.
pub fn to_ppm_by_extension(ext: &Option<String>, contents: &[u8]) -> (file: Result<
    Vec<u8>,
    ImageError,
>)
    ensures
        file_bytes(file) == ppm_by_extension(found_extension(*ext), contents@),
        file matches Ok(bytes) ==> is_binary_native(bytes@),
{
    if is_ppm(ext, true) {
        native_to_ppm(contents)
    } else {
        match ext {
            None => Err(ImageError::CodecFailure),
            Some(e) => decoded_to_ppm(decode_rgb8(contents, e.as_str())),
        }
    }
}

/// The binary native file of an image file of any format, given the path of
/// the file and its contents. A file whose extension is `ppm` is read as a
/// native file; any other is handed to the general-purpose codec and its
/// 8-bit RGB samples are written out with 255 as the largest sample. What
/// comes back is a binary native file whose samples fit in a byte.
pub fn to_ppm(img_path: &str, contents: &[u8]) -> (file: Result<Vec<u8>, ImageError>)
    ensures
        file_bytes(file) == ppm_by_extension(extension_of(img_path@), contents@),
        file matches Ok(bytes) ==> is_binary_native(bytes@),
{
    let ext = path_extension(img_path);
    to_ppm_by_extension(&ext, contents)
}

/// The bytes of an image file, its format guessed from its first bytes, as
/// a file of the given format. An error is a failure of the codec.
pub fn encode_for(contents: &[u8], kind: ImageKind) -> (file: Result<Vec<u8>, ImageError>)
    ensures
        file is Err ==> file == Err::<Vec<u8>, ImageError>(ImageError::CodecFailure),
{
    encoded_file(reencode(contents, kind.extension()))
}

/// What is handed back for what the encoder gave: its bytes, or a failure of
/// the codec where it gave none.
pub fn encoded_file(encoded: Option<Vec<u8>>) -> (file: Result<Vec<u8>, ImageError>)
    ensures
        file_bytes(file) == encoded_or_failure(encoded_parts(encoded)),
{
    match encoded {
        Some(bytes) => Ok(bytes),
        None => Err(ImageError::CodecFailure),
    }
}

/// The bytes of the image file that a native file becomes in the format
/// that the extension of `out_path` asks for. Where the extension asks for
/// no format, that is the error; any other error is a failure of the codec.
pub fn ppm_bytes_to_img(ppm_bytes: &[u8], out_path: &str) -> (file: Result<Vec<u8>, ImageError>)
    ensures
        inferred(extension_of(out_path@)) matches Err(e) ==> file == Err::<Vec<u8>, ImageError>(e),
        inferred(extension_of(out_path@)) is Ok && file is Err ==> file == Err::<
            Vec<u8>,
            ImageError,
        >(ImageError::CodecFailure),
        !out_path@.contains('.') ==> file == Err::<Vec<u8>, ImageError>(
            ImageError::MissingExtension,
        ),
{
    let kind = match infer_type(out_path) {
        Ok(kind) => kind,
        Err(e) => {
            return Err(e);
        },
    };
    encode_for(ppm_bytes, kind)
}

/// What `convert` hands back for a file that does not go through the native
/// reader: what the codec makes of its contents, decoded by the extension of
/// the file and encoded in the format asked for; a failure of the codec
/// where it makes nothing of them or the file has no extension.
pub open spec fn converted(source: Option<Seq<char>>, contents: Seq<u8>, kind: ImageKind) -> Result<
    Seq<u8>,
    ImageError,
> {
    match source {
        Some(e) => encoded_or_failure(transcoded(contents, e, kind.usual_extension())),
        None => Err(ImageError::CodecFailure),
    }
}

/// Whether the extension found in a path is `ppm`, whatever the case of its
/// letters.
pub open spec fn is_native_extension(ext: Option<Seq<char>>) -> bool {
    ext matches Some(e) && spells(e, "ppm"@)
}

/// The bytes of the image file that an image file of any format becomes in
/// the format that the extension of `output_path` asks for. Where that
/// extension asks for no format, that is the error. A file whose extension
/// is `ppm`, in whatever case, is read as `Image::from_file` reads it, and
/// an error of that reading is the error; what is read is written as a
/// binary native file and handed to the codec. Any other file is handed to
/// the codec as it is.
pub fn convert(input_path: &str, contents: &[u8], output_path: &str) -> (file: Result<
    Vec<u8>,
    ImageError,
>)
    ensures
        inferred(extension_of(output_path@)) matches Err(e) ==> file == Err::<Vec<u8>, ImageError>(
            e,
        ),
        inferred(extension_of(output_path@)) matches Ok(kind) ==> {
            let source = extension_of(input_path@);
            let read = read_back(ppm_by_extension(source, contents@));
            &&& !is_native_extension(source) ==> file_bytes(file) == converted(
                source,
                contents@,
                kind,
            )
            &&& is_native_extension(source) ==> (read matches Err(e) ==> file == Err::<
                Vec<u8>,
                ImageError,
            >(e))
            &&& is_native_extension(source) && read is Ok && file is Err ==> file == Err::<
                Vec<u8>,
                ImageError,
            >(ImageError::CodecFailure)
        },
        !output_path@.contains('.') ==> file == Err::<Vec<u8>, ImageError>(
            ImageError::MissingExtension,
        ),
{
    let kind = match infer_type(output_path) {
        Ok(kind) => kind,
        Err(e) => {
            return Err(e);
        },
    };
    let ext = path_extension(input_path);
    if is_ppm(&ext, false) {
        let image = match Image::from_file(input_path, contents) {
            Ok(image) => image,
            Err(e) => {
                return Err(e);
            },
        };
        let bytes = image.bytes_format(PPMFormat::P6);
        ppm_bytes_to_img(bytes.as_slice(), output_path)
    } else {
        match ext {
            None => Err(ImageError::CodecFailure),
            Some(e) => encoded_file(transcode(contents, e.as_str(), kind.extension())),
        }
    }
}

/// The image that a call hands back, or its error.
pub open spec fn file_picture(made: Result<Image, ImageError>) -> Result<Picture, ImageError> {
    match made {
        Ok(image) => Ok(image@),
        Err(e) => Err(e),
    }
}

/// What reading a binary native file back gives, where there is one to read.
pub open spec fn read_back(file: Result<Seq<u8>, ImageError>) -> Result<Picture, ImageError> {
    match file {
        Ok(bytes) => match decode(bytes) {
            Some(p) => Ok(p),
            None => Err(ImageError::FormatError),
        },
        Err(e) => Err(e),
    }
}

impl Image {
    /// The image that an image file of any format holds, given the path of
    /// the file and its contents: the file is brought to the binary native
    /// format, as `to_ppm` does, and read from that.
    pub fn from_file(filepath: &str, contents: &[u8]) -> (made: Result<Image, ImageError>)
        ensures
            file_picture(made) == read_back(
                ppm_by_extension(extension_of(filepath@), contents@),
            ),
            made matches Ok(image) ==> image@.wf() && image@.format == PPMFormat::P6
                && image@.byte_sized(),
    {
        match to_ppm(filepath, contents) {
            Ok(bytes) => Image::from_bytes(bytes.as_slice()),
            Err(e) => Err(e),
        }
    }
}

/// A native file that is read as an image comes back from `from_file` as
/// that image with every sample cut down to a byte; one that is not read as
/// an image is a format error.
pub proof fn lemma_native_read_back(contents: Seq<u8>)
    ensures
        read_back(native_ppm(contents)) == (match decode(contents) {
            Some(p) => Ok::<Picture, ImageError>(p.as_bytes()),
            None => Err::<Picture, ImageError>(ImageError::FormatError),
        }),
{
    if decode(contents) is Some {
        let p = decode(contents)->0;
        lemma_decoded(contents);
        p.lemma_binary_read_back();
    }
}

/// What the codec decoded comes back from `from_file` as the image of the
/// decoded size whose samples are the decoded samples, with 255 as the
/// largest sample.
pub proof fn lemma_decoded_read_back(width: u32, height: u32, samples: Seq<u8>)
    requires
        samples.len() >= width * height * 3,
    ensures
        read_back(decoded_ppm(Some((width, height, samples)))) == Ok::<Picture, ImageError>(
            picture_of(
                Header {
                    width: width as usize,
                    height: height as usize,
                    max_intensity: 255,
                    data_start: 0,
                },
                PPMFormat::P6,
                samples.take(width * height * 3).map_values(|b: u8| b as usize),
            ),
        ),
{
    lemma_rgb8_read_back(width, height, samples);
}

} // verus!
