use snap::codec::{
    convert, decoded_to_ppm, encode_for, encoded_file, infer_type, kind_of_extension,
    kind_of_found, native_to_ppm, ppm_bytes_to_img, rgb8_to_ppm, to_ppm, to_ppm_by_extension,
    ImageKind,
};
use snap::error::ImageError;
use snap::image::{Image, PPMFormat};
use snap::pixel::PixelRGB;
use snap::ppm::read_header;
use snap::text::{
    find_line_end, find_next_line, find_token_end, pass_comments, pass_spaces, push_decimal,
    read_number, read_numbers,
};

fn pixels_of(image: &Image) -> Vec<(usize, usize, usize)> {
    let mut out = Vec::new();
    for row in 0..image.height() {
        for col in 0..image.width() {
            let p = image.get_pixel(row, col).unwrap();
            out.push((p.r, p.g, p.b));
        }
    }
    out
}

fn sample_image(format: PPMFormat) -> Image {
    let mut image = Image::new(3, 2, 255, format);
    for row in 0..2 {
        for col in 0..3 {
            image.set_pixel(row, col, PixelRGB { r: row * 3 + col, g: 100 + col, b: 250 + row });
        }
    }
    image
}

#[test]
fn scanning_lines_and_tokens() {
    let s = b"ab cd\n  ef\n";
    assert_eq!(find_line_end(s, 0), 5);
    assert_eq!(find_line_end(s, 6), 10);
    assert_eq!(find_line_end(s, 11), 11);
    assert_eq!(find_next_line(s, 0), 6);
    assert_eq!(find_next_line(s, 6), 11);
    assert_eq!(find_next_line(b"xyz", 1), 3);
    assert_eq!(pass_spaces(s, 6, 10), 8);
    assert_eq!(pass_spaces(b" \t\r\n\x0b\x0cx", 0, 7), 6);
    assert_eq!(pass_spaces(b"\xa0x", 0, 2), 0);
    assert_eq!(find_token_end(s, 0, 5), 2);
    assert_eq!(find_token_end(s, 3, 5), 5);
    assert_eq!(pass_comments(b"#a\n#b\nc\n", 0, false), 6);
    assert_eq!(pass_comments(b" #a\nc\n", 0, false), 0);
    assert_eq!(pass_comments(b" #a\nc\n", 0, true), 4);
    assert_eq!(pass_comments(b"#a", 0, true), 2);
    assert_eq!(pass_comments(b"\n#a\n", 0, true), 0);
}

#[test]
fn reading_numbers() {
    assert_eq!(read_number(b"123", 0, 3), Some(123));
    assert_eq!(read_number(b"+123", 0, 4), Some(123));
    assert_eq!(read_number(b"007", 0, 3), Some(7));
    assert_eq!(read_number(b"0", 0, 1), Some(0));
    assert_eq!(read_number(b"x42y", 1, 3), Some(42));
    assert_eq!(read_number(b"", 0, 0), None);
    assert_eq!(read_number(b"+", 0, 1), None);
    assert_eq!(read_number(b"-1", 0, 2), None);
    assert_eq!(read_number(b"1a", 0, 2), None);
    assert_eq!(read_number(b"++1", 0, 3), None);
    let most = usize::MAX.to_string();
    assert_eq!(read_number(most.as_bytes(), 0, most.len()), Some(usize::MAX));
    let more = format!("{}0", usize::MAX);
    assert_eq!(read_number(more.as_bytes(), 0, more.len()), None);
    let next = format!("{}", usize::MAX as u128 + 1);
    assert_eq!(read_number(next.as_bytes(), 0, next.len()), None);
    assert_eq!(read_numbers(b" 1 22\n333\t4 ", 0), Some(vec![1, 22, 333, 4]));
    assert_eq!(read_numbers(b"1 22 333", 1), Some(vec![22, 333]));
    assert_eq!(read_numbers(b"  \n ", 0), Some(vec![]));
    assert_eq!(read_numbers(b"", 0), Some(vec![]));
    assert_eq!(read_numbers(b"1 x 3", 0), None);
    assert_eq!(read_numbers(b"1 # 3", 0), None);
}

#[test]
fn writing_numbers() {
    for (n, text) in [(0usize, "0"), (7, "7"), (10, "10"), (255, "255"), (65535, "65535")] {
        let mut out = b"x".to_vec();
        push_decimal(&mut out, n);
        assert_eq!(out, format!("x{}", text).into_bytes());
    }
    let mut out = Vec::new();
    push_decimal(&mut out, usize::MAX);
    assert_eq!(out, usize::MAX.to_string().into_bytes());
}

#[test]
fn reading_headers() {
    assert_eq!(read_header(b"\n3 2\n255\nxyz", false), Some((3, 2, 255, 9)));
    let loose = b" ignored\n# c\n3 2 more\n#d\n 255 \nxyz";
    assert_eq!(read_header(loose, false), Some((3, 2, 255, 31)));
    assert_eq!(read_header(b"\n3 2\n255", false), Some((3, 2, 255, 8)));
    assert_eq!(read_header(b"\n  # c\n3 2\n255\n", true), Some((3, 2, 255, 15)));
    assert_eq!(read_header(b"\n  # c\n3 2\n255\n", false), None);
    assert_eq!(read_header(b"", false), None);
    assert_eq!(read_header(b"", true), None);
    assert_eq!(read_header(b" 3 2\n255\n", false), None);
    assert_eq!(read_header(b"\n3\n2\n255\n", false), None);
    assert_eq!(read_header(b"\n3 2\n255 0\n", false), None);
    assert_eq!(read_header(b"\n3 2\n\n255\n", false), None);
    assert_eq!(read_header(b"\n\n3 2\n255\n", false), None);
    assert_eq!(read_header(b"\n3 x\n255\n", false), None);
}

#[test]
fn decoding_text() {
    let image = Image::from_bytes(b"P3\n2 1\n255\n1 2 3 4 5 6\n").unwrap();
    assert_eq!((image.width(), image.height()), (2, 1));
    assert_eq!(image.max_intensity(), 255);
    assert_eq!(image.format(), PPMFormat::P3);
    assert_eq!(pixels_of(&image), vec![(1, 2, 3), (4, 5, 6)]);
}

#[test]
fn decoding_text_with_comments_and_carriage_returns() {
    let text = b"P3 junk\r\n# one\n#two\n1 2 trailing\n# three\n 1000 \r\n7\n8\n\n 999 1 2 3";
    let image = Image::from_bytes(text).unwrap();
    assert_eq!((image.width(), image.height()), (1, 2));
    assert_eq!(image.max_intensity(), 1000);
    assert_eq!(pixels_of(&image), vec![(7, 8, 999), (1, 2, 3)]);
    let empty = Image::from_bytes(b"P3\n0 5\n255\n").unwrap();
    assert_eq!((empty.width(), empty.height()), (0, 5));
    let empty = Image::from_bytes(b"P3\n0 0\n1").unwrap();
    assert_eq!((empty.width(), empty.height()), (0, 0));
}

#[test]
fn decoding_binary() {
    let image = Image::from_bytes(b"P6\n2 1\n255\n\x01\x02\x03\xff\x0a\x20").unwrap();
    assert_eq!((image.width(), image.height()), (2, 1));
    assert_eq!(image.format(), PPMFormat::P6);
    assert_eq!(pixels_of(&image), vec![(1, 2, 3), (255, 10, 32)]);
    let image = Image::from_bytes(b"P6\n  # c\n1 1\n\t#d\n100\n\xc8\x00\x01").unwrap();
    assert_eq!(image.max_intensity(), 100);
    assert_eq!(pixels_of(&image), vec![(200, 0, 1)]);
    assert!(!image.samples_in_range());
}

#[test]
fn malformed_files_are_rejected() {
    let bad: Vec<&[u8]> = vec![
        b"",
        b"P",
        b"P3",
        b"P6",
        b"P5\n1 1\n255\n\x00",
        b"p3\n1 1\n255\n1 2 3\n",
        b"P3\n1 1\n255\n1 2\n",
        b"P3\n1 1\n255\n1 2 3 4\n",
        b"P3\n1 1\n255\n1 2 x\n",
        b"P3\n1 1\n255\n# c\n1 2 3\n",
        b"P3\n1 1\n255\n1 2 -3\n",
        b"P3\n1\n255\n1 2 3\n",
        b"P3\n1 1\n\n1 2 3\n",
        b"P3\n1 1\n255 1 2 3\n",
        b"P3 1 1\n255\n1 2 3\n",
        b"P3\n 1 1\n",
        b"P3\n99999999999999999999999 1\n255\n",
        b"P3\n18446744073709551615 18446744073709551615\n255\n",
        b"P6\n1 1\n255\n\x00\x00",
        b"P6\n1 1\n255\n\x00\x00\x00\x00",
        b"P6\n1 1\n255",
        b"P6\n1 1 255\n\x00\x00\x00",
    ];
    for bytes in bad {
        assert!(matches!(Image::from_bytes(bytes), Err(ImageError::FormatError)));
    }
    assert!(matches!(Image::parse_ppm_ascii(b"\n1 1\n255\n1 2"), Err(ImageError::FormatError)));
    assert!(matches!(Image::parse_ppm_binary(b"\n1 1\n255\n12"), Err(ImageError::FormatError)));
    assert!(Image::parse_ppm_ascii(b"\n1 1\n255\n1 2 3").is_ok());
    assert!(Image::parse_ppm_binary(b"\n1 1\n255\n123").is_ok());
}

#[test]
fn encoding_text() {
    let image = sample_image(PPMFormat::P3);
    let expected = b"P3\n3 2\n255\n0 100 250 1 101 250 2 102 250\n3 100 251 4 101 251 5 102 251\n";
    assert_eq!(image.bytes(), expected.to_vec());
    assert_eq!(image.to_bytes(), expected.to_vec());
    assert_eq!(image.bytes_format(PPMFormat::P3), expected.to_vec());
    let mut out = b"head".to_vec();
    image.write(&mut out);
    assert_eq!(out, [b"head".to_vec(), expected.to_vec()].concat());
    let mut out = Vec::new();
    image.write_to(&mut out);
    assert_eq!(out, expected.to_vec());
    let mut out = Vec::new();
    image.write_ascii(&mut out);
    assert_eq!(out, expected.to_vec());
    let narrow = Image::new(0, 2, 7, PPMFormat::P3);
    assert_eq!(narrow.bytes(), b"P3\n0 2\n7\n\n\n".to_vec());
}

#[test]
fn encoding_binary() {
    let mut image = sample_image(PPMFormat::P6);
    let mut expected = b"P6\n3 2\n255\n".to_vec();
    expected.extend_from_slice(&[0, 100, 250, 1, 101, 250, 2, 102, 250]);
    expected.extend_from_slice(&[3, 100, 251, 4, 101, 251, 5, 102, 251]);
    assert_eq!(image.bytes(), expected);
    assert_eq!(image.bytes_format(PPMFormat::P6), expected);
    let mut out = Vec::new();
    image.write_binary(&mut out);
    assert_eq!(out, expected);
    let mut out = Vec::new();
    image.write_format(&mut out, PPMFormat::P6);
    assert_eq!(out, expected);
    image.set_pixel(0, 0, PixelRGB { r: 256, g: 511, b: 65535 });
    assert_eq!(image.bytes()[11..14], [0, 255, 255]);
    image.set_format(PPMFormat::P3);
    assert_eq!(image.format(), PPMFormat::P3);
    assert_eq!(&image.bytes()[..2], b"P3");
}

#[test]
fn round_trip_through_both_encodings() {
    for format in [PPMFormat::P3, PPMFormat::P6] {
        let image = sample_image(format);
        let bytes = image.bytes();
        let back = Image::from_bytes(&bytes).unwrap();
        assert_eq!(back.format(), format);
        assert_eq!(back.max_intensity(), 255);
        assert_eq!((back.width(), back.height()), (3, 2));
        assert_eq!(pixels_of(&back), pixels_of(&image));
        assert_eq!(back.bytes(), bytes);
    }
    let loose = b"P6 \n# made by hand\n2   1\n255\n\x09\x08\x07\x06\x05\x04";
    let image = Image::from_bytes(loose).unwrap();
    let bytes = image.bytes();
    assert_eq!(bytes, b"P6\n2 1\n255\n\x09\x08\x07\x06\x05\x04".to_vec());
    assert_eq!(bytes[bytes.len() - 6..], loose[loose.len() - 6..]);
}

#[test]
fn extensions_name_formats() {
    assert_eq!(kind_of_extension("png"), Some(ImageKind::Png));
    assert_eq!(kind_of_extension("PNG"), Some(ImageKind::Png));
    assert_eq!(kind_of_extension("jpg"), Some(ImageKind::Jpeg));
    assert_eq!(kind_of_extension("JpEg"), Some(ImageKind::Jpeg));
    assert_eq!(kind_of_extension("gif"), Some(ImageKind::Gif));
    assert_eq!(kind_of_extension("webp"), Some(ImageKind::WebP));
    assert_eq!(kind_of_extension("pnm"), Some(ImageKind::Pnm));
    assert_eq!(kind_of_extension("tiff"), Some(ImageKind::Tiff));
    assert_eq!(kind_of_extension("tif"), Some(ImageKind::Tiff));
    assert_eq!(kind_of_extension("tga"), Some(ImageKind::Tga));
    assert_eq!(kind_of_extension("dds"), Some(ImageKind::Dds));
    assert_eq!(kind_of_extension("bmp"), Some(ImageKind::Bmp));
    assert_eq!(kind_of_extension("ico"), Some(ImageKind::Ico));
    assert_eq!(kind_of_extension("hdr"), Some(ImageKind::Hdr));
    assert_eq!(kind_of_extension("exr"), Some(ImageKind::OpenExr));
    assert_eq!(kind_of_extension("ff"), Some(ImageKind::Farbfeld));
    assert_eq!(kind_of_extension("farbfeld"), Some(ImageKind::Farbfeld));
    assert_eq!(kind_of_extension("avif"), Some(ImageKind::Avif));
    assert_eq!(kind_of_extension("qoi"), Some(ImageKind::Qoi));
    assert_eq!(kind_of_extension("pcx"), Some(ImageKind::Pcx));
    assert_eq!(kind_of_extension("ppm"), None);
    assert_eq!(kind_of_extension(""), None);
    assert_eq!(kind_of_extension("pn"), None);
    assert_eq!(kind_of_extension("pngg"), None);
    assert_eq!(kind_of_extension("p\u{f1}g"), None);
    assert_eq!(kind_of_extension("\u{212a}png"), None);
}

#[test]
fn every_kind_is_known_by_its_usual_extension() {
    let kinds = [
        ImageKind::Png,
        ImageKind::Jpeg,
        ImageKind::Gif,
        ImageKind::WebP,
        ImageKind::Pnm,
        ImageKind::Tiff,
        ImageKind::Tga,
        ImageKind::Dds,
        ImageKind::Bmp,
        ImageKind::Ico,
        ImageKind::Hdr,
        ImageKind::OpenExr,
        ImageKind::Farbfeld,
        ImageKind::Avif,
        ImageKind::Qoi,
        ImageKind::Pcx,
    ];
    for kind in kinds {
        assert_eq!(kind_of_extension(kind.extension()), Some(kind));
    }
}

#[test]
fn infer_type_reads_the_extension_of_the_path() {
    assert_eq!(infer_type("a/b/c.PNG"), Ok(ImageKind::Png));
    assert_eq!(infer_type("photo.final.jpeg"), Ok(ImageKind::Jpeg));
    assert_eq!(infer_type("png"), Err(ImageError::MissingExtension));
    assert_eq!(infer_type("dir.png/file"), Err(ImageError::MissingExtension));
    assert_eq!(infer_type(".png"), Err(ImageError::MissingExtension));
    assert_eq!(infer_type(""), Err(ImageError::MissingExtension));
    assert_eq!(infer_type("a.xyz"), Err(ImageError::UnknownExtension));
    assert_eq!(infer_type("a.ppm"), Err(ImageError::UnknownExtension));
    assert_eq!(kind_of_found(None), Err(ImageError::MissingExtension));
    assert_eq!(kind_of_found(Some("bmp")), Ok(ImageKind::Bmp));
    assert_eq!(kind_of_found(Some("nope")), Err(ImageError::UnknownExtension));
}

#[test]
fn rgb8_samples_become_a_binary_file() {
    let file = rgb8_to_ppm(2, 1, &[1, 2, 3, 4, 5, 6]).unwrap();
    assert_eq!(file, b"P6\n2 1\n255\n\x01\x02\x03\x04\x05\x06".to_vec());
    let file = rgb8_to_ppm(1, 1, &[1, 2, 3, 4, 5, 6]).unwrap();
    assert_eq!(file, b"P6\n1 1\n255\n\x01\x02\x03".to_vec());
    assert_eq!(rgb8_to_ppm(2, 1, &[1, 2, 3, 4, 5]), Err(ImageError::ShapeMismatch));
    assert_eq!(rgb8_to_ppm(u32::MAX, u32::MAX, &[]), Err(ImageError::ShapeMismatch));
    assert_eq!(rgb8_to_ppm(0, 7, &[]), Ok(b"P6\n0 7\n255\n".to_vec()));
}

#[test]
fn to_ppm_reads_native_files_itself() {
    let text = b"P3\n1 1\n255\n1 2 3\n";
    assert_eq!(to_ppm("a.ppm", text), Ok(b"P6\n1 1\n255\n\x01\x02\x03".to_vec()));
    assert_eq!(to_ppm("a.ppm", b"nonsense"), Err(ImageError::FormatError));
    assert_eq!(to_ppm("a.png", b"nonsense"), Err(ImageError::CodecFailure));
    assert_eq!(to_ppm("noextension", text), Err(ImageError::CodecFailure));
}

#[test]
fn other_formats_go_through_the_codec() {
    let image = sample_image(PPMFormat::P6);
    let ppm = image.bytes();

    let png = ppm_bytes_to_img(&ppm, "out/picture.png").unwrap();
    assert_eq!(&png[..8], b"\x89PNG\r\n\x1a\n");
    let back = Image::from_file("picture.png", &png).unwrap();
    assert_eq!(back.format(), PPMFormat::P6);
    assert_eq!(back.max_intensity(), 255);
    assert_eq!((back.width(), back.height()), (3, 2));
    assert_eq!(pixels_of(&back), pixels_of(&image));
    assert_eq!(to_ppm("picture.png", &png), Ok(ppm.clone()));

    let bmp = convert("picture.png", &png, "picture.bmp").unwrap();
    assert_eq!(&bmp[..2], b"BM");
    let back = Image::from_file("picture.bmp", &bmp).unwrap();
    assert_eq!(pixels_of(&back), pixels_of(&image));

    let bmp = convert("picture.PPM", &ppm, "picture.bmp").unwrap();
    assert_eq!(&bmp[..2], b"BM");
    let back = Image::from_file("picture.bmp", &bmp).unwrap();
    assert_eq!(pixels_of(&back), pixels_of(&image));

    let native = Image::from_file("picture.ppm", &ppm).unwrap();
    assert_eq!(pixels_of(&native), pixels_of(&image));
}

#[test]
fn codec_failures_and_bad_paths() {
    let ppm = sample_image(PPMFormat::P6).bytes();
    assert_eq!(ppm_bytes_to_img(&ppm, "picture"), Err(ImageError::MissingExtension));
    assert_eq!(ppm_bytes_to_img(&ppm, "picture.xyz"), Err(ImageError::UnknownExtension));
    assert_eq!(ppm_bytes_to_img(b"nonsense", "picture.png"), Err(ImageError::CodecFailure));
    assert_eq!(ppm_bytes_to_img(&ppm, "picture.pcx"), Err(ImageError::CodecFailure));
    assert_eq!(convert("a.png", b"nonsense", "b"), Err(ImageError::MissingExtension));
    assert_eq!(convert("a.png", b"nonsense", "b.bmp"), Err(ImageError::CodecFailure));
    assert_eq!(convert("a.ppm", b"nonsense", "b.bmp"), Err(ImageError::FormatError));
    assert!(matches!(Image::from_file("a.png", &ppm), Err(ImageError::CodecFailure)));
    assert!(matches!(Image::from_file("a.bmp", b""), Err(ImageError::CodecFailure)));
}

#[test]
fn native_files_become_binary_native_files() {
    let text = b"P3\n2 1\n300\n1 2 3 256 257 299\n";
    let binary = b"P6\n2 1\n300\n\x01\x02\x03\x00\x01\x2b".to_vec();
    assert_eq!(native_to_ppm(text), Ok(binary.clone()));
    assert_eq!(native_to_ppm(&binary), Ok(binary.clone()));
    assert_eq!(native_to_ppm(b"P3\n2 1\n300\n1 2 3\n"), Err(ImageError::FormatError));
    assert_eq!(native_to_ppm(b""), Err(ImageError::FormatError));
    let read = Image::from_file("a.ppm", text).unwrap();
    assert_eq!(read.max_intensity(), 300);
    assert_eq!(pixels_of(&read), vec![(1, 2, 3), (0, 1, 43)]);
}

#[test]
fn what_the_codec_decoded_becomes_a_binary_native_file() {
    assert_eq!(decoded_to_ppm(None), Err(ImageError::CodecFailure));
    assert_eq!(
        decoded_to_ppm(Some((1, 2, vec![9, 8, 7, 6, 5, 4]))),
        Ok(b"P6\n1 2\n255\n\x09\x08\x07\x06\x05\x04".to_vec())
    );
    assert_eq!(
        decoded_to_ppm(Some((1, 1, vec![9, 8, 7, 6, 5, 4]))),
        Ok(b"P6\n1 1\n255\n\x09\x08\x07".to_vec())
    );
    assert_eq!(decoded_to_ppm(Some((1, 2, vec![9, 8, 7]))), Err(ImageError::ShapeMismatch));
}

#[test]
fn the_extension_found_decides_how_a_file_is_read() {
    let text = b"P3\n1 1\n255\n1 2 3\n";
    let binary = b"P6\n1 1\n255\n\x01\x02\x03".to_vec();
    let native = Some("ppm".to_string());
    assert_eq!(to_ppm_by_extension(&native, text), Ok(binary.clone()));
    assert_eq!(to_ppm_by_extension(&native, b"junk"), Err(ImageError::FormatError));
    // only `ppm` letter for letter is read here; `PPM` goes to the codec,
    // which knows the format by that extension and reads the same pixels
    let upper = Some("PPM".to_string());
    assert_eq!(to_ppm_by_extension(&upper, text), Ok(binary.clone()));
    assert_eq!(to_ppm_by_extension(&upper, b"junk"), Err(ImageError::CodecFailure));
    assert_eq!(to_ppm_by_extension(&None, text), Err(ImageError::CodecFailure));
    let png = ppm_bytes_to_img(&binary, "a.png").unwrap();
    let other = Some("png".to_string());
    assert_eq!(to_ppm_by_extension(&other, &png), Ok(binary.clone()));
    assert_eq!(to_ppm_by_extension(&other, text), Err(ImageError::CodecFailure));
    let unknown = Some("xyz".to_string());
    assert_eq!(to_ppm_by_extension(&unknown, &png), Err(ImageError::CodecFailure));
    let empty = Some(String::new());
    assert_eq!(to_ppm_by_extension(&empty, &png), Err(ImageError::CodecFailure));
}

#[test]
fn a_file_is_encoded_for_a_kind() {
    let binary = b"P6\n1 1\n255\n\x01\x02\x03".to_vec();
    let png = encode_for(&binary, ImageKind::Png).unwrap();
    assert_eq!(&png[..8], b"\x89PNG\r\n\x1a\n");
    assert_eq!(to_ppm("a.png", &png), Ok(binary.clone()));
    let jpeg = encode_for(&binary, ImageKind::Jpeg).unwrap();
    assert_eq!(&jpeg[..2], b"\xff\xd8");
    let bmp = encode_for(&png, ImageKind::Bmp).unwrap();
    assert_eq!(&bmp[..2], b"BM");
    assert_eq!(encode_for(b"junk", ImageKind::Png), Err(ImageError::CodecFailure));
    assert_eq!(encode_for(&binary, ImageKind::Pcx), Err(ImageError::CodecFailure));
}

#[test]
fn convert_goes_by_both_extensions() {
    let binary = b"P6\n1 1\n255\n\x01\x02\x03".to_vec();
    let png = ppm_bytes_to_img(&binary, "a.png").unwrap();
    // the contents are decoded by the extension of the input, not by a guess
    assert_eq!(convert("a.bmp", &png, "b.png"), Err(ImageError::CodecFailure));
    assert_eq!(convert("a", &png, "b.png"), Err(ImageError::CodecFailure));
    assert_eq!(convert("a.png", &png, "b.xyz"), Err(ImageError::UnknownExtension));
    assert_eq!(convert("a.ppm", b"junk", "b.xyz"), Err(ImageError::UnknownExtension));
    assert_eq!(convert("a.ppm", b"junk", "b.png"), Err(ImageError::FormatError));
    assert_eq!(convert("a.PPM", b"junk", "b.png"), Err(ImageError::CodecFailure));
    assert_eq!(convert("a.png", &png, "b.pcx"), Err(ImageError::CodecFailure));
    let same = convert("a.png", &png, "b.PNG").unwrap();
    assert_eq!(to_ppm("b.png", &same), Ok(binary.clone()));
    let from_native = convert("a.ppm", &binary, "b.png").unwrap();
    assert_eq!(to_ppm("b.png", &from_native), Ok(binary.clone()));
}

#[test]
fn what_the_encoder_gave_is_handed_back() {
    assert_eq!(encoded_file(Some(vec![1, 2, 3])), Ok(vec![1, 2, 3]));
    assert_eq!(encoded_file(Some(vec![])), Ok(vec![]));
    assert_eq!(encoded_file(None), Err(ImageError::CodecFailure));
}
