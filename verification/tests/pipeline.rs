//! Runs the whole pipeline on hand-built source images, with the real
//! codecs linked.

use png2webp::image::{convert, parameters, ConvertError};

fn crc32(data: &[u8]) -> u32 {
    let mut crc: u32 = 0xFFFF_FFFF;
    for &b in data {
        crc ^= b as u32;
        for _ in 0..8 {
            crc = if crc & 1 != 0 { 0xEDB8_8320 ^ (crc >> 1) } else { crc >> 1 };
        }
    }
    crc ^ 0xFFFF_FFFF
}

fn adler32(data: &[u8]) -> u32 {
    let mut a: u32 = 1;
    let mut b: u32 = 0;
    for &x in data {
        a = (a + x as u32) % 65521;
        b = (b + a) % 65521;
    }
    (b << 16) | a
}

fn png_chunk(out: &mut Vec<u8>, kind: &[u8; 4], data: &[u8]) {
    out.extend_from_slice(&(data.len() as u32).to_be_bytes());
    out.extend_from_slice(kind);
    out.extend_from_slice(data);
    let mut crc_input: Vec<u8> = kind.to_vec();
    crc_input.extend_from_slice(data);
    out.extend_from_slice(&crc32(&crc_input).to_be_bytes());
}

/// zlib stream of stored (uncompressed) deflate blocks.
fn zlib_stored(raw: &[u8]) -> Vec<u8> {
    let mut z: Vec<u8> = vec![0x78, 0x01];
    let parts: Vec<&[u8]> = if raw.is_empty() { vec![&raw[..]] } else { raw.chunks(65535).collect() };
    for (i, part) in parts.iter().enumerate() {
        let last = i == parts.len() - 1;
        z.push(if last { 1 } else { 0 });
        z.extend_from_slice(&(part.len() as u16).to_le_bytes());
        z.extend_from_slice(&(!(part.len() as u16)).to_le_bytes());
        z.extend_from_slice(part);
    }
    z.extend_from_slice(&adler32(raw).to_be_bytes());
    z
}

/// A valid eight-bit RGBA source image with the given text chunks.
fn make_png(w: u32, h: u32, texts: &[(&str, &[u8])]) -> Vec<u8> {
    let mut out: Vec<u8> = vec![0x89, 0x50, 0x4E, 0x47, 0x0D, 0x0A, 0x1A, 0x0A];
    let mut ihdr: Vec<u8> = Vec::new();
    ihdr.extend_from_slice(&w.to_be_bytes());
    ihdr.extend_from_slice(&h.to_be_bytes());
    ihdr.extend_from_slice(&[8, 6, 0, 0, 0]);
    png_chunk(&mut out, b"IHDR", &ihdr);
    for (k, v) in texts {
        let mut t: Vec<u8> = k.as_bytes().to_vec();
        t.push(0);
        t.extend_from_slice(v);
        png_chunk(&mut out, b"tEXt", &t);
    }
    let mut raw: Vec<u8> = Vec::new();
    for y in 0..h {
        raw.push(0);
        for x in 0..w {
            raw.extend_from_slice(&[(x * 40) as u8, (y * 30) as u8, 200, 255]);
        }
    }
    png_chunk(&mut out, b"IDAT", &zlib_stored(&raw));
    png_chunk(&mut out, b"IEND", &[]);
    out
}

/// The payload of the first chunk with the given identifier, walking the
/// output container from offset 12.
fn find_chunk(container: &[u8], id: &[u8; 4]) -> Option<Vec<u8>> {
    assert_eq!(&container[0..4], b"RIFF");
    assert_eq!(&container[8..12], b"WEBP");
    let total = u32::from_le_bytes(container[4..8].try_into().unwrap()) as usize;
    assert_eq!(8 + total, container.len());
    let mut cur: usize = 12;
    while cur + 8 <= container.len() {
        let clen = u32::from_le_bytes(container[cur + 4..cur + 8].try_into().unwrap()) as usize;
        if &container[cur..cur + 4] == id {
            return Some(container[cur + 8..cur + 8 + clen].to_vec());
        }
        cur += 8 + clen + clen % 2;
    }
    None
}

/// The encoder's own container for the source, produced without the
/// library: the reference for the fallback path.
fn raw_encode(data: &[u8]) -> Vec<u8> {
    let mut d = png::Decoder::new(std::io::Cursor::new(data));
    let t = png::Transformations::EXPAND | png::Transformations::ALPHA;
    d.set_transformations(t | png::Transformations::STRIP_16);
    let mut r = d.read_info().unwrap();
    let mut buf = vec![0u8; r.output_buffer_size()];
    let info = r.next_frame(&mut buf).unwrap();
    buf.truncate(info.buffer_size());
    let mem = webp::Encoder::from_rgba(&buf, info.width, info.height).encode_lossless();
    mem.to_vec()
}

#[test]
fn annotated_2x3_carries_comment() {
    let data = make_png(2, 3, &[("parameters", b"hello")]);
    let out = convert(&data).unwrap();

    let vp8x = find_chunk(&out, b"VP8X").unwrap();
    assert_eq!(vp8x, vec![0x08, 0, 0, 0, 0x01, 0, 0, 0x02, 0, 0]);

    let exif = find_chunk(&out, b"EXIF").unwrap();
    assert_eq!(&exif[0..8], &[0x4D, 0x4D, 0x00, 0x2A, 0x00, 0x00, 0x00, 0x08]);
    assert_eq!(&exif[44..52], &[0x55, 0x4E, 0x49, 0x43, 0x4F, 0x44, 0x45, 0x00]);
    assert_eq!(
        &exif[52..62],
        &[0x00, 0x68, 0x00, 0x65, 0x00, 0x6C, 0x00, 0x6C, 0x00, 0x6F]
    );
    assert_eq!(exif.len(), 62);
}

#[test]
fn annotated_output_keeps_bitstream() {
    let data = make_png(2, 3, &[("parameters", b"hello")]);
    let out = convert(&data).unwrap();
    let raw = raw_encode(&data);
    // the bitstream chunk of the encoder's own container, relocated unchanged
    let tag: [u8; 4] = raw[12..16].try_into().unwrap();
    assert!(&tag == b"VP8L" || &tag == b"VP8 ");
    let expected = find_chunk(&raw, &tag).unwrap();
    assert_eq!(find_chunk(&out, &tag).unwrap(), expected);
}

#[test]
fn fallback_is_encoder_output_verbatim() {
    let data = make_png(2, 3, &[]);
    let out = convert(&data).unwrap();
    assert_eq!(out, raw_encode(&data));
}

#[test]
fn unrelated_keyword_is_fallback() {
    let data = make_png(2, 3, &[("comment", b"hello")]);
    let out = convert(&data).unwrap();
    assert_eq!(out, raw_encode(&data));
}

#[test]
fn conversion_is_deterministic() {
    let data = make_png(3, 2, &[("parameters", b"twice")]);
    assert_eq!(convert(&data).unwrap(), convert(&data).unwrap());
    let plain = make_png(3, 2, &[]);
    assert_eq!(convert(&plain).unwrap(), convert(&plain).unwrap());
}

#[test]
fn parameters_first_match_wins() {
    let data = make_png(1, 1, &[("parameters", b"first"), ("parameters", b"second")]);
    assert_eq!(parameters(&data).unwrap(), Some("first".to_string()));
}

#[test]
fn parameters_absent() {
    let data = make_png(1, 1, &[("other", b"x")]);
    assert_eq!(parameters(&data).unwrap(), None);
}

#[test]
fn parameters_malformed_source() {
    let data: Vec<u8> = vec![1, 2, 3, 4];
    assert_eq!(parameters(&data).unwrap_err(), ConvertError::SourceDecode);
}

#[test]
fn convert_malformed_source() {
    let data: Vec<u8> = b"not an image at all".to_vec();
    assert_eq!(convert(&data).unwrap_err(), ConvertError::SourceDecode);
}

#[test]
fn convert_rejects_oversized_dimension() {
    let data = make_png(16384, 1, &[]);
    assert_eq!(
        convert(&data).unwrap_err(),
        ConvertError::UnsupportedDimensions
    );
}

#[test]
fn annotation_with_non_ascii_text() {
    let data = make_png(1, 1, &[("parameters", b"caf\xE9")]);
    let out = convert(&data).unwrap();
    let exif = find_chunk(&out, b"EXIF").unwrap();
    assert_eq!(&exif[52..60], &[0x00, 0x63, 0x00, 0x61, 0x00, 0x66, 0x00, 0xE9]);
}
