use png2webp::exif::{encode_utf16, exif};
use png2webp::image::{
    append_chunk, assemble, exif_id, vp8_id, vp8l_id, vp8x_chunk, vp8x_id, webp_id, ChunkId,
    ConvertError, DataChunk,
};

#[test]
fn test_ids() {
    assert_eq!(webp_id().as_str(), "WEBP");
    assert_eq!(vp8_id().as_str(), "VP8 ");
    assert_eq!(vp8l_id().as_str(), "VP8L");
    assert_eq!(vp8x_id().as_str(), "VP8X");
    assert_eq!(exif_id().as_str(), "EXIF");
}

#[test]
fn exif_block_hello() {
    let b = exif("hello");
    let expected: Vec<u8> = vec![
        0x4D, 0x4D, 0x00, 0x2A, // big-endian TIFF header, magic 42
        0x00, 0x00, 0x00, 0x08, // IFD0 at offset 8
        0x00, 0x01, // one entry
        0x87, 0x69, 0x00, 0x04, 0x00, 0x00, 0x00, 0x01, 0x00, 0x00, 0x00, 0x1A,
        0x00, 0x00, 0x00, 0x00, // no next IFD
        0x00, 0x01, // Exif IFD at 26: one entry
        0x92, 0x86, 0x00, 0x07, // UserComment, UNDEFINED
        0x00, 0x00, 0x00, 0x12, // count: 8 + 2 * 5
        0x00, 0x00, 0x00, 0x2C, // value offset: 44
        0x00, 0x00, 0x00, 0x00, // no next IFD
        0x55, 0x4E, 0x49, 0x43, 0x4F, 0x44, 0x45, 0x00, // "UNICODE\0"
        0x00, 0x68, 0x00, 0x65, 0x00, 0x6C, 0x00, 0x6C, 0x00, 0x6F, // UTF-16BE "hello"
    ];
    assert_eq!(b, expected);
}

#[test]
fn exif_block_empty_string() {
    let b = exif("");
    assert_eq!(b.len(), 52);
    assert_eq!(&b[0..8], &[0x4D, 0x4D, 0x00, 0x2A, 0x00, 0x00, 0x00, 0x08]);
    assert_eq!(&b[32..36], &[0x00, 0x00, 0x00, 0x08]); // count: marker only
    assert_eq!(&b[44..52], &[0x55, 0x4E, 0x49, 0x43, 0x4F, 0x44, 0x45, 0x00]);
}

#[test]
fn utf16_encoding_cases() {
    assert_eq!(encode_utf16(""), Vec::<u8>::new());
    assert_eq!(encode_utf16("A"), vec![0x00, 0x41]);
    assert_eq!(encode_utf16("\u{E9}"), vec![0x00, 0xE9]);
    // outside the basic plane: a surrogate pair
    assert_eq!(encode_utf16("\u{1D11E}"), vec![0xD8, 0x34, 0xDD, 0x1E]);
    assert_eq!(
        encode_utf16("h\u{1D11E}i"),
        vec![0x00, 0x68, 0xD8, 0x34, 0xDD, 0x1E, 0x00, 0x69]
    );
}

#[test]
fn vp8x_chunk_4x4() {
    let c = vp8x_chunk(4, 4);
    assert_eq!(c.id.as_str(), "VP8X");
    assert_eq!(
        c.data,
        vec![0x08, 0x00, 0x00, 0x00, 0x03, 0x00, 0x00, 0x03, 0x00, 0x00]
    );
}

#[test]
fn vp8x_chunk_dimension_encoding() {
    let c = vp8x_chunk(0x1000000, 1);
    assert_eq!(
        c.data,
        vec![0x08, 0x00, 0x00, 0x00, 0xFF, 0xFF, 0xFF, 0x00, 0x00, 0x00]
    );
    let c = vp8x_chunk(2, 3);
    assert_eq!(
        c.data,
        vec![0x08, 0x00, 0x00, 0x00, 0x01, 0x00, 0x00, 0x02, 0x00, 0x00]
    );
}

#[test]
fn chunk_even_payload_no_pad() {
    let mut out: Vec<u8> = Vec::new();
    let c = DataChunk { id: ChunkId { value: [0x41, 0x42, 0x43, 0x44] }, data: vec![1, 2] };
    append_chunk(&mut out, &c).unwrap();
    assert_eq!(out, vec![0x41, 0x42, 0x43, 0x44, 2, 0, 0, 0, 1, 2]);
}

#[test]
fn chunk_odd_payload_single_zero_pad() {
    let mut out: Vec<u8> = Vec::new();
    let c = DataChunk { id: ChunkId { value: [0x41, 0x42, 0x43, 0x44] }, data: vec![1, 2, 3] };
    append_chunk(&mut out, &c).unwrap();
    // the length field holds 3, not 4; one zero pad byte follows
    assert_eq!(out, vec![0x41, 0x42, 0x43, 0x44, 3, 0, 0, 0, 1, 2, 3, 0]);
}

fn fake_webp(inner: &[u8]) -> Vec<u8> {
    let mut v: Vec<u8> = b"RIFF".to_vec();
    let total: u32 = 4 + inner.len() as u32;
    v.extend_from_slice(&total.to_le_bytes());
    v.extend_from_slice(b"WEBP");
    v.extend_from_slice(inner);
    v
}

#[test]
fn assemble_splices_three_chunks() {
    // a fabricated encoder container holding one VP8L chunk
    let mut inner: Vec<u8> = b"VP8L".to_vec();
    inner.extend_from_slice(&2u32.to_le_bytes());
    inner.extend_from_slice(&[0xAA, 0xBB]);
    let src = fake_webp(&inner);

    let out = assemble(&src, 2, 3, "hi").unwrap();

    let exif_block = exif("hi");
    let mut expected: Vec<u8> = b"RIFF".to_vec();
    let chunks_len: u32 = 18 + 10 + 8 + exif_block.len() as u32; // VP8X + VP8L + EXIF wire sizes
    expected.extend_from_slice(&(4 + chunks_len).to_le_bytes());
    expected.extend_from_slice(b"WEBP");
    expected.extend_from_slice(b"VP8X");
    expected.extend_from_slice(&10u32.to_le_bytes());
    expected.extend_from_slice(&[0x08, 0, 0, 0, 0x01, 0, 0, 0x02, 0, 0]);
    expected.extend_from_slice(b"VP8L");
    expected.extend_from_slice(&2u32.to_le_bytes());
    expected.extend_from_slice(&[0xAA, 0xBB]);
    expected.extend_from_slice(b"EXIF");
    expected.extend_from_slice(&(exif_block.len() as u32).to_le_bytes());
    expected.extend_from_slice(&exif_block);
    assert_eq!(out, expected);
}

#[test]
fn assemble_pads_odd_bitstream() {
    let mut inner: Vec<u8> = b"VP8 ".to_vec();
    inner.extend_from_slice(&3u32.to_le_bytes());
    inner.extend_from_slice(&[1, 2, 3, 0]); // payload plus its pad
    let src = fake_webp(&inner);

    let out = assemble(&src, 1, 1, "").unwrap();
    // locate the bitstream chunk in the output: after RIFF header (12) and VP8X (18)
    assert_eq!(&out[30..34], b"VP8 ");
    assert_eq!(&out[34..38], &3u32.to_le_bytes());
    assert_eq!(&out[38..42], &[1, 2, 3, 0]); // length 3, one zero pad
    assert_eq!(&out[42..46], b"EXIF");
}

#[test]
fn assemble_without_bitstream_chunk() {
    let mut inner: Vec<u8> = b"ABCD".to_vec();
    inner.extend_from_slice(&2u32.to_le_bytes());
    inner.extend_from_slice(&[9, 9]);
    let src = fake_webp(&inner);
    assert_eq!(
        assemble(&src, 1, 1, "x").unwrap_err(),
        ConvertError::UnsupportedBitstreamFormat
    );
}

#[test]
fn assemble_truncated_container() {
    // the outer length promises more bytes than the stream holds
    let mut v: Vec<u8> = b"RIFF".to_vec();
    v.extend_from_slice(&100u32.to_le_bytes());
    v.extend_from_slice(b"WEBP");
    v.extend_from_slice(b"VP");
    assert_eq!(
        assemble(&v, 1, 1, "x").unwrap_err(),
        ConvertError::ContainerParse
    );
}

#[test]
fn assemble_too_short_container() {
    let v: Vec<u8> = vec![0x52, 0x49];
    assert_eq!(
        assemble(&v, 1, 1, "x").unwrap_err(),
        ConvertError::ContainerParse
    );
}
