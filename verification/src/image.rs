//! The chunked-container pipeline: decode the source image, encode its
//! pixels losslessly through the external codec, and — when the source
//! carries a `parameters` text annotation — splice the encoder's output
//! into a new container holding an extended-format header chunk, the
//! untouched bitstream chunk, and an EXIF chunk built from the annotation.
//!
//! Each chunk is laid out as: 4-byte identifier, 32-bit little-endian
//! payload length, the payload, and one zero pad byte when the payload
//! length is odd (the pad is never counted in the length field).

use crate::bytes::{le24_bytes, le24_val, le32_bytes, le32_val, push_le24, push_le32};
use crate::exif::exif_bytes;
use vstd::prelude::*;

verus! {

/// A four-byte chunk identifier.
pub struct ChunkId {
    pub value: [u8; 4],
}

impl ChunkId {
    /// Relies on str::from_utf8: ASCII bytes decode to exactly those
    /// characters.
    #[verifier::external_body]
    pub fn as_str(&self) -> (r: String)
        requires
            forall|i: int| 0 <= i < 4 ==> self.value[i] < 0x80,
        ensures
            r@.len() == 4,
            forall|i: int| 0 <= i < 4 ==> r@[i] == self.value[i] as char,
    {
        std::str::from_utf8(&self.value).unwrap_or("").to_string()
    }
}

pub open spec fn riff_id_bytes() -> Seq<u8> {
    seq![0x52u8, 0x49u8, 0x46u8, 0x46u8]
}

pub open spec fn webp_id_bytes() -> Seq<u8> {
    seq![0x57u8, 0x45u8, 0x42u8, 0x50u8]
}

pub open spec fn vp8_id_bytes() -> Seq<u8> {
    seq![0x56u8, 0x50u8, 0x38u8, 0x20u8]
}

pub open spec fn vp8l_id_bytes() -> Seq<u8> {
    seq![0x56u8, 0x50u8, 0x38u8, 0x4Cu8]
}

pub open spec fn vp8x_id_bytes() -> Seq<u8> {
    seq![0x56u8, 0x50u8, 0x38u8, 0x58u8]
}

pub open spec fn exif_id_bytes() -> Seq<u8> {
    seq![0x45u8, 0x58u8, 0x49u8, 0x46u8]
}

pub fn webp_id() -> (r: ChunkId)
    ensures
        r.value@ == webp_id_bytes(),
        forall|i: int| 0 <= i < 4 ==> r.value[i] < 0x80,
{
    let r = ChunkId { value: [0x57, 0x45, 0x42, 0x50] };
    proof {
        assert(r.value@ =~= webp_id_bytes());
    }
    r
}

pub fn vp8_id() -> (r: ChunkId)
    ensures
        r.value@ == vp8_id_bytes(),
        forall|i: int| 0 <= i < 4 ==> r.value[i] < 0x80,
{
    let r = ChunkId { value: [0x56, 0x50, 0x38, 0x20] };
    proof {
        assert(r.value@ =~= vp8_id_bytes());
    }
    r
}

pub fn vp8l_id() -> (r: ChunkId)
    ensures
        r.value@ == vp8l_id_bytes(),
        forall|i: int| 0 <= i < 4 ==> r.value[i] < 0x80,
{
    let r = ChunkId { value: [0x56, 0x50, 0x38, 0x4C] };
    proof {
        assert(r.value@ =~= vp8l_id_bytes());
    }
    r
}

pub fn vp8x_id() -> (r: ChunkId)
    ensures
        r.value@ == vp8x_id_bytes(),
        forall|i: int| 0 <= i < 4 ==> r.value[i] < 0x80,
{
    let r = ChunkId { value: [0x56, 0x50, 0x38, 0x58] };
    proof {
        assert(r.value@ =~= vp8x_id_bytes());
    }
    r
}

pub fn exif_id() -> (r: ChunkId)
    ensures
        r.value@ == exif_id_bytes(),
        forall|i: int| 0 <= i < 4 ==> r.value[i] < 0x80,
{
    let r = ChunkId { value: [0x45, 0x58, 0x49, 0x46] };
    proof {
        assert(r.value@ =~= exif_id_bytes());
    }
    r
}

/// Why a conversion failed.
#[derive(Clone, Copy, Debug, PartialEq, Eq, Structural)]
pub enum ConvertError {
    /// The source bytes cannot be parsed as a valid image.
    SourceDecode,
    /// The encoder's container holds no recognized bitstream chunk.
    UnsupportedBitstreamFormat,
    /// The encoder's container is structurally malformed.
    ContainerParse,
    /// A dimension exceeds what the encoder accepts.
    UnsupportedDimensions,
    /// A length field of the output container would overflow.
    OutputTooLarge,
}

/// A leaf chunk: an identifier and its payload bytes.
pub struct DataChunk {
    pub id: ChunkId,
    pub data: Vec<u8>,
}

pub open spec fn chunk_view(c: DataChunk) -> (Seq<u8>, Seq<u8>) {
    (c.id.value@, c.data@)
}

/// The on-wire bytes of one chunk.
pub open spec fn chunk_wire(id: Seq<u8>, data: Seq<u8>) -> Seq<u8>
    recommends
        id.len() == 4,
        data.len() <= u32::MAX,
{
    id + le32_bytes(data.len() as u32) + data + (if data.len() % 2 == 1 {
        seq![0u8]
    } else {
        Seq::<u8>::empty()
    })
}

/// The on-wire bytes of a run of chunks.
pub open spec fn chunks_wire(cs: Seq<(Seq<u8>, Seq<u8>)>) -> Seq<u8>
    decreases cs.len(),
{
    if cs.len() == 0 {
        Seq::empty()
    } else {
        chunk_wire(cs[0].0, cs[0].1) + chunks_wire(cs.drop_first())
    }
}

/// The complete container: outer identifier, outer length (the inner
/// format tag plus every chunk's on-wire size), inner format tag, chunks.
pub open spec fn container_wire(cs: Seq<(Seq<u8>, Seq<u8>)>) -> Seq<u8> {
    riff_id_bytes() + le32_bytes((4 + chunks_wire(cs).len()) as u32) + webp_id_bytes()
        + chunks_wire(cs)
}

pub proof fn lemma_chunks_wire_append(a: Seq<(Seq<u8>, Seq<u8>)>, b: Seq<(Seq<u8>, Seq<u8>)>)
    ensures
        chunks_wire(a + b) == chunks_wire(a) + chunks_wire(b),
    decreases a.len(),
{
    if a.len() == 0 {
        assert(a + b =~= b);
        assert(chunks_wire(a) + chunks_wire(b) =~= chunks_wire(b));
    } else {
        assert((a + b).drop_first() =~= a.drop_first() + b);
        lemma_chunks_wire_append(a.drop_first(), b);
        assert(chunk_wire(a[0].0, a[0].1) + (chunks_wire(a.drop_first()) + chunks_wire(b))
            =~= chunks_wire(a) + chunks_wire(b));
    }
}

pub proof fn lemma_chunks_wire_singleton(c: (Seq<u8>, Seq<u8>))
    ensures
        chunks_wire(seq![c]) == chunk_wire(c.0, c.1),
{
    assert(seq![c].drop_first() =~= Seq::<(Seq<u8>, Seq<u8>)>::empty());
    assert(chunks_wire(Seq::<(Seq<u8>, Seq<u8>)>::empty()) =~= Seq::<u8>::empty());
    assert(chunks_wire(seq![c]) =~= chunk_wire(c.0, c.1));
}

/// The emitted chunk's length field always equals the payload's length:
/// an even payload gets no pad byte, an odd one gets a single zero pad
/// byte that the length field does not count.
pub proof fn lemma_chunk_wire_length(id: Seq<u8>, data: Seq<u8>)
    requires
        id.len() == 4,
        data.len() <= u32::MAX,
    ensures
        ({
            let w = chunk_wire(id, data);
            &&& le32_val(w.subrange(4, 8)) == data.len()
            &&& data.len() % 2 == 0 ==> w == id + le32_bytes(data.len() as u32) + data
            &&& data.len() % 2 == 0 ==> w.len() == 8 + data.len()
            &&& data.len() % 2 == 1 ==> w.len() == 9 + data.len() && w[w.len() - 1] == 0
            &&& w.subrange(8, 8 + data.len() as int) == data
        }),
{
    let w = chunk_wire(id, data);
    crate::bytes::lemma_le32_round(data.len() as u32);
    assert(w.subrange(4, 8) =~= le32_bytes(data.len() as u32));
    assert(w.subrange(8, 8 + data.len() as int) =~= data);
    if data.len() % 2 == 0 {
        assert(w =~= id + le32_bytes(data.len() as u32) + data);
    }
}

/// The extended-format header payload: a flags byte declaring EXIF
/// metadata present and nothing else, three reserved zero bytes, then
/// `width - 1` and `height - 1` as 24-bit little-endian fields.
pub open spec fn vp8x_payload(w: u32, h: u32) -> Seq<u8>
    recommends
        1 <= w <= 0x1000000,
        1 <= h <= 0x1000000,
{
    seq![8u8, 0u8, 0u8, 0u8] + le24_bytes((w - 1) as u32) + le24_bytes((h - 1) as u32)
}

/// Creates the extended-format header chunk for the given dimensions.
pub fn vp8x_chunk(w: u32, h: u32) -> (r: DataChunk)
    requires
        1 <= w <= 0x1000000,
        1 <= h <= 0x1000000,
    ensures
        r.id.value@ == vp8x_id_bytes(),
        r.data@ == vp8x_payload(w, h),
{
    let mut data: Vec<u8> = Vec::new();
    data.push(8);
    data.push(0);
    data.push(0);
    data.push(0);
    push_le24(&mut data, w - 1);
    push_le24(&mut data, h - 1);
    proof {
        assert(data@ =~= vp8x_payload(w, h));
    }
    DataChunk { id: vp8x_id(), data }
}

/// The dimension fields of the extended-format header decode back to the
/// dimensions they were built from.
pub proof fn lemma_vp8x_round_trip(w: u32, h: u32)
    requires
        1 <= w <= 0x1000000,
        1 <= h <= 0x1000000,
    ensures
        vp8x_payload(w, h).len() == 10,
        le24_val(vp8x_payload(w, h).subrange(4, 7)) == w - 1,
        le24_val(vp8x_payload(w, h).subrange(7, 10)) == h - 1,
{
    crate::bytes::lemma_le24_round((w - 1) as u32);
    crate::bytes::lemma_le24_round((h - 1) as u32);
    assert(vp8x_payload(w, h).subrange(4, 7) =~= le24_bytes((w - 1) as u32));
    assert(vp8x_payload(w, h).subrange(7, 10) =~= le24_bytes((h - 1) as u32));
}

/// Creates the EXIF chunk holding the given comment.
pub fn exif_chunk(comment: &str) -> (r: DataChunk)
    ensures
        r.id.value@ == exif_id_bytes(),
        r.data@ == exif_bytes(comment@),
{
    DataChunk { id: exif_id(), data: crate::exif::exif(comment) }
}

/// Appends one chunk's on-wire bytes; refuses a payload whose length
/// cannot be stored in the 32-bit length field.
pub fn append_chunk(out: &mut Vec<u8>, c: &DataChunk) -> (r: Result<(), ConvertError>)
    ensures
        r is Ok <==> c.data@.len() <= u32::MAX,
        r is Ok ==> final(out)@ == old(out)@ + chunk_wire(c.id.value@, c.data@),
        r is Err ==> final(out)@ == old(out)@ && r->Err_0 == ConvertError::OutputTooLarge,
{
    if c.data.len() as u64 > 0xFFFF_FFFFu64 {
        return Err(ConvertError::OutputTooLarge);
    }
    out.push(c.id.value[0]);
    out.push(c.id.value[1]);
    out.push(c.id.value[2]);
    out.push(c.id.value[3]);
    push_le32(out, c.data.len() as u32);
    let mut j: usize = 0;
    while j < c.data.len()
        invariant
            j <= c.data@.len(),
            c.data@.len() <= u32::MAX,
            out@ == old(out)@ + c.id.value@ + le32_bytes(c.data@.len() as u32) + c.data@.take(
                j as int,
            ),
        decreases c.data@.len() - j,
    {
        let b = c.data[j];
        out.push(b);
        proof {
            assert(c.data@.take(j + 1) =~= c.data@.take(j as int).push(c.data@[j as int]));
        }
        j = j + 1;
    }
    proof {
        assert(c.data@.take(c.data@.len() as int) =~= c.data@);
    }
    if c.data.len() % 2 == 1 {
        out.push(0);
    }
    proof {
        assert(out@ =~= old(out)@ + chunk_wire(c.id.value@, c.data@));
    }
    Ok(())
}

/// Writes the complete container for the given chunks; refuses payloads
/// or a total that the 32-bit length fields cannot store.
pub fn write_container(chunks: &Vec<DataChunk>) -> (r: Result<Vec<u8>, ConvertError>)
    ensures
        ({
            let cs = chunks@.map_values(|c: DataChunk| chunk_view(c));
            &&& r is Ok <==> ((forall|i: int| 0 <= i < cs.len() ==> (#[trigger] cs[i].1).len()
                <= u32::MAX) && 4 + chunks_wire(cs).len() <= u32::MAX)
            &&& r is Ok ==> r->Ok_0@ == container_wire(cs)
            &&& r is Err ==> r->Err_0 == ConvertError::OutputTooLarge
        }),
{
    let ghost cs = chunks@.map_values(|c: DataChunk| chunk_view(c));
    let mut body: Vec<u8> = Vec::new();
    let mut i: usize = 0;
    proof {
        assert(cs.take(0) =~= Seq::<(Seq<u8>, Seq<u8>)>::empty());
        assert(chunks_wire(cs.take(0)) =~= Seq::<u8>::empty());
    }
    while i < chunks.len()
        invariant
            i <= chunks@.len(),
            cs == chunks@.map_values(|c: DataChunk| chunk_view(c)),
            body@ == chunks_wire(cs.take(i as int)),
            forall|j: int| 0 <= j < i ==> (#[trigger] cs[j].1).len() <= u32::MAX,
        decreases chunks@.len() - i,
    {
        let r = append_chunk(&mut body, &chunks[i]);
        proof {
            assert(cs.take(i + 1) =~= cs.take(i as int) + seq![cs[i as int]]);
            lemma_chunks_wire_append(cs.take(i as int), seq![cs[i as int]]);
            lemma_chunks_wire_singleton(cs[i as int]);
        }
        match r {
            Ok(()) => {},
            Err(e) => {
                return Err(e);
            },
        }
        i = i + 1;
    }
    proof {
        assert(cs.take(cs.len() as int) =~= cs);
    }
    if body.len() as u64 > 0xFFFF_FFFFu64 - 4 {
        return Err(ConvertError::OutputTooLarge);
    }
    let total: u32 = body.len() as u32 + 4;
    let mut out: Vec<u8> = Vec::new();
    out.push(0x52);
    out.push(0x49);
    out.push(0x46);
    out.push(0x46);
    push_le32(&mut out, total);
    out.push(0x57);
    out.push(0x45);
    out.push(0x42);
    out.push(0x50);
    let mut b = body;
    out.append(&mut b);
    proof {
        assert(out@ =~= container_wire(cs));
    }
    Ok(out)
}

// ----------------------------------------------------------------------
// Locating the bitstream chunk inside the external encoder's container.

/// Walks the chunks of the encoder's container from offset 12 (past the
/// outer header and the inner format tag), looking for the first chunk
/// whose identifier names one of the two recognized bitstream formats.
pub open spec fn scan_bitstream(d: Seq<u8>, cur: int, end: int) -> Result<
    (Seq<u8>, Seq<u8>),
    ConvertError,
>
    decreases (if cur <= d.len() {
        d.len() - cur
    } else {
        0
    }),
{
    if cur >= end {
        Err(ConvertError::UnsupportedBitstreamFormat)
    } else if cur + 8 > d.len() {
        Err(ConvertError::ContainerParse)
    } else {
        let id = d.subrange(cur, cur + 4);
        let clen = le32_val(d.subrange(cur + 4, cur + 8));
        if id == vp8_id_bytes() || id == vp8l_id_bytes() {
            if cur + 8 + clen <= d.len() {
                Ok((id, d.subrange(cur + 8, cur + 8 + clen)))
            } else {
                Err(ConvertError::ContainerParse)
            }
        } else {
            scan_bitstream(d, cur + 8 + clen + clen % 2, end)
        }
    }
}

/// The first recognized bitstream chunk of the encoder's container: its
/// identifier and payload; an error when the container is too short,
/// truncated, or holds no recognized bitstream chunk.
pub open spec fn find_bitstream(d: Seq<u8>) -> Result<(Seq<u8>, Seq<u8>), ConvertError> {
    if d.len() < 8 {
        Err(ConvertError::ContainerParse)
    } else {
        scan_bitstream(d, 12, 4 + le32_val(d.subrange(4, 8)))
    }
}

/// Reads a 32-bit little-endian field.
pub fn read_le32(v: &Vec<u8>, pos: usize) -> (r: u32)
    requires
        pos + 4 <= v@.len(),
    ensures
        r == le32_val(v@.subrange(pos as int, pos as int + 4)),
{
    // materializes the vector's length, which bounds `pos + 3` within usize
    let l = v.len();
    let b0 = v[pos] as u32;
    let b1 = v[pos + 1] as u32;
    let b2 = v[pos + 2] as u32;
    let b3 = v[pos + 3] as u32;
    b0 + 0x100 * b1 + 0x10000 * b2 + 0x1000000 * b3
}

/// Copies `len` bytes starting at `start`.
fn copy_range(v: &Vec<u8>, start: usize, len: usize) -> (r: Vec<u8>)
    requires
        start + len <= v@.len(),
    ensures
        r@ == v@.subrange(start as int, start as int + len as int),
{
    // materializes the vector's length, which bounds `start + j` within usize
    let l = v.len();
    let mut r: Vec<u8> = Vec::new();
    let mut j: usize = 0;
    while j < len
        invariant
            j <= len,
            start + len <= v@.len(),
            v@.len() == l,
            r@ == v@.subrange(start as int, start as int + j as int),
        decreases len - j,
    {
        let b = v[start + j];
        r.push(b);
        proof {
            assert(v@.subrange(start as int, start as int + j + 1) =~= v@.subrange(
                start as int,
                start as int + j,
            ).push(v@[start as int + j]));
        }
        j = j + 1;
    }
    r
}

/// Finds the first recognized bitstream chunk of the encoder's container
/// and returns its identifier and a copy of its payload.
pub fn find_bitstream_chunk(data: &Vec<u8>) -> (r: Result<(ChunkId, Vec<u8>), ConvertError>)
    ensures
        (r is Ok) == (find_bitstream(data@) is Ok),
        r is Ok ==> r->Ok_0.0.value@ == find_bitstream(data@)->Ok_0.0 && r->Ok_0.1@
            == find_bitstream(data@)->Ok_0.1,
        r is Err ==> r->Err_0 == find_bitstream(data@)->Err_0,
{
    if data.len() < 8 {
        return Err(ConvertError::ContainerParse);
    }
    let total = read_le32(data, 4);
    let end: u128 = 4 + total as u128;
    let mut cur: u128 = 12;
    while cur < end
        invariant
            data@.len() >= 8,
            end == 4 + le32_val(data@.subrange(4, 8)),
            scan_bitstream(data@, cur as int, end as int) == find_bitstream(data@),
        decreases (if cur <= end { end - cur } else { 0 }),
    {
        if cur + 8 > data.len() as u128 {
            return Err(ConvertError::ContainerParse);
        }
        let c = cur as usize;
        let ghost idseq = data@.subrange(c as int, c as int + 4);
        proof {
            assert(idseq[0] == data@[c as int]);
            assert(idseq[1] == data@[c as int + 1]);
            assert(idseq[2] == data@[c as int + 2]);
            assert(idseq[3] == data@[c as int + 3]);
        }
        let clen = read_le32(data, c + 4);
        let is_vp8 = data[c] == 0x56 && data[c + 1] == 0x50 && data[c + 2] == 0x38 && data[c + 3]
            == 0x20;
        let is_vp8l = data[c] == 0x56 && data[c + 1] == 0x50 && data[c + 2] == 0x38 && data[c + 3]
            == 0x4C;
        proof {
            if is_vp8 {
                assert(idseq =~= vp8_id_bytes());
            } else {
                assert(idseq != vp8_id_bytes());
            }
            if is_vp8l {
                assert(idseq =~= vp8l_id_bytes());
            } else {
                assert(idseq != vp8l_id_bytes());
            }
        }
        if is_vp8 || is_vp8l {
            if (data.len() as u128) - (c as u128 + 8) >= clen as u128 {
                let payload = copy_range(data, c + 8, clen as usize);
                let id = if is_vp8 {
                    vp8_id()
                } else {
                    vp8l_id()
                };
                return Ok((id, payload));
            } else {
                return Err(ConvertError::ContainerParse);
            }
        }
        let pad: u128 = (clen % 2) as u128;
        cur = c as u128 + 8 + clen as u128 + pad;
    }
    Err(ConvertError::UnsupportedBitstreamFormat)
}

// ----------------------------------------------------------------------
// The external collaborators: the source decoder, the source's text
// metadata, and the lossless pixel encoder. Each is deterministic in its
// arguments, so each result is given a name that the wrappers' contracts
// speak of.

/// What decoding the source bytes to eight-bit RGBA yields: the pixel
/// buffer, width and height; nothing when the bytes do not decode.
pub uninterp spec fn png_pixels_of(data: Seq<u8>) -> Option<(Seq<u8>, u32, u32)>;

/// The source's uncompressed latin-1 text chunks, in stored order, each
/// a keyword and a text; nothing when the bytes do not parse.
pub uninterp spec fn png_texts_of(data: Seq<u8>) -> Option<Seq<(Seq<u8>, Seq<char>)>>;

/// The external encoder's lossless container for the given RGBA pixels.
pub uninterp spec fn webp_lossless_of(pixels: Seq<u8>, w: u32, h: u32) -> Seq<u8>;

/// Relies on png's `Decoder` and `Reader` (expanding to eight-bit RGBA):
/// decoding is a pure function of the source bytes; the decoder rejects
/// zero dimensions, and a decoded RGBA frame holds `4 * width * height`
/// bytes.
#[verifier::external_body]
fn decode_rgba(data: &Vec<u8>) -> (r: Result<(Vec<u8>, u32, u32), ConvertError>)
    ensures
        (r is Ok) == (png_pixels_of(data@) is Some),
        r is Ok ==> ({
            let t = png_pixels_of(data@)->Some_0;
            &&& r->Ok_0.0@ == t.0
            &&& r->Ok_0.1 == t.1
            &&& r->Ok_0.2 == t.2
            &&& t.1 >= 1
            &&& t.2 >= 1
            &&& t.0.len() == 4 * t.1 * t.2
        }),
        r is Err ==> r->Err_0 == ConvertError::SourceDecode,
{
    let mut d = png::Decoder::new(std::io::Cursor::new(data.as_slice()));
    let t = png::Transformations::EXPAND | png::Transformations::ALPHA;
    d.set_transformations(t | png::Transformations::STRIP_16);
    let mut reader = d.read_info().map_err(|_| ConvertError::SourceDecode)?;
    let mut buf = vec![0u8; reader.output_buffer_size()];
    let info = reader.next_frame(&mut buf).map_err(|_| ConvertError::SourceDecode)?;
    if info.color_type != png::ColorType::Rgba {
        return Err(ConvertError::SourceDecode);
    }
    buf.truncate(info.buffer_size());
    Ok((buf, info.width, info.height))
}

/// Relies on png's `Reader::info`: the source's uncompressed latin-1
/// text chunks in stored order; parsing is a pure function of the bytes.
#[verifier::external_body]
fn text_chunks(data: &Vec<u8>) -> (r: Result<Vec<(Vec<u8>, String)>, ConvertError>)
    ensures
        (r is Ok) == (png_texts_of(data@) is Some),
        r is Ok ==> ({
            let ts = png_texts_of(data@)->Some_0;
            &&& r->Ok_0@.len() == ts.len()
            &&& forall|k: int|
                0 <= k < ts.len() ==> ((#[trigger] r->Ok_0@[k]).0@, r->Ok_0@[k].1@) == ts[k]
        }),
        r is Err ==> r->Err_0 == ConvertError::SourceDecode,
{
    let d = png::Decoder::new(std::io::Cursor::new(data.as_slice()));
    let reader = d.read_info().map_err(|_| ConvertError::SourceDecode)?;
    let mut out = Vec::new();
    for c in &reader.info().uncompressed_latin1_text {
        out.push((c.keyword.clone().into_bytes(), c.text.clone()));
    }
    Ok(out)
}

/// Relies on webp's `Encoder::encode_lossless` (libwebp): lossless
/// encoding is a pure function of the pixel buffer and its dimensions.
/// libwebp takes dimensions up to 16383 and reads `4 * w * h` bytes.
#[verifier::external_body]
fn encode_lossless_rgba(pixels: &Vec<u8>, w: u32, h: u32) -> (r: Vec<u8>)
    requires
        pixels@.len() == 4 * w * h,
        1 <= w <= 16383,
        1 <= h <= 16383,
    ensures
        r@ == webp_lossless_of(pixels@, w, h),
{
    let mem = webp::Encoder::from_rgba(pixels.as_slice(), w, h).encode_lossless();
    mem.to_vec()
}

// ----------------------------------------------------------------------
// Reading the annotation.

/// The keyword under which the source stores its annotation.
pub open spec fn param_keyword() -> Seq<u8> {
    seq![0x70u8, 0x61u8, 0x72u8, 0x61u8, 0x6Du8, 0x65u8, 0x74u8, 0x65u8, 0x72u8, 0x73u8]
}

/// The text of the first chunk keyed by the annotation keyword.
pub open spec fn first_param(ts: Seq<(Seq<u8>, Seq<char>)>) -> Option<Seq<char>>
    decreases ts.len(),
{
    if ts.len() == 0 {
        Option::None
    } else if ts[0].0 == param_keyword() {
        Option::Some(ts[0].1)
    } else {
        first_param(ts.drop_first())
    }
}

proof fn lemma_first_param_found(ts: Seq<(Seq<u8>, Seq<char>)>, i: int)
    requires
        0 <= i < ts.len(),
        forall|j: int| 0 <= j < i ==> (#[trigger] ts[j]).0 != param_keyword(),
        ts[i].0 == param_keyword(),
    ensures
        first_param(ts) == Option::Some(ts[i].1),
    decreases i,
{
    if i > 0 {
        assert(forall|j: int|
            0 <= j < i - 1 ==> (#[trigger] ts.drop_first()[j]).0 == ts[j + 1].0);
        lemma_first_param_found(ts.drop_first(), i - 1);
    }
}

proof fn lemma_first_param_none(ts: Seq<(Seq<u8>, Seq<char>)>)
    requires
        forall|j: int| 0 <= j < ts.len() ==> (#[trigger] ts[j]).0 != param_keyword(),
    ensures
        first_param(ts) is None,
    decreases ts.len(),
{
    if ts.len() > 0 {
        assert(forall|j: int|
            0 <= j < ts.len() - 1 ==> (#[trigger] ts.drop_first()[j]).0 == ts[j + 1].0);
        lemma_first_param_none(ts.drop_first());
    }
}

/// True exactly when the bytes spell the annotation keyword.
fn is_param_keyword(b: &Vec<u8>) -> (r: bool)
    ensures
        r == (b@ == param_keyword()),
{
    if b.len() != 10 {
        return false;
    }
    let r = b[0] == 0x70 && b[1] == 0x61 && b[2] == 0x72 && b[3] == 0x61 && b[4] == 0x6D && b[5]
        == 0x65 && b[6] == 0x74 && b[7] == 0x65 && b[8] == 0x72 && b[9] == 0x73;
    proof {
        if r {
            assert(b@ =~= param_keyword());
        }
    }
    r
}

/// Returns the source's annotation: the text of the first metadata chunk
/// keyed `parameters`, or nothing when no such chunk exists; an error
/// exactly when the source's metadata cannot be parsed.
pub fn parameters(data: &Vec<u8>) -> (r: Result<Option<String>, ConvertError>)
    ensures
        (r is Ok) == (png_texts_of(data@) is Some),
        r is Ok ==> ({
            let ts = png_texts_of(data@)->Some_0;
            &&& (r->Ok_0 is Some) == (first_param(ts) is Some)
            &&& r->Ok_0 is Some ==> r->Ok_0->Some_0@ == first_param(ts)->Some_0
        }),
        r is Err ==> r->Err_0 == ConvertError::SourceDecode,
{
    let ts = match text_chunks(data) {
        Ok(v) => v,
        Err(e) => return Err(e),
    };
    let ghost tv = png_texts_of(data@)->Some_0;
    let mut i: usize = 0;
    while i < ts.len()
        invariant
            png_texts_of(data@) is Some,
            tv == png_texts_of(data@)->Some_0,
            ts@.len() == tv.len(),
            forall|k: int| 0 <= k < tv.len() ==> ((#[trigger] ts@[k]).0@, ts@[k].1@) == tv[k],
            i <= tv.len(),
            forall|j: int| 0 <= j < i ==> (#[trigger] tv[j]).0 != param_keyword(),
        decreases tv.len() - i,
    {
        let pair = &ts[i];
        if is_param_keyword(&pair.0) {
            proof {
                lemma_first_param_found(tv, i as int);
            }
            return Ok(Some(String::from_str(pair.1.as_str())));
        }
        i = i + 1;
    }
    proof {
        lemma_first_param_none(tv);
    }
    Ok(None)
}

// ----------------------------------------------------------------------
// The assembled output.

/// The final container for an annotated image: the extended-format
/// header chunk, the encoder's bitstream chunk re-emitted unchanged, and
/// the EXIF chunk built from the annotation; an error exactly when the
/// encoder's container yields no bitstream chunk or a length field of
/// the output would overflow.
pub open spec fn assemble_spec(wb: Seq<u8>, w: u32, h: u32, p: Seq<char>) -> Result<
    Seq<u8>,
    ConvertError,
>
    recommends
        1 <= w <= 0x1000000,
        1 <= h <= 0x1000000,
{
    match find_bitstream(wb) {
        Result::Err(e) => Result::Err(e),
        Result::Ok(bs) => {
            let cs = seq![
                (vp8x_id_bytes(), vp8x_payload(w, h)),
                (bs.0, bs.1),
                (exif_id_bytes(), exif_bytes(p)),
            ];
            if (forall|i: int| 0 <= i < cs.len() ==> (#[trigger] cs[i].1).len() <= u32::MAX) && 4
                + chunks_wire(cs).len() <= u32::MAX {
                Result::Ok(container_wire(cs))
            } else {
                Result::Err(ConvertError::OutputTooLarge)
            }
        },
    }
}

/// Splices the encoder's container and the annotation into the final
/// container bytes.
pub fn assemble(webp_bytes: &Vec<u8>, w: u32, h: u32, comment: &str) -> (r: Result<
    Vec<u8>,
    ConvertError,
>)
    requires
        1 <= w <= 0x1000000,
        1 <= h <= 0x1000000,
    ensures
        (r is Ok) == (assemble_spec(webp_bytes@, w, h, comment@) is Ok),
        r is Ok ==> r->Ok_0@ == assemble_spec(webp_bytes@, w, h, comment@)->Ok_0,
        r is Err ==> r->Err_0 == assemble_spec(webp_bytes@, w, h, comment@)->Err_0,
{
    let bs = match find_bitstream_chunk(webp_bytes) {
        Ok(v) => v,
        Err(e) => return Err(e),
    };
    let mut chunks: Vec<DataChunk> = Vec::new();
    chunks.push(vp8x_chunk(w, h));
    chunks.push(DataChunk { id: bs.0, data: bs.1 });
    chunks.push(exif_chunk(comment));
    proof {
        let fb = find_bitstream(webp_bytes@)->Ok_0;
        assert(chunks@.map_values(|c: DataChunk| chunk_view(c)) =~= seq![
            (vp8x_id_bytes(), vp8x_payload(w, h)),
            (fb.0, fb.1),
            (exif_id_bytes(), exif_bytes(comment@)),
        ]);
    }
    write_container(&chunks)
}

// ----------------------------------------------------------------------
// The whole pipeline.

/// What converting the source bytes yields. A pure function of the
/// source bytes: running the pipeline twice on the same bytes gives the
/// same result.
pub open spec fn convert_spec(d: Seq<u8>) -> Result<Seq<u8>, ConvertError> {
    match png_pixels_of(d) {
        Option::None => Result::Err(ConvertError::SourceDecode),
        Option::Some(t) => {
            if t.1 > 16383 || t.2 > 16383 {
                Result::Err(ConvertError::UnsupportedDimensions)
            } else {
                let wb = webp_lossless_of(t.0, t.1, t.2);
                match png_texts_of(d) {
                    Option::None => Result::Err(ConvertError::SourceDecode),
                    Option::Some(ts) => match first_param(ts) {
                        Option::None => Result::Ok(wb),
                        Option::Some(p) => assemble_spec(wb, t.1, t.2, p),
                    },
                }
            }
        },
    }
}

/// Converts the source image: re-encodes its pixels losslessly and, when
/// the source carries an annotation, splices the extended-format header
/// and the EXIF chunk around the untouched bitstream; without an
/// annotation the encoder's own container is returned verbatim.
pub fn convert(data: &Vec<u8>) -> (r: Result<Vec<u8>, ConvertError>)
    ensures
        (r is Ok) == (convert_spec(data@) is Ok),
        r is Ok ==> r->Ok_0@ == convert_spec(data@)->Ok_0,
        r is Err ==> r->Err_0 == convert_spec(data@)->Err_0,
{
    let dec = match decode_rgba(data) {
        Ok(v) => v,
        Err(e) => return Err(e),
    };
    let pixels = dec.0;
    let w = dec.1;
    let h = dec.2;
    if w > 16383 || h > 16383 {
        return Err(ConvertError::UnsupportedDimensions);
    }
    let webp_bytes = encode_lossless_rgba(&pixels, w, h);
    let ann = match parameters(data) {
        Ok(v) => v,
        Err(e) => return Err(e),
    };
    match ann {
        None => Ok(webp_bytes),
        Some(p) => assemble(&webp_bytes, w, h, p.as_str()),
    }
}

/// When the source carries no annotation, the pipeline's output is
/// byte-identical to the external encoder's own container: no chunk
/// surgery happens on that path.
pub proof fn lemma_fallback_verbatim(d: Seq<u8>)
    requires
        png_pixels_of(d) is Some,
        png_pixels_of(d)->Some_0.1 <= 16383,
        png_pixels_of(d)->Some_0.2 <= 16383,
        png_texts_of(d) is Some,
        first_param(png_texts_of(d)->Some_0) is None,
    ensures
        convert_spec(d) == Result::Ok::<Seq<u8>, ConvertError>(
            webp_lossless_of(
                png_pixels_of(d)->Some_0.0,
                png_pixels_of(d)->Some_0.1,
                png_pixels_of(d)->Some_0.2,
            ),
        ),
{
}

} // verus!
