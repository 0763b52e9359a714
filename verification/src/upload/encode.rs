//! The encoders of the formats that archives are stored in. Each takes its data piece by
//! piece and gives its output in pieces as well.

use std::io::Write;
use vstd::prelude::*;
use vstd::string::StringExecFns;

use crate::text::{decimal, decimal_text, same};
use crate::upload::stream::MIN_MULTIPART_CHUNK;

verus! {

/// Highest level that the zstd encoder is asked for.
pub const MAX_ZSTD_LEVEL: u32 = 22;

/// Highest level of the gzip encoder.
pub const MAX_GZIP_LEVEL: u32 = 10;

// ---------------------------------------------------------------------------
// LZ4
// ---------------------------------------------------------------------------

/// A `lz4_flex::frame::FrameEncoder` over a buffer in memory.
#[verifier::external_body]
pub struct Lz4Encoder {
    encoder: lz4_flex::frame::FrameEncoder<Vec<u8>>,
}

/// The data that the encoder was given.
pub uninterp spec fn lz4_taken(e: Lz4Encoder) -> Seq<u8>;

/// The output that was taken out of the encoder's buffer.
pub uninterp spec fn lz4_given(e: Lz4Encoder) -> Seq<u8>;

/// The data that an LZ4 frame holds, as `lz4_flex::frame::FrameDecoder` reads it; nothing
/// where the bytes are no such frame.
pub uninterp spec fn lz4_decoded(bytes: Seq<u8>) -> Option<Seq<u8>>;

/// `lz4_flex::frame::FrameEncoder::new` over an empty buffer: nothing went in or out.
#[verifier::external_body]
fn lz4_new() -> (r: Lz4Encoder)
    ensures
        lz4_taken(r) == Seq::<u8>::empty(),
        lz4_given(r) == Seq::<u8>::empty(),
{
    Lz4Encoder { encoder: lz4_flex::frame::FrameEncoder::new(Vec::new()) }
}

/// `write_all` of the encoder, and the output that stands in its buffer afterwards, which is
/// taken out. The encoder fails only with its writer, and a buffer in memory takes
/// everything.
#[verifier::external_body]
fn lz4_write(e: &mut Lz4Encoder, data: &[u8]) -> (r: Vec<u8>)
    ensures
        lz4_taken(*final(e)) == lz4_taken(*old(e)) + data@,
        lz4_given(*final(e)) == lz4_given(*old(e)) + r@,
{
    e.encoder.write_all(data).expect("Failed to write LZ4 data to memory");
    std::mem::take(e.encoder.get_mut())
}

/// `lz4_flex::frame::FrameEncoder::finish`: the rest of the output. All the output together
/// is a frame that decodes to all the data. Which of the frames that do is written differs
/// between machines, by their word size and byte order, and is left open. The encoder fails
/// only with its writer, and a buffer in memory takes everything.
#[verifier::external_body]
fn lz4_finish(e: Lz4Encoder) -> (r: Vec<u8>)
    ensures
        lz4_decoded(lz4_given(e) + r@) == Some(lz4_taken(e)),
{
    e.encoder.finish().expect("Failed to finish LZ4 compression")
}

// ---------------------------------------------------------------------------
// zstd
// ---------------------------------------------------------------------------

/// A `zstd::Encoder` over a buffer in memory.
#[verifier::external_body]
pub struct ZstdEncoder {
    encoder: zstd::Encoder<'static, Vec<u8>>,
}

/// The level that the encoder was made with.
pub uninterp spec fn zstd_made_with(e: ZstdEncoder) -> int;

/// The data that the encoder was given.
pub uninterp spec fn zstd_taken(e: ZstdEncoder) -> Seq<u8>;

/// The output that was taken out of the encoder's buffer.
pub uninterp spec fn zstd_given(e: ZstdEncoder) -> Seq<u8>;

/// The data that zstd frames hold, as `zstd::Decoder` reads it; nothing where the bytes are
/// no such frames.
pub uninterp spec fn zstd_decoded(bytes: Seq<u8>) -> Option<Seq<u8>>;

/// `zstd::Encoder::new` over an empty buffer at a level: nothing went in or out. The levels
/// that are asked for are all valid. Where the machine has no memory for the encoder it does
/// not return, as with any other allocation.
#[verifier::external_body]
fn zstd_new(level: i32) -> (r: ZstdEncoder)
    requires
        0 <= level <= MAX_ZSTD_LEVEL,
    ensures
        zstd_made_with(r) == level,
        zstd_taken(r) == Seq::<u8>::empty(),
        zstd_given(r) == Seq::<u8>::empty(),
{
    let encoder = zstd::Encoder::new(Vec::new(), level).expect("Failed to create zstd encoder");
    ZstdEncoder { encoder }
}

/// `write_all` of the encoder, and the output that stands in its buffer afterwards, which is
/// taken out. A buffer in memory takes everything; where the machine has no memory for the
/// encoder it does not return, as with any other allocation.
#[verifier::external_body]
fn zstd_write(e: &mut ZstdEncoder, data: &[u8]) -> (r: Vec<u8>)
    ensures
        zstd_made_with(*final(e)) == zstd_made_with(*old(e)),
        zstd_taken(*final(e)) == zstd_taken(*old(e)) + data@,
        zstd_given(*final(e)) == zstd_given(*old(e)) + r@,
{
    e.encoder.write_all(data).expect("Failed to write zstd data to memory");
    std::mem::take(e.encoder.get_mut())
}

/// `zstd::Encoder::finish`: the rest of the output. All the output together decodes to all
/// the data. Which of the encodings that do is written differs between machines and is left
/// open. Where the machine has no memory for the encoder it does not return, as with any
/// other allocation.
#[verifier::external_body]
fn zstd_finish(e: ZstdEncoder) -> (r: Vec<u8>)
    ensures
        zstd_decoded(zstd_given(e) + r@) == Some(zstd_taken(e)),
{
    e.encoder.finish().expect("Failed to finish zstd compression")
}

// ---------------------------------------------------------------------------
// gzip
// ---------------------------------------------------------------------------

/// A `flate2::write::GzEncoder` over a buffer in memory.
#[verifier::external_body]
pub struct GzipEncoder {
    encoder: flate2::write::GzEncoder<Vec<u8>>,
}

/// The level that the encoder was made with.
pub uninterp spec fn gzip_made_with(e: GzipEncoder) -> int;

/// The pieces of data that the encoder was given.
pub uninterp spec fn gzip_taken(e: GzipEncoder) -> Seq<Seq<u8>>;

/// The output that was taken out of the encoder's buffer.
pub uninterp spec fn gzip_given(e: GzipEncoder) -> Seq<u8>;

/// What the gzip encoder makes of pieces of data at a level.
pub uninterp spec fn gzip_stream(pieces: Seq<Seq<u8>>, level: int) -> Seq<u8>;

/// The data that a gzip stream holds, as `flate2::read::GzDecoder` reads it; nothing where
/// the bytes are no such stream.
pub uninterp spec fn gzip_decoded(bytes: Seq<u8>) -> Option<Seq<u8>>;

/// `flate2::write::GzEncoder::new` over an empty buffer at a level: nothing went in or out. A
/// level above 10 trips an assertion of the encoder in debug builds.
#[verifier::external_body]
fn gzip_new(level: u32) -> (r: GzipEncoder)
    requires
        level <= MAX_GZIP_LEVEL,
    ensures
        gzip_made_with(r) == level,
        gzip_taken(r) == Seq::<Seq<u8>>::empty(),
        gzip_given(r) == Seq::<u8>::empty(),
{
    let encoder = flate2::write::GzEncoder::new(Vec::new(), flate2::Compression::new(level));
    GzipEncoder { encoder }
}

/// `write_all` of the encoder, and the output that stands in its buffer afterwards, which is
/// taken out. The encoder fails only with its writer, and a buffer in memory takes
/// everything.
#[verifier::external_body]
fn gzip_write(e: &mut GzipEncoder, data: &[u8]) -> (r: Vec<u8>)
    ensures
        gzip_made_with(*final(e)) == gzip_made_with(*old(e)),
        gzip_taken(*final(e)) == gzip_taken(*old(e)).push(data@),
        gzip_given(*final(e)) == gzip_given(*old(e)) + r@,
{
    e.encoder.write_all(data).expect("Failed to write gzip data to memory");
    std::mem::take(e.encoder.get_mut())
}

/// `flush` and `finish` of `flate2::write::GzEncoder`: the rest of the output. All the output
/// together depends on the pieces and the level alone, and decodes to all the data. The
/// encoder fails only with its writer, and a buffer in memory takes everything.
#[verifier::external_body]
fn gzip_finish(e: GzipEncoder) -> (r: Vec<u8>)
    ensures
        gzip_given(e) + r@ == gzip_stream(gzip_taken(e), gzip_made_with(e)),
        gzip_decoded(gzip_given(e) + r@) == Some(gzip_taken(e).flatten()),
{
    let mut encoder = e.encoder;
    encoder.flush().expect("Failed to flush gzip encoder");
    encoder.finish().expect("Failed to finish gzip compression")
}

// ---------------------------------------------------------------------------
// All formats
// ---------------------------------------------------------------------------

/// Why an archive was not compressed.
#[derive(Debug, PartialEq, Eq)]
pub enum CompressError {
    /// The chunks are too small for a multipart upload.
    SmallChunks { chunk_size: usize },
    /// The format is none that is known.
    UnknownFormat { format: String },
}

/// The error for chunks that are too small for a multipart upload.
pub open spec fn small_chunk_error(chunk_size: nat) -> Seq<char> {
    "chunk_size ("@ + decimal(chunk_size) + ") must be at least MIN_MULTIPART_CHUNK ("@ + decimal(
        MIN_MULTIPART_CHUNK as nat,
    ) + " bytes)"@
}

impl CompressError {
    /// The error in words.
    pub fn message(&self) -> (r: String)
        ensures
            r@ == match self {
                CompressError::SmallChunks { chunk_size } => small_chunk_error(*chunk_size as nat),
                CompressError::UnknownFormat { format } => "Unknown compression format: "@
                    + format@,
            },
            self is SmallChunks ==> r@ == "chunk_size ("@ + decimal(self->chunk_size as nat)
                + ") must be at least MIN_MULTIPART_CHUNK ("@ + decimal(MIN_MULTIPART_CHUNK as nat)
                + " bytes)"@,
            self is UnknownFormat ==> r@ == "Unknown compression format: "@ + self->format@,
    {
        match self {
            CompressError::SmallChunks { chunk_size } => "chunk_size (".to_string().concat(
                decimal_text(*chunk_size as u64).as_str(),
            ).concat(") must be at least MIN_MULTIPART_CHUNK (").concat(
                decimal_text(MIN_MULTIPART_CHUNK as u64).as_str(),
            ).concat(" bytes)"),
            CompressError::UnknownFormat { format } => "Unknown compression format: ".to_string().concat(
                format.as_str()),
        }
    }
}

/// A format that archives are stored in.
#[derive(Debug, Clone, Copy, PartialEq, Eq, Structural)]
pub enum Format {
    Lz4,
    Zstd,
    Gzip,
    /// The archive as it is.
    Plain,
}

/// The format with the given name, if there is one.
pub open spec fn format_named(name: Seq<char>) -> Option<Format> {
    if name == "lz4"@ {
        Some(Format::Lz4)
    } else if name == "zstd"@ {
        Some(Format::Zstd)
    } else if name == "gzip"@ {
        Some(Format::Gzip)
    } else if name == "none"@ {
        Some(Format::Plain)
    } else {
        None
    }
}

/// The format with the given name, if there is one.
pub fn parse_format(name: &str) -> (r: Option<Format>)
    ensures
        r == format_named(name@),
        name@ == "lz4"@ <==> r == Some(Format::Lz4),
        name@ == "zstd"@ <==> r == Some(Format::Zstd),
        name@ == "gzip"@ <==> r == Some(Format::Gzip),
        name@ == "none"@ <==> r == Some(Format::Plain),
        r is None <==> name@ != "lz4"@ && name@ != "zstd"@ && name@ != "gzip"@ && name@ != "none"@,
{
    proof {
        crate::upload::stream::lemma_format_names_differ();
    }
    if same(name, "lz4") {
        Some(Format::Lz4)
    } else if same(name, "zstd") {
        Some(Format::Zstd)
    } else if same(name, "gzip") {
        Some(Format::Gzip)
    } else if same(name, "none") {
        Some(Format::Plain)
    } else {
        None
    }
}

/// The archive that bytes in a format hold, if they hold one.
pub open spec fn decoded(bytes: Seq<u8>, format: Format) -> Option<Seq<u8>> {
    match format {
        Format::Lz4 => lz4_decoded(bytes),
        Format::Zstd => zstd_decoded(bytes),
        Format::Gzip => gzip_decoded(bytes),
        Format::Plain => Some(bytes),
    }
}

/// The level that an encoder works at: zstd at no more than its highest, gzip at the given
/// one. The other formats have no levels.
pub open spec fn level_for(format: Format, compression_level: u32) -> Option<int> {
    match format {
        Format::Zstd => Some(
            if compression_level < MAX_ZSTD_LEVEL {
                compression_level as int
            } else {
                MAX_ZSTD_LEVEL as int
            },
        ),
        Format::Gzip => Some(compression_level as int),
        _ => None,
    }
}

/// The bytes are what an encoder of the format, made with the level, gave for data that it
/// took in these pieces. What a gzip encoder gives follows from level and pieces alone; of
/// the LZ4 and zstd encoders it is told which data they took, and at which level.
pub open spec fn encoded_as(
    bytes: Seq<u8>,
    format: Format,
    level: Option<int>,
    pieces: Seq<Seq<u8>>,
) -> bool {
    &&& decoded(bytes, format) == Some(pieces.flatten())
    &&& match format {
        Format::Lz4 => exists|e: Lz4Encoder, rest: Seq<u8>|
            lz4_taken(e) == pieces.flatten() && bytes == #[trigger] (lz4_given(e) + rest),
        Format::Zstd => exists|e: ZstdEncoder, rest: Seq<u8>|
            Some(zstd_made_with(e)) == level && zstd_taken(e) == pieces.flatten() && bytes
                == #[trigger] (zstd_given(e) + rest),
        Format::Gzip => level matches Some(n) && bytes == gzip_stream(pieces, n),
        Format::Plain => bytes == pieces.flatten(),
    }
}

/// An encoder that is at work.
pub enum Encoder {
    Lz4(Lz4Encoder),
    Zstd(ZstdEncoder),
    Gzip(GzipEncoder),
    Plain { taken: Ghost<Seq<u8>> },
}

impl Encoder {
    /// The format of the output.
    pub open spec fn format(self) -> Format {
        match self {
            Encoder::Lz4(_) => Format::Lz4,
            Encoder::Zstd(_) => Format::Zstd,
            Encoder::Gzip(_) => Format::Gzip,
            Encoder::Plain { .. } => Format::Plain,
        }
    }

    /// The level that the encoder works at, if its format has levels.
    pub open spec fn level(self) -> Option<int> {
        match self {
            Encoder::Zstd(e) => Some(zstd_made_with(e)),
            Encoder::Gzip(e) => Some(gzip_made_with(e)),
            _ => None,
        }
    }

    /// The encoder took its data in these pieces.
    pub open spec fn took(self, pieces: Seq<Seq<u8>>) -> bool {
        match self {
            Encoder::Lz4(e) => lz4_taken(e) == pieces.flatten(),
            Encoder::Zstd(e) => zstd_taken(e) == pieces.flatten(),
            Encoder::Gzip(e) => gzip_taken(e) == pieces,
            Encoder::Plain { taken } => taken@ == pieces.flatten(),
        }
    }

    /// The output that the encoder gave.
    pub open spec fn given(self) -> Seq<u8> {
        match self {
            Encoder::Lz4(e) => lz4_given(e),
            Encoder::Zstd(e) => zstd_given(e),
            Encoder::Gzip(e) => gzip_given(e),
            Encoder::Plain { taken } => taken@,
        }
    }

    /// An encoder that was given nothing yet.
    pub fn new(format: Format, compression_level: u32) -> (r: Encoder)
        requires
            format == Format::Gzip ==> compression_level <= MAX_GZIP_LEVEL,
        ensures
            r.format() == format,
            r.level() == level_for(format, compression_level),
            format == Format::Zstd && compression_level <= 22 ==> r.level() == Some(
                compression_level as int,
            ),
            format == Format::Zstd && compression_level > 22 ==> r.level() == Some(22int),
            format == Format::Gzip ==> r.level() == Some(compression_level as int),
            r.took(Seq::empty()),
            r.given() == Seq::<u8>::empty(),
    {
        assert(Seq::<Seq<u8>>::empty().flatten() =~= Seq::<u8>::empty());
        match format {
            Format::Lz4 => Encoder::Lz4(lz4_new()),
            Format::Zstd => {
                let level: u32 = if compression_level < MAX_ZSTD_LEVEL {
                    compression_level
                } else {
                    MAX_ZSTD_LEVEL
                };
                Encoder::Zstd(zstd_new(level as i32))
            },
            Format::Gzip => Encoder::Gzip(gzip_new(compression_level)),
            Format::Plain => Encoder::Plain { taken: Ghost(Seq::empty()) },
        }
    }

    /// Gives the encoder more data, and takes the output that is there.
    pub fn write(&mut self, data: &[u8]) -> (r: Vec<u8>)
        ensures
            final(self).format() == old(self).format(),
            final(self).level() == old(self).level(),
            forall|pieces: Seq<Seq<u8>>| #[trigger]
                old(self).took(pieces) ==> final(self).took(pieces.push(data@)),
            final(self).given() == old(self).given() + r@,
    {
        proof {
            assert forall|pieces: Seq<Seq<u8>>| #[trigger]
                pieces.push(data@).flatten() == pieces.flatten() + data@ by {
                pieces.lemma_flatten_push(data@);
            }
        }
        match self {
            Encoder::Lz4(e) => lz4_write(e, data),
            Encoder::Zstd(e) => zstd_write(e, data),
            Encoder::Gzip(e) => gzip_write(e, data),
            Encoder::Plain { taken } => {
                *taken = Ghost(taken@ + data@);
                vstd::slice::slice_to_vec(data)
            },
        }
    }

    /// The rest of the output. All the output together holds all the data.
    pub fn finish(self) -> (r: Vec<u8>)
        ensures
            forall|pieces: Seq<Seq<u8>>| #[trigger]
                self.took(pieces) ==> encoded_as(
                    self.given() + r@,
                    self.format(),
                    self.level(),
                    pieces,
                ),
    {
        let ghost given = self.given();
        match self {
            Encoder::Lz4(e) => {
                let r = lz4_finish(e);
                assert(given + r@ == lz4_given(e) + r@);
                r
            },
            Encoder::Zstd(e) => {
                let r = zstd_finish(e);
                assert(given + r@ == zstd_given(e) + r@);
                r
            },
            Encoder::Gzip(e) => gzip_finish(e),
            Encoder::Plain { .. } => {
                let rest: Vec<u8> = Vec::new();
                assert(given + rest@ =~= given);
                rest
            },
        }
    }
}

} // verus!
