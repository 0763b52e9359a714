//! Compression of part archives, and the cutting of a stream into parts of a fixed size.

use vstd::prelude::*;
use vstd::string::StringExecFns;

use crate::text::same;
use crate::upload::encode::{
    decoded, encoded_as, format_named, gzip_decoded, gzip_stream, level_for, lz4_decoded,
    parse_format, small_chunk_error, zstd_decoded, CompressError, Encoder, Format, MAX_GZIP_LEVEL,
};

verus! {

/// Smallest chunk of a multipart upload: 5 MiB.
pub const MIN_MULTIPART_CHUNK: usize = 5_242_880;

/// The end of the name of an archive in the given format; that of LZ4 for a format that
/// is not known.
pub open spec fn extension(data_format: Seq<char>) -> Seq<char> {
    if data_format == "lz4"@ {
        ".tar.lz4"@
    } else if data_format == "zstd"@ {
        ".tar.zstd"@
    } else if data_format == "gzip"@ {
        ".tar.gz"@
    } else if data_format == "none"@ {
        ".tar"@
    } else {
        ".tar.lz4"@
    }
}

/// The end of the name of an archive in the given format.
pub fn archive_extension(data_format: &str) -> (r: &'static str)
    ensures
        r@ == extension(data_format@),
        data_format@ == "lz4"@ ==> r@ == ".tar.lz4"@,
        data_format@ == "zstd"@ ==> r@ == ".tar.zstd"@,
        data_format@ == "gzip"@ ==> r@ == ".tar.gz"@,
        data_format@ == "none"@ ==> r@ == ".tar"@,
        data_format@ != "zstd"@ && data_format@ != "gzip"@ && data_format@ != "none"@ ==> r@
            == ".tar.lz4"@,
{
    proof {
        lemma_format_names_differ();
    }
    if same(data_format, "lz4") {
        ".tar.lz4"
    } else if same(data_format, "zstd") {
        ".tar.zstd"
    } else if same(data_format, "gzip") {
        ".tar.gz"
    } else if same(data_format, "none") {
        ".tar"
    } else {
        ".tar.lz4"
    }
}

/// The names of the formats are four different texts.
pub proof fn lemma_format_names_differ()
    ensures
        "lz4"@ != "zstd"@,
        "lz4"@ != "gzip"@,
        "lz4"@ != "none"@,
        "zstd"@ != "gzip"@,
        "zstd"@ != "none"@,
        "gzip"@ != "none"@,
{
    reveal_strlit("lz4");
    reveal_strlit("zstd");
    reveal_strlit("gzip");
    reveal_strlit("none");
    assert("lz4"@.len() == 3);
    assert("zstd"@[0] == 'z' && "gzip"@[0] == 'g' && "none"@[0] == 'n');
}

/// The bytes, as a sequence, of an optional list of bytes.
pub open spec fn opt_bytes(o: Option<Vec<u8>>) -> Option<Seq<u8>> {
    match o {
        Some(v) => Some(v@),
        None => None,
    }
}

/// The archive that bytes in a known format hold; nothing for any other format.
pub open spec fn unpacked(bytes: Seq<u8>, data_format: Seq<char>) -> Option<Seq<u8>> {
    match format_named(data_format) {
        Some(format) => decoded(bytes, format),
        None => None,
    }
}

/// The error for a format that is not known.
pub open spec fn unknown_format<T>(r: Result<T, CompressError>, data_format: Seq<char>) -> bool {
    r matches Err(CompressError::UnknownFormat { format }) && format@ == data_format
}

/// Compresses the archive of a part: LZ4 without a level, zstd up to its highest level,
/// gzip, or not at all. The archive can be had back from what is returned. An error for any
/// other format.
pub fn compress_part(archive: &[u8], data_format: &str, compression_level: u32) -> (r: Result<
    Vec<u8>,
    CompressError,
>)
    requires
        data_format@ == "gzip"@ ==> compression_level <= MAX_GZIP_LEVEL,
    ensures
        match format_named(data_format@) {
            Some(format) => r matches Ok(b) && unpacked(b@, data_format@) == Some(archive@)
                && encoded_as(
                b@,
                format,
                level_for(format, compression_level),
                seq![archive@],
            ),
            None => unknown_format(r, data_format@),
        },
        data_format@ == "lz4"@ ==> (r matches Ok(b) && lz4_decoded(b@) == Some(archive@)),
        data_format@ == "zstd"@ ==> (r matches Ok(b) && zstd_decoded(b@) == Some(archive@)),
        data_format@ == "gzip"@ ==> (r matches Ok(b) && gzip_decoded(b@) == Some(archive@) && b@
            == gzip_stream(seq![archive@], compression_level as int)),
        data_format@ == "none"@ ==> (r matches Ok(b) && b@ == archive@),
        data_format@ != "lz4"@ && data_format@ != "zstd"@ && data_format@ != "gzip"@
            && data_format@ != "none"@ ==> (r matches Err(CompressError::UnknownFormat { format })
            && format@ == data_format@),
{
    proof {
        lemma_format_names_differ();
        lemma_one_piece(archive@);
    }
    let format = match parse_format(data_format) {
        Some(f) => f,
        None => {
            return Err(CompressError::UnknownFormat { format: data_format.to_string() });
        },
    };
    if let Format::Plain = format {
        return Ok(compress_none(archive));
    }
    let mut encoder = Encoder::new(format, compression_level);
    let mut out = encoder.write(archive);
    assert(encoder.took(Seq::empty().push(archive@)));
    assert(Seq::<u8>::empty() + out@ =~= out@);
    let mut rest = encoder.finish();
    out.append(&mut rest);
    Ok(out)
}

/// The bytes of a single piece are the piece.
proof fn lemma_one_piece(data: Seq<u8>)
    ensures
        Seq::<Seq<u8>>::empty().push(data) == seq![data],
        seq![data].flatten() == data,
{
    let none = Seq::<Seq<u8>>::empty();
    none.lemma_flatten_push(data);
    assert(none.push(data) =~= seq![data]);
    assert(none.flatten() =~= Seq::<u8>::empty());
    assert(seq![data].flatten() =~= data);
}

/// The archive as it is.
pub fn compress_none(archive: &[u8]) -> (r: Vec<u8>)
    ensures
        r@ == archive@,
{
    vstd::slice::slice_to_vec(archive)
}

/// Whether a stream may be cut into chunks of the given size for a multipart upload.
pub fn check_chunk_size(chunk_size: usize) -> (r: Result<(), String>)
    ensures
        r is Ok <==> chunk_size >= MIN_MULTIPART_CHUNK,
        r matches Err(e) ==> e@ == small_chunk_error(chunk_size as nat),
        r is Ok <==> chunk_size >= 5_242_880,
{
    if chunk_size < MIN_MULTIPART_CHUNK {
        Err(CompressError::SmallChunks { chunk_size }.message())
    } else {
        Ok(())
    }
}

/// Cuts a stream of bytes into chunks of a fixed size. Finished chunks wait until they
/// are taken away.
#[derive(Debug)]
pub struct ChunkedWriter {
    buffer: Vec<u8>,
    chunk_size: usize,
    finished: Vec<Vec<u8>>,
}

impl ChunkedWriter {
    /// The bytes of the chunk that is not full yet.
    pub closed spec fn pending(self) -> Seq<u8> {
        self.buffer@
    }

    /// The size of a full chunk.
    pub closed spec fn full_size(self) -> nat {
        self.chunk_size as nat
    }

    /// The finished chunks that wait.
    pub closed spec fn chunks(self) -> Seq<Seq<u8>> {
        Seq::new(self.finished@.len(), |i: int| self.finished@[i]@)
    }

    /// Everything that was written and not taken away, in order.
    pub open spec fn content(self) -> Seq<u8> {
        self.chunks().flatten() + self.pending()
    }

    /// Chunks have a size, and the one that is under way is not full.
    pub open spec fn well_formed(self) -> bool {
        self.full_size() > 0 && self.pending().len() < self.full_size()
    }

    /// A writer that has nothing yet.
    pub fn new(chunk_size: usize) -> (r: ChunkedWriter)
        requires
            chunk_size > 0,
        ensures
            r.well_formed(),
            r.full_size() == chunk_size,
            r.pending().len() == 0,
            r.chunks().len() == 0,
    {
        ChunkedWriter { buffer: Vec::new(), chunk_size, finished: Vec::new() }
    }

    /// Finishes the chunk that is under way, unless it is empty.
    pub fn send_buffer(&mut self)
        requires
            old(self).full_size() > 0,
        ensures
            final(self).full_size() == old(self).full_size(),
            final(self).pending().len() == 0,
            final(self).chunks() == if old(self).pending().len() == 0 {
                old(self).chunks()
            } else {
                old(self).chunks().push(old(self).pending())
            },
    {
        if self.buffer.len() == 0 {
            return ;
        }
        let ghost was = self.chunks();
        let ghost chunk = self.buffer@;
        let mut full: Vec<u8> = Vec::new();
        std::mem::swap(&mut self.buffer, &mut full);
        self.finished.push(full);
        assert(self.chunks() =~= was.push(chunk));
    }

    /// Adds bytes to the stream. Every chunk that is finished by it has exactly the size
    /// of a chunk, and no byte is lost, added or moved.
    pub fn write(&mut self, buf: &[u8]) -> (r: usize)
        requires
            old(self).well_formed(),
        ensures
            final(self).well_formed(),
            final(self).full_size() == old(self).full_size(),
            r == buf@.len(),
            final(self).content() == old(self).content() + buf@,
            old(self).chunks().is_prefix_of(final(self).chunks()),
            forall|i: int|
                old(self).chunks().len() <= i < final(self).chunks().len()
                    ==> #[trigger] final(self).chunks()[i].len() == old(self).full_size(),
    {
        let ghost before = self.chunks();
        let ghost content = self.content();
        let mut written: usize = 0;
        assert(buf@.take(0) =~= Seq::empty());
        assert(content + buf@.take(0) =~= content);
        while written < buf.len()
            invariant
                written <= buf@.len(),
                self.well_formed(),
                self.full_size() == old(self).full_size(),
                self.content() == content + buf@.take(written as int),
                before == old(self).chunks(),
                content == old(self).content(),
                before.is_prefix_of(self.chunks()),
                forall|i: int|
                    before.len() <= i < self.chunks().len() ==> #[trigger] self.chunks()[i].len()
                        == self.full_size(),
            decreases buf@.len() - written,
        {
            let capacity: usize = self.chunk_size - self.buffer.len();
            let to_copy: usize = if capacity < buf.len() - written {
                capacity
            } else {
                buf.len() - written
            };
            let len: usize = buf.len();
            let ghost at = written as int;
            let ghost so_far = self.content();
            let ghost pending = self.pending();
            let ghost chunks = self.chunks();
            let mut i: usize = 0;
            while i < to_copy
                invariant
                    i <= to_copy,
                    at == written,
                    len == buf@.len(),
                    at + to_copy <= len,
                    self.chunk_size == self.full_size(),
                    self.full_size() == old(self).full_size(),
                    self.chunks() == chunks,
                    self.pending() == pending + buf@.subrange(at, at + i),
                decreases to_copy - i,
            {
                let ghost was = self.finished@;
                self.buffer.push(buf[written + i]);
                i += 1;
                assert(self.finished@ == was);
                assert(self.pending() =~= pending + buf@.subrange(at, at + i));
            }
            written = written + to_copy;
            proof {
                assert(buf@.take(written as int) =~= buf@.take(at) + buf@.subrange(
                    at,
                    written as int,
                ));
                assert(self.content() =~= so_far + buf@.subrange(at, written as int));
                assert(self.content() =~= content + buf@.take(written as int));
            }
            if self.buffer.len() >= self.chunk_size {
                let ghost full = self.pending();
                let ghost all = self.content();
                self.send_buffer();
                proof {
                    assert(self.chunks() == chunks.push(full));
                    chunks.lemma_flatten_push(full);
                    assert(self.content() =~= all);
                    assert(before.is_prefix_of(self.chunks()));
                }
            }
        }
        assert(buf@.take(written as int) =~= buf@);
        written
    }

    /// Finishes the last chunk, which may be smaller.
    pub fn flush(&mut self)
        requires
            old(self).well_formed(),
        ensures
            final(self).well_formed(),
            final(self).full_size() == old(self).full_size(),
            final(self).pending().len() == 0,
            final(self).chunks() == if old(self).pending().len() == 0 {
                old(self).chunks()
            } else {
                old(self).chunks().push(old(self).pending())
            },
            final(self).content() == old(self).content(),
    {
        let ghost chunks = self.chunks();
        let ghost last = self.pending();
        self.send_buffer();
        proof {
            chunks.lemma_flatten_push(last);
            assert(self.content() =~= chunks.flatten() + last);
        }
    }

    /// Takes the finished chunks away, in order.
    pub fn take_chunks(&mut self) -> (r: Vec<Vec<u8>>)
        requires
            old(self).well_formed(),
        ensures
            final(self).well_formed(),
            final(self).full_size() == old(self).full_size(),
            final(self).pending() == old(self).pending(),
            final(self).chunks().len() == 0,
            r@.len() == old(self).chunks().len(),
            forall|i: int| 0 <= i < r@.len() ==> (#[trigger] r@[i])@ == old(self).chunks()[i],
    {
        let mut out: Vec<Vec<u8>> = Vec::new();
        std::mem::swap(&mut self.finished, &mut out);
        out
    }
}

/// A stream of which every chunk but the last has the full size has no more chunks than
/// its length takes, and its chunks follow from its bytes: chunk `i` starts at `i` times
/// the size.
pub proof fn law_chunks_are_fixed_by_the_stream(chunks: Seq<Seq<u8>>, size: nat, i: int)
    requires
        size > 0,
        0 <= i < chunks.len(),
        forall|j: int| 0 <= j < chunks.len() - 1 ==> #[trigger] chunks[j].len() == size,
        chunks.last().len() <= size,
    ensures
        i * size + chunks[i].len() <= chunks.flatten().len(),
        chunks[i] == chunks.flatten().subrange(i * size, i * size + chunks[i].len()),
    decreases chunks.len(),
{
    let all = chunks.flatten();
    let rest = chunks.drop_first();
    assert(all =~= chunks.first() + rest.flatten());
    if i == 0 {
        assert(0 * size == 0) by (nonlinear_arith);
        assert(chunks[0] =~= all.subrange(0, chunks[0].len() as int));
    } else {
        assert forall|j: int| 0 <= j < rest.len() - 1 implies #[trigger] rest[j].len() == size by {
            assert(rest[j] == chunks[j + 1]);
        }
        law_chunks_are_fixed_by_the_stream(rest, size, i - 1);
        assert(chunks[0].len() == size);
        assert(i * size == (i - 1) * size + size) by (nonlinear_arith);
        assert(chunks[i] == rest[i - 1]);
        assert(chunks[i] =~= all.subrange(i * size, i * size + chunks[i].len()));
    }
}

// ---------------------------------------------------------------------------
// Archives that are compressed while they are written
// ---------------------------------------------------------------------------

/// Compresses an archive that is written piece by piece, and cuts the output into chunks of
/// a fixed size.
pub struct PartStream {
    encoder: Encoder,
    writer: ChunkedWriter,
    /// The pieces of the archive that were written.
    pieces: Ghost<Seq<Seq<u8>>>,
    /// The chunks that were taken away.
    handed: Ghost<Seq<Seq<u8>>>,
}

/// What a contract says of an archive that is being compressed.
#[verifier::ext_equal]
pub struct StreamModel {
    pub format: Format,
    /// The level that the encoder works at, if its format has levels.
    pub level: Option<int>,
    pub chunk_size: nat,
    /// The pieces of the archive that were written, in order.
    pub pieces: Seq<Seq<u8>>,
    /// The chunks that were taken away, in order.
    pub handed: Seq<Seq<u8>>,
}

/// Chunks of which all have the given size.
pub open spec fn all_full(chunks: Seq<Seq<u8>>, size: nat) -> bool {
    forall|i: int| 0 <= i < chunks.len() ==> (#[trigger] chunks[i]).len() == size
}

/// Chunks of which all but the last have the given size, and the last is not empty and no
/// larger.
pub open spec fn cut_evenly(chunks: Seq<Seq<u8>>, size: nat) -> bool {
    &&& forall|i: int| 0 <= i < chunks.len() - 1 ==> (#[trigger] chunks[i]).len() == size
    &&& chunks.len() > 0 ==> 0 < chunks.last().len() <= size
}

/// The bytes of a list of chunks.
pub open spec fn chunk_texts(chunks: Seq<Vec<u8>>) -> Seq<Seq<u8>> {
    Seq::new(chunks.len(), |i: int| chunks[i]@)
}

/// The bytes of two runs of chunks are those of the one and then those of the other.
proof fn lemma_flatten_concat(a: Seq<Seq<u8>>, b: Seq<Seq<u8>>)
    ensures
        (a + b).flatten() == a.flatten() + b.flatten(),
    decreases b.len(),
{
    if b.len() == 0 {
        assert(a + b =~= a);
        assert(b.flatten() =~= Seq::empty());
        assert(a.flatten() + b.flatten() =~= a.flatten());
    } else {
        let init = b.drop_last();
        lemma_flatten_concat(a, init);
        assert(init.push(b.last()) =~= b);
        assert((a + init).push(b.last()) =~= a + b);
        init.lemma_flatten_push(b.last());
        (a + init).lemma_flatten_push(b.last());
        assert((a + b).flatten() =~= a.flatten() + b.flatten());
    }
}

impl View for PartStream {
    type V = StreamModel;

    closed spec fn view(&self) -> StreamModel {
        StreamModel {
            format: self.encoder.format(),
            level: self.encoder.level(),
            chunk_size: self.writer.full_size(),
            pieces: self.pieces@,
            handed: self.handed@,
        }
    }
}

impl PartStream {
    /// Chunks have a size, all that are finished are full, the encoder took what was written,
    /// and all that it gave is in a chunk.
    pub closed spec fn well_formed(self) -> bool {
        &&& self.writer.well_formed()
        &&& all_full(self.handed@, self.writer.full_size())
        &&& all_full(self.writer.chunks(), self.writer.full_size())
        &&& self.encoder.took(self.pieces@)
        &&& self.encoder.given() == self.handed@.flatten() + self.writer.content()
    }

    /// Starts the compression of an archive. An error for chunks that are too small and for a
    /// format that is not known.
    pub fn new(data_format: &str, compression_level: u32, chunk_size: usize) -> (r: Result<
        PartStream,
        CompressError,
    >)
        requires
            data_format@ == "gzip"@ ==> compression_level <= MAX_GZIP_LEVEL,
        ensures
            if chunk_size < MIN_MULTIPART_CHUNK {
                r matches Err(CompressError::SmallChunks { chunk_size: n }) && n == chunk_size
            } else {
                match format_named(data_format@) {
                    None => unknown_format(r, data_format@),
                    Some(format) => r matches Ok(s) && s.well_formed() && s@ == (StreamModel {
                        format,
                        level: level_for(format, compression_level),
                        chunk_size: chunk_size as nat,
                        pieces: Seq::empty(),
                        handed: Seq::empty(),
                    }),
                }
            },
    {
        if chunk_size < MIN_MULTIPART_CHUNK {
            return Err(CompressError::SmallChunks { chunk_size });
        }
        proof {
            reveal_strlit("none");
            reveal_strlit("lz4");
            reveal_strlit("zstd");
            reveal_strlit("gzip");
            assert("zstd"@[0] != "gzip"@[0] && "gzip"@.len() != "lz4"@.len());
        }
        let format = match parse_format(data_format) {
            Some(f) => f,
            None => {
                return Err(CompressError::UnknownFormat { format: data_format.to_string() });
            },
        };
        let s = PartStream {
            encoder: Encoder::new(format, compression_level),
            writer: ChunkedWriter::new(chunk_size),
            pieces: Ghost(Seq::empty()),
            handed: Ghost(Seq::empty()),
        };
        proof {
            assert(s.writer.chunks().flatten() =~= Seq::empty());
            assert(s.handed@.flatten() + s.writer.content() =~= Seq::empty());
        }
        Ok(s)
    }

    /// Writes more of the archive.
    pub fn write(&mut self, data: &[u8])
        requires
            old(self).well_formed(),
        ensures
            final(self).well_formed(),
            final(self)@ == (StreamModel {
                pieces: old(self)@.pieces.push(data@),
                ..old(self)@
            }),
    {
        let ghost chunks = self.writer.chunks();
        let out = self.encoder.write(data);
        self.pieces = Ghost(self.pieces@.push(data@));
        let _n: usize = self.writer.write(out.as_slice());
        proof {
            assert(self.encoder.given() =~= self.handed@.flatten() + self.writer.content());
            assert forall|i: int| 0 <= i < self.writer.chunks().len() implies (
            #[trigger] self.writer.chunks()[i]).len() == self.writer.full_size() by {
                if i < chunks.len() {
                    assert(self.writer.chunks()[i] == chunks[i]);
                }
            }
        }
    }

    /// Takes the chunks away that are full, in order.
    pub fn take_chunks(&mut self) -> (r: Vec<Vec<u8>>)
        requires
            old(self).well_formed(),
        ensures
            final(self).well_formed(),
            final(self)@ == (StreamModel {
                handed: old(self)@.handed + chunk_texts(r@),
                ..old(self)@
            }),
            all_full(chunk_texts(r@), old(self)@.chunk_size),
    {
        let ghost chunks = self.writer.chunks();
        let ghost handed = self.handed@;
        let ghost pending = self.writer.pending();
        let out = self.writer.take_chunks();
        self.handed = Ghost(handed + chunk_texts(out@));
        proof {
            assert(chunk_texts(out@) =~= chunks);
            lemma_flatten_concat(handed, chunks);
            assert(self.writer.chunks().flatten() =~= Seq::empty());
            assert(self.handed@.flatten() + self.writer.content() =~= handed.flatten() + (
            chunks.flatten() + pending));
        }
        out
    }

    /// Ends the stream, and hands out the chunks that were not taken away. All the chunks
    /// together are what the encoder makes of the archive at its level, and all but the last
    /// of them are full.
    pub fn finish(self) -> (r: Vec<Vec<u8>>)
        requires
            self.well_formed(),
        ensures
            ({
                let all = self@.handed + chunk_texts(r@);
                &&& encoded_as(all.flatten(), self@.format, self@.level, self@.pieces)
                &&& decoded(all.flatten(), self@.format) == Some(self@.pieces.flatten())
                &&& cut_evenly(all, self@.chunk_size)
            }),
    {
        let ghost m = self@;
        let ghost given = self.encoder.given();
        let ghost handed = self.handed@;
        let ghost before = self.writer.chunks();
        let mut writer = self.writer;
        let rest = self.encoder.finish();
        let _n: usize = writer.write(rest.as_slice());
        let ghost full = writer.chunks();
        let ghost last = writer.pending();
        let ghost content = writer.content();
        writer.flush();
        let ghost chunks = writer.chunks();
        let out = writer.take_chunks();
        proof {
            assert(chunk_texts(out@) =~= chunks);
            lemma_flatten_concat(handed, chunks);
            assert(chunks.flatten() =~= content);
            assert(given + rest@ =~= handed.flatten() + content);
            let all = handed + chunks;
            assert forall|i: int| 0 <= i < full.len() implies (#[trigger] full[i]).len()
                == m.chunk_size by {
                if i < before.len() {
                    assert(full[i] == before[i]);
                }
            }
            assert forall|i: int| 0 <= i < all.len() - 1 implies (#[trigger] all[i]).len()
                == m.chunk_size by {
                if i >= handed.len() {
                    assert(all[i] == full[i - handed.len()]);
                } else {
                    assert(all[i] == handed[i]);
                }
            }
            if all.len() > 0 {
                if last.len() > 0 {
                    assert(all.last() == last);
                } else if full.len() > 0 {
                    assert(all.last() == full[full.len() - 1]);
                } else {
                    assert(all.last() == handed[handed.len() - 1]);
                }
            }
        }
        out
    }
}

/// Compresses the archive of a part into chunks of a fixed size: together they are what the
/// format makes of the archive at the level, and all but the last of them are full. An error
/// for chunks that are too small and for a format that is not known.
pub fn compress_part_streaming(
    archive: &[u8],
    data_format: &str,
    compression_level: u32,
    chunk_size: usize,
) -> (r: Result<Vec<Vec<u8>>, CompressError>)
    requires
        data_format@ == "gzip"@ ==> compression_level <= MAX_GZIP_LEVEL,
    ensures
        if chunk_size < MIN_MULTIPART_CHUNK {
            r matches Err(CompressError::SmallChunks { chunk_size: n }) && n == chunk_size
        } else {
            match format_named(data_format@) {
                None => unknown_format(r, data_format@),
                Some(format) => r matches Ok(chunks) && {
                    let bytes = chunk_texts(chunks@).flatten();
                    &&& unpacked(bytes, data_format@) == Some(archive@)
                    &&& encoded_as(
                        bytes,
                        format,
                        level_for(format, compression_level),
                        seq![archive@],
                    )
                    &&& cut_evenly(chunk_texts(chunks@), chunk_size as nat)
                },
            }
        },
        r matches Ok(chunks) ==> chunk_size >= 5_242_880 && (forall|i: int|
            0 <= i < chunks@.len() - 1 ==> (#[trigger] chunks@[i])@.len() == chunk_size) && (
        chunks@.len() > 0 ==> 0 < chunks@[chunks@.len() - 1]@.len() <= chunk_size),
        r matches Ok(chunks) ==> {
            let bytes = chunk_texts(chunks@).flatten();
            &&& data_format@ == "lz4"@ ==> lz4_decoded(bytes) == Some(archive@)
            &&& data_format@ == "zstd"@ ==> zstd_decoded(bytes) == Some(archive@)
            &&& data_format@ == "gzip"@ ==> gzip_decoded(bytes) == Some(archive@) && bytes
                == gzip_stream(seq![archive@], compression_level as int)
            &&& data_format@ == "none"@ ==> bytes == archive@
        },
{
    proof {
        lemma_format_names_differ();
    }
    let mut stream = match PartStream::new(data_format, compression_level, chunk_size) {
        Ok(s) => s,
        Err(e) => {
            return Err(e);
        },
    };
    stream.write(archive);
    proof {
        lemma_one_piece(archive@);
    }
    let chunks = stream.finish();
    proof {
        assert(Seq::<Seq<u8>>::empty() + chunk_texts(chunks@) =~= chunk_texts(chunks@));
        assert forall|i: int| 0 <= i < chunks@.len() - 1 implies (#[trigger] chunks@[i])@.len()
            == chunk_size by {
            assert(chunk_texts(chunks@)[i].len() == chunk_size);
        }
    }
    Ok(chunks)
}

} // verus!
