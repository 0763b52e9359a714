use chbackup::upload::encode::CompressError;
use chbackup::upload::stream::{
    archive_extension, check_chunk_size, compress_part, compress_part_streaming, ChunkedWriter,
    PartStream, MIN_MULTIPART_CHUNK,
};
use std::io::Read;

#[test]
fn test_compress_lz4_roundtrip() {
    let archive = tar_of(&[
        ("test_part/data.bin", &b"test binary data"[..]),
        ("test_part/checksums.txt", &b"checksum content"[..]),
    ]);
    let compressed = compress_part(&archive, "lz4", 1).unwrap();
    assert!(!compressed.is_empty());

    // Verify it's valid LZ4 by decompressing
    let mut decoder = lz4_flex::frame::FrameDecoder::new(compressed.as_slice());
    let mut decompressed = Vec::new();
    decoder.read_to_end(&mut decompressed).unwrap();
    assert!(decompressed.len() > compressed.len() / 10); // Sanity check
    assert_eq!(decompressed, archive);
}

#[test]
fn test_s3_key_for_part() {
    // Verify S3 key format generation
    let backup_name = "daily-20240115";
    let db = "default";
    let table = "trades";
    let part_name = "202401_1_50_3";

    let key = format!(
        "{}/data/{}/{}/{}{}",
        backup_name,
        db,
        table,
        part_name,
        archive_extension("lz4")
    );
    assert_eq!(
        key,
        "daily-20240115/data/default/trades/202401_1_50_3.tar.lz4"
    );
}

#[test]
fn test_archive_extension_mapping() {
    assert_eq!(archive_extension("lz4"), ".tar.lz4");
    assert_eq!(archive_extension("zstd"), ".tar.zstd");
    assert_eq!(archive_extension("gzip"), ".tar.gz");
    assert_eq!(archive_extension("none"), ".tar");
    // Unknown defaults to lz4
    assert_eq!(archive_extension("unknown"), ".tar.lz4");
}

#[test]
fn test_compress_unknown_format_errors() {
    let result = compress_part(&tar_of(&[("test_part/data.bin", &b"test"[..])]), "brotli", 1);
    assert!(result.is_err());
    let err = result.unwrap_err();
    assert_eq!(err, CompressError::UnknownFormat { format: "brotli".to_string() });
    assert!(err.message().contains("Unknown compression format: brotli"));
}

#[test]
fn test_compress_part_streaming_chunk_sizes() {
    // ~15 MiB of data (should produce multiple 5 MiB chunks)
    let data: Vec<u8> = (0..15_000_000).map(|i| (i % 256) as u8).collect();
    let archive = tar_of(&[("chunk_test_part/big_file.bin", &data[..])]);
    let chunks = compress_part_streaming(&archive, "none", 0, MIN_MULTIPART_CHUNK).unwrap();

    // Should have multiple chunks
    assert!(
        chunks.len() > 1,
        "Expected multiple chunks, got {}",
        chunks.len()
    );

    // All chunks except the last are exactly chunk_size
    for (i, chunk) in chunks.iter().enumerate() {
        if i < chunks.len() - 1 {
            assert_eq!(
                chunk.len(),
                MIN_MULTIPART_CHUNK,
                "Non-final chunk {} should be exactly {} bytes, got {}",
                i,
                MIN_MULTIPART_CHUNK,
                chunk.len()
            );
        }
    }

    // Last chunk can be smaller
    let last = chunks.last().unwrap();
    assert!(!last.is_empty(), "Last chunk should not be empty");
    assert_eq!(chunks.concat(), archive);
}

#[test]
fn test_compress_part_streaming_chunk_size_too_small() {
    let archive = tar_of(&[("test_part/data.bin", &b"test"[..])]);
    let result = compress_part_streaming(&archive, "lz4", 1, 1024);
    assert!(result.is_err());
    let err = result.unwrap_err().message();
    assert!(err.contains("chunk_size"));
    assert!(err.contains("MIN_MULTIPART_CHUNK"));
    assert_eq!(
        check_chunk_size(1024),
        Err("chunk_size (1024) must be at least MIN_MULTIPART_CHUNK (5242880 bytes)".to_string())
    );
    assert!(check_chunk_size(MIN_MULTIPART_CHUNK).is_ok());
}

fn sample_archive() -> Vec<u8> {
    (0..100_000u32).map(|i| (i / 7 % 13) as u8).collect()
}

fn tar_of(files: &[(&str, &[u8])]) -> Vec<u8> {
    let mut builder = tar::Builder::new(Vec::new());
    for (path, data) in files {
        let mut header = tar::Header::new_gnu();
        header.set_size(data.len() as u64);
        header.set_mode(0o644);
        header.set_cksum();
        builder.append_data(&mut header, path, *data).unwrap();
    }
    builder.into_inner().unwrap()
}

#[test]
fn archives_come_back_from_every_format() {
    let archive = sample_archive();
    let compressed = compress_part(&archive, "zstd", 3).unwrap();
    assert_ne!(compressed, archive);
    assert_eq!(zstd::decode_all(&compressed[..]).unwrap(), archive);
    let compressed = compress_part(&archive, "gzip", 6).unwrap();
    assert_ne!(compressed, archive);
    let mut out = Vec::new();
    flate2::read::GzDecoder::new(&compressed[..]).read_to_end(&mut out).unwrap();
    assert_eq!(out, archive);
    assert_eq!(compress_part(&archive, "none", 0).unwrap(), archive);
}

#[test]
fn levels_beyond_the_highest_count_as_the_highest() {
    let archive = sample_archive();
    assert_eq!(
        compress_part(&archive, "zstd", 99).unwrap(),
        compress_part(&archive, "zstd", 22).unwrap()
    );
}

#[test]
fn a_stream_is_cut_into_chunks() {
    let mut writer = ChunkedWriter::new(4);
    writer.write(b"abcdefghij");
    assert_eq!(writer.take_chunks(), vec![b"abcd".to_vec(), b"efgh".to_vec()]);
    writer.write(b"kl");
    // A chunk that is just full is finished at once.
    assert_eq!(writer.take_chunks(), vec![b"ijkl".to_vec()]);
    writer.flush();
    assert!(writer.take_chunks().is_empty());
    writer.write(b"m");
    writer.flush();
    assert_eq!(writer.take_chunks(), vec![b"m".to_vec()]);
}

fn entries_of<R: Read>(reader: R) -> Vec<(String, Vec<u8>)> {
    let mut archive = tar::Archive::new(reader);
    archive
        .entries()
        .unwrap()
        .map(|entry| {
            let mut entry = entry.unwrap();
            let path = entry.path().unwrap().to_string_lossy().to_string();
            let mut data = Vec::new();
            entry.read_to_end(&mut data).unwrap();
            (path, data)
        })
        .collect()
}

#[test]
fn test_compress_part_streaming_roundtrip() {
    let large_data: Vec<u8> = (0..100_000).map(|i| (i % 256) as u8).collect();
    let archive = tar_of(&[
        ("stream_part/file1.txt", &b"streaming content one"[..]),
        ("stream_part/subdir/file2.txt", &b"streaming content two"[..]),
        ("stream_part/large.bin", &large_data[..]),
    ]);
    let chunks = compress_part_streaming(&archive, "lz4", 1, MIN_MULTIPART_CHUNK).unwrap();
    let all_compressed = chunks.concat();
    assert!(!all_compressed.is_empty());

    let entries = entries_of(lz4_flex::frame::FrameDecoder::new(all_compressed.as_slice()));
    assert_eq!(
        entries,
        vec![
            ("stream_part/file1.txt".to_string(), b"streaming content one".to_vec()),
            ("stream_part/subdir/file2.txt".to_string(), b"streaming content two".to_vec()),
            ("stream_part/large.bin".to_string(), large_data),
        ]
    );
}

#[test]
fn test_compress_part_streaming_zstd_roundtrip() {
    let archive = tar_of(&[
        ("zstd_stream_part/data.bin", &b"zstd streaming test data"[..]),
        ("zstd_stream_part/checksums.txt", &b"checksum for zstd stream"[..]),
    ]);
    let chunks = compress_part_streaming(&archive, "zstd", 3, MIN_MULTIPART_CHUNK).unwrap();
    let all_compressed = chunks.concat();
    let entries = entries_of(zstd::Decoder::new(all_compressed.as_slice()).unwrap());
    assert_eq!(
        entries,
        vec![
            ("zstd_stream_part/data.bin".to_string(), b"zstd streaming test data".to_vec()),
            ("zstd_stream_part/checksums.txt".to_string(), b"checksum for zstd stream".to_vec()),
        ]
    );
}

/// Bytes that do not compress.
fn noise(len: usize) -> Vec<u8> {
    let mut state: u64 = 0x9e37_79b9_7f4a_7c15;
    (0..len)
        .map(|_| {
            state ^= state << 13;
            state ^= state >> 7;
            state ^= state << 17;
            (state >> 24) as u8
        })
        .collect()
}

#[test]
fn streams_of_every_format_are_cut_evenly_and_come_back() {
    let archive = noise(11_000_000);
    for format in ["lz4", "zstd", "gzip", "none"] {
        let mut stream = PartStream::new(format, 1, MIN_MULTIPART_CHUNK).unwrap();
        let mut chunks = Vec::new();
        for piece in archive.chunks(700_001) {
            stream.write(piece);
            chunks.extend(stream.take_chunks());
        }
        chunks.extend(stream.finish());
        assert_eq!(chunks.len(), 3, "{format}");
        assert_eq!(chunks[0].len(), MIN_MULTIPART_CHUNK, "{format}");
        assert_eq!(chunks[1].len(), MIN_MULTIPART_CHUNK, "{format}");
        assert!(!chunks[2].is_empty(), "{format}");
        let all = chunks.concat();
        let mut out = Vec::new();
        match format {
            "lz4" => {
                lz4_flex::frame::FrameDecoder::new(&all[..]).read_to_end(&mut out).unwrap();
            }
            "zstd" => out = zstd::decode_all(&all[..]).unwrap(),
            "gzip" => {
                flate2::read::GzDecoder::new(&all[..]).read_to_end(&mut out).unwrap();
            }
            _ => out = all,
        }
        assert!(out == archive, "{format}");
    }
}

#[test]
fn streams_of_unknown_formats_are_refused() {
    let err = PartStream::new("brotli", 1, MIN_MULTIPART_CHUNK).err().unwrap();
    assert_eq!(err, CompressError::UnknownFormat { format: "brotli".to_string() });
    let err = PartStream::new("brotli", 1, 7).err().unwrap();
    assert_eq!(err, CompressError::SmallChunks { chunk_size: 7 });
}

#[test]
fn an_empty_archive_comes_back_from_every_format() {
    let chunks = compress_part_streaming(b"", "lz4", 1, MIN_MULTIPART_CHUNK).unwrap();
    let mut out = Vec::new();
    lz4_flex::frame::FrameDecoder::new(&chunks.concat()[..]).read_to_end(&mut out).unwrap();
    assert!(out.is_empty());
    let chunks = compress_part_streaming(b"", "none", 1, MIN_MULTIPART_CHUNK).unwrap();
    assert!(chunks.is_empty());
}

#[test]
fn the_level_reaches_the_encoder() {
    let archive: Vec<u8> = (0..400_000u32).map(|i| (i.wrapping_mul(i) >> 7) as u8).collect();
    for format in ["gzip", "zstd"] {
        let low = compress_part(&archive, format, 1).unwrap();
        let high = compress_part(&archive, format, 9).unwrap();
        assert_ne!(low, high, "{format}");
        let chunks = compress_part_streaming(&archive, format, 9, MIN_MULTIPART_CHUNK).unwrap();
        assert_eq!(chunks.concat(), high, "{format}");
    }
}
