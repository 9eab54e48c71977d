use std::io::Write;

use mkpkg::archive::{ArchiveError, Archiver, Codec, ExtractPlan};

fn plan(name: &str) -> ExtractPlan {
    Archiver::new().plan(name.as_bytes())
}

#[test]
fn extension_dispatch() {
    assert_eq!(plan("a.tar.gz"), ExtractPlan { decompress: Some(Codec::Gzip), untar: true });
    assert_eq!(plan("a.tgz"), ExtractPlan { decompress: Some(Codec::Gzip), untar: true });
    assert_eq!(plan("a.tar.bz2"), ExtractPlan { decompress: Some(Codec::Bzip2), untar: true });
    assert_eq!(plan("a.tbz"), ExtractPlan { decompress: Some(Codec::Bzip2), untar: true });
    assert_eq!(plan("a.tar.xz"), ExtractPlan { decompress: Some(Codec::Xz), untar: true });
    assert_eq!(plan("a.txz"), ExtractPlan { decompress: Some(Codec::Xz), untar: true });
    assert_eq!(plan("a.gz"), ExtractPlan { decompress: Some(Codec::Gzip), untar: false });
    assert_eq!(plan("a.bz2"), ExtractPlan { decompress: Some(Codec::Bzip2), untar: false });
    assert_eq!(plan("a.xz"), ExtractPlan { decompress: Some(Codec::Xz), untar: false });
}

#[test]
fn unrecognized_extension_is_copied() {
    assert_eq!(plan("fix.patch"), ExtractPlan { decompress: None, untar: false });
    assert_eq!(plan("a.tar"), ExtractPlan { decompress: None, untar: false });
    assert_eq!(plan(""), ExtractPlan { decompress: None, untar: false });
}

#[test]
fn xz_round_trip() {
    let a = Archiver::new();
    let data: Vec<u8> = (0..5000u32).map(|i| (i % 251) as u8).collect();
    let packed = a.compress(&data).unwrap();
    assert!(a.compress(&[]).is_ok());
    assert_ne!(packed, data);
    assert_eq!(&packed[..6], &[0xFD, b'7', b'z', b'X', b'Z', 0x00]);
    assert_eq!(a.decompress(Codec::Xz, &packed).unwrap(), data);
}

#[test]
fn gzip_and_bzip2_decode() {
    let a = Archiver::new();
    let mut gz = flate2::write::GzEncoder::new(Vec::new(), flate2::Compression::default());
    gz.write_all(b"hello gzip").unwrap();
    let gz = gz.finish().unwrap();
    assert_eq!(a.decompress(Codec::Gzip, &gz).unwrap(), b"hello gzip".to_vec());
    let mut bz = bzip2::write::BzEncoder::new(Vec::new(), bzip2::Compression::default());
    bz.write_all(b"hello bzip2").unwrap();
    let bz = bz.finish().unwrap();
    assert_eq!(a.decompress(Codec::Bzip2, &bz).unwrap(), b"hello bzip2".to_vec());
}

#[test]
fn corrupt_input_is_a_decompress_error() {
    let a = Archiver::new();
    assert!(matches!(a.decompress(Codec::Gzip, b"not gzip"), Err(ArchiveError::Decompress(_))));
    assert!(matches!(a.decompress(Codec::Xz, b"not xz"), Err(ArchiveError::Decompress(_))));
    assert!(matches!(a.decompress(Codec::Bzip2, b"not bz2"), Err(ArchiveError::Decompress(_))));
}

#[test]
fn archive_error_messages() {
    assert_eq!(
        ArchiveError::Extract(String::from("a.tgz"), String::from("bad header")).message(),
        "could not extract contents of 'a.tgz': bad header"
    );
}
