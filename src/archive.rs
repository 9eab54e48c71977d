//! Archives: which decoder and whether tar extraction a downloaded file's
//! name calls for, the byte transducers for gzip, bzip2 and xz, and the
//! compression of a packed tree. Reading and writing files, and tar itself,
//! are left to the caller.
use vstd::prelude::*;

use std::io::Read;

use crate::package::PackageError;
use crate::text::{ends_with, push_str};
use crate::util::UtilError;

verus! {

/// Why extracting or packaging failed.
#[derive(Debug)]
pub enum ArchiveError {
    TempFile(String),
    OpenFile(String, String),
    Seek(String, String),
    CreateFile(String, String),
    Decompress(String),
    Compress(String),
    Extract(String, String),
    Archive(String, String),
    CreateDir(String, String),
    RemoveDir(String, String),
    RemoveFile(String, String),
    Util(UtilError),
    Package(PackageError),
}

/// A compression format.
#[derive(Clone, Copy, PartialEq, Eq, Structural, Debug)]
pub enum Codec {
    Gzip,
    Bzip2,
    Xz,
}

/// What to do with a downloaded file before the build.
#[derive(Clone, Copy, PartialEq, Eq, Structural, Debug)]
pub struct ExtractPlan {
    /// The decoder to run first, if any.
    pub decompress: Option<Codec>,
    /// Whether the (decoded) bytes are a tar archive to unpack.
    pub untar: bool,
}

impl ExtractPlan {
    /// Neither decoded nor unpacked: the file is copied as it is.
    pub open spec fn is_copy(&self) -> bool {
        self.decompress is None && !self.untar
    }
}

pub open spec fn ends_with_any(name: Seq<u8>, exts: Seq<Seq<u8>>) -> bool {
    exists|i: int| 0 <= i < exts.len() && crate::text::has_suffix(name, #[trigger] exts[i])
}

pub open spec fn gz_exts() -> Seq<Seq<u8>> {
    seq![seq![46u8, 103, 122], seq![46u8, 116, 103, 122]]
}

pub open spec fn bz2_exts() -> Seq<Seq<u8>> {
    seq![seq![46u8, 98, 122, 50], seq![46u8, 116, 98, 122]]
}

pub open spec fn xz_exts() -> Seq<Seq<u8>> {
    seq![seq![46u8, 120, 122], seq![46u8, 116, 120, 122]]
}

pub open spec fn tar_exts() -> Seq<Seq<u8>> {
    seq![
        seq![46u8, 116, 97, 114, 46, 103, 122],
        seq![46u8, 116, 97, 114, 46, 98, 122, 50],
        seq![46u8, 116, 97, 114, 46, 120, 122],
        seq![46u8, 116, 103, 122],
        seq![46u8, 116, 98, 122],
        seq![46u8, 116, 120, 122],
    ]
}

/// The decoder a file name calls for: `.gz`/`.tgz` gzip, then
/// `.bz2`/`.tbz` bzip2, then `.xz`/`.txz` xz; the first that matches wins.
pub open spec fn codec_of(name: Seq<u8>) -> Option<Codec> {
    if ends_with_any(name, gz_exts()) {
        Some(Codec::Gzip)
    } else if ends_with_any(name, bz2_exts()) {
        Some(Codec::Bzip2)
    } else if ends_with_any(name, xz_exts()) {
        Some(Codec::Xz)
    } else {
        None
    }
}

/// Whether a file name is that of a tar archive: `.tar.gz`, `.tar.bz2`,
/// `.tar.xz`, `.tgz`, `.tbz` or `.txz`.
pub open spec fn is_tar_name(name: Seq<u8>) -> bool {
    ends_with_any(name, tar_exts())
}

fn ends_with_one_of(name: &[u8], exts: &Vec<Vec<u8>>) -> (r: bool)
    ensures
        r == exists|i: int| 0 <= i < exts@.len() && crate::text::has_suffix(name@, #[trigger] exts@[i]@),
{
    let mut i: usize = 0;
    while i < exts.len()
        invariant
            i <= exts@.len(),
            forall|j: int| 0 <= j < i ==> !crate::text::has_suffix(name@, #[trigger] exts@[j]@),
        decreases exts@.len() - i,
    {
        if ends_with(name, exts[i].as_slice()) {
            return true;
        }
        i = i + 1;
    }
    false
}

/// What `flate2::bufread::GzDecoder` makes of `data`: the bytes of its
/// first gzip member, or nothing when `data` is not gzip.
pub uninterp spec fn gunzip(data: Seq<u8>) -> Option<Seq<u8>>;

/// What `bzip2::bufread::BzDecoder` makes of `data`.
pub uninterp spec fn bunzip2(data: Seq<u8>) -> Option<Seq<u8>>;

/// What `xz2::bufread::XzDecoder` makes of `data`.
pub uninterp spec fn unxz(data: Seq<u8>) -> Option<Seq<u8>>;

/// Relies on `flate2::bufread::GzDecoder`, read to the end.
#[verifier::external_body]
fn gzip_decode(data: &[u8]) -> (r: Result<Vec<u8>, String>)
    ensures
        r is Ok <==> gunzip(data@) is Some,
        r matches Ok(v) ==> gunzip(data@) == Some(v@),
{
    let mut out = Vec::new();
    match flate2::bufread::GzDecoder::new(data).read_to_end(&mut out) {
        Ok(_) => Ok(out),
        Err(e) => Err(e.to_string()),
    }
}

/// Relies on `bzip2::bufread::BzDecoder`, read to the end.
#[verifier::external_body]
fn bzip2_decode(data: &[u8]) -> (r: Result<Vec<u8>, String>)
    ensures
        r is Ok <==> bunzip2(data@) is Some,
        r matches Ok(v) ==> bunzip2(data@) == Some(v@),
{
    let mut out = Vec::new();
    match bzip2::bufread::BzDecoder::new(data).read_to_end(&mut out) {
        Ok(_) => Ok(out),
        Err(e) => Err(e.to_string()),
    }
}

/// Relies on `xz2::bufread::XzDecoder`, read to the end.
#[verifier::external_body]
fn xz_decode(data: &[u8]) -> (r: Result<Vec<u8>, String>)
    ensures
        r is Ok <==> unxz(data@) is Some,
        r matches Ok(v) ==> unxz(data@) == Some(v@),
{
    let mut out = Vec::new();
    match xz2::bufread::XzDecoder::new(data).read_to_end(&mut out) {
        Ok(_) => Ok(out),
        Err(e) => Err(e.to_string()),
    }
}

/// Relies on `xz2::bufread::XzEncoder` at preset `level`, read to the end:
/// an xz stream that decodes back to `data`. `XzEncoder::new` panics on a
/// preset above 9; reading from a slice does not fail, and the encoder
/// unwraps its own errors (`bufread.rs`, `read`), so the result is `Ok`.
#[verifier::external_body]
fn xz_encode(data: &[u8], level: u32) -> (r: Result<Vec<u8>, String>)
    requires
        level <= 9,
    ensures
        r is Ok,
        r matches Ok(v) ==> unxz(v@) == Some(data@),
{
    let mut out = Vec::new();
    match xz2::bufread::XzEncoder::new(data, level).read_to_end(&mut out) {
        Ok(_) => Ok(out),
        Err(e) => Err(e.to_string()),
    }
}

/// What each codec makes of `data`.
pub open spec fn decoded(codec: Codec, data: Seq<u8>) -> Option<Seq<u8>> {
    match codec {
        Codec::Gzip => gunzip(data),
        Codec::Bzip2 => bunzip2(data),
        Codec::Xz => unxz(data),
    }
}

/// Extraction and packaging.
pub struct Archiver {}

impl Archiver {
    /// The xz preset artifacts are compressed with.
    pub const XZ_LEVEL: u32 = 6;

    pub fn new() -> (r: Archiver) {
        Archiver {}
    }


    /// What a downloaded file's name calls for: the decoder of `codec_of`,
    /// and unpacking when `is_tar_name` holds. A name that calls for
    /// neither is copied as it is.
    pub fn plan(&self, filename: &[u8]) -> (r: ExtractPlan)
        ensures
            r.decompress == codec_of(filename@),
            r.untar == is_tar_name(filename@),
    {
        let gz: Vec<Vec<u8>> = vec![vec![46u8, 103, 122], vec![46u8, 116, 103, 122]];
        let bz2: Vec<Vec<u8>> = vec![vec![46u8, 98, 122, 50], vec![46u8, 116, 98, 122]];
        let xz: Vec<Vec<u8>> = vec![vec![46u8, 120, 122], vec![46u8, 116, 120, 122]];
        let tar: Vec<Vec<u8>> = vec![
            vec![46u8, 116, 97, 114, 46, 103, 122],
            vec![46u8, 116, 97, 114, 46, 98, 122, 50],
            vec![46u8, 116, 97, 114, 46, 120, 122],
            vec![46u8, 116, 103, 122],
            vec![46u8, 116, 98, 122],
            vec![46u8, 116, 120, 122],
        ];
        proof {
            assert(gz@.map_values(|v: Vec<u8>| v@) =~= gz_exts());
        }
        assert(forall|i: int| 0 <= i < 2 ==> #[trigger] gz@[i]@ == gz_exts()[i]);
        assert(forall|i: int| 0 <= i < 2 ==> #[trigger] bz2@[i]@ == bz2_exts()[i]);
        assert(forall|i: int| 0 <= i < 2 ==> #[trigger] xz@[i]@ == xz_exts()[i]);
        assert(forall|i: int| 0 <= i < 6 ==> #[trigger] tar@[i]@ == tar_exts()[i]);
        let decompress = if ends_with_one_of(filename, &gz) {
            Some(Codec::Gzip)
        } else if ends_with_one_of(filename, &bz2) {
            Some(Codec::Bzip2)
        } else if ends_with_one_of(filename, &xz) {
            Some(Codec::Xz)
        } else {
            None
        };
        let untar = ends_with_one_of(filename, &tar);
        ExtractPlan { decompress, untar }
    }

    /// Decodes `data` with `codec`.
    pub fn decompress(&self, codec: Codec, data: &[u8]) -> (r: Result<Vec<u8>, ArchiveError>)
        ensures
            r is Ok <==> decoded(codec, data@) is Some,
            r matches Ok(v) ==> decoded(codec, data@) == Some(v@),
            r is Err ==> r matches Err(ArchiveError::Decompress(_)),
    {
        let res = match codec {
            Codec::Gzip => gzip_decode(data),
            Codec::Bzip2 => bzip2_decode(data),
            Codec::Xz => xz_decode(data),
        };
        match res {
            Ok(v) => Ok(v),
            Err(e) => Err(ArchiveError::Decompress(e)),
        }
    }

    /// Compresses a packed tree with xz at `XZ_LEVEL`: always succeeds, and
    /// what it gives decodes back to `data`.
    pub fn compress(&self, data: &[u8]) -> (r: Result<Vec<u8>, ArchiveError>)
        ensures
            r is Ok,
            r matches Ok(v) ==> decoded(Codec::Xz, v@) == Some(data@),
    {
        match xz_encode(data, Archiver::XZ_LEVEL) {
            Ok(v) => Ok(v),
            Err(e) => Err(ArchiveError::Compress(e)),
        }
    }
}

impl ArchiveError {
    /// The explanation shown to the user.
    pub open spec fn text(&self) -> Seq<char> {
        match self {
            ArchiveError::TempFile(a) => "could not create temporary file: "@ + a@,
            ArchiveError::OpenFile(a, b) => "could not open '"@ + a@ + "': "@ + b@,
            ArchiveError::Seek(a, b) => "could not seek to beginning of '"@ + a@ + "': "@ + b@,
            ArchiveError::CreateFile(a, b) => "could not create file '"@ + a@ + "': "@ + b@,
            ArchiveError::Decompress(a) => "could not decompress file: "@ + a@,
            ArchiveError::Compress(a) => "could not compress file: "@ + a@,
            ArchiveError::Extract(a, b) => "could not extract contents of '"@ + a@ + "': "@ + b@,
            ArchiveError::Archive(a, b) => "could not archive '"@ + a@ + "': "@ + b@,
            ArchiveError::CreateDir(a, b) => "could not create directory '"@ + a@ + "': "@ + b@,
            ArchiveError::RemoveDir(a, b) => "could not remove previously extracted files at '"@ + a@ + "': "@ + b@,
            ArchiveError::RemoveFile(a, b) => "could not remove intermediate file at '"@ + a@ + "': "@ + b@,
            ArchiveError::Util(a) => a.text(),
            ArchiveError::Package(a) => a.text(),
        }
    }

    /// The explanation shown to the user, as `text` states.
    pub fn message(&self) -> (r: String)
        ensures
            r@ == self.text(),
    {
        let mut s = String::new();
        match self {
            ArchiveError::TempFile(a) => {
                push_str(&mut s, "could not create temporary file: ");
                push_str(&mut s, a.as_str());
                assert(s@ =~= self.text());
            },
            ArchiveError::OpenFile(a, b) => {
                push_str(&mut s, "could not open '");
                push_str(&mut s, a.as_str());
                push_str(&mut s, "': ");
                push_str(&mut s, b.as_str());
                assert(s@ =~= self.text());
            },
            ArchiveError::Seek(a, b) => {
                push_str(&mut s, "could not seek to beginning of '");
                push_str(&mut s, a.as_str());
                push_str(&mut s, "': ");
                push_str(&mut s, b.as_str());
                assert(s@ =~= self.text());
            },
            ArchiveError::CreateFile(a, b) => {
                push_str(&mut s, "could not create file '");
                push_str(&mut s, a.as_str());
                push_str(&mut s, "': ");
                push_str(&mut s, b.as_str());
                assert(s@ =~= self.text());
            },
            ArchiveError::Decompress(a) => {
                push_str(&mut s, "could not decompress file: ");
                push_str(&mut s, a.as_str());
                assert(s@ =~= self.text());
            },
            ArchiveError::Compress(a) => {
                push_str(&mut s, "could not compress file: ");
                push_str(&mut s, a.as_str());
                assert(s@ =~= self.text());
            },
            ArchiveError::Extract(a, b) => {
                push_str(&mut s, "could not extract contents of '");
                push_str(&mut s, a.as_str());
                push_str(&mut s, "': ");
                push_str(&mut s, b.as_str());
                assert(s@ =~= self.text());
            },
            ArchiveError::Archive(a, b) => {
                push_str(&mut s, "could not archive '");
                push_str(&mut s, a.as_str());
                push_str(&mut s, "': ");
                push_str(&mut s, b.as_str());
                assert(s@ =~= self.text());
            },
            ArchiveError::CreateDir(a, b) => {
                push_str(&mut s, "could not create directory '");
                push_str(&mut s, a.as_str());
                push_str(&mut s, "': ");
                push_str(&mut s, b.as_str());
                assert(s@ =~= self.text());
            },
            ArchiveError::RemoveDir(a, b) => {
                push_str(&mut s, "could not remove previously extracted files at '");
                push_str(&mut s, a.as_str());
                push_str(&mut s, "': ");
                push_str(&mut s, b.as_str());
                assert(s@ =~= self.text());
            },
            ArchiveError::RemoveFile(a, b) => {
                push_str(&mut s, "could not remove intermediate file at '");
                push_str(&mut s, a.as_str());
                push_str(&mut s, "': ");
                push_str(&mut s, b.as_str());
                assert(s@ =~= self.text());
            },
            ArchiveError::Util(a) => {
                push_str(&mut s, a.message().as_str());
                assert(s@ =~= self.text());
            },
            ArchiveError::Package(a) => {
                push_str(&mut s, a.message().as_str());
                assert(s@ =~= self.text());
            },
        }
        s
    }
}


} // verus!
