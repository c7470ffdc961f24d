//! Database backups: the object key of a backup and the gzip compression of
//! the database file.

use vstd::prelude::*;
use vstd::string::*;
use std::io::Write;
use crate::text::{owned, decimal, push_decimal};

verus! {

/// The object key of a backup taken at `timestamp` (seconds since the epoch).
pub open spec fn backup_key_spec(timestamp: nat) -> Seq<char> {
    "db-backups/app-"@ + decimal(timestamp) + ".db.gz"@
}

/// The object key of a backup taken at `timestamp`:
/// `db-backups/app-<timestamp>.db.gz`.
pub fn backup_key(timestamp: u64) -> (r: String)
    ensures
        r@ == backup_key_spec(timestamp as nat),
{
    let mut s = owned("db-backups/app-");
    push_decimal(&mut s, timestamp);
    s.append(".db.gz");
    s
}

/// The gzip stream that `flate2` produces for `data` at the default level:
/// `None` when the encoder reports an error for it.
pub uninterp spec fn gzip(data: Seq<u8>) -> Option<Seq<u8>>;

/// Compresses `data` with `flate2::write::GzEncoder` (default level) into a
/// buffer: `GzEncoder::new`, `write_all`, then `finish`.
///
/// Both the stream and whether the encoder succeeds are stated through the
/// name `gzip`: writing into a `Vec` and compressing at a fixed level depend
/// on `data` alone. The crate writes the gzip magic bytes and the deflate
/// method first and an eight-byte trailer last. An I/O error of the encoder
/// is returned as it is.
#[verifier::external_body]
fn gzip_encode(data: &[u8]) -> (r: Result<Vec<u8>, std::io::Error>)
    ensures
        match r {
            Ok(v) => gzip(data@) == Some(v@) && v@.len() >= 18 && v@[0] == 0x1f && v@[1] == 0x8b
                && v@[2] == 8,
            Err(_) => gzip(data@) is None,
        },
{
    let mut encoder = flate2::write::GzEncoder::new(Vec::new(), flate2::Compression::default());
    encoder.write_all(data)?;
    encoder.finish()
}

/// Why a backup could not be prepared.
#[derive(Debug)]
pub enum BackupError {
    /// The compressor failed.
    Compression(std::io::Error),
}

/// The gzip-compressed content of a database file: `Ok` exactly when the
/// encoder succeeds on `data`, and then its stream.
pub fn compress_data(data: &[u8]) -> (r: Result<Vec<u8>, BackupError>)
    ensures
        r is Ok <==> gzip(data@) is Some,
        r matches Ok(v) ==> gzip(data@) == Some(v@),
{
    match gzip_encode(data) {
        Ok(v) => Ok(v),
        Err(e) => Err(BackupError::Compression(e)),
    }
}

} // verus!
