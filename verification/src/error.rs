//! Errors reported by the manifest decoder.

use vstd::prelude::*;

verus! {

/// A decode failure. Only the fatal conditions produce one of these; advisory
/// anomalies (an integrity-hash mismatch, a truncated optional section) never
/// do.
#[derive(Debug, Clone, PartialEq, Eq, Structural)]
pub enum ManifestError {
    /// The input ended before a required field could be read.
    Io,
    /// A compression stream was recognized but could not be inflated.
    Inflate,
    /// The input does not follow the format: bad magic, out-of-bounds
    /// section, implausible count or size, or a malformed field.
    Invalid,
    /// The storage flags mark the payload as encrypted, which is unsupported.
    EncryptedManifest,
}

} // verus!
