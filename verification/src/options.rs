//! Rules for the options that commands share.

use vstd::prelude::*;

use crate::text::{decimal, decimal_text};

verus! {

/// The highest compression level.
pub const MAX_COMPRESSION: u32 = 9;

/// A compression level above [`MAX_COMPRESSION`].
#[derive(Debug, Clone, Copy)]
pub struct CompressionLevelError {
    /// The level that was asked for.
    pub level: u32,
}

impl CompressionLevelError {
    /// What went wrong, in words.
    pub fn message(&self) -> (r: String)
        ensures
            r@ == "Compression level must be 0-9, got "@ + decimal(self.level as nat),
    {
        let mut r = "Compression level must be 0-9, got ".to_owned();
        r.append(decimal_text(self.level).as_str());
        r
    }
}

/// Accepts the compression levels that there are.
pub fn check_compression_level(level: u32) -> (r: Result<u32, CompressionLevelError>)
    ensures
        level <= 9 ==> r == Ok::<u32, CompressionLevelError>(level),
        level > 9 ==> r == Err::<u32, CompressionLevelError>(CompressionLevelError { level }),
{
    if level > MAX_COMPRESSION {
        Err(CompressionLevelError { level })
    } else {
        Ok(level)
    }
}

/// The name of a version: the given one, or else its number.
pub fn version_name(version: u32, name: Option<String>) -> (r: String)
    ensures
        name matches Some(n) ==> r@ == n@,
        name is None ==> r@ == decimal(version as nat),
{
    match name {
        Some(n) => n,
        None => decimal_text(version),
    }
}

} // verus!
