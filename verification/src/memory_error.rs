//! Error type of the memory subsystem and byte-size formatting.
use vstd::prelude::*;

verus! {

/// Memory subsystem error.
#[derive(Clone, Copy, Debug)]
pub struct MemoryError {
    pub code: u32,
    pub message: &'static str,
    pub fatal: bool,
}

impl MemoryError {
    /// Create a new memory error.
    pub fn new(code: u32, message: &'static str, fatal: bool) -> (r: MemoryError)
        ensures
            r.code == code,
            r.message == message,
            r.fatal == fatal,
    {
        MemoryError { code, message, fatal }
    }
}

/// One kibibyte.
pub const KB: u64 = 1024;

/// One mebibyte.
pub const MB: u64 = 0x10_0000;

/// One gibibyte.
pub const GB: u64 = 0x4000_0000;

/// The value and unit a byte count is displayed with: the largest of GB, MB,
/// KB that the count reaches, else plain bytes.
pub open spec fn format_size_value(bytes: u64) -> u64 {
    if bytes >= GB {
        bytes / GB
    } else if bytes >= MB {
        bytes / MB
    } else if bytes >= KB {
        bytes / KB
    } else {
        bytes
    }
}

/// Unit selector of `format_size`: 3 = GB, 2 = MB, 1 = KB, 0 = bytes.
pub open spec fn format_size_unit(bytes: u64) -> int {
    if bytes >= GB {
        3
    } else if bytes >= MB {
        2
    } else if bytes >= KB {
        1
    } else {
        0
    }
}

/// Format a byte count as a value and a unit ("GB", "MB", "KB" or "B").
pub fn format_size(bytes: u64) -> (r: (u64, &'static str))
    ensures
        r.0 == format_size_value(bytes),
        format_size_unit(bytes) == 3 ==> r.1@ == "GB"@,
        format_size_unit(bytes) == 2 ==> r.1@ == "MB"@,
        format_size_unit(bytes) == 1 ==> r.1@ == "KB"@,
        format_size_unit(bytes) == 0 ==> r.1@ == "B"@,
{
    if bytes >= GB {
        (bytes / GB, "GB")
    } else if bytes >= MB {
        (bytes / MB, "MB")
    } else if bytes >= KB {
        (bytes / KB, "KB")
    } else {
        (bytes, "B")
    }
}

} // verus!
