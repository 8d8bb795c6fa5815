//! The database metadata: the three fields the walker needs, extracted
//! once from the decoded metadata map.
use vstd::prelude::*;
use vstd::string::StringExecFns;
use crate::error::MmdbError;
use crate::value::{spec_map_get, spec_value_of, map_get, SpecValue, Type};

verus! {

/// The metadata fields that drive the search tree walk, decoded once
/// when a database is opened and immutable afterwards.
#[derive(Debug, Clone, Copy, PartialEq, Eq, Structural)]
pub struct MmdbMetadata {
    pub node_count: u32,
    pub record_size: u16,
    pub ip_version: u16,
}

/// Bytes occupied by one search-tree node (two records) for each
/// supported record size.
pub open spec fn spec_bytes_per_node(record_size: u16) -> Result<u64, MmdbError> {
    if record_size == 24 {
        Ok(6u64)
    } else if record_size == 28 {
        Ok(7u64)
    } else if record_size == 32 {
        Ok(8u64)
    } else {
        Err(MmdbError::InvalidMetadata("unsupported record_size"))
    }
}

/// Bytes occupied by one search-tree node, or an error for a record
/// size the format does not define.
pub fn bytes_per_node(record_size: u16) -> (r: Result<u64, MmdbError>)
    ensures
        r == spec_bytes_per_node(record_size),
{
    match record_size {
        24 => Ok(6),
        28 => Ok(7),
        32 => Ok(8),
        _ => Err(MmdbError::InvalidMetadata("unsupported record_size")),
    }
}

/// The metadata extracted from a decoded value: the value must be a
/// map holding `node_count` as a 32-bit integer and `record_size` and
/// `ip_version` as 16-bit integers.
pub open spec fn spec_metadata_of(v: SpecValue) -> Result<MmdbMetadata, MmdbError> {
    match v {
        SpecValue::Mapping(entries) => match spec_map_get(entries, "node_count"@) {
            Some(SpecValue::U32(node_count)) => match spec_map_get(entries, "record_size"@) {
                Some(SpecValue::U16(record_size)) => match spec_map_get(
                    entries,
                    "ip_version"@,
                ) {
                    Some(SpecValue::U16(ip_version)) => Ok(
                        MmdbMetadata { node_count, record_size, ip_version },
                    ),
                    _ => Err(MmdbError::InvalidMetadata("does not contain ip version")),
                },
                _ => Err(MmdbError::InvalidMetadata("does not contain record size")),
            },
            _ => Err(MmdbError::InvalidMetadata("does not contain node count")),
        },
        _ => Err(MmdbError::InvalidMetadata("metadata was not encoded as map")),
    }
}

/// Whether the fixed metadata marker sits at `i`: the three bytes
/// 0xAB 0xCD 0xEF followed by the ASCII letters of "MaxMind.com".
pub open spec fn marker_at(data: Seq<u8>, i: int) -> bool {
    &&& 0 <= i
    &&& i + 14 <= data.len()
    &&& data[i] == 0xab
    &&& data[i + 1] == 0xcd
    &&& data[i + 2] == 0xef
    &&& data[i + 3] == 0x4d
    &&& data[i + 4] == 0x61
    &&& data[i + 5] == 0x78
    &&& data[i + 6] == 0x4d
    &&& data[i + 7] == 0x69
    &&& data[i + 8] == 0x6e
    &&& data[i + 9] == 0x64
    &&& data[i + 10] == 0x2e
    &&& data[i + 11] == 0x63
    &&& data[i + 12] == 0x6f
    &&& data[i + 13] == 0x6d
}

/// Where the scanned tail window begins: only the last 128000 bytes
/// are searched for the marker.
pub open spec fn spec_window_start(data: Seq<u8>) -> int {
    if data.len() < 128000 {
        0
    } else {
        data.len() - 128000
    }
}

/// The rightmost marker position at or below `j` within the tail
/// window, scanning downwards.
pub open spec fn spec_rightmost_marker_from(data: Seq<u8>, j: int) -> Option<int>
    decreases j - spec_window_start(data) + 1,
{
    if j < spec_window_start(data) {
        None
    } else if marker_at(data, j) {
        Some(j)
    } else {
        spec_rightmost_marker_from(data, j - 1)
    }
}

/// The rightmost marker position within the tail window, if any.
pub open spec fn spec_find_marker(data: Seq<u8>) -> Option<int> {
    spec_rightmost_marker_from(data, data.len() - 14)
}

/// What the downward scan yields: the rightmost marker in the window,
/// or the knowledge that the window holds none.
pub proof fn lemma_rightmost_marker(data: Seq<u8>, j: int)
    requires
        j <= data.len() - 14,
    ensures
        match spec_rightmost_marker_from(data, j) {
            Some(i) => {
                &&& spec_window_start(data) <= i <= j
                &&& marker_at(data, i)
                &&& forall|k: int| i < k <= j ==> !marker_at(data, k)
            },
            None => forall|k: int| spec_window_start(data) <= k <= j ==> !marker_at(data, k),
        },
    decreases j - spec_window_start(data) + 1,
{
    if j >= spec_window_start(data) && !marker_at(data, j) {
        lemma_rightmost_marker(data, j - 1);
    }
}

/// Whether the marker sits at `i` in the source.
fn marker_match(data: &[u8], i: usize) -> (b: bool)
    ensures
        b == marker_at(data@, i as int),
{
    if data.len() < 14 || i > data.len() - 14 {
        return false;
    }
    data[i] == 0xab && data[i + 1] == 0xcd && data[i + 2] == 0xef && data[i + 3] == 0x4d && data[i
        + 4] == 0x61 && data[i + 5] == 0x78 && data[i + 6] == 0x4d && data[i + 7] == 0x69 && data[i
        + 8] == 0x6e && data[i + 9] == 0x64 && data[i + 10] == 0x2e && data[i + 11] == 0x63
        && data[i + 12] == 0x6f && data[i + 13] == 0x6d
}

/// Scans the tail window for the rightmost occurrence of the metadata
/// marker: earlier incidental byte collisions may occur in the window,
/// and the real metadata always follows the last occurrence.
pub fn find_marker(data: &[u8]) -> (r: Option<usize>)
    ensures
        match r {
            Some(i) => spec_find_marker(data@) == Some(i as int),
            None => spec_find_marker(data@) is None,
        },
{
    if data.len() < 14 {
        return None;
    }
    let ws: usize = if data.len() < 128000 {
        0
    } else {
        data.len() - 128000
    };
    let mut j: usize = data.len() - 13;
    while j > ws
        invariant
            ws <= j <= data@.len() - 13,
            ws == spec_window_start(data@),
            spec_find_marker(data@) == spec_rightmost_marker_from(data@, j - 1),
        decreases j,
    {
        let cand = j - 1;
        if marker_match(data, cand) {
            return Some(cand);
        }
        j = j - 1;
    }
    None
}

impl MmdbMetadata {
    /// Extracts the three required fields from the decoded metadata
    /// map; a missing field or one of the wrong variant is an error
    /// naming the field.
    pub fn new(metadata_map: &Type) -> (r: Result<MmdbMetadata, MmdbError>)
        ensures
            r == spec_metadata_of(metadata_map@),
    {
        match metadata_map {
            Type::Mapping(items) => {
                let node_count: u32 = match map_get(items, &String::from_str("node_count")) {
                    Some(Type::U32(node_count)) => *node_count,
                    _ => {
                        return Err(MmdbError::InvalidMetadata("does not contain node count"));
                    },
                };
                let record_size: u16 = match map_get(items, &String::from_str("record_size")) {
                    Some(Type::U16(record_size)) => *record_size,
                    _ => {
                        return Err(MmdbError::InvalidMetadata("does not contain record size"));
                    },
                };
                let ip_version: u16 = match map_get(items, &String::from_str("ip_version")) {
                    Some(Type::U16(ip_version)) => *ip_version,
                    _ => {
                        return Err(MmdbError::InvalidMetadata("does not contain ip version"));
                    },
                };
                Ok(MmdbMetadata { node_count, record_size, ip_version })
            },
            _ => Err(MmdbError::InvalidMetadata("metadata was not encoded as map")),
        }
    }
}

} // verus!
