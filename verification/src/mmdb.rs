//! The database handle: opening a byte source locates and decodes the
//! metadata once; a query walks the binary search tree one address bit
//! at a time and decodes the value the walk lands on.
use vstd::prelude::*;
use crate::bytes::read_be_uint;
use crate::decode::{read_type, spec_read_type, POINTER_DEPTH_LIMIT};
use crate::error::MmdbError;
use crate::metadata::{
    bytes_per_node, find_marker, spec_bytes_per_node, spec_find_marker, spec_metadata_of,
    MmdbMetadata,
};
use crate::value::{SpecValue, Type};

verus! {

/// An IP address as the walker sees it: the raw bits of one family.
#[derive(Debug, Clone, Copy, PartialEq, Eq, Structural)]
pub enum IpAddress {
    V4(u32),
    V6(u128),
}

/// What one node record says about the rest of the walk.
#[derive(Debug, Clone, Copy, PartialEq, Eq, Structural)]
pub enum RecordReadResult {
    /// The record indexes another node: continue at this byte offset.
    TraverseTreeTo(u64),
    /// The record equals the node count: no data for this address.
    NoData,
    /// The record exceeds the node count: decode at this byte offset.
    Data(u64),
}

/// The record a node stores for one branch, as an integer: the left
/// record for bit 0, the right for bit 1. Nodes pack two records into
/// 6, 8, or — nibble-splitting the shared middle byte — 7 bytes.
pub open spec fn spec_selected_record(
    data: Seq<u8>,
    bpn: int,
    pos: int,
    bit: bool,
) -> int {
    if bpn == 6 {
        if bit {
            crate::bytes::be_bytes_to_nat(data.subrange(pos + 3, pos + 6)) as int
        } else {
            crate::bytes::be_bytes_to_nat(data.subrange(pos, pos + 3)) as int
        }
    } else if bpn == 7 {
        if bit {
            ((data[pos + 3] as u32 & 0x0f) << 24 | (data[pos + 4] as u32) << 16 | (data[pos
                + 5] as u32) << 8 | (data[pos + 6] as u32)) as int
        } else {
            ((data[pos + 3] as u32 & 0xf0) << 20 | (data[pos] as u32) << 16 | (data[pos
                + 1] as u32) << 8 | (data[pos + 2] as u32)) as int
        }
    } else {
        if bit {
            crate::bytes::be_bytes_to_nat(data.subrange(pos + 4, pos + 8)) as int
        } else {
            crate::bytes::be_bytes_to_nat(data.subrange(pos, pos + 4)) as int
        }
    }
}

/// One step of the walk: the node at `pos` is read and the record for
/// `bit` classified against the node count.
pub open spec fn spec_read_record(
    data: Seq<u8>,
    meta: MmdbMetadata,
    pos: int,
    bit: bool,
) -> Result<RecordReadResult, MmdbError> {
    match spec_bytes_per_node(meta.record_size) {
        Err(e) => Err(e),
        Ok(bpn) => {
            if pos < 0 || pos + bpn > data.len() {
                Err(MmdbError::BadIo)
            } else {
                let selected = spec_selected_record(data, bpn as int, pos, bit);
                if selected < meta.node_count {
                    Ok(RecordReadResult::TraverseTreeTo((selected * bpn) as u64))
                } else if selected == meta.node_count {
                    Ok(RecordReadResult::NoData)
                } else {
                    Ok(
                        RecordReadResult::Data(
                            (selected - meta.node_count + bpn * meta.node_count) as u64,
                        ),
                    )
                }
            }
        },
    }
}

/// The walk from byte offset `pos` with `remaining` address bits left,
/// taking the next bit from position `remaining - 1` of `ip`: no
/// terminal record within the remaining bits means no match.
pub open spec fn spec_walk_from(
    data: Seq<u8>,
    meta: MmdbMetadata,
    ip: u128,
    remaining: nat,
    pos: int,
) -> Result<Option<SpecValue>, MmdbError>
    decreases remaining,
{
    if remaining == 0 {
        Ok(None)
    } else {
        let bit = (ip >> ((remaining - 1) as u128)) & 1 == 1;
        match spec_read_record(data, meta, pos, bit) {
            Err(e) => Err(e),
            Ok(RecordReadResult::TraverseTreeTo(p)) => spec_walk_from(
                data,
                meta,
                ip,
                (remaining - 1) as nat,
                p as int,
            ),
            Ok(RecordReadResult::NoData) => Ok(None),
            Ok(RecordReadResult::Data(p)) => match spec_read_type(
                data,
                p as int,
                Some(meta),
                POINTER_DEPTH_LIMIT as nat,
            ) {
                Err(e) => Err(e),
                Ok((v, _)) => Ok(Some(v)),
            },
        }
    }
}

/// A whole query on the raw address bits: the walk starts at the root
/// node, offset zero.
pub open spec fn spec_query_ip_uint(
    data: Seq<u8>,
    meta: MmdbMetadata,
    ip: u128,
    num_bits: nat,
) -> Result<Option<SpecValue>, MmdbError> {
    spec_walk_from(data, meta, ip, num_bits, 0)
}

/// A query by IPv4 address: walked as 32 bits on an IPv4 database, and
/// as the IPv4-compatible IPv6 mapping (the same bits, zero-extended)
/// on an IPv6 database.
pub open spec fn spec_query_ipv4(data: Seq<u8>, meta: MmdbMetadata, ip: u32) -> Result<
    Option<SpecValue>,
    MmdbError,
> {
    if meta.ip_version == 4 {
        spec_query_ip_uint(data, meta, ip as u128, 32)
    } else if meta.ip_version == 6 {
        spec_query_ipv6(data, meta, ip as u128)
    } else {
        Err(MmdbError::InvalidMetadata("database has invalid ip version"))
    }
}

/// A query by IPv6 address: an IPv4-only database answers no IPv6
/// query.
pub open spec fn spec_query_ipv6(data: Seq<u8>, meta: MmdbMetadata, ip: u128) -> Result<
    Option<SpecValue>,
    MmdbError,
> {
    if meta.ip_version == 4 {
        Err(MmdbError::WrongDatabaseType)
    } else if meta.ip_version == 6 {
        spec_query_ip_uint(data, meta, ip, 128)
    } else {
        Err(MmdbError::InvalidMetadata("database has invalid ip version"))
    }
}

/// What opening a byte source yields: the metadata decoded after the
/// rightmost marker, or the error that stops it.
pub open spec fn spec_open(data: Seq<u8>) -> Result<MmdbMetadata, MmdbError> {
    match spec_find_marker(data) {
        None => Err(MmdbError::MetadataNotFound),
        Some(i) => match spec_read_type(data, i + 14, None, POINTER_DEPTH_LIMIT as nat) {
            Err(e) => Err(e),
            Ok((v, _)) => spec_metadata_of(v),
        },
    }
}

/// The decoded optional value and the specification's agree, error
/// for error and value for value.
pub open spec fn query_matches(
    r: Result<Option<Type>, MmdbError>,
    s: Result<Option<SpecValue>, MmdbError>,
) -> bool {
    match (r, s) {
        (Ok(Some(v)), Ok(Some(sv))) => v@ == sv,
        (Ok(None), Ok(None)) => true,
        (Err(e), Err(se)) => e == se,
        _ => false,
    }
}

/// Reads the node at `pos` and classifies the record `bit` selects:
/// below the node count it indexes the next node, equal means no
/// data, above it points into the data section.
pub fn read_record(data: &[u8], metadata: &MmdbMetadata, pos: u64, bit_set: bool) -> (r: Result<
    RecordReadResult,
    MmdbError,
>)
    ensures
        r == spec_read_record(data@, *metadata, pos as int, bit_set),
{
    let bpn = match bytes_per_node(metadata.record_size) {
        Ok(b) => b,
        Err(e) => {
            return Err(e);
        },
    };
    if (data.len() as u64) < bpn || pos > data.len() as u64 - bpn {
        return Err(MmdbError::BadIo);
    }
    let p = pos as usize;
    let (left_record, right_record): (u32, u32) = if bpn == 6 {
        let (left, _) = match read_be_uint(data, p, 3) {
            Ok(x) => x,
            Err(e) => {
                return Err(e);
            },
        };
        let (right, _) = match read_be_uint(data, p + 3, 3) {
            Ok(x) => x,
            Err(e) => {
                return Err(e);
            },
        };
        proof {
            crate::bytes::lemma_be_bytes_to_nat_bound(data@.subrange(p as int, p + 3));
            crate::bytes::lemma_be_bytes_to_nat_bound(data@.subrange(p + 3, p + 6));
            crate::bytes::lemma_pow256_values();
        }
        (left as u32, right as u32)
    } else if bpn == 7 {
        let left: u32 = ((data[p + 3] as u32 & 0xf0) << 20) | ((data[p] as u32) << 16) | ((data[p
            + 1] as u32) << 8) | (data[p + 2] as u32);
        let right: u32 = ((data[p + 3] as u32 & 0x0f) << 24) | ((data[p + 4] as u32) << 16)
            | ((data[p + 5] as u32) << 8) | (data[p + 6] as u32);
        (left, right)
    } else {
        let (left, _) = match read_be_uint(data, p, 4) {
            Ok(x) => x,
            Err(e) => {
                return Err(e);
            },
        };
        let (right, _) = match read_be_uint(data, p + 4, 4) {
            Ok(x) => x,
            Err(e) => {
                return Err(e);
            },
        };
        proof {
            crate::bytes::lemma_be_bytes_to_nat_bound(data@.subrange(p as int, p + 4));
            crate::bytes::lemma_be_bytes_to_nat_bound(data@.subrange(p + 4, p + 8));
            crate::bytes::lemma_pow256_values();
        }
        (left as u32, right as u32)
    };
    let selected_record: u32 = if bit_set {
        right_record
    } else {
        left_record
    };
    let node_count = metadata.node_count;
    if selected_record < node_count {
        Ok(RecordReadResult::TraverseTreeTo(selected_record as u64 * bpn))
    } else if selected_record == node_count {
        Ok(RecordReadResult::NoData)
    } else {
        let data_offset: u64 = selected_record as u64 - node_count as u64 + bpn * node_count as u64;
        Ok(RecordReadResult::Data(data_offset))
    }
}

/// A read-only database: the raw bytes and the metadata decoded when
/// it was opened.
pub struct Mmdb {
    data: Vec<u8>,
    metadata: MmdbMetadata,
}

impl Mmdb {
    /// The bytes this handle reads from.
    pub closed spec fn spec_data(&self) -> Seq<u8> {
        self.data@
    }

    /// The metadata decoded when this handle was opened.
    pub closed spec fn spec_metadata(&self) -> MmdbMetadata {
        self.metadata
    }

    /// Opens a database over its full contents: locates the rightmost
    /// metadata marker in the tail window, decodes the map after it,
    /// and extracts the required fields.
    pub fn new(data: Vec<u8>) -> (r: Result<Mmdb, MmdbError>)
        ensures
            match r {
                Ok(handle) => {
                    &&& spec_open(data@) == Ok::<_, MmdbError>(handle.spec_metadata())
                    &&& handle.spec_data() == data@
                },
                Err(e) => spec_open(data@) == Err::<MmdbMetadata, _>(e),
            },
    {
        let marker_pos = match find_marker(data.as_slice()) {
            Some(i) => i,
            None => {
                return Err(MmdbError::MetadataNotFound);
            },
        };
        proof {
            assert(data@.len() == data.len());
            crate::metadata::lemma_rightmost_marker(data@, data@.len() - 14);
        }
        let typ = match read_type(data.as_slice(), marker_pos + 14, None, POINTER_DEPTH_LIMIT) {
            Ok((typ, _)) => typ,
            Err(e) => {
                return Err(e);
            },
        };
        let metadata = match MmdbMetadata::new(&typ) {
            Ok(m) => m,
            Err(e) => {
                return Err(e);
            },
        };
        Ok(Mmdb { data, metadata })
    }

    /// Queries by address, dispatching on the address family.
    pub fn query_ip(&self, ip: IpAddress) -> (r: Result<Option<Type>, MmdbError>)
        ensures
            match ip {
                IpAddress::V4(v4) => query_matches(
                    r,
                    spec_query_ipv4(self.spec_data(), self.spec_metadata(), v4),
                ),
                IpAddress::V6(v6) => query_matches(
                    r,
                    spec_query_ipv6(self.spec_data(), self.spec_metadata(), v6),
                ),
            },
    {
        match ip {
            IpAddress::V4(v4) => self.query_ipv4(v4),
            IpAddress::V6(v6) => self.query_ipv6(v6),
        }
    }

    /// Queries by IPv4 address: walked as 32 bits on an IPv4 database,
    /// and as its IPv4-compatible IPv6 mapping on an IPv6 database.
    pub fn query_ipv4(&self, ip: u32) -> (r: Result<Option<Type>, MmdbError>)
        ensures
            query_matches(r, spec_query_ipv4(self.spec_data(), self.spec_metadata(), ip)),
    {
        if self.metadata.ip_version == 4 {
            self.query_ip_uint(ip as u128, 32)
        } else if self.metadata.ip_version == 6 {
            self.query_ipv6(ip as u128)
        } else {
            Err(MmdbError::InvalidMetadata("database has invalid ip version"))
        }
    }

    /// Queries by IPv6 address; an IPv4-only database rejects it with
    /// `WrongDatabaseType`, never narrowing implicitly.
    pub fn query_ipv6(&self, ip: u128) -> (r: Result<Option<Type>, MmdbError>)
        ensures
            query_matches(r, spec_query_ipv6(self.spec_data(), self.spec_metadata(), ip)),
    {
        if self.metadata.ip_version == 4 {
            Err(MmdbError::WrongDatabaseType)
        } else if self.metadata.ip_version == 6 {
            self.query_ip_uint(ip, 128)
        } else {
            Err(MmdbError::InvalidMetadata("database has invalid ip version"))
        }
    }

    /// Walks the search tree over the address bits, most significant
    /// first, and decodes the value of the record the walk lands on.
    pub fn query_ip_uint(&self, ip: u128, num_bits: usize) -> (r: Result<
        Option<Type>,
        MmdbError,
    >)
        requires
            num_bits <= 128,
        ensures
            query_matches(
                r,
                spec_query_ip_uint(
                    self.spec_data(),
                    self.spec_metadata(),
                    ip,
                    num_bits as nat,
                ),
            ),
    {
        let data = self.data.as_slice();
        let meta = &self.metadata;
        let mut remaining: usize = num_bits;
        let mut cur: u64 = 0;
        while remaining > 0
            invariant
                remaining <= num_bits <= 128,
                data@ == self.spec_data(),
                *meta == self.spec_metadata(),
                spec_query_ip_uint(self.spec_data(), self.spec_metadata(), ip, num_bits as nat)
                    == spec_walk_from(
                    self.spec_data(),
                    self.spec_metadata(),
                    ip,
                    remaining as nat,
                    cur as int,
                ),
            decreases remaining,
        {
            let bit = ((ip >> (remaining - 1) as u128) & 1) == 1;
            match read_record(data, meta, cur, bit) {
                Err(e) => {
                    return Err(e);
                },
                Ok(RecordReadResult::TraverseTreeTo(p)) => {
                    cur = p;
                },
                Ok(RecordReadResult::NoData) => {
                    return Ok(None);
                },
                Ok(RecordReadResult::Data(p)) => {
                    if p >= data.len() as u64 {
                        return Err(MmdbError::BadIo);
                    }
                    return match read_type(
                        data,
                        p as usize,
                        Some(meta),
                        POINTER_DEPTH_LIMIT,
                    ) {
                        Err(e) => Err(e),
                        Ok((v, _)) => Ok(Some(v)),
                    };
                },
            }
            remaining = remaining - 1;
        }
        Ok(None)
    }
}


/// Law: each node record is classified against the node count: equal
/// ends the walk with no match; above it names the decode offset
/// `record - node_count - 16` into the data section, which begins 16
/// bytes past the search tree of `bytes_per_node * node_count` bytes;
/// below it walks on to the record's node.
pub proof fn lemma_record_classification(
    data: Seq<u8>,
    meta: MmdbMetadata,
    pos: int,
    bit: bool,
    bpn: u64,
)
    requires
        spec_bytes_per_node(meta.record_size) == Ok::<u64, MmdbError>(bpn),
        0 <= pos,
        pos + bpn <= data.len(),
    ensures
        ({
            let selected = spec_selected_record(data, bpn as int, pos, bit);
            &&& (selected == meta.node_count ==> spec_read_record(data, meta, pos, bit) == Ok::<
                _,
                MmdbError,
            >(RecordReadResult::NoData))
            &&& (selected > meta.node_count ==> spec_read_record(data, meta, pos, bit) == Ok::<
                _,
                MmdbError,
            >(
                RecordReadResult::Data(
                    ((selected - meta.node_count - 16) + (bpn * meta.node_count + 16)) as u64,
                ),
            ))
            &&& (selected < meta.node_count ==> spec_read_record(data, meta, pos, bit) == Ok::<
                _,
                MmdbError,
            >(RecordReadResult::TraverseTreeTo((selected * bpn) as u64)))
        }),
{
}

/// Law: when a step of the walk reads a no-data record the whole walk
/// yields no match, and when it reads a data record the walk yields
/// exactly the value decoded at that record's offset.
pub proof fn lemma_walk_terminal(
    data: Seq<u8>,
    meta: MmdbMetadata,
    ip: u128,
    remaining: nat,
    pos: int,
)
    requires
        remaining > 0,
    ensures
        ({
            let bit = (ip >> ((remaining - 1) as u128)) & 1 == 1;
            match spec_read_record(data, meta, pos, bit) {
                Ok(RecordReadResult::NoData) => spec_walk_from(data, meta, ip, remaining, pos)
                    == Ok::<_, MmdbError>(None::<SpecValue>),
                Ok(RecordReadResult::Data(p)) => spec_walk_from(data, meta, ip, remaining, pos)
                    == (match spec_read_type(data, p as int, Some(meta), POINTER_DEPTH_LIMIT as nat) {
                    Err(e) => Err::<Option<SpecValue>, _>(e),
                    Ok((v, _)) => Ok::<_, MmdbError>(Some(v)),
                }),
                _ => true,
            }
        }),
{
}

/// Law: an IPv4 query against an IPv6 database is exactly the IPv6
/// query for its IPv4-compatible mapping — the same 32 bits,
/// zero-extended to 128.
pub proof fn lemma_ipv4_as_compatible_ipv6(data: Seq<u8>, meta: MmdbMetadata, ip: u32)
    requires
        meta.ip_version == 6,
    ensures
        spec_query_ipv4(data, meta, ip) == spec_query_ipv6(data, meta, ip as u128),
{
}

/// Law: an IPv6 query against an IPv4-only database always fails with
/// `WrongDatabaseType`; the address is never narrowed implicitly.
pub proof fn lemma_ipv6_on_ipv4_database(data: Seq<u8>, meta: MmdbMetadata, ip: u128)
    requires
        meta.ip_version == 4,
    ensures
        spec_query_ipv6(data, meta, ip) == Err::<Option<SpecValue>, MmdbError>(
            MmdbError::WrongDatabaseType,
        ),
{
}

} // verus!
