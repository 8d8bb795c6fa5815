//! The self-describing value decoder: one value is decoded from the
//! byte source starting at a given position, recursively for map and
//! array elements and for pointer targets.
//!
//! A control byte carries a 3-bit type tag (tag 0 escapes to
//! `7 + next byte`) and a 5-bit size hint; hints 29, 30 and 31 pull
//! 1, 2 or 3 further bytes into the size. Pointers split the hint into
//! a 2-bit width and 3 value bits, read 1 to 4 more bytes, and decode
//! the value at the biased target offset while leaving the caller's
//! position exactly after the pointer bytes.
use vstd::prelude::*;
use crate::bytes::{
    be_bytes_to_nat, lemma_be_bytes_to_nat_bound, lemma_pow256_values, pow256, read_be_uint,
    read_be_uint128, read_bytes, read_u8,
};
use crate::error::MmdbError;
use crate::metadata::{bytes_per_node, spec_bytes_per_node, MmdbMetadata};
use crate::value::{
    lemma_map_entries_view, lemma_values_view, map_entries_view, map_insert, spec_map_insert,
    spec_value_of, values_view, SpecValue, Type,
};

verus! {

/// How many chained pointers one decode may follow before it fails
/// with `TooDeep`: a guard against unbounded recursion on corrupt or
/// hostile input, which bounds no well-formed database.
pub const POINTER_DEPTH_LIMIT: u32 = 512;

/// What `String::from_utf8_lossy` returns for the given bytes: a pure
/// function of the bytes (invalid sequences become replacement
/// characters).
pub uninterp spec fn utf8_lossy(bytes: Seq<u8>) -> Seq<char>;

/// Relies on String::from_utf8_lossy: the result depends on the bytes
/// alone, and valid UTF-8 input decodes to exactly its own characters.
#[verifier::external_body]
fn utf8_lossy_to_string(bytes: Vec<u8>) -> (r: String)
    ensures
        r@ == utf8_lossy(bytes@),
        vstd::utf8::valid_utf8(bytes@) ==> r@ == vstd::utf8::decode_utf8(bytes@),
{
    String::from_utf8_lossy(&bytes).into_owned()
}

/// The size a non-pointer control byte announces: hints up to 28 are
/// the size itself; 29, 30 and 31 add 29, 285 or 65821 to the next
/// one, two or three bytes.
pub open spec fn spec_read_size(data: Seq<u8>, pos: int, hint: int) -> Result<
    (int, int),
    MmdbError,
> {
    if hint <= 28 {
        Ok((hint, pos))
    } else if hint == 29 {
        if pos + 1 > data.len() {
            Err(MmdbError::BadIo)
        } else {
            Ok((29 + data[pos], pos + 1))
        }
    } else if hint == 30 {
        if pos + 2 > data.len() {
            Err(MmdbError::BadIo)
        } else {
            Ok((285 + be_bytes_to_nat(data.subrange(pos, pos + 2)) as int, pos + 2))
        }
    } else {
        if pos + 3 > data.len() {
            Err(MmdbError::BadIo)
        } else {
            Ok((65821 + be_bytes_to_nat(data.subrange(pos, pos + 3)) as int, pos + 3))
        }
    }
}

/// One decoded value and the position after it, starting from the
/// control byte at `pos`. `meta` is absent only while the metadata
/// block itself is decoded, where pointers cannot be resolved yet;
/// `depth` bounds the chain of pointers this decode may follow.
pub open spec fn spec_read_type(
    data: Seq<u8>,
    pos: int,
    meta: Option<MmdbMetadata>,
    depth: nat,
) -> Result<(SpecValue, int), MmdbError>
    decreases depth, data.len() - pos, 0int,
{
    if pos < 0 || pos >= data.len() {
        Err(MmdbError::BadIo)
    } else {
        let control = data[pos];
        let hint = (control & 0x1f) as int;
        let tag: int = if control >> 5 == 0 {
            if pos + 1 < data.len() {
                7 + data[pos + 1]
            } else {
                -1  // stands for the escape byte missing: reported as BadIo below
            }
        } else {
            (control >> 5) as int
        };
        let pos_t: int = if control >> 5 == 0 {
            pos + 2
        } else {
            pos + 1
        };
        if tag == -1 {
            Err(MmdbError::BadIo)
        } else if tag == 1 {
            spec_read_pointer(data, pos_t, hint, meta, depth)
        } else {
            match spec_read_size(data, pos_t, hint) {
                Err(e) => Err(e),
                Ok((size, pos_s)) => {
                    if tag == 2 {
                        if pos_s + size > data.len() {
                            Err(MmdbError::BadIo)
                        } else {
                            Ok(
                                (
                                    SpecValue::Utf8String(
                                        utf8_lossy(data.subrange(pos_s, pos_s + size)),
                                    ),
                                    pos_s + size,
                                ),
                            )
                        }
                    } else if tag == 3 {
                        if pos_s + 8 > data.len() {
                            Err(MmdbError::BadIo)
                        } else {
                            Ok(
                                (
                                    SpecValue::Double(
                                        be_bytes_to_nat(data.subrange(pos_s, pos_s + 8)) as u64,
                                    ),
                                    pos_s + 8,
                                ),
                            )
                        }
                    } else if tag == 4 {
                        if pos_s + size > data.len() {
                            Err(MmdbError::BadIo)
                        } else {
                            Ok((SpecValue::Bytes(data.subrange(pos_s, pos_s + size)), pos_s + size))
                        }
                    } else if tag == 5 {
                        match spec_read_unsigned(data, pos_s, size, 2) {
                            Err(e) => Err(e),
                            Ok((v, end)) => Ok((SpecValue::U16(v as u16), end)),
                        }
                    } else if tag == 6 {
                        match spec_read_unsigned(data, pos_s, size, 4) {
                            Err(e) => Err(e),
                            Ok((v, end)) => Ok((SpecValue::U32(v as u32), end)),
                        }
                    } else if tag == 9 {
                        match spec_read_unsigned(data, pos_s, size, 8) {
                            Err(e) => Err(e),
                            Ok((v, end)) => Ok((SpecValue::U64(v as u64), end)),
                        }
                    } else if tag == 10 {
                        if size > 16 {
                            Err(MmdbError::InvalidData("bad uint size"))
                        } else if size == 0 {
                            Ok((SpecValue::U128(0), pos_s))
                        } else if pos_s + size > data.len() {
                            Err(MmdbError::BadIo)
                        } else {
                            Ok(
                                (
                                    SpecValue::U128(
                                        be_bytes_to_nat(
                                            data.subrange(pos_s, pos_s + size),
                                        ) as u128,
                                    ),
                                    pos_s + size,
                                ),
                            )
                        }
                    } else if tag == 8 {
                        if size == 4 {
                            if pos_s + 4 > data.len() {
                                Err(MmdbError::BadIo)
                            } else {
                                Ok(
                                    (
                                        SpecValue::S32(
                                            (be_bytes_to_nat(
                                                data.subrange(pos_s, pos_s + 4),
                                            ) as u32) as i32,
                                        ),
                                        pos_s + 4,
                                    ),
                                )
                            }
                        } else if size <= 3 {
                            if pos_s + size > data.len() {
                                Err(MmdbError::BadIo)
                            } else {
                                Ok(
                                    (
                                        SpecValue::S32(
                                            be_bytes_to_nat(
                                                data.subrange(pos_s, pos_s + size),
                                            ) as i32,
                                        ),
                                        pos_s + size,
                                    ),
                                )
                            }
                        } else {
                            Err(MmdbError::InvalidData("bad s32 size"))
                        }
                    } else if tag == 7 {
                        match spec_read_map_entries(
                            data,
                            pos_s,
                            meta,
                            depth,
                            size as nat,
                            Seq::empty(),
                        ) {
                            Err(e) => Err(e),
                            Ok((entries, end)) => Ok((SpecValue::Mapping(entries), end)),
                        }
                    } else if tag == 11 {
                        match spec_read_array_elems(
                            data,
                            pos_s,
                            meta,
                            depth,
                            size as nat,
                            Seq::empty(),
                        ) {
                            Err(e) => Err(e),
                            Ok((elems, end)) => Ok((SpecValue::Array(elems), end)),
                        }
                    } else if tag == 12 {
                        Err(MmdbError::NotImplemented("data cache container"))
                    } else if tag == 13 {
                        Err(MmdbError::NotImplemented("end marker"))
                    } else if tag == 14 {
                        if size == 0 {
                            Ok((SpecValue::Boolean(false), pos_s))
                        } else if size == 1 {
                            Ok((SpecValue::Boolean(true), pos_s))
                        } else {
                            Err(MmdbError::InvalidData("invalid boolean"))
                        }
                    } else if tag == 15 {
                        if pos_s + 4 > data.len() {
                            Err(MmdbError::BadIo)
                        } else {
                            Ok(
                                (
                                    SpecValue::Float(
                                        be_bytes_to_nat(data.subrange(pos_s, pos_s + 4)) as u32,
                                    ),
                                    pos_s + 4,
                                ),
                            )
                        }
                    } else {
                        Err(MmdbError::InvalidData("invalid data type specifier"))
                    }
                },
            }
        }
    }
}

/// An unsigned integer of `size` big-endian bytes that must fit in
/// `width` bytes: zero when `size` is 0, rejected when `size` exceeds
/// 8, and a conversion error when the value overflows the width.
pub open spec fn spec_read_unsigned(data: Seq<u8>, pos: int, size: int, width: int) -> Result<
    (nat, int),
    MmdbError,
> {
    if size == 0 {
        Ok((0nat, pos))
    } else if size > 8 {
        Err(MmdbError::InvalidData("bad uint size"))
    } else if pos + size > data.len() {
        Err(MmdbError::BadIo)
    } else {
        let v = be_bytes_to_nat(data.subrange(pos, pos + size));
        if v < pow256(width as nat) {
            Ok((v, pos + size))
        } else {
            Err(MmdbError::BadConversion)
        }
    }
}

/// A pointer value: the hint's top two bits select how many bytes
/// follow and a bias; the target is resolved against the metadata and
/// decoded there, while the returned position stays just after the
/// pointer bytes.
pub open spec fn spec_read_pointer(
    data: Seq<u8>,
    pos: int,
    hint: int,
    meta: Option<MmdbMetadata>,
    depth: nat,
) -> Result<(SpecValue, int), MmdbError>
    decreases depth, data.len() - pos, 1int,
{
    let width = hint / 8;
    let extra = width + 1;
    if pos + extra > data.len() {
        Err(MmdbError::BadIo)
    } else {
        let raw = be_bytes_to_nat(data.subrange(pos, pos + extra));
        let value: int = if width == 0 {
            raw + (hint % 8) * 0x100
        } else if width == 1 {
            raw + (hint % 8) * 0x1_0000 + 2048
        } else if width == 2 {
            raw + (hint % 8) * 0x100_0000 + 526336
        } else {
            raw as int
        };
        match meta {
            None => Err(MmdbError::InvalidData("pointer addressed before metadata parsed")),
            Some(m) => match spec_bytes_per_node(m.record_size) {
                Err(e) => Err(e),
                Ok(bpn) => {
                    let target = bpn * m.node_count + value + 16;
                    if depth == 0 {
                        Err(MmdbError::TooDeep)
                    } else {
                        match spec_read_type(data, target, meta, (depth - 1) as nat) {
                            Err(e) => Err(e),
                            Ok((v, _)) => Ok((v, pos + extra)),
                        }
                    }
                },
            },
        }
    }
}

/// `n` key/value pairs decoded in sequence into `acc`; a key that is
/// not a string fails, and a later duplicate key overwrites the
/// earlier value. The two positions guards can only fail on decodes
/// that did not advance, which never happens; they keep the recursion
/// well founded.
pub open spec fn spec_read_map_entries(
    data: Seq<u8>,
    pos: int,
    meta: Option<MmdbMetadata>,
    depth: nat,
    n: nat,
    acc: Seq<(Seq<char>, SpecValue)>,
) -> Result<(Seq<(Seq<char>, SpecValue)>, int), MmdbError>
    decreases depth, data.len() - pos, 2int,
{
    if n == 0 {
        Ok((acc, pos))
    } else {
        match spec_read_type(data, pos, meta, depth) {
            Err(e) => Err(e),
            Ok((key_value, key_end)) => {
                if key_end < pos || key_end > data.len() {
                    Err(MmdbError::InvalidData("decoder did not advance"))
                } else {
                    match key_value {
                        SpecValue::Utf8String(key) => {
                            match spec_read_type(data, key_end, meta, depth) {
                                Err(e) => Err(e),
                                Ok((value, value_end)) => {
                                    if value_end <= pos || value_end > data.len() {
                                        Err(MmdbError::InvalidData("decoder did not advance"))
                                    } else {
                                        spec_read_map_entries(
                                            data,
                                            value_end,
                                            meta,
                                            depth,
                                            (n - 1) as nat,
                                            spec_map_insert(acc, key, value),
                                        )
                                    }
                                },
                            }
                        },
                        _ => Err(MmdbError::InvalidData("key field for map is not string")),
                    }
                }
            },
        }
    }
}

/// `n` array elements decoded in sequence onto `acc`, order kept. The
/// position guard mirrors the one in `spec_read_map_entries`.
pub open spec fn spec_read_array_elems(
    data: Seq<u8>,
    pos: int,
    meta: Option<MmdbMetadata>,
    depth: nat,
    n: nat,
    acc: Seq<SpecValue>,
) -> Result<(Seq<SpecValue>, int), MmdbError>
    decreases depth, data.len() - pos, 2int,
{
    if n == 0 {
        Ok((acc, pos))
    } else {
        match spec_read_type(data, pos, meta, depth) {
            Err(e) => Err(e),
            Ok((value, value_end)) => {
                if value_end <= pos || value_end > data.len() {
                    Err(MmdbError::InvalidData("decoder did not advance"))
                } else {
                    spec_read_array_elems(
                        data,
                        value_end,
                        meta,
                        depth,
                        (n - 1) as nat,
                        acc.push(value),
                    )
                }
            },
        }
    }
}

/// The view of the optional metadata reference handed to the decoder.
pub open spec fn spec_meta_of(meta: Option<&MmdbMetadata>) -> Option<MmdbMetadata> {
    match meta {
        Some(m) => Some(*m),
        None => None,
    }
}

/// The decoded value and position agree with what the specification
/// says, error for error and value for value.
pub open spec fn decode_matches(
    r: Result<(Type, usize), MmdbError>,
    s: Result<(SpecValue, int), MmdbError>,
) -> bool {
    match (r, s) {
        (Ok((v, end)), Ok((sv, send))) => v@ == sv && end == send,
        (Err(e), Err(se)) => e == se,
        _ => false,
    }
}

/// Resolves the size a non-pointer control byte announces.
fn read_size(data: &[u8], pos: usize, hint: u8) -> (r: Result<(u32, usize), MmdbError>)
    requires
        hint <= 31,
        pos <= data@.len(),
    ensures
        match r {
            Ok((size, end)) => {
                &&& spec_read_size(data@, pos as int, hint as int) == Ok::<_, MmdbError>(
                    (size as int, end as int),
                )
                &&& pos <= end <= data@.len()
                &&& size <= 16843036
            },
            Err(e) => spec_read_size(data@, pos as int, hint as int) == Err::<(int, int), _>(e),
        },
{
    if hint <= 28 {
        Ok((hint as u32, pos))
    } else if hint == 29 {
        match read_u8(data, pos) {
            Ok((b, end)) => Ok((29 + b as u32, end)),
            Err(e) => Err(e),
        }
    } else if hint == 30 {
        match read_be_uint(data, pos, 2) {
            Ok((v, end)) => {
                proof {
                    lemma_be_bytes_to_nat_bound(data@.subrange(pos as int, pos + 2));
                    lemma_pow256_values();
                }
                Ok((285 + v as u32, end))
            },
            Err(e) => Err(e),
        }
    } else {
        match read_be_uint(data, pos, 3) {
            Ok((v, end)) => {
                proof {
                    lemma_be_bytes_to_nat_bound(data@.subrange(pos as int, pos + 3));
                    lemma_pow256_values();
                }
                Ok((65821 + v as u32, end))
            },
            Err(e) => Err(e),
        }
    }
}

/// Reads an unsigned integer of `size` big-endian bytes that must fit
/// in `width` bytes.
fn read_unsigned(data: &[u8], pos: usize, size: u32, width: u32) -> (r: Result<
    (u64, usize),
    MmdbError,
>)
    requires
        width == 2 || width == 4 || width == 8,
        pos <= data@.len(),
    ensures
        match r {
            Ok((v, end)) => {
                &&& spec_read_unsigned(data@, pos as int, size as int, width as int) == Ok::<
                    _,
                    MmdbError,
                >((v as nat, end as int))
                &&& pos <= end <= data@.len()
                &&& v < pow256(width as nat)
            },
            Err(e) => spec_read_unsigned(data@, pos as int, size as int, width as int) == Err::<
                (nat, int),
                _,
            >(e),
        },
{
    proof {
        lemma_pow256_values();
    }
    if size == 0 {
        Ok((0, pos))
    } else if size > 8 {
        Err(MmdbError::InvalidData("bad uint size"))
    } else {
        match read_be_uint(data, pos, size as usize) {
            Err(e) => Err(e),
            Ok((v, end)) => {
                if width == 2 {
                    if v < 0x1_0000 {
                        Ok((v, end))
                    } else {
                        Err(MmdbError::BadConversion)
                    }
                } else if width == 4 {
                    if v < 0x1_0000_0000 {
                        Ok((v, end))
                    } else {
                        Err(MmdbError::BadConversion)
                    }
                } else {
                    proof {
                        lemma_be_bytes_to_nat_bound(
                            data@.subrange(pos as int, pos + size as int),
                        );
                        crate::bytes::lemma_pow256_mono(size as nat, 8);
                    }
                    Ok((v, end))
                }
            },
        }
    }
}

/// Decodes one value starting at the control byte at `pos`, mirroring
/// `spec_read_type` exactly. A successful decode always advances and
/// never runs past the end of the source.
pub fn read_type(data: &[u8], pos: usize, meta: Option<&MmdbMetadata>, depth: u32) -> (r: Result<
    (Type, usize),
    MmdbError,
>)
    ensures
        decode_matches(r, spec_read_type(data@, pos as int, spec_meta_of(meta), depth as nat)),
        r matches Ok(p) ==> pos < p.1 <= data@.len(),
    decreases depth, data@.len() - pos, 0int,
{
    let (control, pos1) = match read_u8(data, pos) {
        Ok(x) => x,
        Err(e) => {
            return Err(e);
        },
    };
    let hint: u8 = control & 0x1f;
    let (tag, pos_t): (u16, usize) = if control >> 5 == 0 {
        match read_u8(data, pos1) {
            Ok((b, pos2)) => (7 + b as u16, pos2),
            Err(e) => {
                return Err(e);
            },
        }
    } else {
        ((control >> 5) as u16, pos1)
    };
    proof {
        assert(control & 0x1f <= 31 && control >> 5 <= 7) by (bit_vector);
    }
    if tag == 1 {
        return match read_pointer(data, pos_t, hint, meta, depth) {
            Ok((v, end)) => Ok((v, end)),
            Err(e) => Err(e),
        };
    }
    let (size, pos_s) = match read_size(data, pos_t, hint) {
        Ok(x) => x,
        Err(e) => {
            return Err(e);
        },
    };
    if tag == 2 {
        match read_bytes(data, pos_s, size as usize) {
            Err(e) => Err(e),
            Ok((buf, end)) => Ok((Type::Utf8String(utf8_lossy_to_string(buf)), end)),
        }
    } else if tag == 3 {
        match read_be_uint(data, pos_s, 8) {
            Err(e) => Err(e),
            Ok((v, end)) => Ok((Type::Double(v), end)),
        }
    } else if tag == 4 {
        match read_bytes(data, pos_s, size as usize) {
            Err(e) => Err(e),
            Ok((buf, end)) => Ok((Type::Bytes(buf), end)),
        }
    } else if tag == 5 {
        match read_unsigned(data, pos_s, size, 2) {
            Err(e) => Err(e),
            Ok((v, end)) => Ok((Type::U16(v as u16), end)),
        }
    } else if tag == 6 {
        match read_unsigned(data, pos_s, size, 4) {
            Err(e) => Err(e),
            Ok((v, end)) => Ok((Type::U32(v as u32), end)),
        }
    } else if tag == 9 {
        match read_unsigned(data, pos_s, size, 8) {
            Err(e) => Err(e),
            Ok((v, end)) => Ok((Type::U64(v), end)),
        }
    } else if tag == 10 {
        if size > 16 {
            Err(MmdbError::InvalidData("bad uint size"))
        } else if size == 0 {
            Ok((Type::U128(0), pos_s))
        } else {
            match read_be_uint128(data, pos_s, size as usize) {
                Err(e) => Err(e),
                Ok((v, end)) => Ok((Type::U128(v), end)),
            }
        }
    } else if tag == 8 {
        if size == 4 {
            match read_be_uint(data, pos_s, 4) {
                Err(e) => Err(e),
                Ok((v, end)) => {
                    proof {
                        lemma_be_bytes_to_nat_bound(data@.subrange(pos_s as int, pos_s + 4));
                        lemma_pow256_values();
                    }
                    Ok((Type::S32((v as u32) as i32), end))
                },
            }
        } else if size <= 3 {
            match read_be_uint(data, pos_s, size as usize) {
                Err(e) => Err(e),
                Ok((v, end)) => {
                    proof {
                        lemma_be_bytes_to_nat_bound(
                            data@.subrange(pos_s as int, pos_s + size as int),
                        );
                        crate::bytes::lemma_pow256_mono(size as nat, 3);
                        lemma_pow256_values();
                        assert(pow256(3) == 0x100_0000);
                    }
                    Ok((Type::S32(v as i32), end))
                },
            }
        } else {
            Err(MmdbError::InvalidData("bad s32 size"))
        }
    } else if tag == 7 {
        match read_map_body(data, pos_s, meta, depth, size) {
            Err(e) => Err(e),
            Ok((items, end)) => Ok((Type::Mapping(items), end)),
        }
    } else if tag == 11 {
        match read_array_body(data, pos_s, meta, depth, size) {
            Err(e) => Err(e),
            Ok((items, end)) => Ok((Type::Array(items), end)),
        }
    } else if tag == 12 {
        Err(MmdbError::NotImplemented("data cache container"))
    } else if tag == 13 {
        Err(MmdbError::NotImplemented("end marker"))
    } else if tag == 14 {
        if size == 0 {
            Ok((Type::Boolean(false), pos_s))
        } else if size == 1 {
            Ok((Type::Boolean(true), pos_s))
        } else {
            Err(MmdbError::InvalidData("invalid boolean"))
        }
    } else if tag == 15 {
        match read_be_uint(data, pos_s, 4) {
            Err(e) => Err(e),
            Ok((v, end)) => {
                proof {
                    lemma_be_bytes_to_nat_bound(data@.subrange(pos_s as int, pos_s + 4));
                    lemma_pow256_values();
                }
                Ok((Type::Float(v as u32), end))
            },
        }
    } else {
        Err(MmdbError::InvalidData("invalid data type specifier"))
    }
}

/// Decodes a pointer's target value, leaving the returned position
/// just after the pointer bytes at `pos`.
fn read_pointer(data: &[u8], pos: usize, hint: u8, meta: Option<&MmdbMetadata>, depth: u32) -> (r:
    Result<(Type, usize), MmdbError>)
    requires
        hint <= 31,
    ensures
        decode_matches(
            r,
            spec_read_pointer(data@, pos as int, hint as int, spec_meta_of(meta), depth as nat),
        ),
        r matches Ok(p) ==> pos < p.1 <= data@.len(),
    decreases depth, data@.len() - pos, 1int,
{
    let width: u8 = hint >> 3;
    let pvalue: u8 = hint & 7;
    proof {
        assert(hint >> 3 == hint / 8 && (hint & 7) == hint % 8 && hint / 8 <= 3) by (bit_vector)
            requires
                hint <= 31,
        ;
    }
    let extra: usize = width as usize + 1;
    let (raw, after) = match read_be_uint(data, pos, extra) {
        Ok(x) => x,
        Err(e) => {
            return Err(e);
        },
    };
    proof {
        lemma_be_bytes_to_nat_bound(data@.subrange(pos as int, pos + extra as int));
        lemma_pow256_values();
    }
    let value: u64 = if width == 0 {
        raw + (pvalue as u64) * 0x100
    } else if width == 1 {
        raw + (pvalue as u64) * 0x1_0000 + 2048
    } else if width == 2 {
        raw + (pvalue as u64) * 0x100_0000 + 526336
    } else {
        raw
    };
    let m = match meta {
        None => {
            return Err(MmdbError::InvalidData("pointer addressed before metadata parsed"));
        },
        Some(m) => m,
    };
    let bpn = match bytes_per_node(m.record_size) {
        Ok(b) => b,
        Err(e) => {
            return Err(e);
        },
    };
    proof {
        assert(bpn <= 8);
        assert(value < 0x1_0000_0000 + 526336);
    }
    let target: u64 = bpn * (m.node_count as u64) + value + 16;
    if depth == 0 {
        return Err(MmdbError::TooDeep);
    }
    if target >= data.len() as u64 {
        return Err(MmdbError::BadIo);
    }
    match read_type(data, target as usize, meta, depth - 1) {
        Err(e) => Err(e),
        Ok((v, _)) => Ok((v, after)),
    }
}

/// Decodes `n` key/value pairs for a map, inserting them in order.
fn read_map_body(data: &[u8], pos: usize, meta: Option<&MmdbMetadata>, depth: u32, n: u32) -> (r:
    Result<(Vec<(String, Type)>, usize), MmdbError>)
    requires
        pos <= data@.len(),
    ensures
        match r {
            Ok((items, end)) => {
                &&& spec_read_map_entries(
                    data@,
                    pos as int,
                    spec_meta_of(meta),
                    depth as nat,
                    n as nat,
                    Seq::empty(),
                ) == Ok::<_, MmdbError>((map_entries_view(items@), end as int))
                &&& pos <= end <= data@.len()
            },
            Err(e) => spec_read_map_entries(
                data@,
                pos as int,
                spec_meta_of(meta),
                depth as nat,
                n as nat,
                Seq::empty(),
            ) == Err::<(Seq<(Seq<char>, SpecValue)>, int), _>(e),
        },
    decreases depth, data@.len() - pos, 2int,
{
    let ghost sm = spec_meta_of(meta);
    let mut items: Vec<(String, Type)> = Vec::new();
    let mut cur: usize = pos;
    let mut i: u32 = 0;
    proof {
        lemma_map_entries_view(items@);
        assert(map_entries_view(items@) =~= Seq::<(Seq<char>, SpecValue)>::empty());
    }
    while i < n
        invariant
            i <= n,
            pos <= cur <= data@.len(),
            spec_read_map_entries(data@, pos as int, sm, depth as nat, n as nat, Seq::empty())
                == spec_read_map_entries(
                data@,
                cur as int,
                sm,
                depth as nat,
                (n - i) as nat,
                map_entries_view(items@),
            ),
            sm == spec_meta_of(meta),
        decreases n - i,
    {
        let (key_t, key_end) = match read_type(data, cur, meta, depth) {
            Ok(x) => x,
            Err(e) => {
                return Err(e);
            },
        };
        let key = match key_t {
            Type::Utf8String(s) => s,
            _ => {
                return Err(MmdbError::InvalidData("key field for map is not string"));
            },
        };
        let (value, value_end) = match read_type(data, key_end, meta, depth) {
            Ok(x) => x,
            Err(e) => {
                return Err(e);
            },
        };
        map_insert(&mut items, key, value);
        cur = value_end;
        i = i + 1;
    }
    Ok((items, cur))
}

/// Decodes `n` array elements in order.
fn read_array_body(data: &[u8], pos: usize, meta: Option<&MmdbMetadata>, depth: u32, n: u32) -> (r:
    Result<(Vec<Type>, usize), MmdbError>)
    requires
        pos <= data@.len(),
    ensures
        match r {
            Ok((items, end)) => {
                &&& spec_read_array_elems(
                    data@,
                    pos as int,
                    spec_meta_of(meta),
                    depth as nat,
                    n as nat,
                    Seq::empty(),
                ) == Ok::<_, MmdbError>((values_view(items@), end as int))
                &&& pos <= end <= data@.len()
            },
            Err(e) => spec_read_array_elems(
                data@,
                pos as int,
                spec_meta_of(meta),
                depth as nat,
                n as nat,
                Seq::empty(),
            ) == Err::<(Seq<SpecValue>, int), _>(e),
        },
    decreases depth, data@.len() - pos, 2int,
{
    let ghost sm = spec_meta_of(meta);
    let mut items: Vec<Type> = Vec::new();
    let mut cur: usize = pos;
    let mut i: u32 = 0;
    proof {
        lemma_values_view(items@);
        assert(values_view(items@) =~= Seq::<SpecValue>::empty());
    }
    while i < n
        invariant
            i <= n,
            pos <= cur <= data@.len(),
            spec_read_array_elems(data@, pos as int, sm, depth as nat, n as nat, Seq::empty())
                == spec_read_array_elems(
                data@,
                cur as int,
                sm,
                depth as nat,
                (n - i) as nat,
                values_view(items@),
            ),
            sm == spec_meta_of(meta),
        decreases n - i,
    {
        let (value, value_end) = match read_type(data, cur, meta, depth) {
            Ok(x) => x,
            Err(e) => {
                return Err(e);
            },
        };
        let ghost old_items = items@;
        items.push(value);
        proof {
            assert(items@.drop_last() =~= old_items);
            assert(values_view(items@) == values_view(old_items).push(
                spec_value_of(items@.last()),
            ));
        }
        cur = value_end;
        i = i + 1;
    }
    Ok((items, cur))
}


/// Law: the size a control byte announces follows the four hint
/// classes exactly: hints up to 28 are the size itself; hint 29 adds
/// the next byte to 29; hint 30 adds the next two big-endian bytes to
/// 285; hint 31 adds the next three to 65821.
pub proof fn lemma_size_hint_classes(data: Seq<u8>, pos: int, hint: int)
    requires
        0 <= hint <= 31,
        0 <= pos,
        pos + 3 <= data.len(),
    ensures
        hint <= 28 ==> spec_read_size(data, pos, hint) == Ok::<_, MmdbError>((hint, pos)),
        hint == 29 ==> spec_read_size(data, pos, hint) == Ok::<_, MmdbError>(
            (29 + data[pos] as int, pos + 1),
        ),
        hint == 30 ==> spec_read_size(data, pos, hint) == Ok::<_, MmdbError>(
            (285 + be_bytes_to_nat(data.subrange(pos, pos + 2)) as int, pos + 2),
        ),
        hint == 31 ==> spec_read_size(data, pos, hint) == Ok::<_, MmdbError>(
            (65821 + be_bytes_to_nat(data.subrange(pos, pos + 3)) as int, pos + 3),
        ),
{
}

/// Law: decoding a pointer leaves the position exactly after the
/// pointer's own bytes — the control byte plus `width + 1` more,
/// where `width` is the top two bits of the size hint — no matter
/// what was decoded at the pointer's target.
pub proof fn lemma_pointer_leaves_position(
    data: Seq<u8>,
    pos: int,
    meta: Option<MmdbMetadata>,
    depth: nat,
)
    requires
        0 <= pos < data.len(),
        data[pos] >> 5 == 1,
        spec_read_type(data, pos, meta, depth) is Ok,
    ensures
        spec_read_type(data, pos, meta, depth)->Ok_0.1 == pos + 2 + (data[pos] & 0x1f) / 8,
{
}

/// Law: a boolean whose resolved size is neither 0 nor 1 fails as
/// invalid data, and the data-cache-container and end-marker tags
/// always fail as not implemented. All three tags reach the decoder
/// through the escape byte.
pub proof fn lemma_rejected_tags(data: Seq<u8>, pos: int, meta: Option<MmdbMetadata>, depth: nat)
    requires
        0 <= pos,
        pos + 1 < data.len(),
        data[pos] >> 5 == 0,
    ensures
        ({
            let tag = 7 + data[pos + 1] as int;
            let hint = (data[pos] & 0x1f) as int;
            match spec_read_size(data, pos + 2, hint) {
                Ok((size, _)) => {
                    &&& (tag == 14 && size != 0 && size != 1 ==> spec_read_type(
                        data,
                        pos,
                        meta,
                        depth,
                    ) == Err::<(SpecValue, int), _>(MmdbError::InvalidData("invalid boolean")))
                    &&& (tag == 12 ==> spec_read_type(data, pos, meta, depth) == Err::<
                        (SpecValue, int),
                        _,
                    >(MmdbError::NotImplemented("data cache container")))
                    &&& (tag == 13 ==> spec_read_type(data, pos, meta, depth) == Err::<
                        (SpecValue, int),
                        _,
                    >(MmdbError::NotImplemented("end marker")))
                },
                Err(_) => true,
            }
        }),
{
}

} // verus!
