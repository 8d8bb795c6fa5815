//! The self-describing values held in the data section of a database:
//! a closed tagged union mirroring the wire format's type tags, with a
//! mathematical view used by the decoder's contracts.
use vstd::prelude::*;

verus! {

/// One decoded value. Maps keep the order in which their keys first
/// appeared, and a key occurs at most once: decoding a duplicate key
/// overwrites the earlier value (last occurrence wins).
///
/// The two floating-point variants carry the raw big-endian IEEE-754
/// bits rather than a float, so that the decoder stays in integer
/// arithmetic; callers reinterpret the bits when they need a float.
#[derive(Debug)]
pub enum Type {
    Utf8String(String),
    /// 64-bit IEEE-754 bits, as read big-endian from the wire.
    Double(u64),
    Bytes(Vec<u8>),
    U16(u16),
    U32(u32),
    S32(i32),
    U64(u64),
    U128(u128),
    Mapping(Vec<(String, Type)>),
    Array(Vec<Type>),
    /// Recognized wire tag that decoding rejects; never constructed here.
    DataCacheContainer,
    /// Recognized wire tag that decoding rejects; never constructed here.
    EndMarker,
    Boolean(bool),
    /// 32-bit IEEE-754 bits, as read big-endian from the wire.
    Float(u32),
}

/// The mathematical shape of a `Type` value.
pub ghost enum SpecValue {
    Utf8String(Seq<char>),
    Double(u64),
    Bytes(Seq<u8>),
    U16(u16),
    U32(u32),
    S32(i32),
    U64(u64),
    U128(u128),
    Mapping(Seq<(Seq<char>, SpecValue)>),
    Array(Seq<SpecValue>),
    DataCacheContainer,
    EndMarker,
    Boolean(bool),
    Float(u32),
}

/// The mathematical shape of one `Type` value.
pub open spec fn spec_value_of(t: Type) -> SpecValue
    decreases t,
{
    match t {
        Type::Utf8String(s) => SpecValue::Utf8String(s@),
        Type::Double(bits) => SpecValue::Double(bits),
        Type::Bytes(b) => SpecValue::Bytes(b@),
        Type::U16(x) => SpecValue::U16(x),
        Type::U32(x) => SpecValue::U32(x),
        Type::S32(x) => SpecValue::S32(x),
        Type::U64(x) => SpecValue::U64(x),
        Type::U128(x) => SpecValue::U128(x),
        Type::Mapping(items) => SpecValue::Mapping(map_entries_view(items@)),
        Type::Array(items) => SpecValue::Array(values_view(items@)),
        Type::DataCacheContainer => SpecValue::DataCacheContainer,
        Type::EndMarker => SpecValue::EndMarker,
        Type::Boolean(b) => SpecValue::Boolean(b),
        Type::Float(bits) => SpecValue::Float(bits),
    }
}

/// The views of an array's elements, in order.
pub open spec fn values_view(items: Seq<Type>) -> Seq<SpecValue>
    decreases items,
{
    if items.len() == 0 {
        Seq::empty()
    } else {
        values_view(items.drop_last()).push(spec_value_of(items.last()))
    }
}

/// The view of a map's backing vector, pairing each key's characters
/// with the entry value's view.
pub open spec fn map_entries_view(items: Seq<(String, Type)>) -> Seq<(Seq<char>, SpecValue)>
    decreases items,
{
    if items.len() == 0 {
        Seq::empty()
    } else {
        map_entries_view(items.drop_last()).push(
            (items.last().0@, spec_value_of(items.last().1)),
        )
    }
}

impl View for Type {
    type V = SpecValue;

    open spec fn view(&self) -> SpecValue {
        spec_value_of(*self)
    }
}

/// `values_view` read pointwise.
pub proof fn lemma_values_view(items: Seq<Type>)
    ensures
        values_view(items).len() == items.len(),
        forall|i: int|
            0 <= i < items.len() ==> #[trigger] values_view(items)[i] == spec_value_of(items[i]),
    decreases items.len(),
{
    if items.len() > 0 {
        lemma_values_view(items.drop_last());
        assert forall|i: int| 0 <= i < items.len() implies #[trigger] values_view(items)[i]
            == spec_value_of(items[i]) by {
            if i < items.len() - 1 {
                assert(items.drop_last()[i] == items[i]);
            } else {
                assert(items[i] == items.last());
            }
        }
    }
}

/// `map_entries_view` read pointwise.
pub proof fn lemma_map_entries_view(items: Seq<(String, Type)>)
    ensures
        map_entries_view(items).len() == items.len(),
        forall|i: int|
            0 <= i < items.len() ==> #[trigger] map_entries_view(items)[i] == (
                items[i].0@,
                spec_value_of(items[i].1),
            ),
    decreases items.len(),
{
    if items.len() > 0 {
        lemma_map_entries_view(items.drop_last());
        assert forall|i: int| 0 <= i < items.len() implies #[trigger] map_entries_view(items)[i]
            == (items[i].0@, spec_value_of(items[i].1)) by {
            if i < items.len() - 1 {
                assert(items.drop_last()[i] == items[i]);
            } else {
                assert(items[i] == items.last());
            }
        }
    }
}

/// The value under `key` in a decoded map, scanning entries in order;
/// `None` when the key is absent.
pub open spec fn spec_map_get(entries: Seq<(Seq<char>, SpecValue)>, key: Seq<char>) -> Option<
    SpecValue,
>
    decreases entries.len(),
{
    if entries.len() == 0 {
        Option::None
    } else if entries[0].0 == key {
        Option::Some(entries[0].1)
    } else {
        spec_map_get(entries.drop_first(), key)
    }
}

/// Entries after binding `key` to `value`: the first entry already
/// holding `key` keeps its place with the new value, and an absent key
/// is appended.
pub open spec fn spec_map_insert(
    entries: Seq<(Seq<char>, SpecValue)>,
    key: Seq<char>,
    value: SpecValue,
) -> Seq<(Seq<char>, SpecValue)>
    decreases entries.len(),
{
    if entries.len() == 0 {
        seq![(key, value)]
    } else if entries[0].0 == key {
        seq![(key, value)] + entries.drop_first()
    } else {
        seq![entries[0]] + spec_map_insert(entries.drop_first(), key, value)
    }
}

/// Binds `key` to `value` in a decoded map's backing vector, with the
/// overwrite-in-place semantics of `spec_map_insert`.
pub fn map_insert(items: &mut Vec<(String, Type)>, key: String, value: Type)
    ensures
        map_entries_view(final(items)@) == spec_map_insert(
            map_entries_view(old(items)@),
            key@,
            value@,
        ),
{
    let ghost orig = map_entries_view(items@);
    proof {
        lemma_map_entries_view(items@);
    }
    let mut i: usize = 0;
    while i < items.len()
        invariant
            i <= items@.len(),
            items@ == old(items)@,
            orig == map_entries_view(items@),
            forall|j: int| 0 <= j < i ==> orig[j].0 != key@,
        decreases items@.len() - i,
    {
        proof {
            lemma_map_entries_view(items@);
        }
        if items[i].0 == key {
            items.set(i, (key, value));
            proof {
                lemma_map_entries_view(old(items)@);
                lemma_map_entries_view(items@);
                lemma_map_insert_found(orig, key@, value@, i as int);
                assert(map_entries_view(items@) =~= orig.update(i as int, (key@, value@)));
            }
            return ;
        }
        i = i + 1;
    }
    items.push((key, value));
    proof {
        lemma_map_entries_view(old(items)@);
        lemma_map_entries_view(items@);
        lemma_map_insert_absent(orig, key@, value@);
        assert(map_entries_view(items@) =~= orig.push((key@, value@)));
    }
}

/// Looks `key` up in a decoded map's backing vector, mirroring
/// `spec_map_get` over the entries' views.
pub fn map_get<'a>(items: &'a Vec<(String, Type)>, key: &String) -> (r: Option<&'a Type>)
    ensures
        match r {
            Some(v) => spec_map_get(map_entries_view(items@), key@) == Some(spec_value_of(*v)),
            None => spec_map_get(map_entries_view(items@), key@) is None,
        },
{
    let ghost entries = map_entries_view(items@);
    proof {
        lemma_map_entries_view(items@);
    }
    let mut i: usize = 0;
    while i < items.len()
        invariant
            i <= items@.len(),
            entries == map_entries_view(items@),
            entries.len() == items@.len(),
            forall|j: int|
                0 <= j < items@.len() ==> #[trigger] entries[j] == (
                    items@[j].0@,
                    spec_value_of(items@[j].1),
                ),
            forall|j: int| 0 <= j < i ==> entries[j].0 != key@,
        decreases items@.len() - i,
    {
        if items[i].0 == *key {
            proof {
                lemma_map_get_found(entries, key@, i as int);
            }
            return Some(&items[i].1);
        }
        i = i + 1;
    }
    proof {
        lemma_map_get_absent(entries, key@);
    }
    None
}

/// When the first entry holding `key` sits at `i`, looking up returns
/// exactly that entry's value.
proof fn lemma_map_get_found(entries: Seq<(Seq<char>, SpecValue)>, key: Seq<char>, i: int)
    requires
        0 <= i < entries.len(),
        entries[i].0 == key,
        forall|j: int| 0 <= j < i ==> entries[j].0 != key,
    ensures
        spec_map_get(entries, key) == Some(entries[i].1),
    decreases entries.len(),
{
    if i > 0 {
        lemma_map_get_found(entries.drop_first(), key, i - 1);
    }
}

/// When no entry holds `key`, looking it up yields nothing.
proof fn lemma_map_get_absent(entries: Seq<(Seq<char>, SpecValue)>, key: Seq<char>)
    requires
        forall|j: int| 0 <= j < entries.len() ==> entries[j].0 != key,
    ensures
        spec_map_get(entries, key) is None,
    decreases entries.len(),
{
    if entries.len() > 0 {
        lemma_map_get_absent(entries.drop_first(), key);
    }
}

/// When the first entry holding `key` sits at `i`, inserting rewrites
/// exactly that entry.
proof fn lemma_map_insert_found(
    entries: Seq<(Seq<char>, SpecValue)>,
    key: Seq<char>,
    value: SpecValue,
    i: int,
)
    requires
        0 <= i < entries.len(),
        entries[i].0 == key,
        forall|j: int| 0 <= j < i ==> entries[j].0 != key,
    ensures
        spec_map_insert(entries, key, value) == entries.update(i, (key, value)),
    decreases entries.len(),
{
    if i == 0 {
        assert(spec_map_insert(entries, key, value) =~= entries.update(0, (key, value)));
    } else {
        lemma_map_insert_found(entries.drop_first(), key, value, i - 1);
        assert(spec_map_insert(entries, key, value) =~= entries.update(i, (key, value)));
    }
}

/// When no entry holds `key`, inserting appends it.
proof fn lemma_map_insert_absent(
    entries: Seq<(Seq<char>, SpecValue)>,
    key: Seq<char>,
    value: SpecValue,
)
    requires
        forall|j: int| 0 <= j < entries.len() ==> entries[j].0 != key,
    ensures
        spec_map_insert(entries, key, value) == entries.push((key, value)),
    decreases entries.len(),
{
    if entries.len() == 0 {
        assert(spec_map_insert(entries, key, value) =~= entries.push((key, value)));
    } else {
        lemma_map_insert_absent(entries.drop_first(), key, value);
        assert(spec_map_insert(entries, key, value) =~= entries.push((key, value)));
    }
}

} // verus!
