//! Trusted boundary around the external NBT parser.
//!
//! The tree-structured binary document format is decoded by the `nbt_rs`
//! crate; its values are opaque here. Verified code reaches them only through
//! the declarations and wrappers below, and converts what it reads (integers,
//! strings, long arrays) into plain values as early as possible.

use vstd::prelude::*;

verus! {

#[verifier::external_type_specification]
#[verifier::external_body]
pub struct ExNbtCompound(nbt_rs::types::NbtCompound);

#[verifier::external_type_specification]
#[verifier::external_body]
pub struct ExNbtTag(nbt_rs::types::NbtTag);

#[verifier::external_type_specification]
#[verifier::external_body]
pub struct ExNbtString(nbt_rs::types::NbtString);

#[verifier::external_type_specification]
#[verifier::external_body]
pub struct ExNbtList(nbt_rs::types::NbtList);

#[verifier::external_type_specification]
#[verifier::external_body]
#[verifier::reject_recursive_types(T)]
pub struct ExNbtArray<T>(nbt_rs::types::NbtArray<T>);

#[verifier::external_type_specification]
#[verifier::external_body]
pub struct ExParseError(nbt_rs::error::ParseError);

#[verifier::external_type_specification]
#[verifier::external_body]
pub struct ExValidationError(nbt_rs::error::ValidationError);

/// Whether a byte string is a well-formed NBT document that `nbt_rs::parse_nbt`
/// accepts. The parser is deterministic, so this depends on the bytes alone.
pub uninterp spec fn nbt_parses(s: Seq<u8>) -> bool;

/// The root compound that `nbt_rs::parse_nbt` yields on a well-formed
/// document; deterministic in the bytes.
pub uninterp spec fn nbt_root(s: Seq<u8>) -> nbt_rs::types::NbtCompound;

/// The field of a compound under a given name, or `None` when the compound
/// has no such field; what `NbtCompound::get` finds.
pub uninterp spec fn compound_field(c: nbt_rs::types::NbtCompound, name: Seq<char>) -> Option<
    nbt_rs::types::NbtTag,
>;

/// The payload of an Int tag, `None` for any other variant.
pub uninterp spec fn tag_int(t: nbt_rs::types::NbtTag) -> Option<i32>;

/// The payload of a Compound tag, `None` for any other variant.
pub uninterp spec fn tag_compound(t: nbt_rs::types::NbtTag) -> Option<nbt_rs::types::NbtCompound>;

/// The payload of a List tag, `None` for any other variant.
pub uninterp spec fn tag_list(t: nbt_rs::types::NbtTag) -> Option<nbt_rs::types::NbtList>;

/// The payload of a String tag, `None` for any other variant.
pub uninterp spec fn tag_string(t: nbt_rs::types::NbtTag) -> Option<nbt_rs::types::NbtString>;

/// The payload of a LongArray tag, `None` for any other variant.
pub uninterp spec fn tag_long_array(t: nbt_rs::types::NbtTag) -> Option<
    nbt_rs::types::NbtArray<i64>,
>;

/// The backing array of a list of compounds, `None` for any other list kind.
pub uninterp spec fn list_compounds(l: nbt_rs::types::NbtList) -> Option<
    nbt_rs::types::NbtArray<nbt_rs::types::NbtCompound>,
>;

/// The items a long array holds, in order.
pub uninterp spec fn long_array_values(a: nbt_rs::types::NbtArray<i64>) -> Seq<i64>;

/// The items a compound array holds, in order.
pub uninterp spec fn compound_array_values(a: nbt_rs::types::NbtArray<nbt_rs::types::NbtCompound>) -> Seq<
    nbt_rs::types::NbtCompound,
>;

/// The characters an NBT string holds, in order.
pub uninterp spec fn string_chars(s: nbt_rs::types::NbtString) -> Seq<char>;

/// Relies on nbt_rs::parse_nbt: parses a named root compound from bytes;
/// success or failure, and the parsed tree, are functions of the input
/// bytes alone.
pub assume_specification[ nbt_rs::parse_nbt ](
    data: &[u8],
) -> (r: Result<(nbt_rs::types::NbtString, nbt_rs::types::NbtCompound), nbt_rs::error::ParseError>)
    ensures
        r is Ok <==> nbt_parses(data@),
        r matches Ok(p) ==> p.1 == nbt_root(data@),
;

/// Relies on NbtCompound::get: looks a field up by name; a pure scan of the
/// compound's entries.
pub assume_specification<'a>[ nbt_rs::types::NbtCompound::get ](
    c: &'a nbt_rs::types::NbtCompound,
    name: &str,
) -> (r: Option<&'a nbt_rs::types::NbtTag>)
    ensures
        r is Some <==> compound_field(*c, name@) is Some,
        r matches Some(t) ==> Some(*t) == compound_field(*c, name@),
;

/// Relies on NbtTag::as_int (written by enum_as_inner's derive): returns the
/// payload when the tag is an Int, and None otherwise.
pub assume_specification<'a>[ nbt_rs::types::NbtTag::as_int ](
    t: &'a nbt_rs::types::NbtTag,
) -> (r: Option<&'a i32>)
    ensures
        r is Some <==> tag_int(*t) is Some,
        r matches Some(v) ==> Some(*v) == tag_int(*t),
;

/// Relies on NbtTag::as_compound (enum_as_inner): the payload when the tag is
/// a Compound, and None otherwise.
pub assume_specification<'a>[ nbt_rs::types::NbtTag::as_compound ](
    t: &'a nbt_rs::types::NbtTag,
) -> (r: Option<&'a nbt_rs::types::NbtCompound>)
    ensures
        r is Some <==> tag_compound(*t) is Some,
        r matches Some(c) ==> Some(*c) == tag_compound(*t),
;

/// Relies on NbtTag::as_list (enum_as_inner): the payload when the tag is a
/// List, and None otherwise.
pub assume_specification<'a>[ nbt_rs::types::NbtTag::as_list ](
    t: &'a nbt_rs::types::NbtTag,
) -> (r: Option<&'a nbt_rs::types::NbtList>)
    ensures
        r is Some <==> tag_list(*t) is Some,
        r matches Some(l) ==> Some(*l) == tag_list(*t),
;

/// Relies on NbtTag::as_string (enum_as_inner): the payload when the tag is a
/// String, and None otherwise.
pub assume_specification<'a>[ nbt_rs::types::NbtTag::as_string ](
    t: &'a nbt_rs::types::NbtTag,
) -> (r: Option<&'a nbt_rs::types::NbtString>)
    ensures
        r is Some <==> tag_string(*t) is Some,
        r matches Some(s) ==> Some(*s) == tag_string(*t),
;

/// Relies on NbtTag::as_long_array (enum_as_inner): the payload when the tag
/// is a LongArray, and None otherwise.
pub assume_specification<'a>[ nbt_rs::types::NbtTag::as_long_array ](
    t: &'a nbt_rs::types::NbtTag,
) -> (r: Option<&'a nbt_rs::types::NbtArray<i64>>)
    ensures
        r is Some <==> tag_long_array(*t) is Some,
        r matches Some(a) ==> Some(*a) == tag_long_array(*t),
;

/// Relies on NbtList::as_compound (enum_as_inner): the backing array when the
/// list holds compounds, and None otherwise.
pub assume_specification<'a>[ nbt_rs::types::NbtList::as_compound ](
    l: &'a nbt_rs::types::NbtList,
) -> (r: Option<&'a nbt_rs::types::NbtArray<nbt_rs::types::NbtCompound>>)
    ensures
        r is Some <==> list_compounds(*l) is Some,
        r matches Some(a) ==> Some(*a) == list_compounds(*l),
;

/// Relies on slice::to_vec through NbtArray's Deref impl: copies the array's
/// items into a plain vector.
#[verifier::external_body]
pub(crate) fn long_array_items(a: &nbt_rs::types::NbtArray<i64>) -> (r: Vec<i64>)
    ensures
        r@ == long_array_values(*a),
{
    a.to_vec()
}

/// Relies on slice::to_vec through NbtArray's Deref impl: copies the array's
/// items into a plain vector. NbtArray validates at construction that it
/// holds at most `i32::MAX` items, so the copy is no longer than that.
#[verifier::external_body]
pub(crate) fn compound_array_items(
    a: &nbt_rs::types::NbtArray<nbt_rs::types::NbtCompound>,
) -> (r: Vec<nbt_rs::types::NbtCompound>)
    ensures
        r@ == compound_array_values(*a),
        r@.len() <= 0x7fff_ffff,
{
    a.to_vec()
}

/// Relies on NbtString's Display impl, which prints exactly the wrapped
/// string: copies the characters into a plain String.
#[verifier::external_body]
pub(crate) fn string_value(s: &nbt_rs::types::NbtString) -> (r: String)
    ensures
        r@ == string_chars(*s),
{
    s.to_string()
}

/// Relies on NbtCompound's derived Clone impl: a deep structural copy, so
/// the clone equals the argument.
pub assume_specification[ <nbt_rs::types::NbtCompound as Clone>::clone ](
    c: &nbt_rs::types::NbtCompound,
) -> (r: nbt_rs::types::NbtCompound)
    ensures
        r == *c,
;

} // verus!
