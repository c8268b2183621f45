//! What the library takes from outside: the hash maps of `rustc_hash`, the
//! random source of `rand`, the absolute value of `num_traits`, and the
//! string of the standard library that holds given bytes.
//!
//! Nothing in this file is proved: each function states what the library it
//! calls documents, and the rest of the crate is verified against that.

use vstd::prelude::*;
use vstd::utf8::encode_utf8;
use num_traits::Signed;
use rand::Rng;
use rustc_hash::FxBuildHasher;
use rustc_hash::FxHashMap;

verus! {

/// The hasher state of `rustc_hash::FxHashMap`. Nothing is known of it.
#[verifier::external_type_specification]
#[verifier::external_body]
pub struct ExFxBuildHasher(FxBuildHasher);

/// `FxHashMap::default()`: a map that holds no key.
#[verifier::external_body]
pub(crate) fn fx_new<V>() -> (m: FxHashMap<u32, V>)
    ensures
        m@.dom() == Set::<u32>::empty(),
{
    FxHashMap::default()
}

/// `HashMap::contains_key`: whether the map holds `k`.
#[verifier::external_body]
pub(crate) fn fx_contains<V>(m: &FxHashMap<u32, V>, k: u32) -> (b: bool)
    ensures
        b == m@.contains_key(k),
{
    m.contains_key(&k)
}

/// `HashMap::get`: the value stored under `k`, if the map holds `k`.
#[verifier::external_body]
pub(crate) fn fx_get<V>(m: &FxHashMap<u32, V>, k: u32) -> (r: Option<&V>)
    ensures
        r is Some <==> m@.contains_key(k),
        r is Some ==> *r->Some_0 == m@[k],
{
    m.get(&k)
}

/// `HashMap::get_mut`: a mutable reference to the value stored under `k`,
/// if the map holds `k`. What is written through the reference is what the
/// map holds under `k` afterwards; no other key changes.
#[verifier::external_body]
pub(crate) fn fx_get_mut<V>(m: &mut FxHashMap<u32, V>, k: u32) -> (r: Option<&mut V>)
    ensures
        match r {
            Some(p) => old(m)@.contains_key(k) && *p == old(m)@[k] && final(m)@ == old(m)@.insert(
                k,
                *final(p),
            ),
            None => !old(m)@.contains_key(k) && final(m)@ == old(m)@,
        },
{
    m.get_mut(&k)
}

/// `HashMap::insert`: afterwards the map holds `v` under `k`; no other key changes.
#[verifier::external_body]
pub(crate) fn fx_insert<V>(m: &mut FxHashMap<u32, V>, k: u32, v: V)
    ensures
        final(m)@ == old(m)@.insert(k, v),
{
    m.insert(k, v);
}

/// `rand::thread_rng().gen()`: some 32-bit value. Two calls may differ.
#[verifier::external_body]
pub(crate) fn random_u32() -> u32 {
    rand::thread_rng().gen()
}

/// What a table of labels holds: the address of each label, by the label's bytes.
pub uninterp spec fn label_entries(m: FxHashMap<Vec<u8>, u32>) -> Map<Seq<u8>, u32>;

/// `FxHashMap::default()`: a table that holds no label.
#[verifier::external_body]
pub(crate) fn labels_new() -> (m: FxHashMap<Vec<u8>, u32>)
    ensures
        label_entries(m).dom() == Set::<Seq<u8>>::empty(),
{
    FxHashMap::default()
}

/// `HashMap::insert`: afterwards the table holds `v` under the bytes of `k`,
/// in place of what it held there; no other label changes.
#[verifier::external_body]
pub(crate) fn labels_insert(m: &mut FxHashMap<Vec<u8>, u32>, k: Vec<u8>, v: u32)
    ensures
        label_entries(*final(m)) == label_entries(*old(m)).insert(k@, v),
{
    m.insert(k, v);
}

/// `HashMap::get`: the address stored under the bytes `k`, if the table holds them.
#[verifier::external_body]
pub(crate) fn labels_get(m: &FxHashMap<Vec<u8>, u32>, k: &[u8]) -> (r: Option<u32>)
    ensures
        r is Some <==> label_entries(*m).contains_key(k@),
        r is Some ==> r->Some_0 == label_entries(*m)[k@],
{
    m.get(k).copied()
}

/// `num_traits::Signed::abs`: the absolute value. The smallest number has
/// none, and is left out.
#[verifier::external_body]
pub(crate) fn signed_abs(x: i32) -> (r: i32)
    requires
        x > i32::MIN,
    ensures
        r == if x < 0 {
            -x
        } else {
            x as int
        },
{
    Signed::abs(&x)
}

/// The error of `String::from_utf8`. Nothing is known of it.
#[verifier::external_type_specification]
#[verifier::external_body]
pub struct ExFromUtf8Error(std::string::FromUtf8Error);

/// `String::from_utf8`: the string whose UTF-8 encoding the bytes are, where
/// they are one. Bytes below `0x80` alone always are.
#[verifier::external_body]
pub(crate) fn text_of(bytes: Vec<u8>) -> (r: Result<String, std::string::FromUtf8Error>)
    ensures
        r is Ok ==> encode_utf8(r->Ok_0@) == bytes@,
        (forall|i: int| 0 <= i < bytes@.len() ==> bytes@[i] < 0x80) ==> r is Ok,
{
    String::from_utf8(bytes)
}

} // verus!
