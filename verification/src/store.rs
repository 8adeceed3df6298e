//! The boundary to the embedded log-structured key-value store. Only the
//! open / insert / prefix / iterate surface is consumed, each call behind
//! a trusted wrapper; everything around these calls is verified.

use vstd::prelude::*;
use vstd::utf8::encode_utf8;

verus! {

#[verifier::external_type_specification]
#[verifier::external_body]
pub struct ExDatabase(fjall::Database);

#[verifier::external_type_specification]
#[verifier::external_body]
pub struct ExKeyspace(fjall::Keyspace);

/// Relies on fjall's `Database::keyspace`: creates the named keyspace on
/// first use and returns a handle to it afterwards. The name must be
/// non-empty and at most 255 bytes, as the call rejects anything else.
#[verifier::external_body]
pub fn open_partition(db: &fjall::Database, name: &String) -> (r: Result<fjall::Keyspace, String>)
    requires
        1 <= encode_utf8(name@).len() <= 255,
{
    match db.keyspace(name.as_str(), fjall::KeyspaceCreateOptions::default) {
        Ok(ks) => Ok(ks),
        Err(e) => Err(e.to_string()),
    }
}

/// Relies on fjall's `Keyspace::insert`: persists the value under the
/// key, replacing any earlier value under the same key. The call rejects
/// by panic an empty key, a key over 65535 bytes, and a value over
/// 2^32 bytes, so those stay outside.
#[verifier::external_body]
pub fn partition_insert(p: &fjall::Keyspace, key: &Vec<u8>, value: Vec<u8>) -> (r: Result<
    (),
    String,
>)
    requires
        1 <= key@.len() <= 65535,
        value@.len() <= u32::MAX,
{
    match p.insert(key.as_slice(), value) {
        Ok(()) => Ok(()),
        Err(e) => Err(e.to_string()),
    }
}

/// Relies on fjall's `Keyspace::prefix`: the iterator yields exactly the
/// stored pairs whose key starts with the prefix, so every returned key
/// begins with it.
#[verifier::external_body]
pub fn partition_prefix(p: &fjall::Keyspace, prefix: &Vec<u8>) -> (r: Result<
    Vec<(Vec<u8>, Vec<u8>)>,
    String,
>)
    ensures
        (r matches Ok(entries) ==> forall|i: int|
            0 <= i < entries@.len() ==> (#[trigger] entries@[i]).0@.len() >= prefix@.len()
                && entries@[i].0@.take(prefix@.len() as int) == prefix@),
{
    let mut out: Vec<(Vec<u8>, Vec<u8>)> = Vec::new();
    for guard in p.prefix(prefix.as_slice()) {
        match guard.into_inner() {
            Ok((k, v)) => out.push((k.to_vec(), v.to_vec())),
            Err(e) => return Err(e.to_string()),
        }
    }
    Ok(out)
}

/// Relies on fjall's `Keyspace::iter`: scans every stored pair of the
/// keyspace.
#[verifier::external_body]
pub fn partition_iter(p: &fjall::Keyspace) -> (r: Result<Vec<(Vec<u8>, Vec<u8>)>, String>) {
    let mut out: Vec<(Vec<u8>, Vec<u8>)> = Vec::new();
    for guard in p.iter() {
        match guard.into_inner() {
            Ok((k, v)) => out.push((k.to_vec(), v.to_vec())),
            Err(e) => return Err(e.to_string()),
        }
    }
    Ok(out)
}

} // verus!
