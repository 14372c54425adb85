//! Cobra's variable environment: an `im::HashMap` from names to stack
//! offsets, used through trusted items that state what each call does to the
//! map's contents.
use vstd::prelude::*;

verus! {

/// The persistent hash map of the `im` crate.
#[verifier::external_type_specification]
#[verifier::external_body]
#[verifier::reject_recursive_types(K)]
#[verifier::reject_recursive_types(V)]
#[verifier::reject_recursive_types(S)]
pub struct ExImHashMap<K, V, S>(im::HashMap<K, V, S>);

/// A variable environment.
pub type Env = im::HashMap<String, i32>;

/// The contents of an environment: each name, by its characters, to its
/// stack offset.
pub uninterp spec fn env_contents(m: Env) -> Map<Seq<char>, i32>;

/// Calls `im::HashMap::new`: the new map is empty.
#[verifier::external_body]
pub(crate) fn env_new() -> (r: Env)
    ensures
        env_contents(r).dom().is_empty(),
{
    im::HashMap::new()
}

/// Calls `im::HashMap::get` with a `&str` key: the value stored under a key
/// with the same characters, if any.
#[verifier::external_body]
pub(crate) fn env_get(m: &Env, k: &str) -> (r: Option<i32>)
    ensures
        match r {
            Some(v) => env_contents(*m).contains_key(k@) && env_contents(*m)[k@] == v,
            None => !env_contents(*m).contains_key(k@),
        },
{
    m.get(k).copied()
}

/// Calls `im::HashMap::insert`: the key now maps to the value, every other
/// key is unchanged.
#[verifier::external_body]
pub(crate) fn env_insert(m: &mut Env, k: String, v: i32)
    ensures
        env_contents(*final(m)) == env_contents(*old(m)).insert(k@, v),
{
    m.insert(k, v);
}

/// Calls `<im::HashMap as Clone>::clone`: the copy has the same contents.
#[verifier::external_body]
pub(crate) fn env_clone(m: &Env) -> (r: Env)
    ensures
        env_contents(r) == env_contents(*m),
{
    m.clone()
}

} // verus!
