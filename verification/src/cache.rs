//! The two-level content cache: the recipe-identity hash names what a
//! recipe *is*, the dep-closure hash names what it is built from, and
//! the persistent store maps the dep-closure hash to the equivalence
//! hash of the artefact a build of that closure actually produced.

use vstd::prelude::*;
use crate::recipe::NamedRecipeVersion;
use crate::recipe::NamedRecipeVersionV;
use crate::recipe::DepSpecV;
use crate::recipe_text::enc_recipe;
use crate::envmap::EnvMap;
use crate::strutil::{chars_of, string_of, str_eq, append_chars, utf8_bytes_of};

verus! {

/// What `sha256::digest` returns for given bytes; a fixed function of
/// the bytes alone.
pub uninterp spec fn sha256_hex_of(data: Seq<u8>) -> Seq<char>;

pub open spec fn is_lower_hex_digit(c: char) -> bool {
    ('0' <= c && c <= '9') || ('a' <= c && c <= 'f')
}

/// Relies on `sha256::digest` (crate `sha256`): the SHA-256 of the
/// input bytes, rendered as 64 lower-case hex characters.
#[verifier::external_body]
fn sha256_digest(data: &[u8]) -> (r: String)
    ensures
        r@ == sha256_hex_of(data@),
        r@.len() == 64,
        forall|i: int| 0 <= i < r@.len() ==> is_lower_hex_digit(#[trigger] r@[i]),
{
    sha256::digest(data)
}

/// The 64 hex characters that name the given bytes, as a string.
pub fn content_hash(data: &Vec<u8>) -> (r: String)
    ensures
        r@ == sha256_hex_of(data@),
        r@.len() == 64,
        forall|i: int| 0 <= i < r@.len() ==> is_lower_hex_digit(#[trigger] r@[i]),
{
    sha256_digest(data.as_slice())
}

/// The recipe-identity hash: SHA-256 of the canonical recipe text.
pub open spec fn recipe_hash_spec(v: NamedRecipeVersionV) -> Seq<char> {
    sha256_hex_of(vstd::utf8::encode_utf8(enc_recipe(v)))
}

/// The key under which a dependency's equivalence hash is remembered.
pub open spec fn dep_key(d: DepSpecV) -> Seq<char> {
    d.name + seq![':'] + d.version
}

/// The text whose SHA-256 is the dep-closure hash: the recipe-identity
/// hash followed, for each dependency in declared order, by a comma and
/// that dependency's equivalence hash.  Undefined when any dependency
/// has no known equivalence hash.
pub open spec fn depd_chars(
    base: Seq<char>,
    deps: Seq<DepSpecV>,
    m: Map<Seq<char>, Seq<char>>,
) -> Option<Seq<char>>
    decreases deps.len(),
{
    if deps.len() == 0 {
        Some(base)
    } else {
        match depd_chars(base, deps.drop_last(), m) {
            None => None,
            Some(s) => {
                let k = dep_key(deps.last());
                if m.contains_key(k) {
                    Some(s + seq![','] + m[k])
                } else {
                    None
                }
            },
        }
    }
}

pub open spec fn recipe_deps_view(v: NamedRecipeVersionV) -> Seq<DepSpecV> {
    match v.deps {
        None => Seq::empty(),
        Some(ds) => ds,
    }
}

/// The dep-closure hash, given the equivalence hashes known so far.
pub open spec fn depd_hash_spec(v: NamedRecipeVersionV, m: Map<Seq<char>, Seq<char>>) -> Option<
    Seq<char>,
> {
    match depd_chars(recipe_hash_spec(v), recipe_deps_view(v), m) {
        None => None,
        Some(s) => Some(sha256_hex_of(vstd::utf8::encode_utf8(s))),
    }
}

/// The recipe-identity hash of a resolved recipe.  A function of the
/// recipe value alone: two equal recipes hash alike on any machine.
pub fn get_recipe_hash(recipe: &NamedRecipeVersion) -> (r: String)
    ensures
        r@ == recipe_hash_spec(recipe.deep_view()),
        r@.len() == 64,
{
    let text = crate::recipe_text::emit_recipe(recipe);
    let bytes = utf8_bytes_of(text.as_str());
    sha256_digest(bytes.as_slice())
}

/// The dep-closure hash, or `None` when some dependency's equivalence
/// hash is not in `known`.  A function of the recipe and `known` alone.
pub fn get_depd_hash(recipe: &NamedRecipeVersion, known: &EnvMap) -> (r: Option<String>)
    requires
        known.wf(),
    ensures
        match r {
            Some(h) => depd_hash_spec(recipe.deep_view(), known@) == Some(h@) && h@.len() == 64,
            None => depd_hash_spec(recipe.deep_view(), known@) is None,
        },
{
    let base = get_recipe_hash(recipe);
    let mut acc = chars_of(base.as_str());
    let ghost deps_v = recipe_deps_view(recipe.deep_view());
    match &recipe.deps {
        None => {
            proof {
                assert(deps_v =~= Seq::<DepSpecV>::empty());
            }
        },
        Some(ds) => {
            let mut i: usize = 0;
            while i < ds.len()
                invariant
                    known.wf(),
                    deps_v == recipe_deps_view(recipe.deep_view()),
                    deps_v == ds.deep_view(),
                    deps_v.len() == ds@.len(),
                    i <= ds@.len(),
                    depd_chars(recipe_hash_spec(recipe.deep_view()), deps_v.take(i as int), known@)
                        == Some(acc@),
                decreases ds@.len() - i,
            {
                proof {
                    assert(deps_v.take(i + 1).drop_last() =~= deps_v.take(i as int));
                    assert(deps_v.take(i + 1).last() == deps_v[i as int]);
                    assert(deps_v[i as int] == ds@[i as int].deep_view());
                }
                let mut key = chars_of(ds[i].name.as_str());
                key.push(':');
                let vc = chars_of(ds[i].version.as_str());
                append_chars(&mut key, &vc);
                proof {
                    assert(key@ =~= dep_key(deps_v[i as int]));
                }
                match known.lookup(&key) {
                    Some(h) => {
                        acc.push(',');
                        let hc = chars_of(h.as_str());
                        append_chars(&mut acc, &hc);
                        proof {
                            assert(acc@ =~= depd_chars(
                                recipe_hash_spec(recipe.deep_view()),
                                deps_v.take(i as int),
                                known@,
                            ).unwrap() + seq![','] + known@[key@]);
                        }
                    },
                    None => {
                        proof {
                            assert(depd_chars(
                                recipe_hash_spec(recipe.deep_view()),
                                deps_v.take(i + 1),
                                known@,
                            ) is None);
                            lemma_depd_chars_none(
                                recipe_hash_spec(recipe.deep_view()),
                                deps_v,
                                known@,
                                i as int + 1,
                            );
                        }
                        return None;
                    },
                }
                i = i + 1;
            }
            proof {
                assert(deps_v.take(deps_v.len() as int) =~= deps_v);
            }
        },
    }
    let text = string_of(&acc);
    let bytes = utf8_bytes_of(text.as_str());
    Some(sha256_digest(bytes.as_slice()))
}

/// Once the closure text is undefined on a prefix of the dependencies,
/// it is undefined on the whole list.
proof fn lemma_depd_chars_none(
    base: Seq<char>,
    deps: Seq<DepSpecV>,
    m: Map<Seq<char>, Seq<char>>,
    k: int,
)
    requires
        0 <= k <= deps.len(),
        depd_chars(base, deps.take(k), m) is None,
    ensures
        depd_chars(base, deps, m) is None,
    decreases deps.len() - k,
{
    if k == deps.len() {
        assert(deps.take(k) =~= deps);
    } else {
        assert(deps.take(k + 1).drop_last() =~= deps.take(k));
        lemma_depd_chars_none(base, deps, m, k + 1);
    }
}

/// The on-disk type of the persistent equivalence store.
#[verifier::external_type_specification]
#[verifier::external_body]
pub struct ExSledDb(sled::Db);

#[verifier::external_type_specification]
#[verifier::external_body]
pub struct ExSledError(sled::Error);

/// Relies on `sled::open`: opens (or creates) the store at the path.
#[verifier::external_body]
fn sled_open(path: &str) -> (r: Result<sled::Db, sled::Error>)
{
    sled::open(path)
}

/// Relies on `sled::Tree::get`: the value stored under the key, if any.
/// What comes back depends on the store on disk, so nothing more is
/// promised.
#[verifier::external_body]
fn sled_get(db: &sled::Db, key: &[u8]) -> (r: Result<Option<Vec<u8>>, sled::Error>)
{
    match db.get(key) {
        Ok(opt) => Ok(opt.map(|v| v.to_vec())),
        Err(e) => Err(e),
    }
}

/// Relies on `sled::Tree::insert`: binds the key to the value.
#[verifier::external_body]
fn sled_insert(db: &sled::Db, key: &[u8], value: &[u8]) -> (r: Result<(), sled::Error>)
{
    match db.insert(key, value) {
        Ok(_) => Ok(()),
        Err(e) => Err(e),
    }
}

/// The persistent map from dep-closure hash to equivalence hash.
pub struct EquivStore {
    db: sled::Db,
}

#[derive(Debug, PartialEq, Eq, Structural, Clone, Copy)]
pub enum CacheError {
    /// The persistent store could not be opened or written.
    StoreUnavailable,
    /// A dependency's equivalence hash is not known, so the dep-closure
    /// hash is undefined.
    MissingDepEquiv,
}

impl EquivStore {
    /// Open the store directory.
    pub fn open(path: &str) -> (r: Result<EquivStore, CacheError>)
        ensures
            r is Err ==> r == Err::<EquivStore, CacheError>(CacheError::StoreUnavailable),
    {
        match sled_open(path) {
            Ok(db) => Ok(EquivStore { db }),
            Err(_) => Err(CacheError::StoreUnavailable),
        }
    }

    /// The stored equivalence hash under a dep-closure hash, decoded as
    /// text.  The result reflects whatever the store holds on disk.
    pub fn get_equiv(&self, depd_hash: &str) -> (r: Option<String>)
    {
        let key = utf8_bytes_of(depd_hash);
        match sled_get(&self.db, key.as_slice()) {
            Ok(Some(v)) => crate::strutil::string_from_utf8(v),
            Ok(None) => None,
            Err(_) => None,
        }
    }

    /// Bind a dep-closure hash to an equivalence hash.
    pub fn put_equiv(&self, depd_hash: &str, equiv_hash: &str) -> (r: Result<(), CacheError>)
        ensures
            r is Err ==> r == Err::<(), CacheError>(CacheError::StoreUnavailable),
    {
        let key = utf8_bytes_of(depd_hash);
        let value = utf8_bytes_of(equiv_hash);
        match sled_insert(&self.db, key.as_slice(), value.as_slice()) {
            Ok(()) => Ok(()),
            Err(_) => Err(CacheError::StoreUnavailable),
        }
    }
}

/// The equivalence hash of a recipe: the store's entry for its
/// dep-closure hash.  `None` when the dep-closure hash is undefined or
/// the store has no entry for it; when the dep-closure hash is
/// undefined the store is not consulted at all.
pub fn get_equiv_hash(recipe: &NamedRecipeVersion, known: &EnvMap, store: &EquivStore) -> (r:
    Option<String>)
    requires
        known.wf(),
    ensures
        r is Some ==> depd_hash_spec(recipe.deep_view(), known@) is Some,
{
    match get_depd_hash(recipe, known) {
        Some(depd) => store.get_equiv(depd.as_str()),
        None => None,
    }
}

/// Record a produced artefact: its equivalence hash is the SHA-256 of
/// the tar bytes, and the store learns that this recipe's dep closure
/// produced it.  Returns the equivalence hash for the caller to file
/// the artefact under.
pub fn store_dep(recipe: &NamedRecipeVersion, known: &EnvMap, store: &EquivStore, contents: &Vec<
    u8,
>) -> (r: Result<String, CacheError>)
    requires
        known.wf(),
    ensures
        match r {
            Ok(h) => h@ == sha256_hex_of(contents@) && h@.len() == 64 && depd_hash_spec(
                recipe.deep_view(),
                known@,
            ) is Some,
            Err(CacheError::MissingDepEquiv) => depd_hash_spec(recipe.deep_view(), known@) is None,
            Err(CacheError::StoreUnavailable) => true,
        },
{
    let depd = match get_depd_hash(recipe, known) {
        Some(d) => d,
        None => {
            return Err(CacheError::MissingDepEquiv);
        },
    };
    let equiv = content_hash(contents);
    match store.put_equiv(depd.as_str(), equiv.as_str()) {
        Ok(()) => Ok(equiv),
        Err(_) => Err(CacheError::StoreUnavailable),
    }
}

/// Whether fetched bytes carry the digest a source declares.
pub fn source_data_matches(data: &Vec<u8>, sha: &str) -> (r: bool)
    ensures
        r == (sha256_hex_of(data@) == sha@),
{
    let h = content_hash(data);
    str_eq(h.as_str(), sha)
}

} // verus!
