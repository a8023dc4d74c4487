//! The listing engine: a fingerprint-keyed cache of sorted listings that
//! re-sorts on an ordering change instead of scanning again, and a key/value
//! state store.

use vstd::prelude::*;
use moka::sync::Cache;
use std::hash::Hash;
use crate::dir::{
    base_dir_of, is_listing_of, item_name_of, list_page, paginate, path_string_of, sorted_listing,
    split_path, window, Page, RawEntry,
};
use crate::models::{ApiError, CacheKey, CacheVal, Folder, Item, MetaType, ModTime, OrdItem, Params};
use crate::order::{lemma_sort_keeps_entries, sort_items, sorted_seq};
use crate::path_ext::AbsPath;
use crate::system_time_ext::SystemTimeExt;

verus! {

#[verifier::external_type_specification]
#[verifier::external_body]
#[verifier::reject_recursive_types(K)]
#[verifier::reject_recursive_types(V)]
#[verifier::reject_recursive_types(S)]
pub struct ExCache<K, V, S>(Cache<K, V, S>);

/// Relies on `moka::sync::Cache::new`: a concurrent cache that holds at most
/// `cap` entries and evicts on its own.
#[verifier::external_body]
fn cache_new<K: Hash + Eq + Send + Sync + 'static, V: Clone + Send + Sync + 'static>(cap: u64) -> Cache<K, V> {
    Cache::new(cap)
}

/// Relies on `moka::sync::Cache::get`: a copy of the value under the key, if
/// the cache still holds one. Entries may be evicted at any time and other
/// callers may write, so nothing is promised of the result.
#[verifier::external_body]
fn cache_get<K: Hash + Eq + Send + Sync + 'static, V: Clone + Send + Sync + 'static>(c: &Cache<K, V>, key: &K) -> Option<V> {
    c.get(key)
}

/// Relies on `moka::sync::Cache::insert`: stores or replaces the value under the key.
#[verifier::external_body]
fn cache_insert<K: Hash + Eq + Send + Sync + 'static, V: Clone + Send + Sync + 'static>(c: &Cache<K, V>, key: K, value: V) {
    c.insert(key, value)
}

/// Relies on `moka::sync::Cache::invalidate`: discards the value under the key.
#[verifier::external_body]
fn cache_invalidate<K: Hash + Eq + Send + Sync + 'static, V: Clone + Send + Sync + 'static>(c: &Cache<K, V>, key: &K) {
    c.invalidate(key)
}

/// The most distinct fingerprints, and the most state keys, that the engine keeps.
pub const CACHE_CAPACITY: u64 = 100;

/// A bulk directory scan, supplied by the platform.
pub trait Enumerator {
    /// All entries of the directory in one scan.
    fn enumerate(&self, dir: &str) -> Result<Vec<RawEntry>, ApiError>;
}

/// A resolved listing target: the directory (the parent where the request
/// named a file), whether the request named a file, and the directory's own
/// modification time where it could be read.
#[derive(Clone, Debug)]
pub struct Target {
    pub path: AbsPath,
    pub is_file: bool,
    pub modified: Option<ModTime>,
}

/// The metadata kinds as a canonical ordered set: each kind once, in the
/// order size, time, MIME type, extension.
pub open spec fn canonical_meta_of(s: Seq<MetaType>) -> Seq<MetaType> {
    (if s.contains(MetaType::Sz) {
        seq![MetaType::Sz]
    } else {
        Seq::empty()
    }) + (if s.contains(MetaType::Tm) {
        seq![MetaType::Tm]
    } else {
        Seq::empty()
    }) + (if s.contains(MetaType::Mt) {
        seq![MetaType::Mt]
    } else {
        Seq::empty()
    }) + (if s.contains(MetaType::Ext) {
        seq![MetaType::Ext]
    } else {
        Seq::empty()
    })
}

/// The metadata kinds as a canonical ordered set.
pub fn canonical_meta(meta_types: &Vec<MetaType>) -> (r: Vec<MetaType>)
    ensures
        r@ == canonical_meta_of(meta_types@),
{
    let mut r: Vec<MetaType> = Vec::new();
    if crate::dir::has_meta(meta_types, MetaType::Sz) {
        r.push(MetaType::Sz);
    }
    if crate::dir::has_meta(meta_types, MetaType::Tm) {
        r.push(MetaType::Tm);
    }
    if crate::dir::has_meta(meta_types, MetaType::Mt) {
        r.push(MetaType::Mt);
    }
    if crate::dir::has_meta(meta_types, MetaType::Ext) {
        r.push(MetaType::Ext);
    }
    assert(r@ =~= canonical_meta_of(meta_types@));
    r
}

/// Whether two orderings are the same sequence of keys and directions.
pub fn same_ordering(a: &Vec<OrdItem>, b: &Vec<OrdItem>) -> (r: bool)
    ensures
        r == (a@ == b@),
{
    if a.len() != b.len() {
        return false;
    }
    let mut i: usize = 0;
    while i < a.len()
        invariant
            a@.len() == b@.len(),
            i <= a@.len(),
            forall|k: int| 0 <= k < i ==> a@[k] == b@[k],
        decreases a@.len() - i,
    {
        if a[i] != b[i] {
            return false;
        }
        i = i + 1;
    }
    assert(a@ =~= b@);
    true
}

/// A copy of an ordering.
pub fn copy_ordering(o: &Vec<OrdItem>) -> (r: Vec<OrdItem>)
    ensures
        r@ == o@,
{
    let mut r: Vec<OrdItem> = Vec::new();
    let mut i: usize = 0;
    while i < o.len()
        invariant
            i <= o@.len(),
            r@ == o@.subrange(0, i as int),
        decreases o@.len() - i,
    {
        r.push(o[i]);
        assert(r@ =~= o@.subrange(0, i + 1));
        i = i + 1;
    }
    assert(r@ =~= o@);
    r
}

/// A copy of a listing.
pub fn copy_items(v: &Vec<Item>) -> (r: Vec<Item>)
    ensures
        r@ == v@,
{
    let mut r: Vec<Item> = Vec::new();
    let mut i: usize = 0;
    while i < v.len()
        invariant
            i <= v@.len(),
            r@ == v@.subrange(0, i as int),
        decreases v@.len() - i,
    {
        r.push(v[i].duplicate());
        assert(r@ =~= v@.subrange(0, i + 1));
        i = i + 1;
    }
    assert(r@ =~= v@);
    r
}

/// Serves a cache hit: where the stored ordering is the requested one the
/// stored listing is returned as it is; else it is re-sorted under the
/// requested ordering and flagged to be stored back. Either way the listing
/// holds the same entries as the stored one.
pub fn resolve_hit(val: CacheVal, ordering: &Vec<OrdItem>) -> (r: (Vec<Item>, bool))
    ensures
        val.ordering@ == ordering@ ==> r.0@ == val.items@ && !r.1,
        val.ordering@ != ordering@ ==> r.0@ == sorted_seq(val.items@, ordering@) && r.1,
        r.0@.to_multiset() == val.items@.to_multiset(),
{
    let CacheVal { items, ordering: stored } = val;
    let mut items = items;
    if same_ordering(&stored, ordering) {
        (items, false)
    } else {
        sort_items(&mut items, ordering);
        proof {
            lemma_sort_keeps_entries(val.items@, ordering@);
        }
        (items, true)
    }
}

/// What a state read returns, and whether the default is to be stored: the
/// value found, else the default, which is then stored.
pub fn settle_state(found: Option<String>, default_val: Option<String>) -> (r: (Option<String>, bool))
    ensures
        r == (match (found, default_val) {
            (None, Some(d)) => (Some(d), true),
            (f, _) => (f, false),
        }),
{
    match (found, default_val) {
        (None, Some(d)) => (Some(d), true),
        (f, _) => (f, false),
    }
}

/// The listing engine: a bounded cache of sorted listings keyed by
/// fingerprint, and a bounded key/value state store.
pub struct Api {
    cache_folder: Cache<CacheKey, CacheVal>,
    state: Cache<String, String>,
}

/// The message of the error returned when a cached listing is asked for and
/// the directory's modification time is unknown.
pub open spec fn no_time_message() -> Seq<char> {
    "Err SystemTime"@
}

impl Api {
    /// An engine with empty caches.
    pub fn new() -> (r: Api) {
        Api { cache_folder: cache_new(CACHE_CAPACITY), state: cache_new(CACHE_CAPACITY) }
    }

    /// Stores `opt_val` under `key`, or removes the key where it is `None`;
    /// returns the value given.
    pub fn set_state(&self, key: String, opt_val: Option<String>) -> (r: Result<Option<String>, ApiError>)
        ensures
            r == Ok::<Option<String>, ApiError>(opt_val),
    {
        match &opt_val {
            None => cache_invalidate(&self.state, &key),
            Some(v) => cache_insert(&self.state, key, v.clone()),
        }
        Ok(opt_val)
    }

    /// The value under `key`; where there is none and a default is given, the
    /// default is stored and returned.
    pub fn get_state(&self, key: &String, default_val: Option<String>) -> (r: Result<Option<String>, ApiError>)
        ensures
            r.is_ok(),
            default_val.is_some() ==> r.unwrap().is_some(),
    {
        let found = cache_get(&self.state, key);
        let (v, store) = settle_state(found, default_val);
        if store {
            match &v {
                Some(d) => cache_insert(&self.state, key.clone(), d.clone()),
                None => {},
            }
        }
        Ok(v)
    }

    /// Lists a resolved directory under the request's metadata kinds,
    /// ordering and pagination window.
    ///
    /// With a cache name, the listing is looked up by its fingerprint (name,
    /// path, modification time, metadata kinds as a set): a hit under the same
    /// ordering is served as stored, a hit under another ordering is re-sorted
    /// and stored back, and only a miss scans the directory. Without one the
    /// directory is scanned.
    pub fn get_folder<E: Enumerator>(&self, params: &Params, target: &Target, en: &E) -> (r: Result<Folder, ApiError>)
        ensures
            params.cache_nm.is_some() && target.modified.is_none() ==> (r matches Err(
                ApiError::Folder(m),
            ) && m@ == no_time_message()),
            r.is_ok() ==> {
                let f = r.unwrap();
                let total = f.tot.unwrap() as int;
                let (skip, take) = window(total, params.skip_n, params.take_n);
                &&& f.path_param@ == path_string_of(target.path)
                &&& f.base_nm@ == base_dir_of(target.path)
                &&& f.item.nm@ == item_name_of(target.path)
                &&& f.item.dir == !target.is_file
                &&& f.item.tm == (match target.modified {
                    Some(t) => Some(t.secs),
                    None => None,
                })
                &&& f.item.ext.is_none() && f.item.mt.is_none() && f.item.sz.is_none()
                &&& f.tot.is_some()
                &&& f.skip_n == Some(skip as usize)
                &&& f.take_n == Some(take as usize)
                &&& f.cnt == Some(take as usize)
                &&& f.items.is_some() && f.items.unwrap()@.len() == take
                &&& f.ordering.is_some() && f.ordering.unwrap()@ == params.ordering@
                &&& 0 <= skip <= total
                &&& exists|all: Seq<Item>|
                    all.len() == total && f.items.unwrap()@ == all.subrange(skip, skip + take)
                &&& params.cache_nm.is_none() ==> exists|raw: Seq<RawEntry>, all: Seq<Item>|
                    is_listing_of(all, raw, params.meta_types@, params.ordering@)
                    && all.len() == total
                    && f.items.unwrap()@ == all.subrange(skip, skip + take)
            },
    {
        let split = split_path(&target.path);
        let tm = match target.modified {
            Some(t) => Some(t.to_sec()),
            None => None,
        };
        let item = Item { nm: split.item_name, dir: !target.is_file, ext: None, mt: None, sz: None, tm };
        let sorted: Vec<Item> = match &params.cache_nm {
            Some(nm) => {
                let modified = match target.modified {
                    Some(t) => t,
                    None => {
                        let m = String::from_str("Err SystemTime");
                        proof {
                            reveal_strlit("Err SystemTime");
                        }
                        return Err(ApiError::Folder(m));
                    },
                };
                let key = CacheKey {
                    nm: nm.clone(),
                    path: split.path.clone(),
                    tm: modified,
                    meta_types: canonical_meta(&params.meta_types),
                };
                match cache_get(&self.cache_folder, &key) {
                    Some(val) => {
                        let (items, changed) = resolve_hit(val, &params.ordering);
                        if changed {
                            let stored = CacheVal {
                                items: copy_items(&items),
                                ordering: copy_ordering(&params.ordering),
                            };
                            cache_insert(&self.cache_folder, key, stored);
                        }
                        items
                    },
                    None => {
                        let items = match en.enumerate(split.path.as_str()) {
                            Ok(raw) => sorted_listing(&raw, &params.meta_types, &params.ordering),
                            Err(e) => {
                                return Err(e);
                            },
                        };
                        let stored = CacheVal {
                            items: copy_items(&items),
                            ordering: copy_ordering(&params.ordering),
                        };
                        cache_insert(&self.cache_folder, key, stored);
                        items
                    },
                }
            },
            None => {
                let page = match en.enumerate(split.path.as_str()) {
                    Ok(raw) => list_page(&raw, &params.meta_types, &params.ordering, params.skip_n, params.take_n),
                    Err(e) => {
                        return Err(e);
                    },
                };
                let Page { items, total, skip, take } = page;
                let cnt = items.len();
                return Ok(
                    Folder {
                        item,
                        items: Some(items),
                        path_param: split.path,
                        base_nm: split.base_dir,
                        tot: Some(total),
                        cnt: Some(cnt),
                        skip_n: Some(skip),
                        take_n: Some(take),
                        ordering: Some(copy_ordering(&params.ordering)),
                    },
                );
            },
        };
        let total = sorted.len();
        let ghost all = sorted@;
        let (page, skip, take) = paginate(sorted, params.skip_n, params.take_n);
        let cnt = page.len();
        Ok(
            Folder {
                item,
                items: Some(page),
                path_param: split.path,
                base_nm: split.base_dir,
                tot: Some(total),
                cnt: Some(cnt),
                skip_n: Some(skip),
                take_n: Some(take),
                ordering: Some(copy_ordering(&params.ordering)),
            },
        )
    }
}

} // verus!
