use std::cell::Cell;
use std::cmp::Ordering;

use folder_engine::api::{canonical_meta, resolve_hit, settle_state, Api, Enumerator, Target};
use folder_engine::dir::{
    combine_halves, filetime_to_unix_time, get_mime_type, list_page, page_window, paginate,
    project_entries, project_entry, sorted_listing, split_path, update_items, RawEntry,
};
use folder_engine::models::{ApiError, CacheVal, Item, MetaType, ModTime, OrdItem, OrderAsc, OrderBy, Params};
use folder_engine::order::{cmp_item, cmp_items, cmp_opt_item, cmp_opt_str_item, cmp_str_item, sort_items};
use folder_engine::path_ext::{AbsPath, PathExt};
use folder_engine::system_time_ext::SystemTimeExt;
use folder_engine::text::{cmp_chars, get_ext, get_extension};

fn item(nm: &str, dir: bool) -> Item {
    Item { nm: nm.to_string(), dir, ext: None, mt: None, sz: None, tm: None }
}

fn names(items: &[Item]) -> Vec<String> {
    items.iter().map(|i| i.nm.clone()).collect()
}

fn ord(nm: OrderBy, asc: OrderAsc) -> OrdItem {
    OrdItem { nm, asc }
}

fn raw(name: &str, attributes: u32) -> RawEntry {
    RawEntry {
        name: name.to_string(),
        attributes,
        size_high: 0,
        size_low: 0,
        write_time_high: 0,
        write_time_low: 0,
    }
}

fn win_path(prefix: &str, parts: &[&str]) -> AbsPath {
    AbsPath {
        prefix: prefix.to_string(),
        has_root: true,
        parts: parts.iter().map(|p| p.to_string()).collect(),
        sep: "\\".to_string(),
    }
}

struct CountingScan {
    calls: Cell<usize>,
    entries: Vec<RawEntry>,
}

impl Enumerator for CountingScan {
    fn enumerate(&self, _dir: &str) -> Result<Vec<RawEntry>, ApiError> {
        self.calls.set(self.calls.get() + 1);
        Ok(self.entries.clone())
    }
}

struct FailingScan;

impl Enumerator for FailingScan {
    fn enumerate(&self, _dir: &str) -> Result<Vec<RawEntry>, ApiError> {
        Err(ApiError::Io("access denied".to_string()))
    }
}

#[test]
fn window_clamps_skip_and_take() {
    assert_eq!(page_window(10, Some(20), Some(5)), (10, 0));
    assert_eq!(page_window(10, Some(3), None), (3, 7));
    assert_eq!(page_window(10, Some(3), Some(100)), (3, 7));
    assert_eq!(page_window(10, None, Some(4)), (0, 4));
    assert_eq!(page_window(0, Some(usize::MAX), Some(usize::MAX)), (0, 0));
}

#[test]
fn paginate_returns_the_window() {
    let items = vec![item("a", false), item("b", false), item("c", false), item("d", false)];
    let (page, skip, take) = paginate(items, Some(1), Some(2));
    assert_eq!((skip, take), (1, 2));
    assert_eq!(names(&page), vec!["b", "c"]);
}

#[test]
fn sorting_twice_changes_nothing() {
    let ordering = vec![ord(OrderBy::Dir, OrderAsc::Asc), ord(OrderBy::Nm, OrderAsc::Asc)];
    let mut items = vec![item("b", false), item("C", true), item("a", false), item("d", true)];
    sort_items(&mut items, &ordering);
    let once = names(&items);
    sort_items(&mut items, &ordering);
    assert_eq!(names(&items), once);
    assert_eq!(once, vec!["C", "d", "a", "b"]);
}

#[test]
fn resort_on_hit_keeps_entries() {
    let val = CacheVal {
        items: vec![item("b", false), item("a", false), item("c", true)],
        ordering: vec![ord(OrderBy::Nm, OrderAsc::Desc)],
    };
    let ordering = vec![ord(OrderBy::Nm, OrderAsc::Asc)];
    let (items, changed) = resolve_hit(val, &ordering);
    assert!(changed);
    assert_eq!(names(&items), vec!["a", "b", "c"]);

    let same = CacheVal { items: vec![item("z", false), item("y", false)], ordering: ordering.clone() };
    let (items, changed) = resolve_hit(same, &ordering);
    assert!(!changed);
    assert_eq!(names(&items), vec!["z", "y"]);
}

#[test]
fn comparator_is_mirrored() {
    let orderings = vec![
        vec![ord(OrderBy::Nm, OrderAsc::Asc)],
        vec![ord(OrderBy::Dir, OrderAsc::Desc)],
        vec![ord(OrderBy::Sz, OrderAsc::Asc)],
        vec![],
    ];
    let mut a = item("alpha", false);
    a.sz = Some(5);
    let mut b = item("Beta", true);
    b.sz = Some(3);
    for o in &orderings {
        assert_eq!(cmp_items(&a, &b, o), cmp_items(&b, &a, o).reverse());
    }
}

#[test]
fn directories_first_regardless_of_names() {
    let ordering = vec![ord(OrderBy::Dir, OrderAsc::Asc)];
    let mut items = vec![item("aaa", false), item("zzz", true)];
    sort_items(&mut items, &ordering);
    assert_eq!(names(&items), vec!["zzz", "aaa"]);
    assert!(items[0].dir);
}

#[test]
fn names_sort_case_insensitively() {
    let ordering = vec![ord(OrderBy::Nm, OrderAsc::Asc)];
    let mut items = vec![item("Banana", false), item("apple", false)];
    sort_items(&mut items, &ordering);
    assert_eq!(names(&items), vec!["apple", "Banana"]);
}

#[test]
fn raw_name_breaks_ties_without_name_key() {
    let ordering = vec![ord(OrderBy::Dir, OrderAsc::Asc)];
    let mut items = vec![item("b", false), item("B", false), item("a", false)];
    sort_items(&mut items, &ordering);
    assert_eq!(names(&items), vec!["B", "a", "b"]);
}

#[test]
fn equal_names_keep_their_order() {
    let ordering = vec![ord(OrderBy::Nm, OrderAsc::Asc)];
    let mut first = item("Same", false);
    first.sz = Some(1);
    let mut second = item("same", false);
    second.sz = Some(2);
    let mut items = vec![first, second];
    sort_items(&mut items, &ordering);
    assert_eq!(items[0].sz, Some(1));
    assert_eq!(items[1].sz, Some(2));
}

#[test]
fn size_and_extension_keys() {
    let mut a = item("a.txt", false);
    a.sz = Some(10);
    a.ext = Some("TXT".to_string());
    let mut b = item("b.rs", false);
    b.sz = Some(2);
    b.ext = Some("rs".to_string());
    let mut c = item("c", false);
    c.sz = None;
    let by_size = vec![ord(OrderBy::Sz, OrderAsc::Asc)];
    let mut items = vec![a.clone(), b.clone()];
    sort_items(&mut items, &by_size);
    assert_eq!(names(&items), vec!["b.rs", "a.txt"]);
    let by_size_desc = vec![ord(OrderBy::Sz, OrderAsc::Desc)];
    sort_items(&mut items, &by_size_desc);
    assert_eq!(names(&items), vec!["a.txt", "b.rs"]);
    let by_ext = vec![ord(OrderBy::Ext, OrderAsc::Asc)];
    let mut items = vec![a.clone(), b.clone()];
    sort_items(&mut items, &by_ext);
    assert_eq!(names(&items), vec!["b.rs", "a.txt"]);
    // an absent size gives no preference: the raw name decides
    assert_eq!(cmp_items(&c, &b, &by_size), Ordering::Greater);
}

#[test]
fn key_helpers() {
    assert_eq!(cmp_item(1, 2, OrderAsc::Asc), Some(Ordering::Less));
    assert_eq!(cmp_item(1, 2, OrderAsc::Desc), Some(Ordering::Greater));
    assert_eq!(cmp_item(2, 2, OrderAsc::Asc), None);
    assert_eq!(cmp_str_item(&"ABC".to_string(), &"abc".to_string(), OrderAsc::Asc), None);
    assert_eq!(cmp_str_item(&"b".to_string(), &"A".to_string(), OrderAsc::Asc), Some(Ordering::Greater));
    assert_eq!(cmp_opt_str_item(&None, &Some("a".to_string()), OrderAsc::Asc), None);
    assert_eq!(cmp_opt_item(&Some(3), &None, OrderAsc::Asc), None);
    assert_eq!(cmp_opt_item(&Some(3), &Some(4), OrderAsc::Desc), Some(Ordering::Greater));
    assert_eq!(cmp_chars("abc", "abd"), Ordering::Less);
    assert_eq!(cmp_chars("ab", "abc"), Ordering::Less);
    assert_eq!(cmp_chars("é", "z"), Ordering::Greater);
}

#[test]
fn path_decomposition() {
    let root = split_path(&win_path("C:", &[]));
    assert_eq!((root.base_dir.as_str(), root.item_name.as_str()), ("C:", ""));
    assert_eq!(root.path, "C:\\");
    let one = split_path(&win_path("C:", &["abc"]));
    assert_eq!((one.base_dir.as_str(), one.item_name.as_str()), ("C:", "abc"));
    assert_eq!(one.path, "C:\\abc");
    let two = split_path(&win_path("C:", &["abc", "def"]));
    assert_eq!((two.base_dir.as_str(), two.item_name.as_str()), ("C:\\abc", "def"));
    assert_eq!(two.path, "C:\\abc\\def");
    let unix = split_path(&AbsPath {
        prefix: String::new(),
        has_root: true,
        parts: vec!["home".to_string(), "me".to_string(), "docs".to_string()],
        sep: "/".to_string(),
    });
    assert_eq!((unix.base_dir.as_str(), unix.item_name.as_str()), ("/home/me", "docs"));
}

#[test]
fn root_test() {
    assert!(win_path("C:", &[]).is_root());
    assert!(!win_path("C:", &["abc"]).is_root());
}

#[test]
fn extensions() {
    assert_eq!(get_extension("a.TXT"), Some("TXT"));
    assert_eq!(get_extension("archive.tar.gz"), Some("gz"));
    assert_eq!(get_extension("a."), None);
    assert_eq!(get_extension("noext"), None);
    assert_eq!(get_extension(".bashrc"), Some("bashrc"));
    assert_eq!(get_ext("Foo.TXT"), Some("txt".to_string()));
    assert_eq!(get_ext(".bashrc"), None);
    assert_eq!(get_ext("a."), Some(String::new()));
    assert_eq!(get_ext(".."), None);
    assert_eq!(get_ext("noext"), None);
}

#[test]
fn mime_types() {
    assert_eq!(get_mime_type("index.html"), Some("text/html".to_string()));
    assert_eq!(get_mime_type("blob.zzzunknown"), Some("application/octet-stream".to_string()));
}

#[test]
fn timestamps_and_sizes() {
    assert_eq!(combine_halves(1, 2), 4294967298);
    assert_eq!(combine_halves(u32::MAX, u32::MAX), u64::MAX);
    assert_eq!(filetime_to_unix_time(0, 0), 0);
    let ticks: u64 = 116444736000000000 + 10_000_000 * 42;
    assert_eq!(filetime_to_unix_time((ticks >> 32) as u32, ticks as u32), 42);
    assert_eq!(ModTime { secs: 7, nanos: 3 }.to_sec(), 7);
}

#[test]
fn projection_skips_pseudo_entries() {
    let meta = vec![MetaType::Ext, MetaType::Sz, MetaType::Tm, MetaType::Mt];
    assert!(project_entry(&raw(".", 16), &meta).is_none());
    assert!(project_entry(&raw("..", 16), &meta).is_none());
    assert!(project_entry(&raw("", 0), &meta).is_none());
    let mut e = raw("Notes.TXT", 0x20);
    e.size_high = 1;
    e.size_low = 5;
    let ticks: u64 = 116444736000000000 + 10_000_000 * 100;
    e.write_time_high = (ticks >> 32) as u32;
    e.write_time_low = ticks as u32;
    let it = project_entry(&e, &meta).unwrap();
    assert_eq!(it.nm, "Notes.TXT");
    assert!(!it.dir);
    assert_eq!(it.ext, Some("txt".to_string()));
    assert_eq!(it.mt, Some("text/plain".to_string()));
    assert_eq!(it.sz, Some(4294967301));
    assert_eq!(it.tm, Some(100));
    let bare = project_entry(&raw("sub", 16), &vec![]).unwrap();
    assert!(bare.dir);
    assert_eq!((bare.ext, bare.mt, bare.sz, bare.tm), (None, None, None, None));
    let all = project_entries(&vec![raw(".", 16), raw("..", 16), raw("x", 0)], &vec![]);
    assert_eq!(names(&all), vec!["x"]);
}

#[test]
fn update_fills_requested_fields() {
    let mut items = vec![item("Photo.JPG", false)];
    update_items(&mut items, &vec![MetaType::Ext, MetaType::Mt]);
    assert_eq!(items[0].ext, Some("jpg".to_string()));
    assert_eq!(items[0].mt, Some("image/jpeg".to_string()));
    let mut items = vec![item("a.", false), item(".bashrc", false), item("noext", false)];
    update_items(&mut items, &vec![MetaType::Ext]);
    assert_eq!(items[0].ext, None);
    assert_eq!(items[1].ext, Some("bashrc".to_string()));
    assert_eq!(items[2].ext, None);
    assert_eq!(items[0].mt, None);
    let mut items = vec![item("Photo.JPG", false)];
    update_items(&mut items, &vec![MetaType::Sz]);
    assert_eq!(items[0].ext, None);
    assert_eq!(items[0].mt, None);
}

#[test]
fn canonical_metadata_set() {
    let a = canonical_meta(&vec![MetaType::Ext, MetaType::Sz, MetaType::Ext]);
    let b = canonical_meta(&vec![MetaType::Sz, MetaType::Ext]);
    assert_eq!(a, b);
    assert_eq!(a, vec![MetaType::Sz, MetaType::Ext]);
}

#[test]
fn default_params() {
    let p = Params::default();
    assert_eq!(p.path_str, ".");
    assert_eq!(p.meta_types, vec![MetaType::Sz, MetaType::Tm]);
    assert_eq!(p.ordering, vec![ord(OrderBy::Dir, OrderAsc::Asc), ord(OrderBy::Nm, OrderAsc::Asc)]);
    assert_eq!(p.take_n, Some(5));
    assert!(p.is_pretty);
    assert!(p.skip_n.is_none() && p.cache_nm.is_none());
}

#[test]
fn error_messages() {
    assert_eq!(ApiError::Io("x".to_string()).message(), "IO error: x");
    assert_eq!(ApiError::Json("j".to_string()).message(), "JSON error: j");
    assert_eq!(ApiError::Folder("f".to_string()).message(), "Folder error: f");
    assert_eq!(ApiError::DirApi("d".to_string()).message(), "windows::core::Error: d");
}

fn scan_entries() -> Vec<RawEntry> {
    vec![raw(".", 16), raw("..", 16), raw("b.txt", 0), raw("Zeta", 16), raw("a.rs", 0)]
}

fn target() -> Target {
    Target { path: win_path("C:", &["docs"]), is_file: false, modified: Some(ModTime { secs: 1000, nanos: 5 }) }
}

#[test]
fn cached_listing_resorts_without_scanning() {
    let api = Api::new();
    let scan = CountingScan { calls: Cell::new(0), entries: scan_entries() };
    let mut params = Params::default();
    params.take_n = None;
    params.cache_nm = Some("main".to_string());
    let f = api.get_folder(&params, &target(), &scan).unwrap();
    assert_eq!(scan.calls.get(), 1);
    assert_eq!(names(f.items.as_ref().unwrap()), vec!["Zeta", "a.rs", "b.txt"]);

    params.ordering = vec![ord(OrderBy::Nm, OrderAsc::Desc)];
    let f = api.get_folder(&params, &target(), &scan).unwrap();
    assert_eq!(scan.calls.get(), 1);
    assert_eq!(names(f.items.as_ref().unwrap()), vec!["Zeta", "b.txt", "a.rs"]);

    let f = api.get_folder(&params, &target(), &scan).unwrap();
    assert_eq!(scan.calls.get(), 1);
    assert_eq!(names(f.items.as_ref().unwrap()), vec!["Zeta", "b.txt", "a.rs"]);

    let mut newer = target();
    newer.modified = Some(ModTime { secs: 2000, nanos: 0 });
    api.get_folder(&params, &newer, &scan).unwrap();
    assert_eq!(scan.calls.get(), 2);
}

#[test]
fn listing_without_cache_scans_each_time() {
    let api = Api::new();
    let scan = CountingScan { calls: Cell::new(0), entries: scan_entries() };
    let mut params = Params::default();
    params.skip_n = Some(1);
    params.take_n = Some(5);
    let f = api.get_folder(&params, &target(), &scan).unwrap();
    api.get_folder(&params, &target(), &scan).unwrap();
    assert_eq!(scan.calls.get(), 2);
    assert_eq!(f.tot, Some(3));
    assert_eq!(f.skip_n, Some(1));
    assert_eq!(f.take_n, Some(2));
    assert_eq!(f.cnt, Some(2));
    assert_eq!(names(f.items.as_ref().unwrap()), vec!["a.rs", "b.txt"]);
    assert_eq!(f.base_nm, "C:");
    assert_eq!(f.path_param, "C:\\docs");
    assert_eq!(f.item.nm, "docs");
    assert!(f.item.dir);
    assert_eq!(f.item.tm, Some(1000));
    assert_eq!(f.ordering, Some(params.ordering.clone()));
    let big = Params { skip_n: Some(50), ..params.clone() };
    let f = api.get_folder(&big, &target(), &scan).unwrap();
    assert_eq!((f.tot, f.skip_n, f.take_n, f.cnt), (Some(3), Some(3), Some(0), Some(0)));
}

#[test]
fn cached_listing_needs_a_time() {
    let api = Api::new();
    let scan = CountingScan { calls: Cell::new(0), entries: scan_entries() };
    let params = Params { cache_nm: Some("main".to_string()), ..Params::default() };
    let mut t = target();
    t.modified = None;
    match api.get_folder(&params, &t, &scan) {
        Err(ApiError::Folder(m)) => assert_eq!(m, "Err SystemTime"),
        other => panic!("unexpected {:?}", other),
    }
    assert_eq!(scan.calls.get(), 0);
}

#[test]
fn scan_errors_propagate() {
    let api = Api::new();
    match api.get_folder(&Params::default(), &target(), &FailingScan) {
        Err(ApiError::Io(m)) => assert_eq!(m, "access denied"),
        other => panic!("unexpected {:?}", other),
    }
}

#[test]
fn state_removal_then_default() {
    let api = Api::new();
    assert_eq!(api.set_state("a".to_string(), Some("1".to_string())).unwrap(), Some("1".to_string()));
    assert_eq!(api.get_state(&"a".to_string(), None).unwrap(), Some("1".to_string()));
    assert_eq!(api.set_state("a".to_string(), None).unwrap(), None);
    assert_eq!(api.get_state(&"a".to_string(), Some("d".to_string())).unwrap(), Some("d".to_string()));
    assert_eq!(api.get_state(&"a".to_string(), None).unwrap(), Some("d".to_string()));
    assert_eq!(api.get_state(&"missing".to_string(), None).unwrap(), None);
}

#[test]
fn state_settling() {
    assert_eq!(settle_state(None, Some("d".to_string())), (Some("d".to_string()), true));
    assert_eq!(settle_state(Some("v".to_string()), Some("d".to_string())), (Some("v".to_string()), false));
    assert_eq!(settle_state(None, None), (None, false));
}

#[test]
fn listing_of_a_scan() {
    let ordering = vec![ord(OrderBy::Dir, OrderAsc::Asc), ord(OrderBy::Nm, OrderAsc::Asc)];
    let meta = vec![MetaType::Ext];
    let all = sorted_listing(&scan_entries(), &meta, &ordering);
    assert_eq!(names(&all), vec!["Zeta", "a.rs", "b.txt"]);
    assert_eq!(all[1].ext, Some("rs".to_string()));
    let page = list_page(&scan_entries(), &meta, &ordering, Some(1), Some(1));
    assert_eq!((page.total, page.skip, page.take), (3, 1, 1));
    assert_eq!(names(&page.items), vec!["a.rs"]);
    let page = list_page(&scan_entries(), &meta, &ordering, Some(9), None);
    assert_eq!((page.total, page.skip, page.take), (3, 3, 0));
    assert!(page.items.is_empty());
}
