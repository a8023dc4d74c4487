//! Metadata projection of raw directory entries, path decomposition and
//! pagination of a sorted listing.

use vstd::prelude::*;
use crate::models::{Item, MetaType};
use crate::path_ext::AbsPath;
use crate::order::{lemma_sort_len, sort_items, sorted_seq};
use crate::models::OrdItem;
use crate::text::{extension_of, get_extension, lower_of, to_lower};

verus! {

/// The attribute bit that marks a directory.
pub const FILE_ATTRIBUTE_DIRECTORY: u32 = 16;

/// 100-nanosecond ticks between the platform epoch (1601) and the Unix epoch.
pub const EPOCH_DIFFERENCE_TICKS: u64 = 116444736000000000;

/// 100-nanosecond ticks in one second.
pub const TICKS_PER_SECOND: u64 = 10000000;

/// One entry as a bulk directory scan reports it: name, attribute bits, size
/// as two 32-bit halves, and last write time as two 32-bit halves of a tick count.
#[derive(Clone, Debug)]
pub struct RawEntry {
    pub name: String,
    pub attributes: u32,
    pub size_high: u32,
    pub size_low: u32,
    pub write_time_high: u32,
    pub write_time_low: u32,
}

/// A 64-bit value from its high and low 32-bit halves.
pub open spec fn combined(high: u32, low: u32) -> int {
    high * 4294967296 + low
}

/// Seconds since the Unix epoch of a tick count since the platform epoch;
/// times before the Unix epoch give zero.
pub open spec fn unix_secs(ticks: int) -> int {
    if ticks > EPOCH_DIFFERENCE_TICKS {
        (ticks - EPOCH_DIFFERENCE_TICKS) / (TICKS_PER_SECOND as int)
    } else {
        0
    }
}

/// Joins two 32-bit halves into one 64-bit value.
pub fn combine_halves(high: u32, low: u32) -> (r: u64)
    ensures
        r == combined(high, low),
{
    assert(high * 4294967296 + low <= u64::MAX) by (nonlinear_arith)
        requires
            high <= u32::MAX,
            low <= u32::MAX,
    ;
    (high as u64) * 4294967296 + (low as u64)
}

/// Converts a platform write time to whole seconds since the Unix epoch,
/// saturating at zero.
pub fn filetime_to_unix_time(high: u32, low: u32) -> (r: u64)
    ensures
        r == unix_secs(combined(high, low)),
{
    let ticks = combine_halves(high, low);
    let since = if ticks > EPOCH_DIFFERENCE_TICKS {
        ticks - EPOCH_DIFFERENCE_TICKS
    } else {
        0
    };
    since / TICKS_PER_SECOND
}

/// Whether the metadata kinds hold `m`.
pub fn has_meta(meta_types: &Vec<MetaType>, m: MetaType) -> (r: bool)
    ensures
        r == meta_types@.contains(m),
{
    let mut i: usize = 0;
    while i < meta_types.len()
        invariant
            i <= meta_types@.len(),
            forall|k: int| 0 <= k < i ==> meta_types@[k] != m,
        decreases meta_types@.len() - i,
    {
        if meta_types[i] == m {
            return true;
        }
        i = i + 1;
    }
    false
}

/// The MIME type that `mime_guess` gives a name.
pub uninterp spec fn mime_of(name: Seq<char>) -> Seq<char>;

/// Relies on `mime_guess::from_path(..).first_or_octet_stream()`: the MIME
/// type guessed from a name's extension, or `application/octet-stream`; the
/// result depends on the name alone.
#[verifier::external_body]
fn guess_mime(nm: &str) -> (r: String)
    ensures
        r@ == mime_of(nm@),
{
    mime_guess::from_path(nm).first_or_octet_stream().to_string()
}

/// The MIME type of a name.
pub fn get_mime_type(nm: &str) -> (r: Option<String>)
    ensures
        r.is_some() && r.unwrap()@ == mime_of(nm@),
{
    Some(guess_mime(nm))
}

/// Whether an optional string is the lowercase form of an optional sequence.
pub open spec fn lowered(o: Option<String>, e: Option<Seq<char>>) -> bool {
    match e {
        Some(x) => o.is_some() && o.unwrap()@ == lower_of(x),
        None => o.is_none(),
    }
}

fn copy_opt_string(o: &Option<String>) -> (r: Option<String>)
    ensures
        r == *o,
{
    match o {
        Some(s) => Some(s.clone()),
        None => None,
    }
}

impl Item {
    /// A copy of the entry, equal to it in every field.
    pub fn duplicate(&self) -> (r: Item)
        ensures
            r == *self,
    {
        Item {
            nm: self.nm.clone(),
            dir: self.dir,
            ext: copy_opt_string(&self.ext),
            mt: copy_opt_string(&self.mt),
            sz: self.sz,
            tm: self.tm,
        }
    }
}

/// The lowercase extension of a name: the text after its last `'.'`, where
/// that text is not empty.
fn lower_extension(nm: &str) -> (r: Option<String>)
    ensures
        lowered(r, extension_of(nm@)),
{
    match get_extension(nm) {
        Some(x) => Some(to_lower(x)),
        None => None,
    }
}

/// Fills in the extension and MIME type of each entry where they are asked
/// for, from the entry's name; every other field stays as it was.
pub fn update_items(items: &mut Vec<Item>, meta_types: &Vec<MetaType>)
    ensures
        final(items)@.len() == old(items)@.len(),
        forall|i: int|
            0 <= i < final(items)@.len() ==> {
                let a = old(items)@[i];
                let b = #[trigger] final(items)@[i];
                &&& b.nm == a.nm && b.dir == a.dir && b.sz == a.sz && b.tm == a.tm
                &&& if meta_types@.contains(MetaType::Ext) {
                    lowered(b.ext, extension_of(a.nm@))
                } else {
                    b.ext == a.ext
                }
                &&& if meta_types@.contains(MetaType::Mt) {
                    b.mt.is_some() && b.mt.unwrap()@ == mime_of(a.nm@)
                } else {
                    b.mt == a.mt
                }
            },
{
    let want_ext = has_meta(meta_types, MetaType::Ext);
    let want_mt = has_meta(meta_types, MetaType::Mt);
    let n = items.len();
    let mut i: usize = 0;
    while i < n
        invariant
            n == old(items)@.len(),
            items@.len() == n,
            i <= n,
            want_ext == meta_types@.contains(MetaType::Ext),
            want_mt == meta_types@.contains(MetaType::Mt),
            forall|k: int| i <= k < n ==> items@[k] == old(items)@[k],
            forall|k: int|
                0 <= k < i ==> {
                    let a = old(items)@[k];
                    let b = #[trigger] items@[k];
                    &&& b.nm == a.nm && b.dir == a.dir && b.sz == a.sz && b.tm == a.tm
                    &&& if want_ext {
                        lowered(b.ext, extension_of(a.nm@))
                    } else {
                        b.ext == a.ext
                    }
                    &&& if want_mt {
                        b.mt.is_some() && b.mt.unwrap()@ == mime_of(a.nm@)
                    } else {
                        b.mt == a.mt
                    }
                },
        decreases n - i,
    {
        let cur = items[i].duplicate();
        let ext = if want_ext {
            lower_extension(cur.nm.as_str())
        } else {
            copy_opt_string(&cur.ext)
        };
        let mt = if want_mt {
            get_mime_type(cur.nm.as_str())
        } else {
            copy_opt_string(&cur.mt)
        };
        items[i] = Item { nm: cur.nm, dir: cur.dir, ext, mt, sz: cur.sz, tm: cur.tm };
        i = i + 1;
    }
}

/// Whether a raw entry is a real child: not empty and not `.` or `..`.
pub open spec fn is_child_name(name: Seq<char>) -> bool {
    name.len() != 0 && name != seq!['.'] && name != seq!['.', '.']
}

/// Whether `it` is the projection of `e` under the metadata kinds: name and
/// directory flag always; lowercase extension (text after the last dot, where
/// not empty), MIME type, size and time in seconds only where asked for.
pub open spec fn projects(it: Item, e: RawEntry, meta: Seq<MetaType>) -> bool {
    &&& it.nm@ == e.name@
    &&& it.dir == (e.attributes & FILE_ATTRIBUTE_DIRECTORY != 0)
    &&& if meta.contains(MetaType::Ext) {
        lowered(it.ext, extension_of(e.name@))
    } else {
        it.ext.is_none()
    }
    &&& if meta.contains(MetaType::Mt) {
        it.mt.is_some() && it.mt.unwrap()@ == mime_of(e.name@)
    } else {
        it.mt.is_none()
    }
    &&& it.sz == if meta.contains(MetaType::Sz) {
        Some(combined(e.size_high, e.size_low) as u64)
    } else {
        None
    }
    &&& it.tm == if meta.contains(MetaType::Tm) {
        Some(unix_secs(combined(e.write_time_high, e.write_time_low)) as u64)
    } else {
        None
    }
}

/// Projects one raw entry; `None` for the `.` and `..` pseudo-entries and an
/// empty name.
pub fn project_entry(e: &RawEntry, meta_types: &Vec<MetaType>) -> (r: Option<Item>)
    ensures
        match r {
            Some(it) => is_child_name(e.name@) && projects(it, *e, meta_types@),
            None => !is_child_name(e.name@),
        },
{
    let n = e.name.as_str().unicode_len();
    if n == 0 {
        return None;
    }
    let c0 = e.name.as_str().get_char(0);
    if n == 1 && c0 == '.' {
        assert(e.name@ =~= seq!['.']);
        return None;
    }
    if n == 2 && c0 == '.' && e.name.as_str().get_char(1) == '.' {
        assert(e.name@ =~= seq!['.', '.']);
        return None;
    }
    assert(e.name@ != seq!['.'] && e.name@ != seq!['.', '.']) by {
        if e.name@ == seq!['.'] || e.name@ == seq!['.', '.'] {
            assert(e.name@[0] == '.');
        }
    }
    let ext = if has_meta(meta_types, MetaType::Ext) {
        lower_extension(e.name.as_str())
    } else {
        None
    };
    let mt = if has_meta(meta_types, MetaType::Mt) {
        get_mime_type(e.name.as_str())
    } else {
        None
    };
    let sz = if has_meta(meta_types, MetaType::Sz) {
        Some(combine_halves(e.size_high, e.size_low))
    } else {
        None
    };
    let tm = if has_meta(meta_types, MetaType::Tm) {
        Some(filetime_to_unix_time(e.write_time_high, e.write_time_low))
    } else {
        None
    };
    Some(
        Item {
            nm: e.name.clone(),
            dir: (e.attributes & FILE_ATTRIBUTE_DIRECTORY) != 0,
            ext,
            mt,
            sz,
            tm,
        },
    )
}

/// The real children among raw entries, in scan order.
pub open spec fn child_entries(s: Seq<RawEntry>) -> Seq<RawEntry>
    decreases s.len(),
{
    if s.len() == 0 {
        s
    } else if is_child_name(s.last().name@) {
        child_entries(s.drop_last()).push(s.last())
    } else {
        child_entries(s.drop_last())
    }
}

/// Whether `items` are the projections of `entries`, one for one.
pub open spec fn projects_all(items: Seq<Item>, entries: Seq<RawEntry>, meta: Seq<MetaType>) -> bool {
    items.len() == entries.len() && forall|i: int|
        0 <= i < items.len() ==> projects(#[trigger] items[i], entries[i], meta)
}

/// Projects a scan: the `.` and `..` pseudo-entries are skipped, the rest
/// keep their order.
pub fn project_entries(raw: &Vec<RawEntry>, meta_types: &Vec<MetaType>) -> (r: Vec<Item>)
    ensures
        projects_all(r@, child_entries(raw@), meta_types@),
{
    let mut out: Vec<Item> = Vec::new();
    let mut i: usize = 0;
    assert(raw@.subrange(0, 0) =~= Seq::<RawEntry>::empty());
    while i < raw.len()
        invariant
            i <= raw@.len(),
            projects_all(out@, child_entries(raw@.subrange(0, i as int)), meta_types@),
        decreases raw@.len() - i,
    {
        let ghost pre = raw@.subrange(0, i + 1);
        assert(pre.drop_last() =~= raw@.subrange(0, i as int));
        assert(pre.last() == raw@[i as int]);
        match project_entry(&raw[i], meta_types) {
            Some(it) => {
                out.push(it);
            },
            None => {},
        }
        i = i + 1;
    }
    assert(raw@.subrange(0, raw@.len() as int) =~= raw@);
    out
}

/// Segments joined by a separator.
pub open spec fn join_parts(parts: Seq<Seq<char>>, sep: Seq<char>) -> Seq<char>
    decreases parts.len(),
{
    if parts.len() == 0 {
        Seq::empty()
    } else if parts.len() == 1 {
        parts[0]
    } else {
        join_parts(parts.drop_last(), sep) + sep + parts.last()
    }
}

/// A path written out: prefix, root separator where there is one, segments.
pub open spec fn render(prefix: Seq<char>, has_root: bool, parts: Seq<Seq<char>>, sep: Seq<char>) -> Seq<
    char,
> {
    prefix + (if has_root {
        sep
    } else {
        Seq::empty()
    }) + join_parts(parts, sep)
}

/// The base directory of a path: its prefix where the path is a root or the
/// child of one, else its parent written out.
pub open spec fn base_dir_of(p: AbsPath) -> Seq<char> {
    if p.parts_view().len() <= 1 {
        p.prefix@
    } else {
        render(p.prefix@, p.has_root, p.parts_view().drop_last(), p.sep@)
    }
}

/// The item name of a path: its last segment, or empty at a root.
pub open spec fn item_name_of(p: AbsPath) -> Seq<char> {
    if p.parts_view().len() == 0 {
        Seq::empty()
    } else {
        p.parts_view().last()
    }
}

/// A path written out in full.
pub open spec fn path_string_of(p: AbsPath) -> Seq<char> {
    render(p.prefix@, p.has_root, p.parts_view(), p.sep@)
}

/// A path's base directory, item name, and full form.
#[derive(Clone, Debug)]
pub struct PathSplit {
    pub base_dir: String,
    pub item_name: String,
    pub path: String,
}

/// Writes out the prefix, root and the first `n` segments of a path.
fn render_prefix(p: &AbsPath, n: usize) -> (r: String)
    requires
        n <= p.parts@.len(),
    ensures
        r@ == render(p.prefix@, p.has_root, p.parts_view().subrange(0, n as int), p.sep@),
{
    let mut r = p.prefix.clone();
    if p.has_root {
        r.append(p.sep.as_str());
    }
    let ghost head = r@;
    let mut i: usize = 0;
    assert(p.parts_view().subrange(0, 0) =~= Seq::<Seq<char>>::empty());
    while i < n
        invariant
            n <= p.parts@.len(),
            i <= n,
            head == p.prefix@ + (if p.has_root {
                p.sep@
            } else {
                Seq::empty()
            }),
            r@ == head + join_parts(p.parts_view().subrange(0, i as int), p.sep@),
        decreases n - i,
    {
        let ghost sub = p.parts_view().subrange(0, i + 1);
        assert(sub.drop_last() =~= p.parts_view().subrange(0, i as int));
        assert(sub.last() == p.parts[i as int]@);
        if i > 0 {
            r.append(p.sep.as_str());
        } else {
            assert(p.parts_view().subrange(0, 0).len() == 0);
        }
        r.append(p.parts[i].as_str());
        proof {
            if i > 0 {
                assert(r@ =~= head + (join_parts(sub.drop_last(), p.sep@) + p.sep@ + sub.last()));
            } else {
                assert(r@ =~= head + sub[0]);
            }
        }
        i = i + 1;
    }
    r
}

/// Splits a path into its base directory and item name, and writes it out.
pub fn split_path(p: &AbsPath) -> (r: PathSplit)
    ensures
        r.base_dir@ == base_dir_of(*p),
        r.item_name@ == item_name_of(*p),
        r.path@ == path_string_of(*p),
{
    let n = p.parts.len();
    let path = render_prefix(p, n);
    assert(p.parts_view().subrange(0, n as int) =~= p.parts_view());
    let base_dir = if n <= 1 {
        p.prefix.clone()
    } else {
        let b = render_prefix(p, n - 1);
        assert(p.parts_view().subrange(0, n - 1) =~= p.parts_view().drop_last());
        b
    };
    let item_name = if n == 0 {
        String::new()
    } else {
        p.parts[n - 1].clone()
    };
    PathSplit { base_dir, item_name, path }
}

/// The pagination window of a listing of `total` entries: the skip clamped
/// to the total, and the take clamped to what remains (all of it where no
/// take is given).
pub open spec fn window(total: int, skip_n: Option<usize>, take_n: Option<usize>) -> (int, int) {
    let skip = match skip_n {
        Some(s) => if s < total {
            s as int
        } else {
            total
        },
        None => 0,
    };
    let take = match take_n {
        Some(t) => if t < total - skip {
            t as int
        } else {
            total - skip
        },
        None => total - skip,
    };
    (skip, take)
}

/// Computes the pagination window.
pub fn page_window(total: usize, skip_n: Option<usize>, take_n: Option<usize>) -> (r: (usize, usize))
    ensures
        r.0 as int == window(total as int, skip_n, take_n).0,
        r.1 as int == window(total as int, skip_n, take_n).1,
{
    let skip = match skip_n {
        Some(s) => if s < total {
            s
        } else {
            total
        },
        None => 0,
    };
    let take = match take_n {
        Some(t) => if t < total - skip {
            t
        } else {
            total - skip
        },
        None => total - skip,
    };
    (skip, take)
}

/// The entries of a sorted listing that fall in the pagination window.
pub fn paginate(items: Vec<Item>, skip_n: Option<usize>, take_n: Option<usize>) -> (r: (Vec<Item>, usize, usize))
    ensures
        r.1 as int == window(items@.len() as int, skip_n, take_n).0,
        r.2 as int == window(items@.len() as int, skip_n, take_n).1,
        r.0@ == items@.subrange(r.1 as int, r.1 + r.2),
{
    let (skip, take) = page_window(items.len(), skip_n, take_n);
    let mut items = items;
    let ghost all = items@;
    let mut rest = items.split_off(skip);
    rest.truncate(take);
    assert(rest@ =~= all.subrange(skip as int, skip + take));
    (rest, skip, take)
}

/// Whether `r` is the listing of a scan: its real children projected under
/// the metadata kinds, then sorted under the ordering.
pub open spec fn is_listing_of(r: Seq<Item>, raw: Seq<RawEntry>, meta: Seq<MetaType>, ord: Seq<OrdItem>) -> bool {
    exists|items: Seq<Item>| projects_all(items, child_entries(raw), meta) && r == sorted_seq(items, ord)
}

/// The listing of a scan: projects the real children, then sorts them.
pub fn sorted_listing(raw: &Vec<RawEntry>, meta_types: &Vec<MetaType>, ordering: &Vec<OrdItem>) -> (r: Vec<Item>)
    ensures
        is_listing_of(r@, raw@, meta_types@, ordering@),
        r@.len() == child_entries(raw@).len(),
{
    let mut items = project_entries(raw, meta_types);
    let ghost projected = items@;
    sort_items(&mut items, ordering);
    proof {
        lemma_sort_len(projected, ordering@);
    }
    assert(projects_all(projected, child_entries(raw@), meta_types@));
    items
}

/// One page of the listing of a scan, with the listing's total and the
/// window that was applied.
pub struct Page {
    pub items: Vec<Item>,
    pub total: usize,
    pub skip: usize,
    pub take: usize,
}

/// Lists a scan and cuts out the page: projects the real children, sorts
/// them, counts them, and applies the pagination window.
pub fn list_page(
    raw: &Vec<RawEntry>,
    meta_types: &Vec<MetaType>,
    ordering: &Vec<OrdItem>,
    skip_n: Option<usize>,
    take_n: Option<usize>,
) -> (r: Page)
    ensures
        r.total as int == child_entries(raw@).len(),
        r.skip as int == window(r.total as int, skip_n, take_n).0,
        r.take as int == window(r.total as int, skip_n, take_n).1,
        exists|all: Seq<Item>|
            is_listing_of(all, raw@, meta_types@, ordering@) && all.len() == r.total
                && r.items@ == all.subrange(r.skip as int, r.skip + r.take),
{
    let all = sorted_listing(raw, meta_types, ordering);
    let total = all.len();
    let ghost whole = all@;
    let (items, skip, take) = paginate(all, skip_n, take_n);
    assert(is_listing_of(whole, raw@, meta_types@, ordering@));
    Page { items, total, skip, take }
}

} // verus!
