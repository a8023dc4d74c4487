//! The multi-key comparator over entries and the stable sort built on it.

use vstd::prelude::*;
use std::cmp::Ordering;
use crate::models::{Item, OrdItem, OrderAsc, OrderBy};
use crate::text::{cmp_chars, lemma_lex_cmp_antisymmetric, lex_cmp, lower_of, reversed, to_lower};

verus! {

/// An ordering read in the given direction.
pub open spec fn directed(o: Ordering, asc: OrderAsc) -> Ordering {
    match asc {
        OrderAsc::Asc => o,
        OrderAsc::Desc => reversed(o),
    }
}

/// Numeric order of two integers.
pub open spec fn num_cmp(a: int, b: int) -> Ordering {
    if a < b {
        Ordering::Less
    } else if a > b {
        Ordering::Greater
    } else {
        Ordering::Equal
    }
}

/// A directory flag as a number: files before directories in ascending order.
pub open spec fn dir_rank(d: bool) -> int {
    if d {
        1
    } else {
        0
    }
}

/// A numeric key: decides only where the two values differ.
pub open spec fn num_key(a: int, b: int, asc: OrderAsc) -> Option<Ordering> {
    if a != b {
        Some(directed(num_cmp(a, b), asc))
    } else {
        None
    }
}

/// An optional numeric key: decides only where both values are present and differ.
pub open spec fn opt_num_key(a: Option<u64>, b: Option<u64>, asc: OrderAsc) -> Option<Ordering> {
    match (a, b) {
        (Some(x), Some(y)) => num_key(x as int, y as int, asc),
        _ => None,
    }
}

/// A text key, compared case-insensitively: decides only where the lowercase
/// forms differ.
pub open spec fn str_key(a: Seq<char>, b: Seq<char>, asc: OrderAsc) -> Option<Ordering> {
    if lower_of(a) != lower_of(b) {
        Some(directed(lex_cmp(lower_of(a), lower_of(b)), asc))
    } else {
        None
    }
}

/// An optional text key: decides only where both values are present and
/// their lowercase forms differ.
pub open spec fn opt_str_key(a: Option<String>, b: Option<String>, asc: OrderAsc) -> Option<Ordering> {
    match (a, b) {
        (Some(x), Some(y)) => str_key(x@, y@, asc),
        _ => None,
    }
}

/// What one key of an ordering says of two entries; `None` is no preference.
/// Extension and MIME type are read only where the left entry is a file.
pub open spec fn key_cmp(a: Item, b: Item, k: OrdItem) -> Option<Ordering> {
    match k.nm {
        OrderBy::Dir => num_key(dir_rank(b.dir), dir_rank(a.dir), k.asc),
        OrderBy::Nm => str_key(a.nm@, b.nm@, k.asc),
        OrderBy::Ext => if !a.dir {
            opt_str_key(a.ext, b.ext, k.asc)
        } else {
            None
        },
        OrderBy::Mt => if !a.dir {
            opt_str_key(a.mt, b.mt, k.asc)
        } else {
            None
        },
        OrderBy::Sz => opt_num_key(a.sz, b.sz, k.asc),
        OrderBy::Tm => opt_num_key(a.tm, b.tm, k.asc),
    }
}

/// The first key of `ord`, from the left, that has a preference.
pub open spec fn keys_cmp(a: Item, b: Item, ord: Seq<OrdItem>) -> Option<Ordering>
    decreases ord.len(),
{
    if ord.len() == 0 {
        None
    } else {
        match key_cmp(a, b, ord[0]) {
            Some(o) => Some(o),
            None => keys_cmp(a, b, ord.drop_first()),
        }
    }
}

/// Whether the ordering holds a name key.
pub open spec fn has_name_key(ord: Seq<OrdItem>) -> bool {
    exists|i: int| 0 <= i < ord.len() && ord[i].nm == OrderBy::Nm
}

/// The comparator: the first key with a preference decides; where none has
/// one and no name key was asked for, the raw names decide; else the two
/// entries compare equal.
#[verifier::opaque]
pub open spec fn item_cmp(a: Item, b: Item, ord: Seq<OrdItem>) -> Ordering {
    match keys_cmp(a, b, ord) {
        Some(o) => o,
        None => if !has_name_key(ord) {
            lex_cmp(a.nm@, b.nm@)
        } else {
            Ordering::Equal
        },
    }
}

/// Compares two numbers in the given direction; `None` where they are equal.
pub fn cmp_item(a: u64, b: u64, asc: OrderAsc) -> (r: Option<Ordering>)
    ensures
        r == num_key(a as int, b as int, asc),
{
    if a != b {
        let o = if a < b {
            Ordering::Less
        } else {
            Ordering::Greater
        };
        match asc {
            OrderAsc::Asc => Some(o),
            OrderAsc::Desc => Some(
                if a < b {
                    Ordering::Greater
                } else {
                    Ordering::Less
                },
            ),
        }
    } else {
        None
    }
}

/// Compares two strings case-insensitively in the given direction; `None`
/// where their lowercase forms are equal.
pub fn cmp_str_item(a: &String, b: &String, asc: OrderAsc) -> (r: Option<Ordering>)
    ensures
        r == str_key(a@, b@, asc),
{
    let la = to_lower(a.as_str());
    let lb = to_lower(b.as_str());
    let o = cmp_chars(la.as_str(), lb.as_str());
    proof {
        lemma_lex_cmp_antisymmetric(la@, lb@);
    }
    match o {
        Ordering::Equal => None,
        Ordering::Less => match asc {
            OrderAsc::Asc => Some(Ordering::Less),
            OrderAsc::Desc => Some(Ordering::Greater),
        },
        Ordering::Greater => match asc {
            OrderAsc::Asc => Some(Ordering::Greater),
            OrderAsc::Desc => Some(Ordering::Less),
        },
    }
}

/// Compares two optional strings; `None` where either is absent.
pub fn cmp_opt_str_item(a: &Option<String>, b: &Option<String>, asc: OrderAsc) -> (r: Option<
    Ordering,
>)
    ensures
        r == opt_str_key(*a, *b, asc),
{
    match (a, b) {
        (Some(x), Some(y)) => cmp_str_item(x, y, asc),
        _ => None,
    }
}

/// Compares two optional numbers; `None` where either is absent or they are equal.
pub fn cmp_opt_item(a: &Option<u64>, b: &Option<u64>, asc: OrderAsc) -> (r: Option<Ordering>)
    ensures
        r == opt_num_key(*a, *b, asc),
{
    match (a, b) {
        (Some(x), Some(y)) => cmp_item(*x, *y, asc),
        _ => None,
    }
}

/// What one key says of two entries.
fn cmp_key(a: &Item, b: &Item, k: OrdItem) -> (r: Option<Ordering>)
    ensures
        r == key_cmp(*a, *b, k),
{
    match k.nm {
        OrderBy::Dir => cmp_item(if b.dir { 1 } else { 0 }, if a.dir { 1 } else { 0 }, k.asc),
        OrderBy::Nm => cmp_str_item(&a.nm, &b.nm, k.asc),
        OrderBy::Ext => if !a.dir {
            cmp_opt_str_item(&a.ext, &b.ext, k.asc)
        } else {
            None
        },
        OrderBy::Mt => if !a.dir {
            cmp_opt_str_item(&a.mt, &b.mt, k.asc)
        } else {
            None
        },
        OrderBy::Sz => cmp_opt_item(&a.sz, &b.sz, k.asc),
        OrderBy::Tm => cmp_opt_item(&a.tm, &b.tm, k.asc),
    }
}

/// Compares two entries under an ordering.
pub fn cmp_items(a: &Item, b: &Item, ordering: &Vec<OrdItem>) -> (r: Ordering)
    ensures
        r == item_cmp(*a, *b, ordering@),
{
    let n = ordering.len();
    let mut i: usize = 0;
    let mut has_name = false;
    assert(ordering@.subrange(0, n as int) =~= ordering@);
    while i < n
        invariant
            n == ordering@.len(),
            i <= n,
            keys_cmp(*a, *b, ordering@) == keys_cmp(*a, *b, ordering@.subrange(i as int, n as int)),
            has_name <==> exists|j: int| 0 <= j < i && ordering@[j].nm == OrderBy::Nm,
        decreases n - i,
    {
        let k = ordering[i];
        let ghost rest = ordering@.subrange(i as int, n as int);
        assert(rest[0] == k);
        assert(rest.drop_first() =~= ordering@.subrange(i + 1, n as int));
        if let Some(o) = cmp_key(a, b, k) {
            proof {
                reveal(item_cmp);
            }
            return o;
        }
        if k.nm == OrderBy::Nm {
            has_name = true;
        }
        i = i + 1;
    }
    assert(ordering@.subrange(n as int, n as int).len() == 0);
    reveal(item_cmp);
    if !has_name {
        cmp_chars(a.nm.as_str(), b.nm.as_str())
    } else {
        Ordering::Equal
    }
}

/// `s` with `x` inserted after the last element that `x` does not precede:
/// one step of a stable insertion sort.
pub open spec fn insert_sorted(s: Seq<Item>, x: Item, ord: Seq<OrdItem>) -> Seq<Item>
    decreases s.len(),
{
    if s.len() == 0 {
        seq![x]
    } else if item_cmp(x, s.last(), ord) == Ordering::Less {
        insert_sorted(s.drop_last(), x, ord).push(s.last())
    } else {
        s.push(x)
    }
}

/// The stable sort of `s` under `ord`: each element in turn is inserted after
/// every earlier element that it does not precede.
pub open spec fn sorted_seq(s: Seq<Item>, ord: Seq<OrdItem>) -> Seq<Item>
    decreases s.len(),
{
    if s.len() == 0 {
        s
    } else {
        insert_sorted(sorted_seq(s.drop_last(), ord), s.last(), ord)
    }
}

/// Whether the element at `i` does not precede the one before it under `ord`.
pub open spec fn in_order_at(s: Seq<Item>, i: int, ord: Seq<OrdItem>) -> bool {
    item_cmp(s[i], s[i - 1], ord) != Ordering::Less
}

/// Whether no element of `s` precedes the one before it under `ord`.
pub open spec fn is_sorted(s: Seq<Item>, ord: Seq<OrdItem>) -> bool {
    forall|i: int| 0 < i < s.len() ==> #[trigger] in_order_at(s, i, ord)
}

/// Where `x` precedes every element of `p` from `j` on and not the one before
/// `j`, inserting it in order puts it at `j`.
proof fn lemma_insert_at(p: Seq<Item>, x: Item, ord: Seq<OrdItem>, j: int)
    requires
        0 <= j <= p.len(),
        forall|k: int| j <= k < p.len() ==> item_cmp(x, #[trigger] p[k], ord) == Ordering::Less,
        j > 0 ==> item_cmp(x, p[j - 1], ord) != Ordering::Less,
    ensures
        insert_sorted(p, x, ord) == p.insert(j, x),
    decreases p.len(),
{
    if p.len() == 0 {
        assert(p.insert(j, x) =~= seq![x]);
    } else if j == p.len() {
        assert(p.insert(j, x) =~= p.push(x));
    } else {
        assert(item_cmp(x, p[p.len() - 1], ord) == Ordering::Less);
        let q = p.drop_last();
        assert forall|k: int| j <= k < q.len() implies item_cmp(x, #[trigger] q[k], ord)
            == Ordering::Less by {
            assert(q[k] == p[k]);
        }
        if j > 0 {
            assert(q[j - 1] == p[j - 1]);
        }
        lemma_insert_at(q, x, ord, j);
        assert(q.insert(j, x).push(p.last()) =~= p.insert(j, x));
    }
}

/// Sorts the entries in place under the ordering, stably. The result holds
/// the same entries, and is sorted wherever the comparator is mirrored on them.
pub fn sort_items(items: &mut Vec<Item>, ordering: &Vec<OrdItem>)
    ensures
        final(items)@ == sorted_seq(old(items)@, ordering@),
        final(items)@.to_multiset() == old(items)@.to_multiset(),
        mirrored_on(old(items)@, ordering@) ==> is_sorted(final(items)@, ordering@),
{
    let ghost orig = old(items)@;
    let n = items.len();
    let mut i: usize = 0;
    assert(orig.subrange(0, 0) =~= Seq::<Item>::empty());
    assert(items@.subrange(0, 0) =~= Seq::<Item>::empty());
    while i < n
        invariant
            n == orig.len(),
            items@.len() == n,
            i <= n,
            items@.subrange(0, i as int) == sorted_seq(orig.subrange(0, i as int), ordering@),
            items@.subrange(i as int, n as int) == orig.subrange(i as int, n as int),
        decreases n - i,
    {
        let ghost before = items@;
        let x = items.remove(i);
        assert(x == orig[i as int]) by {
            assert(before.subrange(i as int, n as int)[0] == before[i as int]);
        }
        let ghost p = before.subrange(0, i as int);
        assert(items@.subrange(0, i as int) =~= p);
        let mut j: usize = i;
        while j > 0 && matches!(cmp_items(&x, &items[j - 1], ordering), Ordering::Less)
            invariant
                j <= i,
                i < n,
                items@.len() == n - 1,
                items@.subrange(0, i as int) == p,
                forall|k: int| j <= k < i ==> item_cmp(x, #[trigger] p[k], ordering@)
                    == Ordering::Less,
            decreases j,
        {
            assert(p[j - 1] == items@[j - 1]);
            j = j - 1;
        }
        proof {
            if j > 0 {
                assert(p[j - 1] == items@[j - 1]);
            }
            lemma_insert_at(p, x, ordering@, j as int);
        }
        let ghost mid = items@;
        items.insert(j, x);
        proof {
            let s1 = orig.subrange(0, i + 1);
            assert(s1.drop_last() =~= orig.subrange(0, i as int));
            assert(s1.last() == x);
            assert(items@.subrange(0, i + 1) =~= p.insert(j as int, x));
            assert(items@.subrange(i + 1, n as int) =~= mid.subrange(i as int, n - 1));
            assert(mid.subrange(i as int, n - 1) =~= before.subrange(i + 1, n as int));
            assert(before.subrange(i + 1, n as int) =~= before.subrange(i as int, n as int).drop_first());
        }
        i = i + 1;
    }
    assert(items@.subrange(0, n as int) =~= items@);
    assert(orig.subrange(0, n as int) =~= orig);
    proof {
        lemma_sort_keeps_entries(orig, ordering@);
        if mirrored_on(orig, ordering@) {
            lemma_sort_is_sorted(orig, ordering@);
        }
    }
}

/// Inserting in order adds exactly the inserted element.
proof fn lemma_insert_sorted_multiset(s: Seq<Item>, x: Item, ord: Seq<OrdItem>)
    ensures
        insert_sorted(s, x, ord).to_multiset() == s.to_multiset().insert(x),
    decreases s.len(),
{
    broadcast use vstd::seq_lib::to_multiset_build;

    if s.len() == 0 {
        assert(seq![x] =~= s.push(x));
    } else if item_cmp(x, s.last(), ord) == Ordering::Less {
        let q = s.drop_last();
        lemma_insert_sorted_multiset(q, x, ord);
        assert(q.push(s.last()) =~= s);
        assert(q.to_multiset().insert(s.last()).insert(x) =~= q.to_multiset().insert(x).insert(
            s.last(),
        ));
    }
}

/// Sorting only reorders: the sorted sequence holds each entry as often as
/// the input does.
pub proof fn lemma_sort_keeps_entries(s: Seq<Item>, ord: Seq<OrdItem>)
    ensures
        sorted_seq(s, ord).to_multiset() == s.to_multiset(),
    decreases s.len(),
{
    broadcast use vstd::seq_lib::to_multiset_build;

    if s.len() > 0 {
        let q = s.drop_last();
        lemma_sort_keeps_entries(q, ord);
        lemma_insert_sorted_multiset(sorted_seq(q, ord), s.last(), ord);
        assert(q.push(s.last()) =~= s);
    }
}

/// Sorting a sequence that is already sorted under an ordering, under that
/// ordering again, leaves it unchanged.
pub proof fn lemma_sort_of_sorted(s: Seq<Item>, ord: Seq<OrdItem>)
    requires
        is_sorted(s, ord),
    ensures
        sorted_seq(s, ord) == s,
    decreases s.len(),
{
    if s.len() > 0 {
        let q = s.drop_last();
        let x = s.last();
        lemma_sorted_prefix(s, ord);
        lemma_sort_of_sorted(q, ord);
        assert(sorted_seq(s, ord) == insert_sorted(q, x, ord));
        if q.len() > 0 {
            assert(in_order_at(s, s.len() - 1, ord));
            assert(insert_sorted(q, x, ord) == q.push(x));
        }
        assert(q.push(x) =~= s);
    }
}

proof fn lemma_sorted_prefix(s: Seq<Item>, ord: Seq<OrdItem>)
    requires
        is_sorted(s, ord),
        s.len() > 0,
    ensures
        is_sorted(s.drop_last(), ord),
{
    let q = s.drop_last();
    assert forall|i: int| 0 < i < q.len() implies #[trigger] in_order_at(q, i, ord) by {
        assert(in_order_at(s, i, ord));
        assert(q[i] == s[i] && q[i - 1] == s[i - 1]);
    }
}

/// Whether evaluating `ord` on two entries reaches an extension or MIME key
/// while one of them is a directory and the other is not: those keys are read
/// only where the left entry is a file, so there the comparator is one-sided.
#[verifier::opaque]
pub open spec fn reaches_one_sided_key(a: Item, b: Item, ord: Seq<OrdItem>) -> bool
    decreases ord.len(),
{
    if ord.len() == 0 {
        false
    } else if (ord[0].nm == OrderBy::Ext || ord[0].nm == OrderBy::Mt) && a.dir != b.dir {
        true
    } else if key_cmp(a, b, ord[0]).is_some() {
        false
    } else {
        reaches_one_sided_key(a, b, ord.drop_first())
    }
}

/// The reverse of an optional ordering.
pub open spec fn reversed_opt(o: Option<Ordering>) -> Option<Ordering> {
    match o {
        Some(x) => Some(reversed(x)),
        None => None,
    }
}

proof fn lemma_key_cmp_mirrored(a: Item, b: Item, k: OrdItem)
    requires
        !((k.nm == OrderBy::Ext || k.nm == OrderBy::Mt) && a.dir != b.dir),
    ensures
        key_cmp(b, a, k) == reversed_opt(key_cmp(a, b, k)),
{
    match k.nm {
        OrderBy::Nm => {
            lemma_lex_cmp_antisymmetric(lower_of(a.nm@), lower_of(b.nm@));
        },
        OrderBy::Ext => {
            if let (Some(x), Some(y)) = (a.ext, b.ext) {
                lemma_lex_cmp_antisymmetric(lower_of(x@), lower_of(y@));
            }
        },
        OrderBy::Mt => {
            if let (Some(x), Some(y)) = (a.mt, b.mt) {
                lemma_lex_cmp_antisymmetric(lower_of(x@), lower_of(y@));
            }
        },
        _ => {},
    }
}

proof fn lemma_keys_cmp_mirrored(a: Item, b: Item, ord: Seq<OrdItem>)
    requires
        !reaches_one_sided_key(a, b, ord),
    ensures
        keys_cmp(b, a, ord) == reversed_opt(keys_cmp(a, b, ord)),
    decreases ord.len(),
{
    reveal(reaches_one_sided_key);
    if ord.len() > 0 {
        lemma_key_cmp_mirrored(a, b, ord[0]);
        if key_cmp(a, b, ord[0]).is_none() {
            lemma_keys_cmp_mirrored(a, b, ord.drop_first());
        }
    }
}

/// Comparing `b` with `a` gives the reverse of comparing `a` with `b`, the
/// final raw-name tie-break included, unless the evaluation reaches an
/// extension or MIME key while exactly one of the two is a directory.
pub proof fn lemma_cmp_antisymmetric(a: Item, b: Item, ord: Seq<OrdItem>)
    requires
        !reaches_one_sided_key(a, b, ord),
    ensures
        item_cmp(b, a, ord) == reversed(item_cmp(a, b, ord)),
{
    reveal(item_cmp);
    lemma_keys_cmp_mirrored(a, b, ord);
    lemma_lex_cmp_antisymmetric(a.nm@, b.nm@);
}

/// Whether the comparator is mirrored on every pair of entries of `s`.
pub open spec fn mirrored_on(s: Seq<Item>, ord: Seq<OrdItem>) -> bool {
    forall|i: int, j: int|
        0 <= i < s.len() && 0 <= j < s.len() ==> !reaches_one_sided_key(#[trigger] s[i], #[trigger] s[j], ord)
}

proof fn lemma_insert_sorted_last(p: Seq<Item>, x: Item, ord: Seq<OrdItem>)
    ensures
        insert_sorted(p, x, ord).len() == p.len() + 1,
        insert_sorted(p, x, ord).last() == x || (p.len() > 0 && insert_sorted(p, x, ord).last()
            == p.last()),
    decreases p.len(),
{
    if p.len() > 0 && item_cmp(x, p.last(), ord) == Ordering::Less {
        lemma_insert_sorted_last(p.drop_last(), x, ord);
    }
}

proof fn lemma_insert_keeps_sorted_step(p: Seq<Item>, x: Item, ord: Seq<OrdItem>)
    requires
        p.len() > 0,
        is_sorted(p, ord),
        forall|k: int| 0 <= k < p.len() ==> !reaches_one_sided_key(x, #[trigger] p[k], ord),
        item_cmp(x, p.last(), ord) == Ordering::Less,
        is_sorted(p.drop_last(), ord) ==> is_sorted(insert_sorted(p.drop_last(), x, ord), ord),
    ensures
        is_sorted(insert_sorted(p, x, ord), ord),
{
    let q = p.drop_last();
    let y = p.last();
    lemma_sorted_prefix(p, ord);
    assert forall|k: int| 0 <= k < q.len() implies !reaches_one_sided_key(
        x,
        #[trigger] q[k],
        ord,
    ) by {
        assert(q[k] == p[k]);
    }
    lemma_insert_sorted_last(q, x, ord);
    let r = insert_sorted(q, x, ord);
    assert(!reaches_one_sided_key(x, p[p.len() - 1], ord));
    lemma_cmp_antisymmetric(x, y, ord);
    if r.last() != x {
        assert(in_order_at(p, p.len() - 1, ord));
    }
    let t = r.push(y);
    assert forall|i: int| 0 < i < t.len() implies #[trigger] in_order_at(t, i, ord) by {
        if i < r.len() {
            assert(in_order_at(r, i, ord));
            assert(t[i] == r[i] && t[i - 1] == r[i - 1]);
        }
    }
}

/// Inserting in order into a sorted sequence keeps it sorted, where the
/// comparator is mirrored between the new entry and each old one.
proof fn lemma_insert_keeps_sorted(p: Seq<Item>, x: Item, ord: Seq<OrdItem>)
    requires
        is_sorted(p, ord),
        forall|k: int| 0 <= k < p.len() ==> !reaches_one_sided_key(x, #[trigger] p[k], ord),
    ensures
        is_sorted(insert_sorted(p, x, ord), ord),
    decreases p.len(),
{
    if p.len() > 0 {
        let q = p.drop_last();
        let y = p.last();
        if item_cmp(x, y, ord) == Ordering::Less {
            lemma_sorted_prefix(p, ord);
            assert forall|k: int| 0 <= k < q.len() implies !reaches_one_sided_key(
                x,
                #[trigger] q[k],
                ord,
            ) by {
                assert(q[k] == p[k]);
            }
            lemma_insert_keeps_sorted(q, x, ord);
            lemma_insert_keeps_sorted_step(p, x, ord);
        } else {
            lemma_push_keeps_sorted(p, x, ord);
        }
    }
}

proof fn lemma_push_keeps_sorted(p: Seq<Item>, x: Item, ord: Seq<OrdItem>)
    requires
        p.len() > 0,
        is_sorted(p, ord),
        item_cmp(x, p.last(), ord) != Ordering::Less,
    ensures
        is_sorted(insert_sorted(p, x, ord), ord),
{
    assert(insert_sorted(p, x, ord) == p.push(x));
    let t = p.push(x);
    assert forall|i: int| 0 < i < t.len() implies #[trigger] in_order_at(t, i, ord) by {
        if i < p.len() {
            assert(in_order_at(p, i, ord));
            assert(t[i] == p[i] && t[i - 1] == p[i - 1]);
        }
    }
}

/// The sort's output is sorted wherever the comparator is mirrored on the
/// input's entries.
pub proof fn lemma_sort_is_sorted(s: Seq<Item>, ord: Seq<OrdItem>)
    requires
        mirrored_on(s, ord),
    ensures
        is_sorted(sorted_seq(s, ord), ord),
    decreases s.len(),
{
    if s.len() > 0 {
        let q = s.drop_last();
        let x = s.last();
        assert forall|i: int, j: int| 0 <= i < q.len() && 0 <= j < q.len() implies
            !reaches_one_sided_key(#[trigger] q[i], #[trigger] q[j], ord) by {
            assert(q[i] == s[i] && q[j] == s[j]);
        }
        lemma_sort_is_sorted(q, ord);
        let p = sorted_seq(q, ord);
        lemma_sort_keeps_entries(q, ord);
        assert forall|k: int| 0 <= k < p.len() implies !reaches_one_sided_key(x, #[trigger] p[k], ord) by {
            broadcast use vstd::seq_lib::to_multiset_contains;

            assert(p.to_multiset().count(p[k]) > 0);
            assert(q.contains(p[k]));
            let j = choose|j: int| 0 <= j < q.len() && q[j] == p[k];
            assert(s[j] == p[k]);
            assert(!reaches_one_sided_key(s[s.len() - 1], s[j], ord));
        }
        lemma_insert_keeps_sorted(p, x, ord);
    }
}

/// Sorting twice under one ordering gives what sorting once gives, wherever
/// the comparator is mirrored on the entries.
pub proof fn lemma_sort_idempotent(s: Seq<Item>, ord: Seq<OrdItem>)
    requires
        mirrored_on(s, ord),
    ensures
        sorted_seq(sorted_seq(s, ord), ord) == sorted_seq(s, ord),
{
    lemma_sort_is_sorted(s, ord);
    lemma_sort_of_sorted(sorted_seq(s, ord), ord);
}

/// Sorting keeps the length.
pub proof fn lemma_sort_len(s: Seq<Item>, ord: Seq<OrdItem>)
    ensures
        sorted_seq(s, ord).len() == s.len(),
    decreases s.len(),
{
    if s.len() > 0 {
        lemma_sort_len(s.drop_last(), ord);
        lemma_insert_sorted_last(sorted_seq(s.drop_last(), ord), s.last(), ord);
    }
}

} // verus!
