//! Operations on names: extensions, case folding and character-wise order.

use vstd::prelude::*;
use std::cmp::Ordering;

verus! {

/// What `str::to_lowercase` makes of a string.
pub uninterp spec fn lower_of(s: Seq<char>) -> Seq<char>;

/// Relies on `str::to_lowercase`: the lowercase form of a string, which
/// depends on its characters alone; an empty string stays empty.
#[verifier::external_body]
pub(crate) fn to_lower(s: &str) -> (r: String)
    ensures
        r@ == lower_of(s@),
        s@.len() == 0 ==> r@.len() == 0,
{
    s.to_lowercase()
}

/// Lexicographic order of two character sequences, by code point.
pub open spec fn lex_cmp(a: Seq<char>, b: Seq<char>) -> Ordering
    decreases a.len(),
{
    if a.len() == 0 && b.len() == 0 {
        Ordering::Equal
    } else if a.len() == 0 {
        Ordering::Less
    } else if b.len() == 0 {
        Ordering::Greater
    } else if a[0] < b[0] {
        Ordering::Less
    } else if a[0] > b[0] {
        Ordering::Greater
    } else {
        lex_cmp(a.drop_first(), b.drop_first())
    }
}

/// The reverse of an ordering.
pub open spec fn reversed(o: Ordering) -> Ordering {
    match o {
        Ordering::Less => Ordering::Greater,
        Ordering::Equal => Ordering::Equal,
        Ordering::Greater => Ordering::Less,
    }
}

/// `lex_cmp` from position `i` onward.
proof fn lemma_lex_cmp_from(a: Seq<char>, b: Seq<char>, i: int)
    requires
        0 <= i <= a.len(),
        i <= b.len(),
        a.subrange(0, i) == b.subrange(0, i),
    ensures
        lex_cmp(a, b) == lex_cmp(a.subrange(i, a.len() as int), b.subrange(i, b.len() as int)),
    decreases i,
{
    if i > 0 {
        assert(a[0] == a.subrange(0, i)[0]);
        assert(b[0] == b.subrange(0, i)[0]);
        assert(a.drop_first().subrange(0, i - 1) =~= a.subrange(0, i).drop_first());
        assert(b.drop_first().subrange(0, i - 1) =~= b.subrange(0, i).drop_first());
        lemma_lex_cmp_from(a.drop_first(), b.drop_first(), i - 1);
        assert(a.drop_first().subrange(i - 1, a.len() - 1) =~= a.subrange(i, a.len() as int));
        assert(b.drop_first().subrange(i - 1, b.len() - 1) =~= b.subrange(i, b.len() as int));
    } else {
        assert(a.subrange(0, a.len() as int) =~= a);
        assert(b.subrange(0, b.len() as int) =~= b);
    }
}

/// `lex_cmp` with its arguments swapped gives the reverse ordering.
pub proof fn lemma_lex_cmp_antisymmetric(a: Seq<char>, b: Seq<char>)
    ensures
        lex_cmp(b, a) == reversed(lex_cmp(a, b)),
        lex_cmp(a, b) == Ordering::Equal <==> a == b,
    decreases a.len(),
{
    if a.len() > 0 && b.len() > 0 && a[0] == b[0] {
        lemma_lex_cmp_antisymmetric(a.drop_first(), b.drop_first());
        if a.drop_first() == b.drop_first() {
            assert(a =~= seq![a[0]] + a.drop_first());
            assert(b =~= seq![b[0]] + b.drop_first());
        }
    } else if a.len() == 0 && b.len() == 0 {
        assert(a =~= b);
    }
}

/// Compares two strings character by character.
pub fn cmp_chars(a: &str, b: &str) -> (r: Ordering)
    ensures
        r == lex_cmp(a@, b@),
{
    let la = a.unicode_len();
    let lb = b.unicode_len();
    let mut i: usize = 0;
    while i < la && i < lb
        invariant
            la == a@.len(),
            lb == b@.len(),
            i <= la,
            i <= lb,
            a@.subrange(0, i as int) == b@.subrange(0, i as int),
        decreases la - i,
    {
        let ca = a.get_char(i);
        let cb = b.get_char(i);
        if ca < cb || ca > cb {
            proof {
                lemma_lex_cmp_from(a@, b@, i as int);
                let ra = a@.subrange(i as int, a@.len() as int);
                assert(ra[0] == ca);
                let rb = b@.subrange(i as int, b@.len() as int);
                assert(rb[0] == cb);
            }
            if ca < cb {
                return Ordering::Less;
            } else {
                return Ordering::Greater;
            }
        }
        assert(a@.subrange(0, i + 1) =~= a@.subrange(0, i as int).push(ca));
        assert(b@.subrange(0, i + 1) =~= b@.subrange(0, i as int).push(cb));
        assert(ca == cb);
        i = i + 1;
    }
    proof {
        lemma_lex_cmp_from(a@, b@, i as int);
    }
    if la == lb {
        Ordering::Equal
    } else if i == la {
        Ordering::Less
    } else {
        Ordering::Greater
    }
}

/// The index of the last `'.'` in `s`, or -1 where there is none.
pub open spec fn last_dot(s: Seq<char>) -> int
    decreases s.len(),
{
    if s.len() == 0 {
        -1
    } else if s.last() == '.' {
        s.len() - 1
    } else {
        last_dot(s.drop_last())
    }
}

proof fn lemma_last_dot_bounds(s: Seq<char>)
    ensures
        -1 <= last_dot(s) < s.len(),
        last_dot(s) >= 0 ==> s[last_dot(s)] == '.',
        forall|k: int| last_dot(s) < k < s.len() ==> s[k] != '.',
    decreases s.len(),
{
    if s.len() > 0 && s.last() != '.' {
        lemma_last_dot_bounds(s.drop_last());
        assert forall|k: int| last_dot(s) < k < s.len() implies s[k] != '.' by {
            if k < s.len() - 1 {
                assert(s.drop_last()[k] == s[k]);
            }
        }
    }
}

/// Finds the last `'.'` in `s`.
fn find_last_dot(s: &str) -> (r: Option<usize>)
    ensures
        match r {
            Some(k) => last_dot(s@) == k as int,
            None => last_dot(s@) == -1,
        },
{
    let n = s.unicode_len();
    let mut i: usize = n;
    assert(s@.subrange(0, n as int) =~= s@);
    while i > 0
        invariant
            n == s@.len(),
            i <= n,
            last_dot(s@) == last_dot(s@.subrange(0, i as int)),
        decreases i,
    {
        let c = s.get_char(i - 1);
        let ghost pre = s@.subrange(0, i as int);
        assert(pre.last() == c);
        if c == '.' {
            return Some(i - 1);
        }
        assert(pre.drop_last() =~= s@.subrange(0, i - 1));
        i = i - 1;
    }
    None
}

/// The text after the last `'.'` of a name, where there is a dot and
/// something follows it.
pub open spec fn extension_of(s: Seq<char>) -> Option<Seq<char>> {
    let k = last_dot(s);
    if k >= 0 && k + 1 < s.len() {
        Some(s.subrange(k + 1, s.len() as int))
    } else {
        None
    }
}

/// The extension of a file name: the text after its last `'.'`, where that
/// text is not empty.
pub fn get_extension(filename: &str) -> (r: Option<&str>)
    ensures
        match r {
            Some(e) => extension_of(filename@) == Some(e@),
            None => extension_of(filename@).is_none(),
        },
{
    let n = filename.unicode_len();
    proof {
        lemma_last_dot_bounds(filename@);
    }
    match find_last_dot(filename) {
        Some(k) => {
            if k + 1 < n {
                Some(filename.substring_char(k + 1, n))
            } else {
                None
            }
        },
        None => None,
    }
}

/// The extension of a name taken as one path component: the text after its
/// last `'.'`, where that dot is not the first character and the name is
/// neither `"."` nor `".."`. It may be empty (`"a."`).
pub open spec fn path_extension_of(s: Seq<char>) -> Option<Seq<char>> {
    let k = last_dot(s);
    if k > 0 && s != seq!['.', '.'] {
        Some(s.subrange(k + 1, s.len() as int))
    } else {
        None
    }
}

/// The lowercase extension of a name taken as one path component.
pub fn get_ext(nm: &str) -> (r: Option<String>)
    ensures
        match path_extension_of(nm@) {
            Some(e) => r.is_some() && r.unwrap()@ == lower_of(e),
            None => r.is_none(),
        },
{
    let n = nm.unicode_len();
    proof {
        lemma_last_dot_bounds(nm@);
    }
    match find_last_dot(nm) {
        Some(k) => {
            if k == 0 {
                return None;
            }
            if n == 2 && k == 1 && nm.get_char(0) == '.' {
                assert(nm@ =~= seq!['.', '.']);
                return None;
            }
            assert(nm@ != seq!['.', '.']) by {
                if nm@ == seq!['.', '.'] {
                    assert(nm@.len() == 2);
                }
            }
            let e = nm.substring_char(k + 1, n);
            Some(to_lower(e))
        },
        None => None,
    }
}

} // verus!
