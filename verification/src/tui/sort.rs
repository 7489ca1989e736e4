//! Ordering of panel listings: directories first, then by name or size,
//! ascending or descending, ties broken by case-folded name, and stable.
use vstd::prelude::*;

use crate::filesystem::{clone_entry, Entry, EntryView};
use crate::text::{chars_of, lowercase, to_lowercase};

verus! {

#[derive(Debug, Clone, Copy, PartialEq, Eq, Structural)]
pub enum SortKey {
    Name,
    Size,
}

#[derive(Debug, Clone, Copy, PartialEq, Eq, Structural)]
pub enum SortOrder {
    Ascending,
    Descending,
}

#[derive(Debug, Clone, Copy, PartialEq, Eq, Structural)]
pub struct SortSpec {
    pub key: SortKey,
    pub order: SortOrder,
}

impl Default for SortSpec {
    fn default() -> (r: Self)
        ensures
            r == (SortSpec { key: SortKey::Name, order: SortOrder::Ascending }),
    {
        SortSpec { key: SortKey::Name, order: SortOrder::Ascending }
    }
}

/// The spec after `spec` in the cycle Name asc, Name desc, Size asc,
/// Size desc, back to Name asc.
pub open spec fn next_spec(spec: SortSpec) -> SortSpec {
    match (spec.key, spec.order) {
        (SortKey::Name, SortOrder::Ascending) => SortSpec { key: SortKey::Name, order: SortOrder::Descending },
        (SortKey::Name, SortOrder::Descending) => SortSpec { key: SortKey::Size, order: SortOrder::Ascending },
        (SortKey::Size, SortOrder::Ascending) => SortSpec { key: SortKey::Size, order: SortOrder::Descending },
        (SortKey::Size, SortOrder::Descending) => SortSpec { key: SortKey::Name, order: SortOrder::Ascending },
    }
}

impl SortSpec {
    /// Advances to the next spec in the cycle.
    pub fn cycled(self) -> (r: SortSpec)
        ensures
            r == next_spec(self),
    {
        match (self.key, self.order) {
            (SortKey::Name, SortOrder::Ascending) => SortSpec { key: SortKey::Name, order: SortOrder::Descending },
            (SortKey::Name, SortOrder::Descending) => SortSpec { key: SortKey::Size, order: SortOrder::Ascending },
            (SortKey::Size, SortOrder::Ascending) => SortSpec { key: SortKey::Size, order: SortOrder::Descending },
            (SortKey::Size, SortOrder::Descending) => SortSpec { key: SortKey::Name, order: SortOrder::Ascending },
        }
    }
}

/// Cycling four times returns to the starting spec, and the four specs
/// visited are all different.
pub proof fn lemma_cycle_has_period_four(spec: SortSpec)
    ensures
        next_spec(next_spec(next_spec(next_spec(spec)))) == spec,
        next_spec(spec) != spec,
        next_spec(next_spec(spec)) != spec,
        next_spec(next_spec(next_spec(spec))) != spec,
{
}

/// Three-way comparison of strings as `str`'s `Ord` does it: code point by
/// code point (the order of their UTF-8 bytes), a proper prefix first.
pub open spec fn lex_order(a: Seq<char>, b: Seq<char>) -> int
    decreases a.len(),
{
    if a.len() == 0 {
        if b.len() == 0 {
            0
        } else {
            -1
        }
    } else if b.len() == 0 {
        1
    } else if a[0] < b[0] {
        -1
    } else if a[0] > b[0] {
        1
    } else {
        lex_order(a.drop_first(), b.drop_first())
    }
}

pub open spec fn int_order(a: int, b: int) -> int {
    if a < b {
        -1
    } else if a > b {
        1
    } else {
        0
    }
}

/// The primary comparison that `spec.key` and `spec.order` select.
pub open spec fn primary_order(a: EntryView, b: EntryView, spec: SortSpec) -> int {
    let c = match spec.key {
        SortKey::Name => lex_order(lowercase(a.name), lowercase(b.name)),
        SortKey::Size => int_order(a.size as int, b.size as int),
    };
    match spec.order {
        SortOrder::Ascending => c,
        SortOrder::Descending => -c,
    }
}

/// Where `a` goes relative to `b` in a listing sorted by `spec`:
/// negative means before, positive after, zero means tied.
pub open spec fn entry_order(a: EntryView, b: EntryView, spec: SortSpec) -> int {
    if a.is_dir != b.is_dir {
        if a.is_dir {
            -1
        } else {
            1
        }
    } else if primary_order(a, b, spec) != 0 {
        primary_order(a, b, spec)
    } else {
        lex_order(lowercase(a.name), lowercase(b.name))
    }
}

pub open spec fn views(s: Seq<Entry>) -> Seq<EntryView> {
    s.map_values(|e: Entry| e@)
}

/// `x` (at original position `ix`) stays before `y` (at `iy`) in a stable
/// sort: it compares lower, or it ties and came first.
pub open spec fn stable_before(x: EntryView, ix: int, y: EntryView, iy: int, spec: SortSpec) -> bool {
    entry_order(x, y, spec) < 0 || (entry_order(x, y, spec) == 0 && ix < iy)
}

/// `r` is `s` stably sorted by `spec`, with `perm[k]` the position in `s`
/// that `r[k]` came from.
pub open spec fn is_stable_sort_by(r: Seq<EntryView>, s: Seq<EntryView>, perm: Seq<int>, spec: SortSpec) -> bool {
    &&& r.len() == s.len()
    &&& perm.len() == s.len()
    &&& forall|k: int| 0 <= k < perm.len() ==> 0 <= #[trigger] perm[k] < s.len()
    &&& forall|k: int, l: int| 0 <= k < l < perm.len() ==> #[trigger] perm[k] != #[trigger] perm[l]
    &&& forall|k: int| 0 <= k < r.len() ==> #[trigger] r[k] == s[perm[k]]
    &&& forall|k: int, l: int|
        0 <= k < l < r.len() ==> stable_before(#[trigger] r[k], perm[k], #[trigger] r[l], perm[l], spec)
}

/// Swapping the two names negates their comparison, which is zero
/// exactly for equal names.
pub proof fn lemma_lex_antisym(a: Seq<char>, b: Seq<char>)
    ensures
        lex_order(a, b) == -lex_order(b, a),
        -1 <= lex_order(a, b) <= 1,
        lex_order(a, b) == 0 <==> a == b,
    decreases a.len(),
{
    if a.len() > 0 && b.len() > 0 {
        lemma_lex_antisym(a.drop_first(), b.drop_first());
        if lex_order(a, b) == 0 {
            assert(a[0] == b[0]);
            assert(a.drop_first() == b.drop_first());
            assert forall|k: int| 0 <= k < a.len() implies a[k] == b[k] by {
                if k > 0 {
                    assert(a[k] == a.drop_first()[k - 1]);
                    assert(b[k] == b.drop_first()[k - 1]);
                }
            }
            assert(a =~= b);
        }
        if a == b {
            assert(a.drop_first() == b.drop_first());
        }
    } else if a.len() == 0 && b.len() == 0 {
        assert(a =~= b);
    }
}

/// The order of names is transitive.
pub proof fn lemma_lex_trans(a: Seq<char>, b: Seq<char>, c: Seq<char>)
    requires
        lex_order(a, b) < 0,
        lex_order(b, c) < 0,
    ensures
        lex_order(a, c) < 0,
    decreases a.len(),
{
    if a.len() > 0 && b.len() > 0 && c.len() > 0 {
        if a[0] == b[0] && b[0] == c[0] {
            lemma_lex_trans(a.drop_first(), b.drop_first(), c.drop_first());
        }
    }
}

proof fn lemma_primary_props(a: EntryView, b: EntryView, c: EntryView, spec: SortSpec)
    ensures
        primary_order(a, b, spec) == -primary_order(b, a, spec),
        -1 <= primary_order(a, b, spec) <= 1,
        primary_order(a, b, spec) < 0 && primary_order(b, c, spec) < 0 ==> primary_order(a, c, spec) < 0,
        primary_order(a, b, spec) == 0 && primary_order(b, c, spec) == 0 ==> primary_order(a, c, spec) == 0,
        primary_order(a, b, spec) == 0 ==> primary_order(a, c, spec) == primary_order(b, c, spec),
{
    let la = lowercase(a.name);
    let lb = lowercase(b.name);
    let lc = lowercase(c.name);
    lemma_lex_antisym(la, lb);
    lemma_lex_antisym(lb, lc);
    lemma_lex_antisym(la, lc);
    if lex_order(la, lb) < 0 && lex_order(lb, lc) < 0 {
        lemma_lex_trans(la, lb, lc);
    }
    if lex_order(lb, la) < 0 && lex_order(lc, lb) < 0 {
        lemma_lex_trans(lc, lb, la);
    }
}

/// `entry_order` is antisymmetric and transitive, and ties are an
/// equivalence: it orders entries as a total preorder.
pub proof fn lemma_entry_order_props(a: EntryView, b: EntryView, c: EntryView, spec: SortSpec)
    ensures
        entry_order(a, b, spec) == -entry_order(b, a, spec),
        -1 <= entry_order(a, b, spec) <= 1,
        entry_order(a, b, spec) <= 0 && entry_order(b, c, spec) <= 0 ==> entry_order(a, c, spec) <= 0,
        entry_order(a, b, spec) < 0 && entry_order(b, c, spec) <= 0 ==> entry_order(a, c, spec) < 0,
        entry_order(a, b, spec) <= 0 && entry_order(b, c, spec) < 0 ==> entry_order(a, c, spec) < 0,
{
    lemma_primary_props(a, b, c, spec);
    lemma_primary_props(b, a, c, spec);
    lemma_primary_props(a, c, b, spec);
    lemma_primary_props(b, c, a, spec);
    lemma_primary_props(c, a, b, spec);
    lemma_primary_props(c, b, a, spec);
    let la = lowercase(a.name);
    let lb = lowercase(b.name);
    let lc = lowercase(c.name);
    lemma_lex_antisym(la, lb);
    lemma_lex_antisym(lb, lc);
    lemma_lex_antisym(la, lc);
    if lex_order(la, lb) < 0 && lex_order(lb, lc) < 0 {
        lemma_lex_trans(la, lb, lc);
    }
}

/// Compares two strings as `str`'s `Ord` does.
pub fn lex_compare(a: &Vec<char>, b: &Vec<char>) -> (r: i8)
    ensures
        r == lex_order(a@, b@),
{
    let mut i: usize = 0;
    assert(a@.subrange(0, a@.len() as int) == a@);
    assert(b@.subrange(0, b@.len() as int) == b@);
    while i < a.len() && i < b.len() && a[i] == b[i]
        invariant
            i <= a.len(),
            i <= b.len(),
            lex_order(a@, b@) == lex_order(a@.subrange(i as int, a@.len() as int), b@.subrange(i as int, b@.len() as int)),
        decreases a.len() - i,
    {
        let ghost sa = a@.subrange(i as int, a@.len() as int);
        let ghost sb = b@.subrange(i as int, b@.len() as int);
        assert(sa.drop_first() == a@.subrange(i + 1, a@.len() as int));
        assert(sb.drop_first() == b@.subrange(i + 1, b@.len() as int));
        i = i + 1;
    }
    let ghost sa = a@.subrange(i as int, a@.len() as int);
    let ghost sb = b@.subrange(i as int, b@.len() as int);
    if i == a.len() {
        if i == b.len() {
            0
        } else {
            -1
        }
    } else if i == b.len() {
        1
    } else if a[i] < b[i] {
        assert(sa[0] == a@[i as int] && sb[0] == b@[i as int]);
        -1
    } else {
        assert(sa[0] == a@[i as int] && sb[0] == b@[i as int]);
        1
    }
}

fn size_compare(a: u64, b: u64) -> (r: i8)
    ensures
        r == int_order(a as int, b as int),
{
    if a < b {
        -1
    } else if a > b {
        1
    } else {
        0
    }
}

fn compare_entries(a: &Entry, ka: &Vec<char>, b: &Entry, kb: &Vec<char>, spec: SortSpec) -> (r: i8)
    requires
        ka@ == lowercase(a@.name),
        kb@ == lowercase(b@.name),
    ensures
        r == entry_order(a@, b@, spec),
{
    if a.is_dir != b.is_dir {
        return if a.is_dir {
            -1
        } else {
            1
        };
    }
    let names: i8 = lex_compare(ka, kb);
    proof {
        lemma_lex_antisym(ka@, kb@);
    }
    let c: i8 = match spec.key {
        SortKey::Name => names,
        SortKey::Size => size_compare(a.size, b.size),
    };
    let p: i8 = match spec.order {
        SortOrder::Ascending => c,
        SortOrder::Descending => -c,
    };
    if p != 0 {
        p
    } else {
        names
    }
}

/// Sorts `entries` in place: directories before files whatever `spec`
/// says, then by `spec`, ties broken ascending by case-folded name; entries
/// that still tie keep their relative order.
pub fn sort_entries(entries: &mut Vec<Entry>, spec: SortSpec)
    ensures
        exists|perm: Seq<int>| is_stable_sort_by(views(final(entries)@), views(old(entries)@), perm, spec),
{
    let ghost s = views(entries@);
    let n: usize = entries.len();
    let mut result: Vec<Entry> = Vec::new();
    let mut keys: Vec<Vec<char>> = Vec::new();
    let ghost mut perm: Seq<int> = Seq::empty();
    let mut i: usize = 0;
    while i < n
        invariant
            n == entries.len(),
            s == views(entries@),
            i <= n,
            result.len() == i,
            keys.len() == i,
            perm.len() == i,
            forall|k: int| 0 <= k < i ==> 0 <= #[trigger] perm[k] < i,
            forall|k: int, l: int| 0 <= k < l < i ==> #[trigger] perm[k] != #[trigger] perm[l],
            forall|k: int| 0 <= k < i ==> #[trigger] result@[k]@ == s[perm[k]],
            forall|k: int| 0 <= k < i ==> #[trigger] keys@[k]@ == lowercase(result@[k]@.name),
            forall|k: int, l: int|
                0 <= k < l < i ==> stable_before(#[trigger] result@[k]@, perm[k], #[trigger] result@[l]@, perm[l], spec),
        decreases n - i,
    {
        let e: Entry = clone_entry(&entries[i]);
        let lowered: String = to_lowercase(e.name.as_str());
        let key: Vec<char> = chars_of(lowered.as_str());
        let mut pos: usize = 0;
        while pos < i && compare_entries(&result[pos], &keys[pos], &e, &key, spec) <= 0
            invariant
                pos <= i == result.len() == keys.len(),
                forall|k: int| 0 <= k < i ==> #[trigger] keys@[k]@ == lowercase(result@[k]@.name),
                key@ == lowercase(e@.name),
                forall|q: int| 0 <= q < pos ==> entry_order(#[trigger] result@[q]@, e@, spec) <= 0,
            decreases i - pos,
        {
            pos = pos + 1;
        }
        proof {
            if pos < i {
                assert(entry_order(result@[pos as int]@, e@, spec) > 0);
                assert forall|q: int| pos <= q < i implies entry_order(#[trigger] result@[q]@, e@, spec) > 0 by {
                    if q > pos {
                        assert(stable_before(result@[pos as int]@, perm[pos as int], result@[q]@, perm[q], spec));
                        lemma_entry_order_props(e@, result@[pos as int]@, result@[q]@, spec);
                        lemma_entry_order_props(result@[q]@, e@, result@[pos as int]@, spec);
                    }
                }
            }
        }
        let ghost old_result = result@;
        let ghost old_keys = keys@;
        let ghost old_perm = perm;
        result.insert(pos, e);
        keys.insert(pos, key);
        proof {
            perm = old_perm.insert(pos as int, i as int);
            assert forall|k: int| 0 <= k < i + 1 implies 0 <= #[trigger] perm[k] < i + 1 by {
                if k < pos {
                    assert(perm[k] == old_perm[k]);
                } else if k > pos {
                    assert(perm[k] == old_perm[k - 1]);
                }
            }
            assert forall|k: int, l: int| 0 <= k < l < i + 1 implies #[trigger] perm[k] != #[trigger] perm[l] by {
                if k < pos && l < pos {
                } else if k < pos && l == pos {
                    assert(perm[k] == old_perm[k]);
                } else if k < pos && l > pos {
                    assert(perm[k] == old_perm[k] && perm[l] == old_perm[l - 1]);
                } else if k == pos {
                    assert(perm[l] == old_perm[l - 1]);
                } else {
                    assert(perm[k] == old_perm[k - 1] && perm[l] == old_perm[l - 1]);
                }
            }
            assert forall|k: int| 0 <= k < i + 1 implies #[trigger] result@[k]@ == s[perm[k]] by {
                if k < pos {
                    assert(result@[k] == old_result[k]);
                } else if k > pos {
                    assert(result@[k] == old_result[k - 1]);
                }
            }
            assert forall|k: int| 0 <= k < i + 1 implies #[trigger] keys@[k]@ == lowercase(result@[k]@.name) by {
                if k < pos {
                    assert(result@[k] == old_result[k] && keys@[k] == old_keys[k]);
                } else if k > pos {
                    assert(result@[k] == old_result[k - 1] && keys@[k] == old_keys[k - 1]);
                }
            }
            assert forall|k: int, l: int| 0 <= k < l < i + 1 implies stable_before(
                #[trigger] result@[k]@,
                perm[k],
                #[trigger] result@[l]@,
                perm[l],
                spec,
            ) by {
                if l < pos {
                    assert(result@[k] == old_result[k] && result@[l] == old_result[l]);
                } else if l == pos {
                    assert(result@[k] == old_result[k]);
                    assert(entry_order(old_result[k]@, e@, spec) <= 0);
                } else if k == pos {
                    assert(result@[l] == old_result[l - 1]);
                    assert(entry_order(old_result[l - 1]@, e@, spec) > 0);
                    lemma_entry_order_props(e@, old_result[l - 1]@, e@, spec);
                } else if k < pos {
                    assert(result@[k] == old_result[k] && result@[l] == old_result[l - 1]);
                    assert(stable_before(old_result[k]@, old_perm[k], old_result[l - 1]@, old_perm[l - 1], spec));
                } else {
                    assert(result@[k] == old_result[k - 1] && result@[l] == old_result[l - 1]);
                    assert(stable_before(old_result[k - 1]@, old_perm[k - 1], old_result[l - 1]@, old_perm[l - 1], spec));
                }
            }
        }
        i = i + 1;
    }
    *entries = result;
    proof {
        assert(is_stable_sort_by(views(entries@), s, perm, spec));
    }
}

/// `r` is `s` stably sorted by the string `key`, with `perm[k]` the
/// position in `s` that `r[k]` came from.
pub open spec fn is_stable_sort_by_key<T>(r: Seq<T>, s: Seq<T>, perm: Seq<int>, key: spec_fn(T) -> Seq<char>) -> bool {
    &&& r.len() == s.len()
    &&& perm.len() == s.len()
    &&& forall|k: int| 0 <= k < perm.len() ==> 0 <= #[trigger] perm[k] < s.len()
    &&& forall|k: int, l: int| 0 <= k < l < perm.len() ==> #[trigger] perm[k] != #[trigger] perm[l]
    &&& forall|k: int| 0 <= k < r.len() ==> #[trigger] r[k] == s[perm[k]]
    &&& forall|k: int, l: int|
        0 <= k < l < r.len() ==> lex_order(key(#[trigger] r[k]), key(#[trigger] r[l])) < 0 || (lex_order(
            key(r[k]),
            key(r[l]),
        ) == 0 && perm[k] < perm[l])
}

/// The positions of `keys` in the order that stably sorts them.
pub fn stable_order(keys: &Vec<Vec<char>>) -> (order: Vec<usize>)
    ensures
        order.len() == keys.len(),
        forall|k: int| 0 <= k < order.len() ==> #[trigger] order@[k] < keys.len(),
        forall|k: int, l: int| 0 <= k < l < order.len() ==> #[trigger] order@[k] != #[trigger] order@[l],
        forall|k: int, l: int|
            0 <= k < l < order.len() ==> lex_order(keys@[#[trigger] order@[k] as int]@, keys@[#[trigger] order@[l] as int]@) < 0
                || (lex_order(keys@[order@[k] as int]@, keys@[order@[l] as int]@) == 0 && order@[k] < order@[l]),
{
    let n: usize = keys.len();
    let mut order: Vec<usize> = Vec::new();
    let mut i: usize = 0;
    while i < n
        invariant
            n == keys.len(),
            i <= n,
            order.len() == i,
            forall|k: int| 0 <= k < i ==> #[trigger] order@[k] < i,
            forall|k: int, l: int| 0 <= k < l < i ==> #[trigger] order@[k] != #[trigger] order@[l],
            forall|k: int, l: int|
                0 <= k < l < i ==> lex_order(keys@[#[trigger] order@[k] as int]@, keys@[#[trigger] order@[l] as int]@) < 0
                    || (lex_order(keys@[order@[k] as int]@, keys@[order@[l] as int]@) == 0 && order@[k] < order@[l]),
        decreases n - i,
    {
        let mut pos: usize = 0;
        while pos < i && lex_compare(&keys[order[pos]], &keys[i]) <= 0
            invariant
                pos <= i == order.len(),
                i < n == keys.len(),
                forall|k: int| 0 <= k < i ==> #[trigger] order@[k] < i,
                forall|q: int| 0 <= q < pos ==> lex_order(keys@[#[trigger] order@[q] as int]@, keys@[i as int]@) <= 0,
            decreases i - pos,
        {
            pos = pos + 1;
        }
        let ghost ki = keys@[i as int]@;
        proof {
            if pos < i {
                assert forall|q: int| pos <= q < i implies lex_order(keys@[#[trigger] order@[q] as int]@, ki) > 0 by {
                    let kp = keys@[order@[pos as int] as int]@;
                    let kq = keys@[order@[q] as int]@;
                    lemma_lex_antisym(kp, ki);
                    lemma_lex_antisym(kq, ki);
                    lemma_lex_antisym(kp, kq);
                    if q > pos {
                        assert(lex_order(kp, kq) <= 0);
                        if lex_order(kp, kq) < 0 {
                            lemma_lex_trans(ki, kp, kq);
                        }
                    }
                }
            }
        }
        let ghost prev = order@;
        order.insert(pos, i);
        proof {
            assert forall|k: int| 0 <= k < i + 1 implies #[trigger] order@[k] < i + 1 by {
                if k < pos {
                    assert(order@[k] == prev[k]);
                } else if k > pos {
                    assert(order@[k] == prev[k - 1]);
                }
            }
            assert forall|k: int, l: int| 0 <= k < l < i + 1 implies #[trigger] order@[k] != #[trigger] order@[l] by {
                if k < pos && l < pos {
                } else if k < pos && l == pos {
                    assert(order@[k] == prev[k]);
                } else if k < pos && l > pos {
                    assert(order@[k] == prev[k] && order@[l] == prev[l - 1]);
                } else if k == pos {
                    assert(order@[l] == prev[l - 1]);
                } else {
                    assert(order@[k] == prev[k - 1] && order@[l] == prev[l - 1]);
                }
            }
            assert forall|k: int, l: int| 0 <= k < l < i + 1 implies lex_order(
                keys@[#[trigger] order@[k] as int]@,
                keys@[#[trigger] order@[l] as int]@,
            ) < 0 || (lex_order(keys@[order@[k] as int]@, keys@[order@[l] as int]@) == 0 && order@[k] < order@[l]) by {
                if l < pos {
                    assert(order@[k] == prev[k] && order@[l] == prev[l]);
                } else if l == pos {
                    assert(order@[k] == prev[k]);
                } else if k == pos {
                    assert(order@[l] == prev[l - 1]);
                    lemma_lex_antisym(ki, keys@[prev[l - 1] as int]@);
                } else if k < pos {
                    assert(order@[k] == prev[k] && order@[l] == prev[l - 1]);
                } else {
                    assert(order@[k] == prev[k - 1] && order@[l] == prev[l - 1]);
                }
            }
        }
        i = i + 1;
    }
    order
}

/// Positions `0..n`, each taken once by `perm`, are all taken.
pub proof fn lemma_perm_onto(perm: Seq<int>, n: int, v: int)
    requires
        perm.len() == n,
        forall|k: int| 0 <= k < n ==> 0 <= #[trigger] perm[k] < n,
        forall|k: int, l: int| 0 <= k < l < n ==> #[trigger] perm[k] != #[trigger] perm[l],
        0 <= v < n,
    ensures
        exists|k: int| 0 <= k < n && perm[k] == v,
{
    assert(perm.no_duplicates()) by {
        assert forall|i: int, j: int| 0 <= i < perm.len() && 0 <= j < perm.len() && i != j implies perm[i]
            != perm[j] by {
            if i < j {
                assert(perm[i] != perm[j]);
            } else {
                assert(perm[j] != perm[i]);
            }
        }
    }
    perm.unique_seq_to_set();
    vstd::set_lib::lemma_int_range(0, n);
    let range = vstd::set_lib::set_int_range(0, n);
    assert(perm.to_set().subset_of(range)) by {
        assert forall|x: int| perm.to_set().contains(x) implies range.contains(x) by {
            let k = choose|k: int| 0 <= k < perm.len() && perm[k] == x;
        }
    }
    vstd::set_lib::lemma_subset_equality(perm.to_set(), range);
    assert(range.contains(v));
    assert(perm.to_set().contains(v));
}

/// Two stable sorts of the same entries by the same spec place the same
/// original position first, second, and so on.
proof fn lemma_stable_perm_agree(
    r1: Seq<EntryView>,
    r2: Seq<EntryView>,
    s: Seq<EntryView>,
    p1: Seq<int>,
    p2: Seq<int>,
    spec: SortSpec,
    k: int,
)
    requires
        is_stable_sort_by(r1, s, p1, spec),
        is_stable_sort_by(r2, s, p2, spec),
        0 <= k < s.len(),
        forall|j: int| 0 <= j < k ==> p1[j] == p2[j],
    ensures
        p1[k] == p2[k],
{
    let n = s.len() as int;
    let a = p1[k];
    let b = p2[k];
    if a != b {
        lemma_perm_onto(p1, n, b);
        let l = choose|l: int| 0 <= l < n && p1[l] == b;
        if l < k {
            assert(p2[l] == b);
            assert(p2[l] != p2[k]);
        }
        assert(l > k);
        assert(stable_before(r1[k], p1[k], r1[l], p1[l], spec));
        lemma_perm_onto(p2, n, a);
        let m = choose|m: int| 0 <= m < n && p2[m] == a;
        if m < k {
            assert(p1[m] == a);
            assert(p1[m] != p1[k]);
        }
        assert(m > k);
        assert(stable_before(r2[k], p2[k], r2[m], p2[m], spec));
        lemma_entry_order_props(s[a], s[b], s[a], spec);
    }
}

/// Two stable sorts of the same entries agree on their first `k` positions.
proof fn lemma_stable_prefix_agree(
    r1: Seq<EntryView>,
    r2: Seq<EntryView>,
    s: Seq<EntryView>,
    p1: Seq<int>,
    p2: Seq<int>,
    spec: SortSpec,
    k: int,
)
    requires
        is_stable_sort_by(r1, s, p1, spec),
        is_stable_sort_by(r2, s, p2, spec),
        0 <= k <= s.len(),
    ensures
        forall|j: int| 0 <= j < k ==> p1[j] == p2[j],
    decreases k,
{
    if k > 0 {
        lemma_stable_prefix_agree(r1, r2, s, p1, p2, spec, k - 1);
        lemma_stable_perm_agree(r1, r2, s, p1, p2, spec, k - 1);
    }
}

/// A stable sort has one result: two stable sorts of the same entries by
/// the same spec are equal.
pub proof fn lemma_stable_sort_unique(
    r1: Seq<EntryView>,
    r2: Seq<EntryView>,
    s: Seq<EntryView>,
    p1: Seq<int>,
    p2: Seq<int>,
    spec: SortSpec,
)
    requires
        is_stable_sort_by(r1, s, p1, spec),
        is_stable_sort_by(r2, s, p2, spec),
    ensures
        r1 == r2,
{
    lemma_stable_prefix_agree(r1, r2, s, p1, p2, spec, s.len() as int);
    assert forall|j: int| 0 <= j < r1.len() implies r1[j] == r2[j] by {
        assert(r1[j] == s[p1[j]]);
        assert(r2[j] == s[p2[j]]);
    }
    assert(r1 =~= r2);
}

/// What a sorted listing looks like: no file comes before a directory, and
/// among entries of the same kind sizes rise (by size, ascending) or fall
/// (descending), and case-folded names rise or fall when sorting by name.
pub proof fn lemma_sorted_listing_order(r: Seq<EntryView>, s: Seq<EntryView>, perm: Seq<int>, spec: SortSpec, k: int, l: int)
    requires
        is_stable_sort_by(r, s, perm, spec),
        0 <= k < l < r.len(),
    ensures
        r[k].is_dir || !r[l].is_dir,
        r[k].is_dir == r[l].is_dir ==> match (spec.key, spec.order) {
            (SortKey::Size, SortOrder::Ascending) => r[k].size <= r[l].size,
            (SortKey::Size, SortOrder::Descending) => r[k].size >= r[l].size,
            (SortKey::Name, SortOrder::Ascending) => lex_order(lowercase(r[k].name), lowercase(r[l].name)) <= 0,
            (SortKey::Name, SortOrder::Descending) => lex_order(lowercase(r[k].name), lowercase(r[l].name)) >= 0,
        },
        r[k].is_dir == r[l].is_dir && spec.key == SortKey::Size && r[k].size == r[l].size ==> lex_order(
            lowercase(r[k].name),
            lowercase(r[l].name),
        ) <= 0,
{
    let a = r[k];
    let b = r[l];
    assert(stable_before(a, perm[k], b, perm[l], spec));
    assert(entry_order(a, b, spec) <= 0);
    lemma_lex_antisym(lowercase(a.name), lowercase(b.name));
}

} // verus!
