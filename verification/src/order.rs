//! Putting the matches of a report in order before they are shown.

use crate::types::{entry_views, MatchEntry, MatchEntryView};
use vstd::prelude::*;
use vstd::string::StringSliceAdditionalSpecFns;
use vstd::utf8::encode_utf8;

verus! {

/// The field by which matches are ordered.
#[derive(Debug, Clone, Copy, PartialEq, Eq, Structural)]
pub enum SortKey {
    /// By the path of the file.
    File,
    /// By the line number.
    Line,
    /// By the matched text.
    Match,
}

/// Whether `a` comes no later than `b` when byte strings are compared
/// position by position, a proper prefix coming first.
pub open spec fn bytes_le(a: Seq<u8>, b: Seq<u8>) -> bool
    decreases a.len(),
{
    if a.len() == 0 {
        true
    } else if b.len() == 0 {
        false
    } else if a[0] != b[0] {
        a[0] < b[0]
    } else {
        bytes_le(a.drop_first(), b.drop_first())
    }
}

/// Whether the text `a` comes no later than `b`: strings compare by their
/// UTF-8 bytes.
pub open spec fn text_le(a: Seq<char>, b: Seq<char>) -> bool {
    bytes_le(encode_utf8(a), encode_utf8(b))
}

/// Whether `a` comes no later than `b` by the field `key`.
pub open spec fn key_le(key: SortKey, a: MatchEntryView, b: MatchEntryView) -> bool {
    match key {
        SortKey::File => text_le(a.file, b.file),
        SortKey::Line => a.line <= b.line,
        SortKey::Match => text_le(a.matched_text, b.matched_text),
    }
}

/// Of two byte strings one comes no later than the other.
pub proof fn lemma_bytes_le_total(a: Seq<u8>, b: Seq<u8>)
    ensures
        bytes_le(a, b) || bytes_le(b, a),
    decreases a.len(),
{
    if a.len() > 0 && b.len() > 0 && a[0] == b[0] {
        lemma_bytes_le_total(a.drop_first(), b.drop_first());
    }
}

/// The order of byte strings is transitive.
pub proof fn lemma_bytes_le_transitive(a: Seq<u8>, b: Seq<u8>, c: Seq<u8>)
    requires
        bytes_le(a, b),
        bytes_le(b, c),
    ensures
        bytes_le(a, c),
    decreases a.len(),
{
    if a.len() > 0 && b.len() > 0 && c.len() > 0 && a[0] == b[0] && b[0] == c[0] {
        lemma_bytes_le_transitive(a.drop_first(), b.drop_first(), c.drop_first());
    }
}

/// Of two entries one comes no later than the other, by any key.
pub proof fn lemma_key_le_total(key: SortKey, a: MatchEntryView, b: MatchEntryView)
    ensures
        key_le(key, a, b) || key_le(key, b, a),
{
    lemma_bytes_le_total(encode_utf8(a.file), encode_utf8(b.file));
    lemma_bytes_le_total(encode_utf8(a.matched_text), encode_utf8(b.matched_text));
}

/// The order of entries by a key is transitive.
pub proof fn lemma_key_le_transitive(
    key: SortKey,
    a: MatchEntryView,
    b: MatchEntryView,
    c: MatchEntryView,
)
    requires
        key_le(key, a, b),
        key_le(key, b, c),
    ensures
        key_le(key, a, c),
{
    match key {
        SortKey::File => lemma_bytes_le_transitive(
            encode_utf8(a.file),
            encode_utf8(b.file),
            encode_utf8(c.file),
        ),
        SortKey::Line => {},
        SortKey::Match => lemma_bytes_le_transitive(
            encode_utf8(a.matched_text),
            encode_utf8(b.matched_text),
            encode_utf8(c.matched_text),
        ),
    }
}

/// Whether the byte string `a` comes no later than `b`.
fn slice_le(a: &[u8], b: &[u8]) -> (le: bool)
    ensures
        le == bytes_le(a@, b@),
{
    let mut i: usize = 0;
    proof {
        assert(a@.skip(0) =~= a@);
        assert(b@.skip(0) =~= b@);
    }
    while i < a.len() && i < b.len()
        invariant
            i <= a.len(),
            i <= b.len(),
            bytes_le(a@, b@) == bytes_le(a@.skip(i as int), b@.skip(i as int)),
        decreases a.len() - i,
    {
        proof {
            assert(a@.skip(i as int).drop_first() =~= a@.skip(i + 1));
            assert(b@.skip(i as int).drop_first() =~= b@.skip(i + 1));
            assert(a@.skip(i as int)[0] == a@[i as int]);
            assert(b@.skip(i as int)[0] == b@[i as int]);
        }
        if a[i] != b[i] {
            return a[i] < b[i];
        }
        i += 1;
    }
    i == a.len()
}

/// Whether entry `a` comes no later than entry `b` by `key`.
pub fn entry_le(key: SortKey, a: &MatchEntry, b: &MatchEntry) -> (le: bool)
    ensures
        le == key_le(key, a@, b@),
{
    match key {
        SortKey::File => slice_le(a.file.as_str().as_bytes(), b.file.as_str().as_bytes()),
        SortKey::Line => a.line <= b.line,
        SortKey::Match => slice_le(
            a.matched_text.as_str().as_bytes(),
            b.matched_text.as_str().as_bytes(),
        ),
    }
}

/// Whether the entry at index `a` goes before the one at index `b`: its
/// key is smaller, or the keys are equal and it stands earlier in `entries`.
pub open spec fn precedes(key: SortKey, entries: Seq<MatchEntryView>, a: int, b: int) -> bool {
    key_le(key, entries[a], entries[b]) && (key_le(key, entries[b], entries[a]) ==> a < b)
}

/// Whether the index `v` stands somewhere in `order`.
pub open spec fn lists(order: Seq<usize>, v: int) -> bool {
    exists|k: int| 0 <= k < order.len() && #[trigger] order[k] == v
}

/// Whether `order` lists the indices from `lo` up to `hi`, each of them
/// once, so that each goes before the next.
pub open spec fn orders(
    key: SortKey,
    entries: Seq<MatchEntryView>,
    order: Seq<usize>,
    lo: int,
    hi: int,
) -> bool {
    &&& order.len() == hi - lo
    &&& forall|k: int| 0 <= k < order.len() ==> lo <= #[trigger] order[k] < hi
    &&& forall|v: int| lo <= v < hi ==> #[trigger] lists(order, v)
    &&& forall|i: int, j: int|
        0 <= i < j < order.len() ==> precedes(
            key,
            entries,
            #[trigger] order[i] as int,
            #[trigger] order[j] as int,
        )
}

/// Whether `sorted` holds the entries of `entries` in the order of `key`,
/// entries with equal keys in the order in which they stood.
pub open spec fn sorted_from(
    key: SortKey,
    entries: Seq<MatchEntryView>,
    sorted: Seq<MatchEntryView>,
) -> bool {
    exists|order: Seq<usize>|
        {
            &&& #[trigger] orders(key, entries, order, 0, entries.len() as int)
            &&& sorted.len() == entries.len()
            &&& forall|k: int| 0 <= k < sorted.len() ==> sorted[k] == entries[order[k] as int]
        }
}

/// What a sequence lists it still lists after a push.
proof fn lemma_lists_after_push(order: Seq<usize>, x: usize, v: int)
    requires
        lists(order, v),
    ensures
        lists(order.push(x), v),
{
    let k = choose|k: int| 0 <= k < order.len() && #[trigger] order[k] == v;
    assert(order.push(x)[k] == v);
}

/// Merges two runs of indices, one over `lo..mid` and one over `mid..hi`,
/// into one over `lo..hi`.
fn merge_runs(
    key: SortKey,
    entries: &Vec<MatchEntry>,
    left: &Vec<usize>,
    right: &Vec<usize>,
    Ghost(lo): Ghost<int>,
    Ghost(mid): Ghost<int>,
    Ghost(hi): Ghost<int>,
) -> (out: Vec<usize>)
    requires
        0 <= lo <= mid <= hi <= entries.len(),
        orders(key, entry_views(entries@), left@, lo, mid),
        orders(key, entry_views(entries@), right@, mid, hi),
    ensures
        orders(key, entry_views(entries@), out@, lo, hi),
{
    let ghost views = entry_views(entries@);
    let mut out: Vec<usize> = Vec::new();
    let mut i: usize = 0;
    let mut j: usize = 0;
    while i < left.len() || j < right.len()
        invariant
            0 <= lo <= mid <= hi <= entries.len(),
            views == entry_views(entries@),
            orders(key, views, left@, lo, mid),
            orders(key, views, right@, mid, hi),
            i <= left.len(),
            j <= right.len(),
            out.len() == i + j,
            forall|k: int| 0 <= k < out.len() ==> lo <= #[trigger] out@[k] < hi,
            forall|k: int| 0 <= k < i ==> lists(out@, #[trigger] left@[k] as int),
            forall|k: int| 0 <= k < j ==> lists(out@, #[trigger] right@[k] as int),
            forall|a: int, b: int|
                0 <= a < b < out.len() ==> precedes(
                    key,
                    views,
                    #[trigger] out@[a] as int,
                    #[trigger] out@[b] as int,
                ),
            forall|a: int, k: int|
                0 <= a < out.len() && i <= k < left.len() ==> precedes(
                    key,
                    views,
                    #[trigger] out@[a] as int,
                    #[trigger] left@[k] as int,
                ),
            forall|a: int, k: int|
                0 <= a < out.len() && j <= k < right.len() ==> precedes(
                    key,
                    views,
                    #[trigger] out@[a] as int,
                    #[trigger] right@[k] as int,
                ),
        decreases left.len() - i + right.len() - j,
    {
        let ghost before = out@;
        let take_left = if j >= right.len() {
            true
        } else if i >= left.len() {
            false
        } else {
            entry_le(key, &entries[left[i]], &entries[right[j]])
        };
        if take_left {
            let x = left[i];
            proof {
                assert forall|k: int| j <= k < right.len() implies precedes(
                    key,
                    views,
                    x as int,
                    #[trigger] right@[k] as int,
                ) by {
                    if k > j {
                        assert(precedes(key, views, right@[j as int] as int, right@[k] as int));
                        lemma_key_le_transitive(
                            key,
                            views[x as int],
                            views[right@[j as int] as int],
                            views[right@[k] as int],
                        );
                    }
                }
            }
            out.push(x);
            i += 1;
            proof {
                assert forall|k: int| 0 <= k < i implies lists(
                    out@,
                    #[trigger] left@[k] as int,
                ) by {
                    if k < i - 1 {
                        lemma_lists_after_push(before, x, left@[k] as int);
                    } else {
                        assert(out@[before.len() as int] == left@[k]);
                    }
                }
                assert forall|k: int| 0 <= k < j implies lists(
                    out@,
                    #[trigger] right@[k] as int,
                ) by {
                    lemma_lists_after_push(before, x, right@[k] as int);
                }
            }
        } else {
            let y = right[j];
            proof {
                assert forall|k: int| i <= k < left.len() implies precedes(
                    key,
                    views,
                    y as int,
                    #[trigger] left@[k] as int,
                ) by {
                    let first = left@[i as int] as int;
                    let other = left@[k] as int;
                    assert(!key_le(key, views[first], views[y as int]));
                    if k > i {
                        assert(precedes(key, views, first, other));
                    }
                    if key_le(key, views[other], views[y as int]) {
                        lemma_key_le_transitive(key, views[first], views[other], views[y as int]);
                    }
                    lemma_key_le_total(key, views[other], views[y as int]);
                }
            }
            out.push(y);
            j += 1;
            proof {
                assert forall|k: int| 0 <= k < i implies lists(
                    out@,
                    #[trigger] left@[k] as int,
                ) by {
                    lemma_lists_after_push(before, y, left@[k] as int);
                }
                assert forall|k: int| 0 <= k < j implies lists(
                    out@,
                    #[trigger] right@[k] as int,
                ) by {
                    if k < j - 1 {
                        lemma_lists_after_push(before, y, right@[k] as int);
                    } else {
                        assert(out@[before.len() as int] == right@[k]);
                    }
                }
            }
        }
    }
    proof {
        assert forall|v: int| lo <= v < hi implies #[trigger] lists(out@, v) by {
            if v < mid {
                assert(lists(left@, v));
                let k = choose|k: int| 0 <= k < left@.len() && #[trigger] left@[k] == v;
                assert(lists(out@, left@[k] as int));
            } else {
                assert(lists(right@, v));
                let k = choose|k: int| 0 <= k < right@.len() && #[trigger] right@[k] == v;
                assert(lists(out@, right@[k] as int));
            }
        }
    }
    out
}

/// The indices from `lo` up to `hi` in the order in which their entries
/// are to stand.
fn sort_range(key: SortKey, entries: &Vec<MatchEntry>, lo: usize, hi: usize) -> (order: Vec<usize>)
    requires
        lo <= hi <= entries.len(),
    ensures
        orders(key, entry_views(entries@), order@, lo as int, hi as int),
    decreases hi - lo,
{
    let mut order: Vec<usize> = Vec::new();
    if hi - lo == 0 {
        order
    } else if hi - lo == 1 {
        order.push(lo);
        proof {
            assert(order@[0] == lo);
            assert forall|v: int| lo <= v < hi implies #[trigger] lists(order@, v) by {
                assert(order@[0] == v);
            }
        }
        order
    } else {
        let mid = lo + (hi - lo) / 2;
        let left = sort_range(key, entries, lo, mid);
        let right = sort_range(key, entries, mid, hi);
        merge_runs(
            key,
            entries,
            &left,
            &right,
            Ghost(lo as int),
            Ghost(mid as int),
            Ghost(hi as int),
        )
    }
}

/// The indices of `entries` in the order in which a sort by `key` puts the
/// entries.
pub fn sorted_order(entries: &Vec<MatchEntry>, key: SortKey) -> (order: Vec<usize>)
    ensures
        orders(key, entry_views(entries@), order@, 0, entries@.len() as int),
{
    sort_range(key, entries, 0, entries.len())
}

/// The entries sorted by `key`. The sort is stable: entries with equal keys
/// keep the order in which they stood.
pub fn sort_matches(entries: &Vec<MatchEntry>, key: SortKey) -> (sorted: Vec<MatchEntry>)
    ensures
        sorted_from(key, entry_views(entries@), entry_views(sorted@)),
{
    let order = sorted_order(entries, key);
    let mut sorted: Vec<MatchEntry> = Vec::new();
    let mut k: usize = 0;
    while k < order.len()
        invariant
            k <= order.len(),
            order.len() == entries.len(),
            orders(key, entry_views(entries@), order@, 0, entries@.len() as int),
            sorted.len() == k,
            forall|n: int| 0 <= n < k ==> (#[trigger] sorted@[n])@ == entries@[order@[n] as int]@,
        decreases order.len() - k,
    {
        let from = &entries[order[k]];
        sorted.push(
            MatchEntry {
                file: from.file.clone(),
                line: from.line,
                matched_text: from.matched_text.clone(),
            },
        );
        k += 1;
    }
    proof {
        let views = entry_views(entries@);
        assert(orders(key, views, order@, 0, views.len() as int));
        assert forall|n: int| 0 <= n < entry_views(sorted@).len() implies entry_views(sorted@)[n]
            == views[order@[n] as int] by {
            assert(sorted@[n]@ == entries@[order@[n] as int]@);
        }
    }
    sorted
}

/// Whether `order` lists each index below `n` once.
pub open spec fn arranges(order: Seq<usize>, n: int) -> bool {
    &&& order.len() == n
    &&& forall|k: int| 0 <= k < order.len() ==> #[trigger] order[k] < n
    &&& forall|v: int| 0 <= v < n ==> #[trigger] lists(order, v)
    &&& forall|i: int, j: int|
        0 <= i < j < order.len() ==> #[trigger] order[i] != #[trigger] order[j]
}

/// Entries picked by an arrangement of their indices are the same entries,
/// each as often as before.
pub proof fn lemma_arranged_same_entries(
    entries: Seq<MatchEntryView>,
    order: Seq<usize>,
    picked: Seq<MatchEntryView>,
)
    requires
        arranges(order, entries.len() as int),
        picked.len() == entries.len(),
        forall|k: int| 0 <= k < picked.len() ==> picked[k] == entries[order[k] as int],
    ensures
        picked.to_multiset() == entries.to_multiset(),
    decreases entries.len(),
{
    if entries.len() == 0 {
        assert(picked =~= entries);
    } else {
        let last = entries.len() - 1;
        assert(lists(order, last));
        let p = choose|p: int| 0 <= p < order.len() && #[trigger] order[p] == last;
        let fewer = entries.drop_last();
        let order_rest = order.remove(p);
        let picked_rest = picked.remove(p);
        assert forall|v: int| 0 <= v < fewer.len() implies #[trigger] lists(order_rest, v) by {
            assert(lists(order, v));
            let k = choose|k: int| 0 <= k < order.len() && #[trigger] order[k] == v;
            if k < p {
                assert(order_rest[k] == v);
            } else {
                assert(order_rest[k - 1] == v);
            }
        }
        assert forall|k: int| 0 <= k < order_rest.len() implies #[trigger] order_rest[k]
            < fewer.len() by {
            if k < p {
                assert(order[k] != order[p]);
            } else {
                assert(order[p] != order[k + 1]);
            }
        }
        assert forall|k: int| 0 <= k < picked_rest.len() implies picked_rest[k]
            == fewer[order_rest[k] as int] by {
            if k < p {
                assert(picked_rest[k] == picked[k]);
            } else {
                assert(picked_rest[k] == picked[k + 1]);
            }
        }
        lemma_arranged_same_entries(fewer, order_rest, picked_rest);
        vstd::seq_lib::to_multiset_remove(picked, p);
        vstd::seq_lib::to_multiset_build(fewer, entries.last());
        assert(fewer.push(entries.last()) =~= entries);
        assert(picked[p] == entries.last());
        assert(picked.to_multiset() =~= picked_rest.to_multiset().insert(picked[p])) by {
            picked.to_multiset_ensures();
        }
    }
}

/// What a sort hands back stands in the order of the key, and holds the
/// entries it was given, each as often as before.
pub proof fn lemma_sorted_from(
    key: SortKey,
    entries: Seq<MatchEntryView>,
    sorted: Seq<MatchEntryView>,
)
    requires
        sorted_from(key, entries, sorted),
    ensures
        forall|i: int, j: int|
            0 <= i < j < sorted.len() ==> key_le(key, #[trigger] sorted[i], #[trigger] sorted[j]),
        sorted.to_multiset() == entries.to_multiset(),
{
    let order = choose|order: Seq<usize>|
        {
            &&& #[trigger] orders(key, entries, order, 0, entries.len() as int)
            &&& sorted.len() == entries.len()
            &&& forall|k: int| 0 <= k < sorted.len() ==> sorted[k] == entries[order[k] as int]
        };
    assert forall|i: int, j: int| 0 <= i < j < sorted.len() implies key_le(
        key,
        #[trigger] sorted[i],
        #[trigger] sorted[j],
    ) by {
        assert(precedes(key, entries, order[i] as int, order[j] as int));
    }
    assert forall|i: int, j: int| 0 <= i < j < order.len() implies #[trigger] order[i]
        != #[trigger] order[j] by {
        assert(precedes(key, entries, order[i] as int, order[j] as int));
    }
    lemma_arranged_same_entries(entries, order, sorted);
}

/// Two orders of the same entries by the same key agree up to position
/// `upto`.
proof fn lemma_orders_agree(
    key: SortKey,
    entries: Seq<MatchEntryView>,
    first: Seq<usize>,
    second: Seq<usize>,
    upto: int,
)
    requires
        orders(key, entries, first, 0, entries.len() as int),
        orders(key, entries, second, 0, entries.len() as int),
        0 <= upto <= entries.len(),
    ensures
        forall|k: int| 0 <= k < upto ==> first[k] == second[k],
    decreases upto,
{
    if upto > 0 {
        lemma_orders_agree(key, entries, first, second, upto - 1);
        let k = upto - 1;
        let x = first[k];
        let y = second[k];
        if x != y {
            assert(lists(second, x as int));
            let p = choose|p: int| 0 <= p < second.len() && #[trigger] second[p] == x;
            assert(lists(first, y as int));
            let q = choose|q: int| 0 <= q < first.len() && #[trigger] first[q] == y;
            if p < k {
                assert(precedes(key, entries, first[p] as int, first[k] as int));
            }
            if q < k {
                assert(precedes(key, entries, second[q] as int, second[k] as int));
            }
            assert(precedes(key, entries, second[k] as int, second[p] as int));
            assert(precedes(key, entries, first[k] as int, first[q] as int));
        }
    }
}

/// A sort has one result: two sequences that both hold the entries in the
/// order of the key, equal keys in the order in which they stood, are the
/// same sequence.
pub proof fn lemma_sorted_from_unique(
    key: SortKey,
    entries: Seq<MatchEntryView>,
    first: Seq<MatchEntryView>,
    second: Seq<MatchEntryView>,
)
    requires
        sorted_from(key, entries, first),
        sorted_from(key, entries, second),
    ensures
        first == second,
{
    let a = choose|order: Seq<usize>|
        {
            &&& #[trigger] orders(key, entries, order, 0, entries.len() as int)
            &&& first.len() == entries.len()
            &&& forall|k: int| 0 <= k < first.len() ==> first[k] == entries[order[k] as int]
        };
    let b = choose|order: Seq<usize>|
        {
            &&& #[trigger] orders(key, entries, order, 0, entries.len() as int)
            &&& second.len() == entries.len()
            &&& forall|k: int| 0 <= k < second.len() ==> second[k] == entries[order[k] as int]
        };
    lemma_orders_agree(key, entries, a, b, entries.len() as int);
    assert(first =~= second);
}

} // verus!
