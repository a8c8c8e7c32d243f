//! The history store: exclusive owner of the bounded, newest-first sequence
//! of entries. All mutation, adjacent-duplicate suppression, and eviction
//! logic lives here, together with the exact and fuzzy search over a
//! snapshot.

use fuzzy_matcher::FuzzyMatcher;
use vstd::prelude::*;

use crate::clipboard_item::{
    clamped_size, content_size, display_of, ClipboardItem, ContentView, ItemView,
};
use crate::storage::Storage;
use crate::text::{
    chars_of, contains_chars, contains_seq, dec_of, lower_of, lowercase, u64_string,
};

verus! {

use vstd::string::StringExecFns;

/// The default bound on the number of history entries.
pub const MAX_HISTORY_SIZE: usize = 1000;

/// The default bound on one entry's estimated size, in bytes.
pub const MAX_CONTENT_SIZE: usize = 10000000;

/// The default preview length for large entries.
pub const MAX_PREVIEW_LENGTH: usize = 200;

/// An error a direct caller of the store can receive.
#[derive(Debug, PartialEq, Eq, Structural)]
pub enum ClipboardError {
    /// The entry's estimated size exceeds the store's content size limit.
    ContentTooLarge { size: usize, max: usize },
}

impl ClipboardError {
    /// The error rendered for the user, naming the size and the limit.
    pub fn message(&self) -> (r: String)
        ensures
            r@ == match *self {
                ClipboardError::ContentTooLarge { size, max } => "Content too large: "@ + dec_of(
                    size as nat,
                ) + " bytes (max: "@ + dec_of(max as nat) + " bytes)"@,
            },
    {
        match self {
            ClipboardError::ContentTooLarge { size, max } => {
                let mut r = String::new();
                r.append("Content too large: ");
                r.append(u64_string(*size as u64).as_str());
                r.append(" bytes (max: ");
                r.append(u64_string(*max as u64).as_str());
                r.append(" bytes)");
                proof {
                    assert(r@ =~= "Content too large: "@ + dec_of(*size as nat) + " bytes (max: "@
                        + dec_of(*max as nat) + " bytes)"@);
                }
                r
            },
        }
    }
}

/// Whether the store rejects this entry outright: its size is over the limit.
pub open spec fn insert_rejected(item: ItemView, max_content: int) -> bool {
    content_size(item.content) > max_content
}

/// Whether the store suppresses this entry as an adjacent duplicate: the
/// current front entry carries the same fingerprint.
pub open spec fn insert_suppressed(h: Seq<ItemView>, item: ItemView) -> bool {
    h.len() > 0 && h[0].content_hash == item.content_hash
}

/// The history after a mutating insert: the entry at the front, the oldest
/// entries evicted until the bound holds again.
pub open spec fn inserted(h: Seq<ItemView>, item: ItemView, max_history: int) -> Seq<ItemView> {
    let grown = seq![item] + h;
    if grown.len() <= max_history {
        grown
    } else {
        grown.take(max_history)
    }
}

/// The history after an attempted insert, whatever its outcome.
pub open spec fn apply_insert(
    h: Seq<ItemView>,
    item: ItemView,
    max_content: int,
    max_history: int,
) -> Seq<ItemView> {
    if insert_rejected(item, max_content) || insert_suppressed(h, item) {
        h
    } else {
        inserted(h, item, max_history)
    }
}

/// The history that results from replaying a stored newest-first sequence of
/// entries through the insert rules, oldest first.
pub open spec fn replay(
    items: Seq<ItemView>,
    max_content: int,
    max_history: int,
) -> Seq<ItemView>
    decreases items.len(),
{
    if items.len() == 0 {
        Seq::empty()
    } else {
        apply_insert(
            replay(items.drop_first(), max_content, max_history),
            items[0],
            max_content,
            max_history,
        )
    }
}

/// An integer capped at what a `usize` can report.
pub open spec fn clamp_usize(n: int) -> int {
    if n <= usize::MAX {
        n
    } else {
        usize::MAX as int
    }
}

/// The summed estimated size of a history.
pub open spec fn total_size(h: Seq<ItemView>) -> int
    decreases h.len(),
{
    if h.len() == 0 {
        0
    } else {
        total_size(h.drop_last()) + content_size(h.last().content)
    }
}

/// The summed estimated size of a history is never negative.
pub proof fn lemma_total_size_nonneg(h: Seq<ItemView>)
    ensures
        total_size(h) >= 0,
    decreases h.len(),
{
    if h.len() > 0 {
        lemma_total_size_nonneg(h.drop_last());
        crate::clipboard_item::lemma_content_size_nonneg(h.last().content);
    }
}

/// The largest single estimated entry size of a history.
pub open spec fn max_item_size(h: Seq<ItemView>) -> int
    decreases h.len(),
{
    if h.len() == 0 {
        0
    } else if content_size(h.last().content) >= max_item_size(h.drop_last()) {
        content_size(h.last().content)
    } else {
        max_item_size(h.drop_last())
    }
}

/// Whether an entry's display text, case-folded, contains the case-folded
/// query.
pub open spec fn exact_hit(e: ItemView, lowered_query: Seq<char>) -> bool {
    contains_seq(lower_of(display_of(e.content)), lowered_query)
}

/// The indices of the entries an exact search returns, in history order.
pub open spec fn exact_match_indices(h: Seq<ItemView>, lq: Seq<char>) -> Seq<int>
    decreases h.len(),
{
    if h.len() == 0 {
        Seq::empty()
    } else {
        let rest = exact_match_indices(h.drop_last(), lq);
        if exact_hit(h.last(), lq) {
            rest.push(h.len() - 1)
        } else {
            rest
        }
    }
}

/// The fuzzy score of a choice string against a pattern, as
/// `fuzzy_matcher`'s `SkimMatcherV2` computes it with its default
/// configuration: a pure function of the two strings.
pub uninterp spec fn fuzzy_score(choice: Seq<char>, pattern: Seq<char>) -> Option<int>;

/// Relies on `SkimMatcherV2::fuzzy_match` with the default configuration:
/// deterministic in the choice and the pattern alone.
#[verifier::external_body]
fn fuzzy_match_score(choice: &str, pattern: &str) -> (r: Option<i64>)
    ensures
        r is Some <==> fuzzy_score(choice@, pattern@) is Some,
        r matches Some(s) ==> fuzzy_score(choice@, pattern@) == Some(s as int),
{
    let matcher = fuzzy_matcher::skim::SkimMatcherV2::default();
    matcher.fuzzy_match(choice, pattern)
}

/// The `(index, score)` pairs of the entries whose display text fuzzily
/// matches the query, in history order.
pub open spec fn fuzzy_candidates(h: Seq<ItemView>, q: Seq<char>) -> Seq<(int, int)>
    decreases h.len(),
{
    if h.len() == 0 {
        Seq::empty()
    } else {
        let rest = fuzzy_candidates(h.drop_last(), q);
        match fuzzy_score(display_of(h.last().content), q) {
            Some(s) => rest.push((h.len() - 1, s)),
            None => rest,
        }
    }
}

/// The strict order fuzzy results are listed in: higher score first, and the
/// earlier history index first among equal scores.
pub open spec fn score_before(a: (int, int), b: (int, int)) -> bool {
    a.1 > b.1 || (a.1 == b.1 && a.0 < b.0)
}

/// `x` inserted into `s` just before the first element it is ordered before.
pub open spec fn insert_by_score(s: Seq<(int, int)>, x: (int, int)) -> Seq<(int, int)>
    decreases s.len(),
{
    if s.len() == 0 {
        seq![x]
    } else if score_before(x, s[0]) {
        seq![x] + s
    } else {
        seq![s[0]] + insert_by_score(s.drop_first(), x)
    }
}

/// The candidates sorted by score descending; equal scores keep their
/// original relative order.
pub open spec fn sort_by_score(c: Seq<(int, int)>) -> Seq<(int, int)>
    decreases c.len(),
{
    if c.len() == 0 {
        Seq::empty()
    } else {
        insert_by_score(sort_by_score(c.drop_last()), c.last())
    }
}

/// Inserting at the position the scan finds is what `insert_by_score` means.
proof fn lemma_insert_by_score_at(s: Seq<(int, int)>, x: (int, int), p: int)
    requires
        0 <= p <= s.len(),
        forall|k: int| 0 <= k < p ==> !score_before(x, #[trigger] s[k]),
        p < s.len() ==> score_before(x, s[p]),
    ensures
        insert_by_score(s, x) == s.take(p) + seq![x] + s.skip(p),
    decreases s.len(),
{
    if p == 0 {
        if s.len() == 0 {
            assert(insert_by_score(s, x) =~= s.take(0) + seq![x] + s.skip(0));
        } else {
            assert(insert_by_score(s, x) =~= s.take(0) + seq![x] + s.skip(0));
        }
    } else {
        assert(!score_before(x, s[0]));
        lemma_insert_by_score_at(s.drop_first(), x, p - 1);
        assert(seq![s[0]] + (s.drop_first().take(p - 1) + seq![x] + s.drop_first().skip(p - 1))
            =~= s.take(p) + seq![x] + s.skip(p));
    }
}

/// The pair a stored fuzzy result contributes to the ordering.
pub open spec fn result_pair(t: (usize, ClipboardItem, i64)) -> (int, int) {
    (t.0 as int, t.2 as int)
}

fn score_before_exec(a: &(usize, ClipboardItem, i64), b: &(usize, ClipboardItem, i64)) -> (r:
    bool)
    ensures
        r == score_before(result_pair(*a), result_pair(*b)),
{
    a.2 > b.2 || (a.2 == b.2 && a.0 < b.0)
}

/// The position of the first stored result that `x` is strictly ordered
/// before; the end when there is none.
fn find_insert_pos(out: &Vec<(usize, ClipboardItem, i64)>, x: &(usize, ClipboardItem, i64)) -> (p:
    usize)
    ensures
        p <= out@.len(),
        forall|k: int|
            0 <= k < p ==> !score_before(
                result_pair(*x),
                result_pair(#[trigger] out@[k]),
            ),
        p < out@.len() ==> score_before(result_pair(*x), result_pair(out@[p as int])),
{
    let mut p: usize = 0;
    while p < out.len()
        invariant
            p <= out@.len(),
            forall|k: int|
                0 <= k < p ==> !score_before(
                    result_pair(*x),
                    result_pair(#[trigger] out@[k]),
                ),
        decreases out@.len() - p,
    {
        if score_before_exec(x, &out[p]) {
            return p;
        }
        p += 1;
    }
    p
}

/// Inserts a scored result into an already sorted result list, after every
/// element it is not strictly ordered before.
fn insert_result_sorted(out: &mut Vec<(usize, ClipboardItem, i64)>, x: (usize, ClipboardItem, i64))
    ensures
        final(out)@.map_values(|t: (usize, ClipboardItem, i64)| result_pair(t)) == insert_by_score(
            old(out)@.map_values(|t: (usize, ClipboardItem, i64)| result_pair(t)),
            result_pair(x),
        ),
        forall|k: int|
            0 <= k < final(out)@.len() ==> final(out)@[k] == x || old(out)@.contains(
                #[trigger] final(out)@[k],
            ),
{
    let ghost pairs = out@.map_values(|t: (usize, ClipboardItem, i64)| result_pair(t));
    let p = find_insert_pos(out, &x);
    proof {
        lemma_insert_by_score_at(pairs, result_pair(x), p as int);
    }
    let ghost pre = out@;
    out.insert(p, x);
    proof {
        assert(out@ =~= pre.take(p as int) + seq![x] + pre.skip(p as int));
        assert(out@.map_values(|t: (usize, ClipboardItem, i64)| result_pair(t)) =~= pairs.take(
            p as int,
        ) + seq![result_pair(x)] + pairs.skip(p as int));
        assert forall|k: int| 0 <= k < out@.len() implies out@[k] == x || pre.contains(
            #[trigger] out@[k],
        ) by {
            if k < p {
                assert(out@[k] == pre[k]);
            } else if k > p {
                assert(out@[k] == pre[k - 1]);
            }
        }
    }
}

/// What inserting a freshly built plain-text entry did: some well-formed
/// entry with exactly this text went through the insert rules.
pub open spec fn text_insert_outcome(
    iv: ItemView,
    text: Seq<char>,
    pre: Seq<ItemView>,
    post: Seq<ItemView>,
    max_content: int,
    max_history: int,
    mutated: bool,
) -> bool {
    &&& iv.wf()
    &&& iv.content == ContentView::Text(text)
    &&& mutated == !insert_suppressed(pre, iv)
    &&& post == apply_insert(pre, iv, max_content, max_history)
}

/// Adjacent-duplicate idempotence: inserting well-formed entries with equal
/// content twice in a row leaves the history exactly as after the first
/// insert; the second is suppressed.
pub proof fn lemma_adjacent_duplicate_idempotent(
    h: Seq<ItemView>,
    a: ItemView,
    b: ItemView,
    max_content: int,
    max_history: int,
)
    requires
        a.wf(),
        b.wf(),
        a.content == b.content,
        max_history >= 1,
    ensures
        apply_insert(
            apply_insert(h, a, max_content, max_history),
            b,
            max_content,
            max_history,
        ) == apply_insert(h, a, max_content, max_history),
{
    let h1 = apply_insert(h, a, max_content, max_history);
    if insert_rejected(a, max_content) {
    } else if insert_suppressed(h, a) {
        assert(h1 == h);
        assert(insert_suppressed(h1, b));
    } else {
        let grown = seq![a] + h;
        assert(grown[0] == a);
        if grown.len() <= max_history {
            assert(h1[0] == a);
        } else {
            assert(h1 == grown.take(max_history));
            assert(h1[0] == a);
        }
        assert(insert_suppressed(h1, b));
    }
}

/// Non-adjacent duplicates are preserved: inserting content A, then distinct
/// content B, then A again records three entries.
pub proof fn lemma_non_adjacent_duplicate_kept(
    a: ItemView,
    b: ItemView,
    a2: ItemView,
    max_content: int,
    max_history: int,
)
    requires
        a.wf(),
        b.wf(),
        a2.wf(),
        a2.content == a.content,
        a.content_hash != b.content_hash,
        !insert_rejected(a, max_content),
        !insert_rejected(b, max_content),
        max_history >= 3,
    ensures
        apply_insert(
            apply_insert(
                apply_insert(Seq::<ItemView>::empty(), a, max_content, max_history),
                b,
                max_content,
                max_history,
            ),
            a2,
            max_content,
            max_history,
        ).len() == 3,
{
    let h1 = apply_insert(Seq::<ItemView>::empty(), a, max_content, max_history);
    assert(h1 =~= seq![a]);
    let h2 = apply_insert(h1, b, max_content, max_history);
    assert(h2 =~= seq![b] + seq![a]);
    let h3 = apply_insert(h2, a2, max_content, max_history);
    assert(!insert_rejected(a2, max_content));
    assert(h2[0].content_hash != a2.content_hash);
    assert(h3 =~= seq![a2] + h2);
}

/// Bound invariant: however an insert turns out, a history within its bound
/// stays within it.
pub proof fn lemma_bound_invariant(
    h: Seq<ItemView>,
    item: ItemView,
    max_content: int,
    max_history: int,
)
    requires
        h.len() <= max_history,
        max_history >= 1,
    ensures
        apply_insert(h, item, max_content, max_history).len() <= max_history,
{
}

/// Order invariant: a mutating insert always places the new entry at the
/// front, and what survives behind it is the newest prefix of the old
/// history — eviction drops only the oldest entries.
pub proof fn lemma_newest_first(
    h: Seq<ItemView>,
    item: ItemView,
    max_content: int,
    max_history: int,
)
    requires
        max_history >= 1,
        !insert_rejected(item, max_content),
        !insert_suppressed(h, item),
    ensures
        apply_insert(h, item, max_content, max_history).len() >= 1,
        apply_insert(h, item, max_content, max_history)[0] == item,
        apply_insert(h, item, max_content, max_history) == seq![item] + h.take(
            vstd::math::min(h.len() as int, max_history - 1),
        ),
{
    let grown = seq![item] + h;
    let r = apply_insert(h, item, max_content, max_history);
    if grown.len() <= max_history {
        assert(r =~= seq![item] + h.take(vstd::math::min(h.len() as int, max_history - 1)));
    } else {
        assert(r == grown.take(max_history));
        assert(r =~= seq![item] + h.take(vstd::math::min(h.len() as int, max_history - 1)));
    }
    assert(r[0] == item);
}

/// Filling the store past its bound keeps exactly the most recent entries:
/// replaying any newest-first run of entries that all fit the size limit and
/// never repeat a fingerprint back to back leaves precisely the newest
/// `max_history` of them, in order.
pub proof fn lemma_eviction_keeps_most_recent(
    items: Seq<ItemView>,
    max_content: int,
    max_history: int,
)
    requires
        max_history >= 1,
        forall|i: int| 0 <= i < items.len() ==> !insert_rejected(#[trigger] items[i], max_content),
        forall|i: int|
            0 <= i < items.len() - 1 ==> (#[trigger] items[i]).content_hash != items[
                i + 1
            ].content_hash,
    ensures
        replay(items, max_content, max_history) == items.take(
            vstd::math::min(items.len() as int, max_history),
        ),
    decreases items.len(),
{
    if items.len() == 0 {
        assert(replay(items, max_content, max_history) =~= items.take(0));
    } else {
        let tail = items.drop_first();
        assert(forall|i: int| 0 <= i < tail.len() ==> #[trigger] tail[i] == items[i + 1]);
        lemma_eviction_keeps_most_recent(tail, max_content, max_history);
        let kept = tail.take(vstd::math::min(tail.len() as int, max_history));
        if kept.len() > 0 {
            assert(kept[0] == items[1]);
            assert(items[0].content_hash != items[1].content_hash);
        }
        assert(!insert_suppressed(kept, items[0]));
        let grown = seq![items[0]] + kept;
        if grown.len() <= max_history {
            assert(grown =~= items.take(vstd::math::min(items.len() as int, max_history)));
        } else {
            assert(grown.take(max_history) =~= items.take(
                vstd::math::min(items.len() as int, max_history),
            ));
        }
    }
}

/// An empty history's statistics are all zero.
pub proof fn lemma_empty_usage_stats()
    ensures
        total_size(Seq::<ItemView>::empty()) == 0,
        max_item_size(Seq::<ItemView>::empty()) == 0,
        clamp_usize(total_size(Seq::<ItemView>::empty())) == 0,
{
}

/// Fuzzy results are listed by score descending, and equal scores keep their
/// history order: the strict order `score_before` holds pairwise.
pub open spec fn stably_sorted(s: Seq<(int, int)>) -> bool {
    forall|k: int, l: int| 0 <= k < l < s.len() ==> score_before(#[trigger] s[k], #[trigger] s[l])
}

/// Every element an insertion produces is the inserted one or was there.
proof fn lemma_insert_by_score_members(s: Seq<(int, int)>, x: (int, int))
    ensures
        forall|k: int|
            0 <= k < insert_by_score(s, x).len() ==> insert_by_score(s, x)[k] == x || s.contains(
                #[trigger] insert_by_score(s, x)[k],
            ),
        insert_by_score(s, x).len() == s.len() + 1,
    decreases s.len(),
{
    if s.len() == 0 {
    } else if score_before(x, s[0]) {
        assert forall|k: int|
            0 <= k < insert_by_score(s, x).len() implies insert_by_score(s, x)[k] == x
            || s.contains(#[trigger] insert_by_score(s, x)[k]) by {
            if k > 0 {
                assert(insert_by_score(s, x)[k] == s[k - 1]);
            }
        }
    } else {
        lemma_insert_by_score_members(s.drop_first(), x);
        let rec = insert_by_score(s.drop_first(), x);
        assert forall|k: int|
            0 <= k < insert_by_score(s, x).len() implies insert_by_score(s, x)[k] == x
            || s.contains(#[trigger] insert_by_score(s, x)[k]) by {
            if k > 0 {
                assert(insert_by_score(s, x)[k] == rec[k - 1]);
                if rec[k - 1] != x {
                    assert(s.drop_first().contains(rec[k - 1]));
                    let j = choose|j: int|
                        0 <= j < s.drop_first().len() && s.drop_first()[j] == rec[k - 1];
                    assert(s[j + 1] == rec[k - 1]);
                }
            } else {
                assert(insert_by_score(s, x)[0] == s[0]);
            }
        }
    }
}

/// Inserting an entry with a later history index than everything present
/// keeps the list stably sorted.
proof fn lemma_insert_by_score_stable(s: Seq<(int, int)>, x: (int, int))
    requires
        stably_sorted(s),
        forall|k: int| 0 <= k < s.len() ==> (#[trigger] s[k]).0 < x.0,
    ensures
        stably_sorted(insert_by_score(s, x)),
    decreases s.len(),
{
    if s.len() == 0 {
    } else if score_before(x, s[0]) {
        let r = seq![x] + s;
        assert forall|k: int, l: int| 0 <= k < l < r.len() implies score_before(
            #[trigger] r[k],
            #[trigger] r[l],
        ) by {
            if k == 0 {
                assert(r[l] == s[l - 1]);
                if l > 1 {
                    assert(score_before(s[0], s[l - 1]));
                }
            } else {
                assert(r[k] == s[k - 1] && r[l] == s[l - 1]);
            }
        }
    } else {
        assert(forall|k: int|
            0 <= k < s.drop_first().len() ==> (#[trigger] s.drop_first()[k]) == s[k + 1]);
        lemma_insert_by_score_stable(s.drop_first(), x);
        lemma_insert_by_score_members(s.drop_first(), x);
        let rec = insert_by_score(s.drop_first(), x);
        let r = seq![s[0]] + rec;
        assert(score_before(s[0], x));
        assert forall|k: int, l: int| 0 <= k < l < r.len() implies score_before(
            #[trigger] r[k],
            #[trigger] r[l],
        ) by {
            if k == 0 {
                assert(r[l] == rec[l - 1]);
                if rec[l - 1] != x {
                    assert(s.drop_first().contains(rec[l - 1]));
                    let j = choose|j: int|
                        0 <= j < s.drop_first().len() && s.drop_first()[j] == rec[l - 1];
                    assert(score_before(s[0], s[j + 1]));
                }
            } else {
                assert(r[k] == rec[k - 1] && r[l] == rec[l - 1]);
            }
        }
    }
}

/// Sorting candidates whose history indices strictly increase yields a
/// stably sorted result: score descending, history order among equal scores.
pub proof fn lemma_sort_by_score_stable(c: Seq<(int, int)>)
    requires
        forall|k: int, l: int| 0 <= k < l < c.len() ==> (#[trigger] c[k]).0 < (#[trigger] c[l]).0,
    ensures
        stably_sorted(sort_by_score(c)),
    decreases c.len(),
{
    if c.len() > 0 {
        let body = c.drop_last();
        assert(forall|k: int| 0 <= k < body.len() ==> (#[trigger] body[k]) == c[k]);
        lemma_sort_by_score_stable(body);
        lemma_sort_by_score_members(body);
        let sorted = sort_by_score(body);
        assert forall|k: int| 0 <= k < sorted.len() implies (#[trigger] sorted[k]).0
            < c.last().0 by {
            assert(body.contains(sorted[k]));
            let j = choose|j: int| 0 <= j < body.len() && body[j] == sorted[k];
            assert(c[j].0 < c.last().0);
        }
        lemma_insert_by_score_stable(sorted, c.last());
    }
}

/// Every element the sort produces was among the candidates.
proof fn lemma_sort_by_score_members(c: Seq<(int, int)>)
    ensures
        forall|k: int|
            0 <= k < sort_by_score(c).len() ==> c.contains(#[trigger] sort_by_score(c)[k]),
        sort_by_score(c).len() == c.len(),
    decreases c.len(),
{
    if c.len() > 0 {
        let body = c.drop_last();
        lemma_sort_by_score_members(body);
        lemma_insert_by_score_members(sort_by_score(body), c.last());
        let r = sort_by_score(c);
        assert forall|k: int| 0 <= k < r.len() implies c.contains(#[trigger] r[k]) by {
            if r[k] == c.last() {
                assert(c[c.len() - 1] == c.last());
            } else {
                assert(sort_by_score(body).contains(r[k]));
                let j = choose|j: int|
                    0 <= j < sort_by_score(body).len() && sort_by_score(body)[j] == r[k];
                assert(body.contains(r[k]));
                let m = choose|m: int| 0 <= m < body.len() && body[m] == r[k];
                assert(c[m] == r[k]);
            }
        }
    }
}

/// Fuzzy candidates carry strictly increasing history indices, each within
/// the history.
pub proof fn lemma_fuzzy_candidates_increasing(h: Seq<ItemView>, q: Seq<char>)
    ensures
        forall|k: int|
            0 <= k < fuzzy_candidates(h, q).len() ==> 0 <= (#[trigger] fuzzy_candidates(h, q)[k]).0
                < h.len(),
        forall|k: int, l: int|
            0 <= k < l < fuzzy_candidates(h, q).len() ==> (#[trigger] fuzzy_candidates(h, q)[k]).0
                < (#[trigger] fuzzy_candidates(h, q)[l]).0,
    decreases h.len(),
{
    if h.len() > 0 {
        lemma_fuzzy_candidates_increasing(h.drop_last(), q);
        let rest = fuzzy_candidates(h.drop_last(), q);
        let whole = fuzzy_candidates(h, q);
        match fuzzy_score(display_of(h.last().content), q) {
            Some(s) => {
                assert(whole == rest.push((h.len() - 1, s)));
                assert(forall|k: int| 0 <= k < rest.len() ==> whole[k] == #[trigger] rest[k]);
                assert(whole[whole.len() - 1] == (h.len() - 1, s));
            },
            None => {
                assert(whole == rest);
            },
        }
    }
}

/// The fuzzy search's ordering law: its results are sorted by score
/// descending, and equal scores keep their original history order.
pub proof fn lemma_fuzzy_results_ordered(h: Seq<ItemView>, q: Seq<char>)
    ensures
        stably_sorted(sort_by_score(fuzzy_candidates(h, q))),
{
    lemma_fuzzy_candidates_increasing(h, q);
    lemma_sort_by_score_stable(fuzzy_candidates(h, q));
}

/// The exact search's ordering and completeness law: its indices strictly
/// increase (original history order), each names a matching entry, and every
/// matching entry is named.
pub proof fn lemma_exact_search_complete(h: Seq<ItemView>, lq: Seq<char>)
    ensures
        forall|k: int, l: int|
            0 <= k < l < exact_match_indices(h, lq).len() ==> #[trigger] exact_match_indices(
                h,
                lq,
            )[k] < #[trigger] exact_match_indices(h, lq)[l],
        forall|k: int|
            0 <= k < exact_match_indices(h, lq).len() ==> 0 <= #[trigger] exact_match_indices(
                h,
                lq,
            )[k] < h.len() && exact_hit(h[exact_match_indices(h, lq)[k]], lq),
        forall|j: int|
            0 <= j < h.len() && exact_hit(#[trigger] h[j], lq) ==> exact_match_indices(
                h,
                lq,
            ).contains(j),
    decreases h.len(),
{
    if h.len() > 0 {
        lemma_exact_search_complete(h.drop_last(), lq);
        let body = h.drop_last();
        let rest = exact_match_indices(body, lq);
        assert forall|j: int|
            0 <= j < h.len() && exact_hit(#[trigger] h[j], lq) implies exact_match_indices(
            h,
            lq,
        ).contains(j) by {
            if j < h.len() - 1 {
                assert(body[j] == h[j]);
                assert(rest.contains(j));
                let m = choose|m: int| 0 <= m < rest.len() && rest[m] == j;
                assert(exact_match_indices(h, lq)[m] == j);
            } else {
                assert(exact_hit(h.last(), lq));
                assert(exact_match_indices(h, lq).last() == j);
            }
        }
        assert forall|k: int|
            0 <= k < exact_match_indices(h, lq).len() implies 0 <= #[trigger] exact_match_indices(
            h,
            lq,
        )[k] < h.len() && exact_hit(h[exact_match_indices(h, lq)[k]], lq) by {
            if k < rest.len() {
                assert(exact_match_indices(h, lq)[k] == rest[k]);
                assert(body[rest[k]] == h[rest[k]]);
            }
        }
    }
}

/// The bounded, newest-first history of captured entries.
#[derive(Debug)]
pub struct ClipboardManager {
    history: std::collections::VecDeque<ClipboardItem>,
    storage: Storage,
    max_content_size: usize,
    max_history_size: usize,
}

impl ClipboardManager {
    /// The stored entries, newest first.
    pub closed spec fn entries(&self) -> Seq<ItemView> {
        self.history@.map_values(|it: ClipboardItem| it@)
    }

    /// The store's bound on one entry's estimated size.
    pub closed spec fn max_content(&self) -> usize {
        self.max_content_size
    }

    /// The store's bound on the number of entries.
    pub closed spec fn max_history(&self) -> usize {
        self.max_history_size
    }

    /// The path the store's history is persisted to.
    pub closed spec fn storage_path(&self) -> Seq<char> {
        self.storage@
    }

    /// The store's configuration, unchanged by mutations.
    pub open spec fn same_config(&self, other: &Self) -> bool {
        &&& self.max_content() == other.max_content()
        &&& self.max_history() == other.max_history()
        &&& self.storage_path() == other.storage_path()
    }

    /// The store's invariant: the bound holds, every entry fits the size
    /// limit, and the limits themselves are usable.
    pub open spec fn wf(&self) -> bool {
        &&& self.entries().len() <= self.max_history()
        &&& forall|i: int|
            0 <= i < self.entries().len() ==> content_size(
                #[trigger] self.entries()[i].content,
            ) <= self.max_content()
        &&& 1 <= self.max_history()
        &&& self.max_content() < usize::MAX
    }

    /// An empty store with the default limits, persisted to a scratch file.
    pub fn new_empty() -> (r: Self)
        ensures
            r.wf(),
            r.entries() == Seq::<ItemView>::empty(),
            r.max_content() == MAX_CONTENT_SIZE,
            r.max_history() == MAX_HISTORY_SIZE,
            r.storage_path() == "test_history.json"@,
    {
        let mut path = String::new();
        path.append("test_history.json");
        Self::new_with_limits(
            MAX_CONTENT_SIZE,
            MAX_HISTORY_SIZE,
            Storage::new_with_file(path),
        )
    }

    /// An empty store with explicit limits. The requirements are machine
    /// limits: they keep size totals within `usize`.
    pub fn new_with_limits(max_content_size: usize, max_history_size: usize, storage: Storage) -> (r:
        Self)
        requires
            1 <= max_history_size,
            max_content_size < usize::MAX,
        ensures
            r.wf(),
            r.entries() == Seq::<ItemView>::empty(),
            r.max_content() == max_content_size,
            r.max_history() == max_history_size,
            r.storage_path() == storage@,
    {
        let r = ClipboardManager {
            history: std::collections::VecDeque::new(),
            storage,
            max_content_size,
            max_history_size,
        };
        proof {
            assert(r.entries() =~= Seq::<ItemView>::empty());
        }
        r
    }

    /// A store primed with a persisted newest-first sequence of entries,
    /// replayed through the insert rules so that the invariant holds whatever
    /// the file held.
    pub fn new_with_history(items: Vec<ClipboardItem>, storage: Storage) -> (r: Self)
        ensures
            r.wf(),
            r.max_content() == MAX_CONTENT_SIZE,
            r.max_history() == MAX_HISTORY_SIZE,
            r.storage_path() == storage@,
            r.entries() == replay(
                items@.map_values(|it: ClipboardItem| it@),
                MAX_CONTENT_SIZE as int,
                MAX_HISTORY_SIZE as int,
            ),
    {
        let ghost views = items@.map_values(|it: ClipboardItem| it@);
        let mut r = Self::new_with_limits(MAX_CONTENT_SIZE, MAX_HISTORY_SIZE, storage);
        let mut i: usize = items.len();
        proof {
            assert(views.skip(items@.len() as int) =~= Seq::<ItemView>::empty());
        }
        while i > 0
            invariant
                i <= items@.len(),
                views == items@.map_values(|it: ClipboardItem| it@),
                r.wf(),
                r.max_content() == MAX_CONTENT_SIZE,
                r.max_history() == MAX_HISTORY_SIZE,
                r.storage_path() == storage@,
                r.entries() == replay(
                    views.skip(i as int),
                    MAX_CONTENT_SIZE as int,
                    MAX_HISTORY_SIZE as int,
                ),
            decreases i,
        {
            let item = items[i - 1].clone();
            let ghost iv = item@;
            let ghost pre = r.entries();
            let res = r.add_clipboard_item(item);
            proof {
                assert(iv == views[i - 1]);
                assert(views.skip(i - 1)[0] == views[i - 1]);
                assert(views.skip(i - 1).drop_first() =~= views.skip(i as int));
                if res is Err {
                    assert(r.entries() == apply_insert(
                        pre,
                        iv,
                        MAX_CONTENT_SIZE as int,
                        MAX_HISTORY_SIZE as int,
                    ));
                }
            }
            i -= 1;
        }
        proof {
            assert(views.skip(0) =~= views);
        }
        r
    }

    /// Attempts to insert an entry. An oversized entry is rejected without
    /// mutation; an adjacent duplicate is suppressed as a no-op success;
    /// otherwise the entry goes to the front and the oldest entries are
    /// evicted until the bound holds. `Ok(true)` reports that the history
    /// changed, so the caller knows to persist it.
    pub fn add_clipboard_item(&mut self, item: ClipboardItem) -> (r: Result<bool, ClipboardError>)
        requires
            old(self).wf(),
        ensures
            final(self).wf(),
            final(self).same_config(old(self)),
            match r {
                Err(e) => {
                    &&& e == (ClipboardError::ContentTooLarge {
                        size: clamped_size(item@.content),
                        max: old(self).max_content(),
                    })
                    &&& insert_rejected(item@, old(self).max_content() as int)
                    &&& final(self).entries() == old(self).entries()
                },
                Ok(mutated) => {
                    &&& !insert_rejected(item@, old(self).max_content() as int)
                    &&& mutated == !insert_suppressed(old(self).entries(), item@)
                    &&& final(self).entries() == apply_insert(
                        old(self).entries(),
                        item@,
                        old(self).max_content() as int,
                        old(self).max_history() as int,
                    )
                },
            },
    {
        let item_size = item.get_size_bytes();
        proof {
            crate::clipboard_item::lemma_content_size_nonneg(item@.content);
        }
        if item_size > self.max_content_size {
            return Err(
                ClipboardError::ContentTooLarge { size: item_size, max: self.max_content_size },
            );
        }
        if self.history.len() > 0 {
            let front_hash = self.history[0].content_hash;
            if front_hash == item.content_hash {
                proof {
                    assert(self.entries()[0].content_hash == item@.content_hash);
                }
                return Ok(false);
            }
        }
        proof {
            assert(!insert_suppressed(self.entries(), item@));
        }
        self.history.push_front(item);
        let ghost grown = self.history@;
        proof {
            assert(self.entries() =~= seq![item@] + old(self).entries());
            assert(grown.take(grown.len() as int) =~= grown);
        }
        while self.history.len() > self.max_history_size
            invariant
                self.max_history_size == old(self).max_history_size,
                self.max_content_size == old(self).max_content_size,
                self.storage == old(self).storage,
                grown.map_values(|it: ClipboardItem| it@) == seq![item@] + old(self).entries(),
                self.history@.len() <= grown.len(),
                self.history@ == grown.take(self.history@.len() as int),
                self.history@.len() >= self.max_history_size || self.history@ == grown,
            decreases self.history@.len(),
        {
            let ghost pre = self.history@;
            let _ = self.history.pop_back();
            proof {
                assert(pre.subrange(0, pre.len() - 1) =~= grown.take(pre.len() - 1));
            }
        }
        proof {
            let maxh = old(self).max_history() as int;
            let gv = seq![item@] + old(self).entries();
            assert(self.entries() =~= grown.take(self.history@.len() as int).map_values(
                |it: ClipboardItem| it@,
            ));
            assert(grown.take(self.history@.len() as int).map_values(|it: ClipboardItem| it@)
                =~= gv.take(self.history@.len() as int));
            if gv.len() <= maxh {
                assert(gv.take(gv.len() as int) =~= gv);
            } else {
                assert(self.history@.len() == maxh);
            }
            assert(self.entries() == inserted(
                old(self).entries(),
                item@,
                old(self).max_history() as int,
            ));
        }
        Ok(true)
    }

    /// Inserts a plain-text entry built from the given string.
    pub fn add_item(&mut self, content: String) -> (r: Result<bool, ClipboardError>)
        requires
            old(self).wf(),
        ensures
            final(self).wf(),
            final(self).same_config(old(self)),
            match r {
                Err(e) => {
                    &&& e == (ClipboardError::ContentTooLarge {
                        size: clamped_size(ContentView::Text(content@)),
                        max: old(self).max_content(),
                    })
                    &&& content_size(ContentView::Text(content@)) > old(self).max_content()
                    &&& final(self).entries() == old(self).entries()
                },
                Ok(mutated) => {
                    &&& content_size(ContentView::Text(content@)) <= old(self).max_content()
                    &&& exists|iv: ItemView|
                        #[trigger] text_insert_outcome(
                            iv,
                            content@,
                            old(self).entries(),
                            final(self).entries(),
                            old(self).max_content() as int,
                            old(self).max_history() as int,
                            mutated,
                        )
                },
            },
    {
        let item = ClipboardItem::new_text(content);
        let ghost iv = item@;
        let r = self.add_clipboard_item(item);
        proof {
            if r is Ok {
                assert(text_insert_outcome(
                    iv,
                    content@,
                    old(self).entries(),
                    self.entries(),
                    old(self).max_content() as int,
                    old(self).max_history() as int,
                    r->Ok_0,
                ));
            }
        }
        r
    }

    /// A value copy of the current history, newest first.
    pub fn get_history(&self) -> (r: Vec<ClipboardItem>)
        ensures
            r@.map_values(|it: ClipboardItem| it@) == self.entries(),
    {
        let mut r: Vec<ClipboardItem> = Vec::new();
        let mut i: usize = 0;
        while i < self.history.len()
            invariant
                i <= self.history@.len(),
                r@.len() == i,
                forall|j: int| 0 <= j < i ==> #[trigger] r@[j]@ == self.history@[j]@,
            decreases self.history@.len() - i,
        {
            r.push(self.history[i].clone());
            i += 1;
        }
        proof {
            assert(r@.map_values(|it: ClipboardItem| it@) =~= self.entries());
        }
        r
    }

    /// How many entries the history holds.
    pub fn get_history_count(&self) -> (r: usize)
        ensures
            r == self.entries().len(),
    {
        self.history.len()
    }

    /// Empties the history. The caller persists the now-empty sequence.
    pub fn clear_history(&mut self)
        requires
            old(self).wf(),
        ensures
            final(self).wf(),
            final(self).same_config(old(self)),
            final(self).entries() == Seq::<ItemView>::empty(),
    {
        self.history.clear();
        proof {
            assert(self.entries() =~= Seq::<ItemView>::empty());
        }
    }

    /// Case-insensitive substring search over the entries' display text. The
    /// matches come in history order (newest first), each with its index in
    /// the current history.
    pub fn search_history(&self, query: &str) -> (r: Vec<(usize, ClipboardItem)>)
        ensures
            r@.map_values(|p: (usize, ClipboardItem)| p.0 as int) == exact_match_indices(
                self.entries(),
                lower_of(query@),
            ),
            forall|k: int|
                0 <= k < r@.len() ==> (#[trigger] r@[k]).0 < self.entries().len() && r@[k].1@
                    == self.entries()[r@[k].0 as int],
    {
        let ghost h = self.entries();
        let ghost lq = lower_of(query@);
        let lowered_query = lowercase(query);
        let query_chars = chars_of(lowered_query.as_str());
        let mut r: Vec<(usize, ClipboardItem)> = Vec::new();
        let mut i: usize = 0;
        proof {
            assert(h.take(0) =~= Seq::<ItemView>::empty());
            assert(r@.map_values(|p: (usize, ClipboardItem)| p.0 as int) =~= exact_match_indices(
                h.take(0),
                lq,
            ));
        }
        while i < self.history.len()
            invariant
                i <= h.len(),
                h == self.entries(),
                lq == lower_of(query@),
                query_chars@ == lq,
                r@.map_values(|p: (usize, ClipboardItem)| p.0 as int) == exact_match_indices(
                    h.take(i as int),
                    lq,
                ),
                forall|k: int|
                    0 <= k < r@.len() ==> (#[trigger] r@[k]).0 < h.len() && r@[k].1@ == h[r@[k].0
                        as int],
            decreases h.len() - i,
        {
            let item = &self.history[i];
            let text = item.display_content();
            let lowered_text = lowercase(text.as_str());
            let text_chars = chars_of(lowered_text.as_str());
            proof {
                assert(h[i as int] == self.history@[i as int]@);
                assert(h.take(i + 1).drop_last() =~= h.take(i as int));
                assert(h.take(i + 1).last() == h[i as int]);
            }
            if contains_chars(&text_chars, &query_chars) {
                let ghost pre = r@;
                r.push((i, item.clone()));
                proof {
                    assert(r@.map_values(|p: (usize, ClipboardItem)| p.0 as int) =~= pre.map_values(
                        |p: (usize, ClipboardItem)| p.0 as int,
                    ).push(i as int));
                }
            }
            i += 1;
        }
        proof {
            assert(h.take(h.len() as int) =~= h);
        }
        r
    }

    /// Fuzzy search over the entries' display text: every entry whose display
    /// text the matcher scores is returned with its history index and score,
    /// sorted by score descending; equal scores keep their history order.
    pub fn fuzzy_search_history(&self, query: &str) -> (r: Vec<(usize, ClipboardItem, i64)>)
        ensures
            r@.map_values(|t: (usize, ClipboardItem, i64)| result_pair(t)) == sort_by_score(
                fuzzy_candidates(self.entries(), query@),
            ),
            forall|k: int|
                0 <= k < r@.len() ==> (#[trigger] r@[k]).0 < self.entries().len() && r@[k].1@
                    == self.entries()[r@[k].0 as int],
    {
        let ghost h = self.entries();
        let mut r: Vec<(usize, ClipboardItem, i64)> = Vec::new();
        let mut i: usize = 0;
        proof {
            assert(h.take(0) =~= Seq::<ItemView>::empty());
            assert(r@.map_values(|t: (usize, ClipboardItem, i64)| result_pair(t))
                =~= sort_by_score(fuzzy_candidates(h.take(0), query@)));
        }
        while i < self.history.len()
            invariant
                i <= h.len(),
                h == self.entries(),
                r@.map_values(|t: (usize, ClipboardItem, i64)| result_pair(t)) == sort_by_score(
                    fuzzy_candidates(h.take(i as int), query@),
                ),
                forall|k: int|
                    0 <= k < r@.len() ==> (#[trigger] r@[k]).0 < h.len() && r@[k].1@ == h[r@[k].0
                        as int],
            decreases h.len() - i,
        {
            let item = &self.history[i];
            let text = item.display_content();
            proof {
                assert(h[i as int] == self.history@[i as int]@);
                assert(h.take(i + 1).drop_last() =~= h.take(i as int));
                assert(h.take(i + 1).last() == h[i as int]);
            }
            let ghost cands = fuzzy_candidates(h.take(i as int), query@);
            match fuzzy_match_score(text.as_str(), query) {
                Some(score) => {
                    let cloned = item.clone();
                    let x = (i, cloned, score);
                    let ghost pre = r@;
                    insert_result_sorted(&mut r, x);
                    proof {
                        let pushed = cands.push((i as int, score as int));
                        assert(pushed.drop_last() =~= cands);
                        assert(fuzzy_candidates(h.take(i + 1), query@) == pushed);
                        assert(sort_by_score(pushed) == insert_by_score(
                            sort_by_score(cands),
                            (i as int, score as int),
                        ));
                        assert(result_pair(x) == (i as int, score as int));
                        assert forall|k: int|
                            0 <= k < r@.len() implies (#[trigger] r@[k]).0 < h.len() && r@[k].1@
                            == h[r@[k].0 as int] by {
                            if r@[k] == x {
                                assert(x.1@ == h[i as int]);
                            } else {
                                assert(pre.contains(r@[k]));
                                let j = choose|j: int| 0 <= j < pre.len() && pre[j] == r@[k];
                                assert(pre[j].0 < h.len() && pre[j].1@ == h[pre[j].0 as int]);
                            }
                        }
                    }
                },
                None => {
                    proof {
                        assert(fuzzy_candidates(h.take(i + 1), query@) == cands);
                    }
                },
            }
            i += 1;
        }
        proof {
            assert(h.take(h.len() as int) =~= h);
        }
        r
    }

    /// The path the history is persisted to.
    pub fn get_storage_path(&self) -> (r: &String)
        ensures
            r@ == self.storage_path(),
    {
        self.storage.get_data_file_path()
    }

    /// The content size limit, the history bound, and the preview length.
    pub fn get_content_limits(&self) -> (r: (usize, usize, usize))
        ensures
            r == (self.max_content(), self.max_history(), MAX_PREVIEW_LENGTH),
    {
        (self.max_content_size, self.max_history_size, MAX_PREVIEW_LENGTH)
    }

    /// The summed estimated size of all entries, in bytes; tops out at
    /// `usize::MAX` rather than overflowing.
    pub fn get_total_content_size(&self) -> (r: usize)
        requires
            self.wf(),
        ensures
            r == clamp_usize(total_size(self.entries())),
    {
        let (_, total, _, _) = self.get_usage_stats();
        total
    }

    /// Usage statistics: entry count, total bytes, average bytes (zero when
    /// the history is empty), and the largest single entry's bytes. The total
    /// tops out at `usize::MAX` rather than overflowing; the average divides
    /// the reported total.
    pub fn get_usage_stats(&self) -> (r: (usize, usize, usize, usize))
        requires
            self.wf(),
        ensures
            r.0 == self.entries().len(),
            r.1 == clamp_usize(total_size(self.entries())),
            r.2 == if self.entries().len() == 0 {
                0int
            } else {
                r.1 as int / self.entries().len() as int
            },
            r.3 == max_item_size(self.entries()),
    {
        let ghost h = self.entries();
        let item_count = self.history.len();
        let mut total: usize = 0;
        let mut largest: usize = 0;
        let mut i: usize = 0;
        proof {
            assert(h.take(0) =~= Seq::<ItemView>::empty());
        }
        while i < self.history.len()
            invariant
                self.wf(),
                h == self.entries(),
                i <= h.len(),
                total == clamp_usize(total_size(h.take(i as int))),
                largest == max_item_size(h.take(i as int)),
                largest <= self.max_content(),
            decreases h.len() - i,
        {
            let sz = self.history[i].get_size_bytes();
            proof {
                assert(h[i as int] == self.history@[i as int]@);
                assert(content_size(h[i as int].content) <= self.max_content());
                crate::clipboard_item::lemma_content_size_nonneg(h[i as int].content);
                assert(sz == content_size(h[i as int].content));
                assert(h.take(i + 1).drop_last() =~= h.take(i as int));
                assert(h.take(i + 1).last() == h[i as int]);
                lemma_total_size_nonneg(h.take(i as int));
            }
            total = crate::text::sat_add(total, sz);
            if sz > largest {
                largest = sz;
            }
            i += 1;
        }
        proof {
            assert(h.take(h.len() as int) =~= h);
        }
        let avg_size = if item_count > 0 {
            total / item_count
        } else {
            0
        };
        (item_count, total, avg_size, largest)
    }
}

} // verus!
