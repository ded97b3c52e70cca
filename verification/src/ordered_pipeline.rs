//! The steps of ordered pipeline stages: `sort` and `uniq` over records, stopping when cancelled.

use vstd::prelude::*;
use crate::text_stream::{
    spec_writer_push, RecordFrameV1, RecordStreamWriterV1, SpecFrame, SpecWriter, TextStreamWriteErrorV1,
};
use crate::ordered_stage::{
    records_view, reversed, spec_abort, spec_from_plan, spec_stage_push, stage_wf, PipelineRecordV1,
    RuntimeStageV1, SpecAction, SpecRecord, SpecStageState, StageActionV1, lemma_pop_reversed,
};
use crate::interpreter::{ExecutionPlanV1, SpecStage, StagePlanV1};
use crate::runner_cancel::RunnerCancellationV1;
use crate::text::strings_view;
use crate::windows_path::ValidatedPathSpecV1;
use crate::runner_readonly::invalid_data_kind;
use std::cmp::Ordering;
use vstd::multiset::Multiset;

verus! {

pub const SORT_RUN_RECORDS: usize = 2048;
pub const CANCELLATION_CHECK_INTERVAL: usize = 1024;

#[derive(Clone, Copy, Debug, Eq, PartialEq)]
pub enum OrderedPipelineFaultV1 {
    Unsupported,
    TailResource,
    SortResource,
    InvalidNumeric,
    Overflow,
    Cancelled,
    Output { kind: std::io::ErrorKind },
}

/// Whether the stages upstream should go on producing records.
#[derive(Clone, Copy, Debug, Eq, PartialEq, Structural)]
pub enum OrderedFlowV1 {
    Continue,
    StopUpstream,
}

/// Why the input ended: it was read to the end, a stage wanted no more, or reading failed.
#[derive(Clone, Copy, Debug, Eq, PartialEq, Structural)]
pub enum OrderedFinishCauseV1 {
    Complete,
    UpstreamStopped,
    SourceFailed,
}

/// How a failed write to the output reads as a pipeline fault: an encoding error as invalid
/// data, an I/O error by its kind.
pub fn map_sink_fault(error: TextStreamWriteErrorV1) -> (r: OrderedPipelineFaultV1)
    ensures
        match error {
            TextStreamWriteErrorV1::Encode(_) => r is Output,
            TextStreamWriteErrorV1::Io { kind } => r == OrderedPipelineFaultV1::Output { kind },
        },
{
    match error {
        TextStreamWriteErrorV1::Encode(_) => OrderedPipelineFaultV1::Output { kind: invalid_data_kind() },
        TextStreamWriteErrorV1::Io { kind } => OrderedPipelineFaultV1::Output { kind },
    }
}

/// Whether `keys[i]` occurs among `keys[..i]`.
pub open spec fn seen_before(keys: Seq<Seq<char>>, i: int) -> bool {
    exists|j: int| 0 <= j < i && keys[j] == keys[i]
}

/// The items of `items[..n]` whose key did not occur before them, in order.
pub open spec fn first_occurrences<T>(items: Seq<T>, keys: Seq<Seq<char>>, n: int) -> Seq<T>
    decreases n,
{
    if n <= 0 {
        seq![]
    } else if seen_before(keys, n - 1) {
        first_occurrences(items, keys, n - 1)
    } else {
        first_occurrences(items, keys, n - 1).push(items[n - 1])
    }
}

/// Some held key is `k`.
pub open spec fn in_seen(seen: Seq<Vec<char>>, k: Seq<char>) -> bool {
    exists|m: int| 0 <= m < seen.len() && seen[m]@ == k
}

/// `k` occurs among `keys[..n]`.
pub open spec fn in_prefix(keys: Seq<Seq<char>>, n: int, k: Seq<char>) -> bool {
    exists|j: int| 0 <= j < n && keys[j] == k
}

proof fn lemma_prefix_extend(a: Seq<Seq<char>>, b: Seq<Seq<char>>, n: int)
    requires
        n <= a.len(),
        n <= b.len(),
        forall|j: int| 0 <= j < n ==> a[j] == b[j],
    ensures
        forall|k: Seq<char>| in_prefix(a, n, k) == in_prefix(b, n, k),
{
    assert forall|k: Seq<char>| in_prefix(a, n, k) == in_prefix(b, n, k) by {
        if in_prefix(a, n, k) {
            let j = choose|j: int| 0 <= j < n && a[j] == k;
            assert(b[j] == k);
        }
        if in_prefix(b, n, k) {
            let j = choose|j: int| 0 <= j < n && b[j] == k;
            assert(a[j] == k);
        }
    }
}

pub open spec fn str_views(v: Seq<&str>) -> Seq<Seq<char>> {
    v.map_values(|s: &str| s@)
}

/// Keeps the first record of each text, in order; stops with `Cancelled` when `cancelled`
/// says so, which it is asked before every block of records.
pub fn retain_first_identical_cancellable<T>(
    records: Vec<T>,
    text: impl Fn(&T) -> &str,
    cancelled: impl Fn() -> bool,
) -> (r: Result<Vec<T>, OrderedPipelineFaultV1>)
    requires
        forall|t: &T| text.requires((t,)),
        cancelled.requires(()),
    ensures
        match r {
            Ok(v) => exists|ts: Seq<&str>| {
                &&& ts.len() == records@.len()
                &&& forall|i: int| 0 <= i < ts.len() ==> text.ensures((&records@[i],), #[trigger] ts[i])
                &&& v@ == first_occurrences(records@, str_views(ts), records@.len() as int)
            } && (records@.len() > 0 ==> cancelled.ensures((), false)),
            Err(e) => e == OrderedPipelineFaultV1::Cancelled && cancelled.ensures((), true),
        },
{
    let mut seen: Vec<Vec<char>> = Vec::new();
    let mut keep: Vec<bool> = Vec::new();
    let ghost mut ts: Seq<&str> = seq![];
    let mut index: usize = 0;
    while index < records.len()
        invariant
            index <= records@.len(),
            forall|t: &T| text.requires((t,)),
            cancelled.requires(()),
            ts.len() == index,
            index > 0 ==> cancelled.ensures((), false),
            keep@.len() == index,
            forall|i: int| 0 <= i < index ==> text.ensures((&records@[i],), #[trigger] ts[i]),
            forall|i: int| 0 <= i < index ==> keep@[i] == !seen_before(str_views(ts), i),
            forall|k: Seq<char>| #[trigger] in_seen(seen@, k) <==> in_prefix(str_views(ts), index as int, k),
        decreases records.len() - index,
    {
        if index % CANCELLATION_CHECK_INTERVAL == 0 && cancelled() {
            return Err(OrderedPipelineFaultV1::Cancelled);
        }
        let t = text(&records[index]);
        let key = crate::text::chars_of(t);
        let mut found = false;
        let mut m: usize = 0;
        while m < seen.len()
            invariant
                m <= seen@.len(),
                found == exists|q: int| 0 <= q < m && (#[trigger] seen@[q])@ == key@,
            decreases seen.len() - m,
        {
            if crate::text::chars_eq(seen[m].as_slice(), key.as_slice()) {
                found = true;
            }
            m += 1;
        }
        assert(found == in_seen(seen@, key@));
        let ghost old_ts = ts;
        let ghost old_seen = seen@;
        proof {
            ts = ts.push(t);
            assert(str_views(ts) =~= str_views(old_ts).push(t@));
            lemma_prefix_extend(str_views(old_ts), str_views(ts), index as int);
            assert(seen_before(str_views(ts), index as int) == in_prefix(str_views(old_ts), index as int, key@)) by {
                if seen_before(str_views(ts), index as int) {
                    let j = choose|j: int| 0 <= j < index && str_views(ts)[j] == str_views(ts)[index as int];
                    assert(str_views(old_ts)[j] == key@);
                }
                if in_prefix(str_views(old_ts), index as int, key@) {
                    let j = choose|j: int| 0 <= j < index && str_views(old_ts)[j] == key@;
                    assert(str_views(ts)[j] == str_views(ts)[index as int]);
                }
            }
            assert forall|i: int| 0 <= i < index implies keep@[i] == !seen_before(str_views(ts), i) by {
                assert(seen_before(str_views(ts), i) == seen_before(str_views(old_ts), i)) by {
                    if seen_before(str_views(ts), i) {
                        let j = choose|j: int| 0 <= j < i && str_views(ts)[j] == str_views(ts)[i];
                        assert(str_views(old_ts)[j] == str_views(old_ts)[i]);
                    }
                    if seen_before(str_views(old_ts), i) {
                        let j = choose|j: int| 0 <= j < i && str_views(old_ts)[j] == str_views(old_ts)[i];
                        assert(str_views(ts)[j] == str_views(ts)[i]);
                    }
                }
            }
        }
        keep.push(!found);
        if !found {
            seen.push(key);
            proof {
                assert forall|k: Seq<char>| #[trigger] in_seen(seen@, k) <==> in_prefix(str_views(ts), index + 1, k) by {
                    if in_seen(seen@, k) {
                        let q = choose|q: int| 0 <= q < seen@.len() && seen@[q]@ == k;
                        if q < old_seen.len() {
                            assert(old_seen[q] == seen@[q]);
                            assert(in_seen(old_seen, k));
                        } else {
                            assert(str_views(ts)[index as int] == k);
                        }
                    }
                    if in_prefix(str_views(ts), index + 1, k) {
                        let j = choose|j: int| 0 <= j < index + 1 && str_views(ts)[j] == k;
                        if j < index {
                            assert(in_prefix(str_views(old_ts), index as int, k));
                            assert(in_seen(old_seen, k));
                            let q = choose|q: int| 0 <= q < old_seen.len() && old_seen[q]@ == k;
                            assert(seen@[q] == old_seen[q]);
                        } else {
                            assert(seen@[old_seen.len() as int]@ == k);
                        }
                    }
                }
            }
        } else {
            proof {
                assert forall|k: Seq<char>| #[trigger] in_seen(seen@, k) <==> in_prefix(str_views(ts), index + 1, k) by {
                    if in_prefix(str_views(ts), index + 1, k) {
                        let j = choose|j: int| 0 <= j < index + 1 && str_views(ts)[j] == k;
                        if j < index {
                            assert(in_prefix(str_views(old_ts), index as int, k));
                        } else {
                            assert(k == key@);
                        }
                    }
                    if in_seen(seen@, k) {
                        assert(in_prefix(str_views(old_ts), index as int, k));
                        let j = choose|j: int| 0 <= j < index && str_views(old_ts)[j] == k;
                        assert(str_views(ts)[j] == k);
                    }
                }
            }
        }
        index += 1;
    }
    let mut out: Vec<T> = Vec::new();
    let mut rest = records;
    let ghost all = rest@;
    let ghost keys = str_views(ts);
    // Take the kept records from the back, then put them back in order.
    let mut reversed: Vec<T> = Vec::new();
    let mut n: usize = rest.len();
    while n > 0
        invariant
            n == rest@.len(),
            n <= all.len(),
            rest@ == all.take(n as int),
            keep@.len() == all.len(),
            keys.len() == all.len(),
            forall|i: int| 0 <= i < all.len() ==> keep@[i] == !seen_before(keys, i),
            first_occurrences(all, keys, all.len() as int)
                == first_occurrences(all, keys, n as int) + reversed@.reverse(),
        decreases n,
    {
        let item = rest.pop().unwrap();
        assert(rest@ =~= all.take(n - 1));
        let ghost old_rev = reversed@;
        if keep[n - 1] {
            reversed.push(item);
            assert(reversed@.reverse() =~= seq![all[n - 1]] + old_rev.reverse());
            assert(first_occurrences(all, keys, n as int) == first_occurrences(all, keys, n - 1).push(all[n - 1]));
            assert(first_occurrences(all, keys, n - 1).push(all[n - 1]) + old_rev.reverse()
                =~= first_occurrences(all, keys, n - 1) + reversed@.reverse());
        }
        n -= 1;
    }
    assert(first_occurrences(all, keys, 0) =~= seq![]);
    let ghost target = reversed@.reverse();
    let mut k: usize = reversed.len();
    while k > 0
        invariant
            k == reversed@.len(),
            out@ + reversed@.reverse() == target,
        decreases k,
    {
        let ghost old_rev = reversed@;
        let item = reversed.pop().unwrap();
        out.push(item);
        assert(old_rev.reverse() =~= seq![item] + reversed@.reverse());
        k -= 1;
    }
    assert(reversed@.reverse() =~= seq![]);
    assert(out@ =~= target);
    assert(first_occurrences(all, keys, all.len() as int) =~= out@);
    Ok(out)
}

/// The records of all runs, counted with repetition.
pub open spec fn runs_ms<T>(runs: Seq<Vec<T>>) -> Multiset<T>
    decreases runs.len(),
{
    if runs.len() == 0 {
        Multiset::empty()
    } else {
        runs_ms(runs.drop_last()).add(runs.last()@.to_multiset())
    }
}

proof fn lemma_runs_ms_push<T>(runs: Seq<Vec<T>>, x: Vec<T>)
    ensures
        runs_ms(runs.push(x)) == runs_ms(runs).add(x@.to_multiset()),
{
    assert(runs.push(x).drop_last() =~= runs);
}

proof fn lemma_ms_empty<T>(s: Seq<T>)
    requires
        s.len() == 0,
    ensures
        s.to_multiset() == Multiset::<T>::empty(),
{
    vstd::seq_lib::to_multiset_len(s);
    vstd::multiset::lemma_multiset_empty_len(s.to_multiset());
}

proof fn lemma_ms_push<T>(s: Seq<T>, a: T)
    ensures
        s.push(a).to_multiset() == s.to_multiset().insert(a),
{
    vstd::seq_lib::to_multiset_build(s, a);
}

proof fn lemma_ms_pop<T>(s: Seq<T>)
    requires
        s.len() > 0,
    ensures
        s.to_multiset() == s.drop_last().to_multiset().insert(s.last()),
{
    vstd::seq_lib::to_multiset_build(s.drop_last(), s.last());
    assert(s.drop_last().push(s.last()) =~= s);
}

/// The items of `v` in the opposite order, so that popping gives them first to last.
fn reverse_vec<T>(v: Vec<T>) -> (r: Vec<T>)
    ensures
        r@ == v@.reverse(),
        r@.to_multiset() == v@.to_multiset(),
        r@.len() == v@.len(),
{
    let ghost original = v@;
    let r = crate::ordered_stage::reversed(v);
    proof {
        original.lemma_reverse_to_multiset();
    }
    r
}

/// That `le` is a total preorder: any two items are ordered one way or the other, and
/// the order is transitive.
pub open spec fn total_preorder<T>(le: spec_fn(T, T) -> bool) -> bool {
    &&& forall|a: T, b: T| #[trigger] le(a, b) || le(b, a)
    &&& forall|a: T, b: T, c: T| #[trigger] le(a, b) && #[trigger] le(b, c) ==> le(a, c)
}

/// That `compare` orders as the total preorder `le` does: it answers `Greater` for `a` and
/// `b` exactly when `a` is not at most `b`.
pub open spec fn orders_by<T, F: Fn(&T, &T) -> Ordering>(compare: F, le: spec_fn(T, T) -> bool) -> bool {
    &&& forall|a: T, b: T, o: Ordering| #[trigger] call_ensures(compare, (&a, &b), o) ==> (o == Ordering::Greater <==> !le(a, b))
    &&& total_preorder(le)
}

/// That no item of `s` comes after a later one in the order `le`.
pub open spec fn sorted_by<T>(le: spec_fn(T, T) -> bool, s: Seq<T>) -> bool {
    forall|i: int, j: int| 0 <= i < j < s.len() ==> #[trigger] le(s[i], s[j])
}

/// What an answer of `compare` tells of two items.
proof fn lemma_answer<T, F: Fn(&T, &T) -> Ordering>(compare: F, le: spec_fn(T, T) -> bool, a: T, b: T, o: Ordering)
    requires
        orders_by(compare, le),
        call_ensures(compare, (&a, &b), o),
    ensures
        o != Ordering::Greater ==> le(a, b),
        o == Ordering::Greater ==> le(b, a) && !le(a, b),
{
    assert(le(a, b) || le(b, a));
}

/// The unconsumed part of a run held reversed: `held` is `run[run.len() - held.len()..]`
/// backwards.
pub open spec fn holds_rest<T>(held: Seq<T>, run: Seq<T>) -> bool {
    &&& held.len() <= run.len()
    &&& forall|k: int| 0 <= k < held.len() ==> #[trigger] held[k] == run[run.len() - 1 - k]
}

/// That every run is ordered by `le`.
pub open spec fn runs_sorted<T>(le: spec_fn(T, T) -> bool, runs: Seq<Vec<T>>) -> bool {
    forall|i: int| 0 <= i < runs.len() ==> sorted_by(le, #[trigger] runs[i]@)
}

/// That no item merged so far comes after an item still held.
pub open spec fn merged_before<T>(le: spec_fn(T, T) -> bool, merged: Seq<T>, held: Seq<T>) -> bool {
    forall|i: int, k: int| 0 <= i < merged.len() && 0 <= k < held.len() ==> #[trigger] le(merged[i], held[k])
}

/// The state of a merge of the runs `left` and `right`, whose rests are held reversed in
/// `l` and `r`: the runs and what is merged are ordered, and nothing merged comes after
/// what is held.
pub open spec fn merge_ordered<T>(le: spec_fn(T, T) -> bool, left: Seq<T>, right: Seq<T>, merged: Seq<T>, l: Seq<T>, r: Seq<T>) -> bool {
    &&& sorted_by(le, left)
    &&& sorted_by(le, right)
    &&& sorted_by(le, merged)
    &&& merged_before(le, merged, l)
    &&& merged_before(le, merged, r)
}

/// Taking the next item `x` of a held run keeps the merge ordered: `x` comes not after what
/// remains of its own run, nor after the other run when it comes not after that run's next
/// item.
proof fn lemma_take_next<T>(le: spec_fn(T, T) -> bool, merged: Seq<T>, own: Seq<T>, own_run: Seq<T>, other: Seq<T>, other_run: Seq<T>)
    requires
        total_preorder(le),
        own.len() > 0,
        holds_rest(own, own_run),
        holds_rest(other, other_run),
        sorted_by(le, own_run),
        sorted_by(le, other_run),
        sorted_by(le, merged),
        merged_before(le, merged, own),
        merged_before(le, merged, other),
        other.len() > 0 ==> le(own.last(), other.last()),
    ensures
        holds_rest(own.drop_last(), own_run),
        sorted_by(le, merged.push(own.last())),
        merged_before(le, merged.push(own.last()), own.drop_last()),
        merged_before(le, merged.push(own.last()), other),
{
    let x = own.last();
    let m2 = merged.push(x);
    let rest = own.drop_last();
    assert forall|i: int, j: int| 0 <= i < j < m2.len() implies #[trigger] le(m2[i], m2[j]) by {
        if j == merged.len() {
            assert(le(merged[i], own[own.len() - 1]));
        } else {
            assert(le(merged[i], merged[j]));
        }
    }
    assert forall|i: int, k: int| 0 <= i < m2.len() && 0 <= k < rest.len() implies #[trigger] le(m2[i], rest[k]) by {
        if i == merged.len() {
            let h = own_run.len() - own.len();
            let t = own_run.len() - 1 - k;
            assert(own[own.len() - 1] == own_run[h]);
            assert(own[k] == own_run[t]);
            assert(h < t);
            assert(le(own_run[h], own_run[t]));
        } else {
            assert(le(merged[i], own[k]));
        }
    }
    assert forall|i: int, k: int| 0 <= i < m2.len() && 0 <= k < other.len() implies #[trigger] le(m2[i], other[k]) by {
        if i == merged.len() {
            let h = other_run.len() - other.len();
            let t = other_run.len() - 1 - k;
            assert(other[other.len() - 1] == other_run[h]);
            assert(other[k] == other_run[t]);
            if k < other.len() - 1 {
                assert(h < t);
                assert(le(other_run[h], other_run[t]));
                assert(le(x, other.last()) && le(other.last(), other[k]));
            }
        } else {
            assert(le(merged[i], other[k]));
        }
    }
}

/// The items of `s` that `le` ranks together with `x` (each at most and at least the other),
/// in order.
pub open spec fn same_rank<T>(le: spec_fn(T, T) -> bool, s: Seq<T>, x: T) -> Seq<T>
    decreases s.len(),
{
    if s.len() == 0 {
        Seq::empty()
    } else if le(x, s.last()) && le(s.last(), x) {
        same_rank(le, s.drop_last(), x).push(s.last())
    } else {
        same_rank(le, s.drop_last(), x)
    }
}

/// That `after` keeps the order `before` had among items that `le` ranks together: what a
/// stable sort keeps.
pub open spec fn rank_stable<T>(le: spec_fn(T, T) -> bool, before: Seq<T>, after: Seq<T>) -> bool {
    forall|x: T| #[trigger] same_rank(le, after, x) == same_rank(le, before, x)
}

/// The items ranked with `x` in two sequences one after the other.
proof fn lemma_same_rank_concat<T>(le: spec_fn(T, T) -> bool, a: Seq<T>, b: Seq<T>, x: T)
    ensures
        same_rank(le, a + b, x) == same_rank(le, a, x) + same_rank(le, b, x),
    decreases b.len(),
{
    if b.len() == 0 {
        assert(a + b =~= a);
        assert(same_rank(le, a, x) + same_rank(le, b, x) =~= same_rank(le, a, x));
    } else {
        lemma_same_rank_concat(le, a, b.drop_last(), x);
        assert((a + b).drop_last() =~= a + b.drop_last());
        assert((a + b).last() == b.last());
        if le(x, b.last()) && le(b.last(), x) {
            assert(same_rank(le, a, x) + same_rank(le, b, x)
                =~= (same_rank(le, a, x) + same_rank(le, b.drop_last(), x)).push(b.last()));
        }
    }
}

/// No item of `s` is ranked with `x`.
pub(crate) proof fn lemma_same_rank_none<T>(le: spec_fn(T, T) -> bool, s: Seq<T>, x: T)
    requires
        forall|i: int| 0 <= i < s.len() ==> !(le(x, #[trigger] s[i]) && le(s[i], x)),
    ensures
        same_rank(le, s, x) == Seq::<T>::empty(),
    decreases s.len(),
{
    if s.len() > 0 {
        assert(s.drop_last().len() < s.len());
        assert forall|i: int| 0 <= i < s.drop_last().len() implies !(le(x, #[trigger] s.drop_last()[i]) && le(s.drop_last()[i], x)) by {
            assert(s.drop_last()[i] == s[i]);
        }
        lemma_same_rank_none(le, s.drop_last(), x);
        assert(!(le(x, s[s.len() - 1]) && le(s[s.len() - 1], x)));
    }
}

/// The items ranked with `xa` in `s`, mapped by `f`, are the items ranked with `xb` in the
/// mapped sequence, when `f` carries ranking with `xa` over to ranking with `xb`.
pub proof fn lemma_same_rank_map<A, B>(le_a: spec_fn(A, A) -> bool, le_b: spec_fn(B, B) -> bool, f: spec_fn(A) -> B, s: Seq<A>, xa: A, xb: B)
    requires
        forall|i: int| 0 <= i < s.len() ==> ((le_a(xa, #[trigger] s[i]) && le_a(s[i], xa)) <==> (le_b(xb, f(s[i])) && le_b(f(s[i]), xb))),
    ensures
        same_rank(le_b, s.map_values(f), xb) == same_rank(le_a, s, xa).map_values(f),
    decreases s.len(),
{
    if s.len() == 0 {
        assert(same_rank(le_b, s.map_values(f), xb) =~= Seq::<B>::empty());
        assert(same_rank(le_a, s, xa).map_values(f) =~= Seq::<B>::empty());
    } else {
        let t = s.drop_last();
        assert forall|i: int| 0 <= i < t.len() implies ((le_a(xa, #[trigger] t[i]) && le_a(t[i], xa)) <==> (le_b(xb, f(t[i])) && le_b(f(t[i]), xb))) by {
            assert(t[i] == s[i]);
        }
        lemma_same_rank_map(le_a, le_b, f, t, xa, xb);
        assert(s.map_values(f).drop_last() =~= t.map_values(f));
        assert(s.map_values(f).last() == f(s.last()));
        assert(s[s.len() - 1] == s.last());
        if le_a(xa, s.last()) && le_a(s.last(), xa) {
            assert(same_rank(le_a, s, xa).map_values(f) =~= same_rank(le_a, t, xa).map_values(f).push(f(s.last())));
        }
    }
}

/// The state of a merge as ranks see it: what is merged and what is still held of both runs
/// hold, for every rank, the items of the left run and then those of the right one.
pub open spec fn merge_ranked<T>(le: spec_fn(T, T) -> bool, left: Seq<T>, right: Seq<T>, merged: Seq<T>, l: Seq<T>, r: Seq<T>) -> bool {
    forall|x: T| #[trigger] same_rank(le, merged, x) + same_rank(le, l.reverse(), x) + same_rank(le, r.reverse(), x)
        == same_rank(le, left, x) + same_rank(le, right, x)
}

/// Taking the next item of the left run keeps the ranks in order.
proof fn lemma_rank_take_left<T>(le: spec_fn(T, T) -> bool, left: Seq<T>, right: Seq<T>, merged: Seq<T>, l: Seq<T>, r: Seq<T>)
    requires
        merge_ranked(le, left, right, merged, l, r),
        l.len() > 0,
    ensures
        merge_ranked(le, left, right, merged.push(l.last()), l.drop_last(), r),
{
    let a = l.last();
    assert(l.reverse() =~= seq![a] + l.drop_last().reverse());
    assert(merged.push(a) =~= merged + seq![a]);
    assert forall|x: T| #[trigger] same_rank(le, merged.push(a), x) + same_rank(le, l.drop_last().reverse(), x) + same_rank(le, r.reverse(), x)
        == same_rank(le, left, x) + same_rank(le, right, x) by {
        lemma_same_rank_concat(le, merged, seq![a], x);
        lemma_same_rank_concat(le, seq![a], l.drop_last().reverse(), x);
        assert(same_rank(le, merged, x) + same_rank(le, l.reverse(), x) + same_rank(le, r.reverse(), x)
            == same_rank(le, left, x) + same_rank(le, right, x));
        assert(same_rank(le, merged.push(a), x) + same_rank(le, l.drop_last().reverse(), x) + same_rank(le, r.reverse(), x)
            =~= same_rank(le, merged, x) + same_rank(le, l.reverse(), x) + same_rank(le, r.reverse(), x));
    }
}

/// Taking the next item of the right run, when the left run's next item comes after it,
/// keeps the ranks in order: nothing still held of the ordered left run is ranked with it.
proof fn lemma_rank_take_right<T>(le: spec_fn(T, T) -> bool, left: Seq<T>, right: Seq<T>, merged: Seq<T>, l: Seq<T>, r: Seq<T>)
    requires
        total_preorder(le),
        merge_ranked(le, left, right, merged, l, r),
        r.len() > 0,
        holds_rest(l, left),
        sorted_by(le, left),
        l.len() > 0 ==> !le(l.last(), r.last()),
    ensures
        merge_ranked(le, left, right, merged.push(r.last()), l, r.drop_last()),
{
    let b = r.last();
    assert(r.reverse() =~= seq![b] + r.drop_last().reverse());
    assert(merged.push(b) =~= merged + seq![b]);
    assert forall|x: T| #[trigger] same_rank(le, merged.push(b), x) + same_rank(le, l.reverse(), x) + same_rank(le, r.drop_last().reverse(), x)
        == same_rank(le, left, x) + same_rank(le, right, x) by {
        lemma_same_rank_concat(le, merged, seq![b], x);
        lemma_same_rank_concat(le, seq![b], r.drop_last().reverse(), x);
        assert(same_rank(le, merged, x) + same_rank(le, l.reverse(), x) + same_rank(le, r.reverse(), x)
            == same_rank(le, left, x) + same_rank(le, right, x));
        assert(seq![b].drop_last() =~= Seq::<T>::empty());
        assert(same_rank(le, Seq::<T>::empty(), x) =~= Seq::<T>::empty());
        if le(x, b) && le(b, x) {
            assert(same_rank(le, seq![b], x) =~= seq![b]);
        } else {
            assert(same_rank(le, seq![b], x) =~= Seq::<T>::empty());
        }
        if le(x, b) && le(b, x) {
            assert forall|i: int| 0 <= i < l.reverse().len() implies !(le(x, #[trigger] l.reverse()[i]) && le(l.reverse()[i], x)) by {
                let k = l.len() - 1 - i;
                assert(l.reverse()[i] == l[k]);
                let h = left.len() - l.len();
                let t = left.len() - 1 - k;
                assert(l[l.len() - 1] == left[h]);
                assert(l[k] == left[t]);
                if le(x, l[k]) && le(l[k], x) {
                    if h < t {
                        assert(le(left[h], left[t]));
                    } else {
                        assert(le(l.last(), x) && le(x, l.last()));
                    }
                    assert(le(l.last(), l[k]));
                    assert(le(l[k], x) && le(x, b));
                    assert(le(l[k], b));
                    assert(le(l.last(), b));
                }
            }
            lemma_same_rank_none(le, l.reverse(), x);
        }
        assert(same_rank(le, merged.push(b), x) + same_rank(le, l.reverse(), x) + same_rank(le, r.drop_last().reverse(), x)
            =~= same_rank(le, merged, x) + same_rank(le, l.reverse(), x) + same_rank(le, r.reverse(), x));
    }
}

/// Pushing a run ordered by every order that `compare` follows keeps all runs so ordered.
proof fn lemma_push_sorted_run<T, F: Fn(&T, &T) -> Ordering>(compare: F, runs: Seq<Vec<T>>, run: Vec<T>)
    requires
        forall|le: spec_fn(T, T) -> bool| #[trigger] orders_by(compare, le) ==> runs_sorted(le, runs),
        forall|le: spec_fn(T, T) -> bool| #[trigger] orders_by(compare, le) ==> sorted_by(le, run@),
    ensures
        forall|le: spec_fn(T, T) -> bool| #[trigger] orders_by(compare, le) ==> runs_sorted(le, runs.push(run)),
{
    assert forall|le: spec_fn(T, T) -> bool| #[trigger] orders_by(compare, le) implies runs_sorted(le, runs.push(run)) by {
        assert forall|i: int| 0 <= i < runs.push(run).len() implies sorted_by(le, #[trigger] runs.push(run)[i]@) by {
            if i < runs.len() {
                assert(runs.push(run)[i] == runs[i]);
            }
        }
    }
}

/// Dropping the last run keeps the others ordered.
proof fn lemma_drop_sorted_run<T, F: Fn(&T, &T) -> Ordering>(compare: F, runs: Seq<Vec<T>>)
    requires
        runs.len() > 0,
        forall|le: spec_fn(T, T) -> bool| #[trigger] orders_by(compare, le) ==> runs_sorted(le, runs),
    ensures
        forall|le: spec_fn(T, T) -> bool| #[trigger] orders_by(compare, le) ==> runs_sorted(le, runs.drop_last()),
        forall|le: spec_fn(T, T) -> bool| #[trigger] orders_by(compare, le) ==> sorted_by(le, runs.last()@),
{
    assert forall|le: spec_fn(T, T) -> bool| #[trigger] orders_by(compare, le) implies runs_sorted(le, runs.drop_last())
        && sorted_by(le, runs.last()@) by {
        assert(sorted_by(le, runs[runs.len() - 1]@));
        assert forall|i: int| 0 <= i < runs.drop_last().len() implies sorted_by(le, #[trigger] runs.drop_last()[i]@) by {
            assert(runs.drop_last()[i] == runs[i]);
        }
    }
}

/// Merges two runs, taking from the left one unless its next record compares greater; when
/// `check` is set, asks `cancelled` after every block of merged records. Two runs ordered by
/// a total preorder that `compare` follows give a run so ordered.
fn merge_two<T>(left: Vec<T>, right: Vec<T>, compare: &impl Fn(&T, &T) -> Ordering, cancelled: &impl Fn() -> bool, check: bool)
    -> (r: Result<Vec<T>, OrderedPipelineFaultV1>)
    requires
        forall|a: &T, b: &T| compare.requires((a, b)),
        cancelled.requires(()),
        forall|le: spec_fn(T, T) -> bool| #[trigger] orders_by(*compare, le) ==> sorted_by(le, left@) && sorted_by(le, right@),
    ensures
        match r {
            Ok(v) => v@.to_multiset() == left@.to_multiset().add(right@.to_multiset())
                && (forall|le: spec_fn(T, T) -> bool| #[trigger] orders_by(*compare, le) ==> sorted_by(le, v@))
                && (forall|le: spec_fn(T, T) -> bool| #[trigger] orders_by(*compare, le) ==> rank_stable(le, left@ + right@, v@)),
            Err(e) => e == OrderedPipelineFaultV1::Cancelled && check && cancelled.ensures((), true),
        },
{
    let ghost total = left@.to_multiset().add(right@.to_multiset());
    let ghost lt = left@;
    let ghost rt = right@;
    let mut l = reverse_vec(left);
    let mut r = reverse_vec(right);
    let mut merged: Vec<T> = Vec::new();
    proof {
        broadcast use vstd::multiset::group_multiset_axioms;
        lemma_ms_empty(merged@);
        assert(l@.to_multiset().add(r@.to_multiset()).add(merged@.to_multiset()) =~= total);
        assert(l@.reverse() =~= lt);
        assert(r@.reverse() =~= rt);
        assert forall|le: spec_fn(T, T) -> bool| #[trigger] orders_by(*compare, le) implies merge_ranked(le, lt, rt, merged@, l@, r@) by {
            assert forall|x: T| #[trigger] same_rank(le, merged@, x) + same_rank(le, l@.reverse(), x) + same_rank(le, r@.reverse(), x)
                == same_rank(le, lt, x) + same_rank(le, rt, x) by {
                assert(same_rank(le, merged@, x) =~= Seq::<T>::empty());
                assert(same_rank(le, merged@, x) + same_rank(le, l@.reverse(), x) + same_rank(le, r@.reverse(), x)
                    =~= same_rank(le, lt, x) + same_rank(le, rt, x));
            }
        }
    }
    while l.len() > 0 || r.len() > 0
        invariant
            forall|a: &T, b: &T| compare.requires((a, b)),
            cancelled.requires(()),
            l@.to_multiset().add(r@.to_multiset()).add(merged@.to_multiset()) == total,
            holds_rest(l@, lt),
            holds_rest(r@, rt),
            forall|le: spec_fn(T, T) -> bool| #[trigger] orders_by(*compare, le) ==> merge_ordered(le, lt, rt, merged@, l@, r@),
            forall|le: spec_fn(T, T) -> bool| #[trigger] orders_by(*compare, le) ==> merge_ranked(le, lt, rt, merged@, l@, r@),
        decreases l.len() + r.len(),
    {
        let take_left = if l.len() > 0 && r.len() > 0 {
            let answer = compare(&l[l.len() - 1], &r[r.len() - 1]);
            proof {
                assert forall|le: spec_fn(T, T) -> bool| #[trigger] orders_by(*compare, le) implies
                    (answer != Ordering::Greater ==> le(l@.last(), r@.last()))
                    && (answer == Ordering::Greater ==> le(r@.last(), l@.last()) && !le(l@.last(), r@.last())) by {
                    lemma_answer(*compare, le, l@[l@.len() - 1], r@[r@.len() - 1], answer);
                }
            }
            match answer {
                Ordering::Greater => false,
                _ => true,
            }
        } else {
            l.len() > 0
        };
        let ghost before_l = l@;
        let ghost before_r = r@;
        let ghost before_m = merged@;
        if take_left {
            proof {
                assert forall|le: spec_fn(T, T) -> bool| #[trigger] orders_by(*compare, le) implies
                    merge_ordered(le, lt, rt, before_m.push(before_l.last()), before_l.drop_last(), before_r)
                    && merge_ranked(le, lt, rt, before_m.push(before_l.last()), before_l.drop_last(), before_r) by {
                    lemma_take_next(le, before_m, before_l, lt, before_r, rt);
                    lemma_rank_take_left(le, lt, rt, before_m, before_l, before_r);
                }
            }
            let x = l.pop().unwrap();
            merged.push(x);
            proof {
                broadcast use vstd::multiset::group_multiset_axioms;
                lemma_ms_pop(before_l);
                assert(before_l.drop_last() =~= l@);
                lemma_ms_push(before_m, x);
                assert(l@.to_multiset().add(r@.to_multiset()).add(merged@.to_multiset()) =~= total);
            }
        } else {
            proof {
                assert forall|le: spec_fn(T, T) -> bool| #[trigger] orders_by(*compare, le) implies
                    merge_ordered(le, lt, rt, before_m.push(before_r.last()), before_l, before_r.drop_last())
                    && merge_ranked(le, lt, rt, before_m.push(before_r.last()), before_l, before_r.drop_last()) by {
                    lemma_take_next(le, before_m, before_r, rt, before_l, lt);
                    lemma_rank_take_right(le, lt, rt, before_m, before_l, before_r);
                }
            }
            let x = r.pop().unwrap();
            merged.push(x);
            proof {
                broadcast use vstd::multiset::group_multiset_axioms;
                lemma_ms_pop(before_r);
                assert(before_r.drop_last() =~= r@);
                lemma_ms_push(before_m, x);
                assert(l@.to_multiset().add(r@.to_multiset()).add(merged@.to_multiset()) =~= total);
            }
        }
        if check && merged.len() % CANCELLATION_CHECK_INTERVAL == 0 && cancelled() {
            return Err(OrderedPipelineFaultV1::Cancelled);
        }
    }
    proof {
        broadcast use vstd::multiset::group_multiset_axioms;
        lemma_ms_empty(l@);
        lemma_ms_empty(r@);
        assert(merged@.to_multiset() =~= total);
        assert forall|le: spec_fn(T, T) -> bool| #[trigger] orders_by(*compare, le) implies rank_stable(le, lt + rt, merged@) by {
            assert forall|x: T| #[trigger] same_rank(le, merged@, x) == same_rank(le, lt + rt, x) by {
                lemma_same_rank_concat(le, lt, rt, x);
                assert(l@.reverse() =~= Seq::<T>::empty());
                assert(r@.reverse() =~= Seq::<T>::empty());
                assert(same_rank(le, Seq::<T>::empty(), x) =~= Seq::<T>::empty());
                assert(same_rank(le, merged@, x) + same_rank(le, l@.reverse(), x) + same_rank(le, r@.reverse(), x)
                    =~= same_rank(le, merged@, x));
            }
        }
    }
    Ok(merged)
}

/// The length of a sequence, as an integer.
pub open spec fn length_of<T>(s: Seq<T>) -> int {
    s.len() as int
}

/// The items of the runs, one run after the other.
pub open spec fn flatten_runs<T>(runs: Seq<Vec<T>>) -> Seq<T>
    decreases runs.len(),
{
    if runs.len() == 0 {
        Seq::empty()
    } else {
        flatten_runs(runs.drop_last()) + runs.last()@
    }
}

/// Two stable parts one after the other are stable together.
proof fn lemma_rank_stable_concat<T>(le: spec_fn(T, T) -> bool, a: Seq<T>, b: Seq<T>, c: Seq<T>, d: Seq<T>)
    requires
        rank_stable(le, a, b),
        rank_stable(le, c, d),
    ensures
        rank_stable(le, a + c, b + d),
{
    assert forall|x: T| #[trigger] same_rank(le, b + d, x) == same_rank(le, a + c, x) by {
        lemma_same_rank_concat(le, a, c, x);
        lemma_same_rank_concat(le, b, d, x);
        assert(same_rank(le, b, x) == same_rank(le, a, x));
        assert(same_rank(le, d, x) == same_rank(le, c, x));
    }
}

/// Stability is transitive.
proof fn lemma_rank_stable_trans<T>(le: spec_fn(T, T) -> bool, a: Seq<T>, b: Seq<T>, c: Seq<T>)
    requires
        rank_stable(le, a, b),
        rank_stable(le, b, c),
    ensures
        rank_stable(le, a, c),
{
    assert forall|x: T| #[trigger] same_rank(le, c, x) == same_rank(le, a, x) by {
        assert(same_rank(le, c, x) == same_rank(le, b, x));
        assert(same_rank(le, b, x) == same_rank(le, a, x));
    }
}

/// A sequence is stable with itself.
proof fn lemma_rank_stable_refl<T>(le: spec_fn(T, T) -> bool, a: Seq<T>)
    ensures
        rank_stable(le, a, a),
{
}

/// Merges neighbouring runs pairwise, first with second, third with fourth, and so on.
#[verifier::spinoff_prover]
#[verifier::rlimit(40)]
fn merge_pass<T>(runs: Vec<Vec<T>>, compare: &impl Fn(&T, &T) -> Ordering, cancelled: &impl Fn() -> bool, check: bool)
    -> (r: Result<Vec<Vec<T>>, OrderedPipelineFaultV1>)
    requires
        forall|a: &T, b: &T| compare.requires((a, b)),
        cancelled.requires(()),
        forall|le: spec_fn(T, T) -> bool| #[trigger] orders_by(*compare, le) ==> runs_sorted(le, runs@),
    ensures
        match r {
            Ok(v) => runs_ms(v@) == runs_ms(runs@) && (runs@.len() > 1 ==> v@.len() < runs@.len())
                && (runs@.len() > 0 ==> v@.len() > 0)
                && (forall|le: spec_fn(T, T) -> bool| #[trigger] orders_by(*compare, le) ==> runs_sorted(le, v@))
                && (forall|le: spec_fn(T, T) -> bool| #[trigger] orders_by(*compare, le) ==> rank_stable(le, flatten_runs(runs@), flatten_runs(v@))),
            Err(e) => e == OrderedPipelineFaultV1::Cancelled && check && cancelled.ensures((), true),
        },
{
    let ghost total = runs_ms(runs@);
    let ghost n = length_of(runs@);
    let ghost orig = runs@;
    let mut rev: Vec<Vec<T>> = Vec::new();
    let mut runs = runs;
    proof {
        broadcast use vstd::multiset::group_multiset_axioms;
        assert(runs_ms(runs@).add(runs_ms(rev@)) =~= total);
    }
    while runs.len() > 0
        invariant
            runs_ms(runs@).add(runs_ms(rev@)) == total,
            runs@.len() + rev@.len() == n,
            runs@ + rev@.reverse() == orig,
            forall|le: spec_fn(T, T) -> bool| #[trigger] orders_by(*compare, le) ==> runs_sorted(le, runs@),
            forall|le: spec_fn(T, T) -> bool| #[trigger] orders_by(*compare, le) ==> runs_sorted(le, rev@),
        decreases runs.len(),
    {
        let ghost before_runs = runs@;
        let ghost before_rev = rev@;
        proof {
            lemma_drop_sorted_run(*compare, before_runs);
        }
        let x = runs.pop().unwrap();
        rev.push(x);
        proof {
            broadcast use vstd::multiset::group_multiset_axioms;
            assert(before_runs.drop_last() =~= runs@);
            lemma_push_sorted_run(*compare, before_rev, x);
            lemma_runs_ms_push(before_rev, x);
            assert(runs_ms(runs@).add(runs_ms(rev@)) =~= total);
            assert(rev@.reverse() =~= seq![x] + before_rev.reverse());
            assert(runs@ + rev@.reverse() =~= before_runs + before_rev.reverse());
        }
    }
    let mut out: Vec<Vec<T>> = Vec::new();
    proof {
        broadcast use vstd::multiset::group_multiset_axioms;
        assert(runs_ms(rev@).add(runs_ms(out@)) =~= total);
        assert(runs@ + rev@.reverse() =~= rev@.reverse());
        assert(orig.take(0) =~= Seq::<Vec<T>>::empty());
        assert(out@ =~= Seq::<Vec<T>>::empty());
        assert forall|le: spec_fn(T, T) -> bool| #[trigger] orders_by(*compare, le) implies
            rank_stable(le, flatten_runs(orig.take(0)), flatten_runs(out@)) by {
        }
    }
    while rev.len() > 0
        invariant
            forall|a: &T, b: &T| compare.requires((a, b)),
            cancelled.requires(()),
            runs_ms(rev@).add(runs_ms(out@)) == total,
            2 * out@.len() <= n - rev@.len() + 1,
            2 * out@.len() >= n - rev@.len(),
            rev@.len() > 0 ==> 2 * out@.len() == n - rev@.len(),
            rev@.len() <= n,
            rev@.len() < n ==> out@.len() > 0,
            n == orig.len(),
            rev@.reverse() == orig.subrange(n - rev@.len(), n),
            forall|le: spec_fn(T, T) -> bool| #[trigger] orders_by(*compare, le) ==> runs_sorted(le, rev@),
            forall|le: spec_fn(T, T) -> bool| #[trigger] orders_by(*compare, le) ==> runs_sorted(le, out@),
            forall|le: spec_fn(T, T) -> bool| #[trigger] orders_by(*compare, le)
                ==> rank_stable(le, flatten_runs(orig.take(n - rev@.len())), flatten_runs(out@)),
        decreases rev.len(),
    {
        let ghost r0 = rev@;
        let ghost o0 = out@;
        proof {
            lemma_drop_sorted_run(*compare, r0);
        }
        let first = rev.pop().unwrap();
        proof {
            assert(r0.drop_last() =~= rev@);
            let c = n - r0.len();
            assert(r0.reverse()[0] == r0.last());
            assert(orig.subrange(c, n)[0] == orig[c]);
            assert(first == orig[c]);
            assert(rev@.reverse() =~= orig.subrange(c + 1, n)) by {
                assert(r0.reverse() =~= seq![first] + rev@.reverse());
                assert(r0.reverse() == orig.subrange(c, n));
                assert forall|i: int| 0 <= i < rev@.reverse().len() implies rev@.reverse()[i] == orig.subrange(c + 1, n)[i] by {
                    assert(rev@.reverse()[i] == (seq![first] + rev@.reverse())[i + 1]);
                    assert(orig.subrange(c, n)[i + 1] == orig[c + 1 + i]);
                }
            }
            assert(orig.take(c + 1).drop_last() =~= orig.take(c));
        }
        if rev.len() > 0 {
            let ghost r1 = rev@;
            proof {
                lemma_drop_sorted_run(*compare, r1);
            }
            let second = rev.pop().unwrap();
            proof {
                assert(r1.drop_last() =~= rev@);
                let c = n - r1.len();
                assert(r1.reverse()[0] == r1.last());
                assert(orig.subrange(c, n)[0] == orig[c]);
                assert(second == orig[c]);
                assert(rev@.reverse() =~= orig.subrange(c + 1, n)) by {
                    assert(r1.reverse() =~= seq![second] + rev@.reverse());
                    assert(r1.reverse() == orig.subrange(c, n));
                    assert forall|i: int| 0 <= i < rev@.reverse().len() implies rev@.reverse()[i] == orig.subrange(c + 1, n)[i] by {
                        assert(rev@.reverse()[i] == (seq![second] + rev@.reverse())[i + 1]);
                        assert(orig.subrange(c, n)[i + 1] == orig[c + 1 + i]);
                    }
                }
                assert(orig.take(c + 1).drop_last() =~= orig.take(c));
            }
            let merged = merge_two(first, second, compare, cancelled, check)?;
            out.push(merged);
            proof {
                let c0 = n - r0.len();
                assert(out@.drop_last() =~= o0);
                assert(orig.take(c0 + 2).drop_last() =~= orig.take(c0 + 1));
                assert(orig.take(c0 + 2).last() == second);
                assert(orig.take(c0 + 1).drop_last() =~= orig.take(c0));
                assert(orig.take(c0 + 1).last() == first);
                assert(flatten_runs(orig.take(c0 + 1)) == flatten_runs(orig.take(c0)) + first@);
                assert(flatten_runs(orig.take(c0 + 2)) == flatten_runs(orig.take(c0 + 1)) + second@);
                assert(flatten_runs(orig.take(c0 + 2)) =~= flatten_runs(orig.take(c0)) + (first@ + second@));
                assert(flatten_runs(out@) == flatten_runs(o0) + merged@);
                assert forall|le: spec_fn(T, T) -> bool| #[trigger] orders_by(*compare, le) implies
                    rank_stable(le, flatten_runs(orig.take(n - rev@.len())), flatten_runs(out@)) by {
                    lemma_rank_stable_concat(le, flatten_runs(orig.take(c0)), flatten_runs(o0), first@ + second@, merged@);
                }
                lemma_push_sorted_run(*compare, o0, merged);
                broadcast use vstd::multiset::group_multiset_axioms;
                assert(runs_ms(r0) == runs_ms(r1).add(first@.to_multiset()));
                assert(runs_ms(r1) == runs_ms(rev@).add(second@.to_multiset()));
                lemma_runs_ms_push(o0, merged);
                assert(runs_ms(out@) == runs_ms(o0).add(first@.to_multiset().add(second@.to_multiset())));
                assert(runs_ms(rev@).add(runs_ms(out@)) =~= total);
            }
        } else {
            out.push(first);
            proof {
                let c0 = n - r0.len();
                assert(out@.drop_last() =~= o0);
                assert(orig.take(c0 + 1).drop_last() =~= orig.take(c0));
                assert(orig.take(c0 + 1).last() == first);
                assert(flatten_runs(orig.take(c0 + 1)) == flatten_runs(orig.take(c0)) + first@);
                assert(flatten_runs(out@) == flatten_runs(o0) + first@);
                assert forall|le: spec_fn(T, T) -> bool| #[trigger] orders_by(*compare, le) implies
                    rank_stable(le, flatten_runs(orig.take(n - rev@.len())), flatten_runs(out@)) by {
                    lemma_rank_stable_concat(le, flatten_runs(orig.take(c0)), flatten_runs(o0), first@, first@);
                }
                lemma_push_sorted_run(*compare, o0, first);
                broadcast use vstd::multiset::group_multiset_axioms;
                lemma_runs_ms_push(o0, first);
                assert(runs_ms(rev@).add(runs_ms(out@)) =~= total);
            }
        }
    }
    proof {
        broadcast use vstd::multiset::group_multiset_axioms;
        assert(runs_ms(rev@) =~= Multiset::empty());
        assert(runs_ms(out@) =~= total);
        assert(orig.take(n) =~= orig);
    }
    Ok(out)
}

/// Sorts one run by merging ever longer pieces; nothing is cancelled inside a run.
fn sort_run<T>(run: Vec<T>, compare: &impl Fn(&T, &T) -> Ordering, cancelled: &impl Fn() -> bool) -> (r: Vec<T>)
    requires
        forall|a: &T, b: &T| compare.requires((a, b)),
        cancelled.requires(()),
    ensures
        r@.to_multiset() == run@.to_multiset(),
        forall|le: spec_fn(T, T) -> bool| #[trigger] orders_by(*compare, le) ==> sorted_by(le, r@),
        forall|le: spec_fn(T, T) -> bool| #[trigger] orders_by(*compare, le) ==> rank_stable(le, run@, r@),
{
    let ghost total = run@.to_multiset();
    let ghost orig = run@;
    let mut rev = reverse_vec(run);
    let mut pieces: Vec<Vec<T>> = Vec::new();
    proof {
        broadcast use vstd::multiset::group_multiset_axioms;
        assert(rev@.to_multiset().add(runs_ms(pieces@)) =~= total);
        assert(orig.subrange(0, length_of(orig)) =~= orig);
        assert(orig.take(0) =~= Seq::<T>::empty());
    }
    while rev.len() > 0
        invariant
            rev@.to_multiset().add(runs_ms(pieces@)) == total,
            forall|le: spec_fn(T, T) -> bool| #[trigger] orders_by(*compare, le) ==> runs_sorted(le, pieces@),
            pieces@.len() + rev@.len() == orig.len(),
            rev@ == orig.subrange(length_of(pieces@), length_of(orig)).reverse(),
            flatten_runs(pieces@) == orig.take(length_of(pieces@)),
        decreases rev.len(),
    {
        let ghost before_rev = rev@;
        let ghost before_p = pieces@;
        proof {
            crate::ordered_stage::lemma_pop_reversed(orig, length_of(before_p));
        }
        let x = rev.pop().unwrap();
        let mut single: Vec<T> = Vec::new();
        single.push(x);
        pieces.push(single);
        proof {
            let k = length_of(before_p);
            assert(x == orig[k]);
            assert(single@ =~= seq![x]);
            assert(pieces@.drop_last() =~= before_p);
            assert(orig.take(k + 1) =~= orig.take(k) + seq![x]);
            assert(length_of(pieces@) == k + 1);
            lemma_push_sorted_run(*compare, before_p, single);
            broadcast use vstd::multiset::group_multiset_axioms;
            lemma_ms_pop(before_rev);
            assert(before_rev.drop_last() =~= rev@);
            lemma_runs_ms_push(before_p, single);
            lemma_ms_push(Seq::<T>::empty(), x);
            assert(Seq::<T>::empty().push(x) =~= single@);
            lemma_ms_empty(Seq::<T>::empty());
            assert(rev@.to_multiset().add(runs_ms(pieces@)) =~= total);
        }
    }
    proof {
        broadcast use vstd::multiset::group_multiset_axioms;
        lemma_ms_empty(rev@);
        assert(runs_ms(pieces@) =~= total);
        assert(orig.take(length_of(pieces@)) =~= orig);
        assert forall|le: spec_fn(T, T) -> bool| #[trigger] orders_by(*compare, le) implies rank_stable(le, orig, flatten_runs(pieces@)) by {
            lemma_rank_stable_refl(le, orig);
        }
    }
    while pieces.len() > 1
        invariant
            forall|a: &T, b: &T| compare.requires((a, b)),
            cancelled.requires(()),
            runs_ms(pieces@) == total,
            forall|le: spec_fn(T, T) -> bool| #[trigger] orders_by(*compare, le) ==> runs_sorted(le, pieces@),
            forall|le: spec_fn(T, T) -> bool| #[trigger] orders_by(*compare, le) ==> rank_stable(le, orig, flatten_runs(pieces@)),
        decreases pieces.len(),
    {
        let ghost before = pieces@;
        match merge_pass(pieces, compare, cancelled, false) {
            Ok(next) => {
                pieces = next;
                proof {
                    assert forall|le: spec_fn(T, T) -> bool| #[trigger] orders_by(*compare, le) implies
                        rank_stable(le, orig, flatten_runs(pieces@)) by {
                        lemma_rank_stable_trans(le, orig, flatten_runs(before), flatten_runs(pieces@));
                    }
                }
            },
            Err(_) => {
                assert(false);
                return Vec::new();
            },
        }
    }
    let ghost last_pieces = pieces@;
    match pieces.pop() {
        Some(v) => {
            proof {
                lemma_drop_sorted_run(*compare, last_pieces);
                broadcast use vstd::multiset::group_multiset_axioms;
                assert(pieces@.len() == 0);
                assert(runs_ms(pieces@) =~= Multiset::empty());
                assert(last_pieces.drop_last() =~= Seq::<Vec<T>>::empty());
                assert(flatten_runs(last_pieces) =~= v@);
            }
            v
        },
        None => {
            proof {
                broadcast use vstd::multiset::group_multiset_axioms;
                assert(total =~= Multiset::empty());
                lemma_ms_empty(Seq::<T>::empty());
                assert(flatten_runs(last_pieces) =~= Seq::<T>::empty());
            }
            Vec::new()
        },
    }
}

/// Sorts records stably with `compare`, in runs of bounded size that are then merged;
/// `cancelled` is asked before the work, after each run, during merges and after each merge
/// round, and a `true` stops the sort with `Cancelled`. What comes back is the records
/// rearranged, ordered by every total preorder that `compare` follows.
pub fn stable_sort_cancellable<T>(
    records: Vec<T>,
    compare: impl Fn(&T, &T) -> Ordering,
    cancelled: impl Fn() -> bool,
) -> (r: Result<Vec<T>, OrderedPipelineFaultV1>)
    requires
        forall|a: &T, b: &T| compare.requires((a, b)),
        cancelled.requires(()),
    ensures
        match r {
            Ok(v) => v@.to_multiset() == records@.to_multiset()
                && (forall|le: spec_fn(T, T) -> bool| #[trigger] orders_by(compare, le) ==> sorted_by(le, v@))
                && (forall|le: spec_fn(T, T) -> bool| #[trigger] orders_by(compare, le) ==> rank_stable(le, records@, v@))
                && cancelled.ensures((), false),
            Err(e) => e == OrderedPipelineFaultV1::Cancelled && cancelled.ensures((), true),
        },
{
    if cancelled() {
        return Err(OrderedPipelineFaultV1::Cancelled);
    }
    let ghost total = records@.to_multiset();
    let ghost orig = records@;
    let ghost n = length_of(orig);
    let mut input = reverse_vec(records);
    let mut runs: Vec<Vec<T>> = Vec::new();
    proof {
        broadcast use vstd::multiset::group_multiset_axioms;
        assert(input@.to_multiset().add(runs_ms(runs@)) =~= total);
        assert(orig.subrange(0, n) =~= orig);
        assert(orig.take(0) =~= Seq::<T>::empty());
        assert(flatten_runs(runs@) =~= Seq::<T>::empty());
    }
    while input.len() > 0
        invariant
            forall|a: &T, b: &T| compare.requires((a, b)),
            cancelled.requires(()),
            input@.to_multiset().add(runs_ms(runs@)) == total,
            forall|le: spec_fn(T, T) -> bool| #[trigger] orders_by(compare, le) ==> runs_sorted(le, runs@),
            n == orig.len(),
            input@.len() <= n,
            input@ == orig.subrange(n - length_of(input@), n).reverse(),
            forall|le: spec_fn(T, T) -> bool| #[trigger] orders_by(compare, le)
                ==> rank_stable(le, orig.take(n - length_of(input@)), flatten_runs(runs@)),
        decreases input.len(),
    {
        let mut run: Vec<T> = Vec::new();
        let ghost start = input@;
        let ghost k0 = n - length_of(input@);
        proof {
            broadcast use vstd::multiset::group_multiset_axioms;
            lemma_ms_empty(run@);
            assert(input@.to_multiset().add(run@.to_multiset()) =~= start.to_multiset());
            assert(orig.subrange(k0, k0) =~= run@);
        }
        let mut taken: usize = 0;
        while taken < SORT_RUN_RECORDS && input.len() > 0
            invariant
                input@.to_multiset().add(run@.to_multiset()) == start.to_multiset(),
                input@.len() + taken == start.len(),
                n == orig.len(),
                0 <= k0 <= n,
                input@.len() <= n,
                input@ == orig.subrange(n - length_of(input@), n).reverse(),
                run@ == orig.subrange(k0, n - length_of(input@)),
                k0 <= n - length_of(input@),
            decreases SORT_RUN_RECORDS - taken,
        {
            let ghost bi = input@;
            let ghost br = run@;
            proof {
                crate::ordered_stage::lemma_pop_reversed(orig, n - length_of(bi));
            }
            let x = input.pop().unwrap();
            run.push(x);
            proof {
                assert(x == orig[n - length_of(bi)]);
                assert(run@ =~= orig.subrange(k0, n - length_of(input@)));
                broadcast use vstd::multiset::group_multiset_axioms;
                lemma_ms_pop(bi);
                assert(bi.drop_last() =~= input@);
                lemma_ms_push(br, x);
                assert(input@.to_multiset().add(run@.to_multiset()) =~= start.to_multiset());
            }
            taken += 1;
        }
        let ghost run_view = run@;
        let sorted = sort_run(run, &compare, &cancelled);
        if cancelled() {
            return Err(OrderedPipelineFaultV1::Cancelled);
        }
        let ghost before_runs = runs@;
        runs.push(sorted);
        proof {
            let k1 = n - length_of(input@);
            assert(orig.take(k1) =~= orig.take(k0) + run_view);
            assert(runs@.drop_last() =~= before_runs);
            assert(flatten_runs(runs@) == flatten_runs(before_runs) + sorted@);
            assert forall|le: spec_fn(T, T) -> bool| #[trigger] orders_by(compare, le) implies
                rank_stable(le, orig.take(n - length_of(input@)), flatten_runs(runs@)) by {
                lemma_rank_stable_concat(le, orig.take(k0), flatten_runs(before_runs), run_view, sorted@);
            }
            lemma_push_sorted_run(compare, before_runs, sorted);
            broadcast use vstd::multiset::group_multiset_axioms;
            lemma_runs_ms_push(before_runs, sorted);
            assert(input@.to_multiset().add(runs_ms(runs@)) =~= total);
        }
    }
    proof {
        broadcast use vstd::multiset::group_multiset_axioms;
        lemma_ms_empty(input@);
        assert(runs_ms(runs@) =~= total);
        assert(orig.take(n) =~= orig);
    }
    while runs.len() > 1
        invariant
            forall|a: &T, b: &T| compare.requires((a, b)),
            cancelled.requires(()),
            runs_ms(runs@) == total,
            forall|le: spec_fn(T, T) -> bool| #[trigger] orders_by(compare, le) ==> runs_sorted(le, runs@),
            forall|le: spec_fn(T, T) -> bool| #[trigger] orders_by(compare, le) ==> rank_stable(le, orig, flatten_runs(runs@)),
        decreases runs.len(),
    {
        let ghost before = runs@;
        runs = merge_pass(runs, &compare, &cancelled, true)?;
        proof {
            assert forall|le: spec_fn(T, T) -> bool| #[trigger] orders_by(compare, le) implies
                rank_stable(le, orig, flatten_runs(runs@)) by {
                lemma_rank_stable_trans(le, orig, flatten_runs(before), flatten_runs(runs@));
            }
        }
        if cancelled() {
            return Err(OrderedPipelineFaultV1::Cancelled);
        }
    }
    let ghost last_runs = runs@;
    match runs.pop() {
        Some(v) => {
            proof {
                lemma_drop_sorted_run(compare, last_runs);
                broadcast use vstd::multiset::group_multiset_axioms;
                assert(runs_ms(runs@) =~= Multiset::empty());
                assert(last_runs.drop_last() =~= Seq::<Vec<T>>::empty());
                assert(flatten_runs(last_runs) =~= v@);
            }
            Ok(v)
        },
        None => {
            proof {
                broadcast use vstd::multiset::group_multiset_axioms;
                lemma_ms_empty(Seq::<T>::empty());
                assert(flatten_runs(last_runs) =~= Seq::<T>::empty());
            }
            Ok(Vec::new())
        },
    }
}

/// A stage of an ordered pipeline with the unterminated record it holds back: such a record
/// goes on only once the stage emits another, or at the end.
pub struct StageSlotV1 {
    pub stage: RuntimeStageV1,
    pub pending_unterminated: Option<PipelineRecordV1>,
}

pub struct SpecSlot {
    pub stage: SpecStageState,
    pub pending: Option<SpecRecord>,
}

impl View for StageSlotV1 {
    type V = SpecSlot;

    open spec fn view(&self) -> SpecSlot {
        SpecSlot {
            stage: self.stage@,
            pending: match self.pending_unterminated {
                Some(r) => Some(r@),
                None => None,
            },
        }
    }
}

pub open spec fn slots_view(v: Seq<StageSlotV1>) -> Seq<SpecSlot> {
    v.map_values(|s: StageSlotV1| s@)
}

/// What a stage's emitted record does to the record held back: a held record goes on first,
/// marked terminated; then the new record goes on if it is terminated, and is held otherwise.
pub open spec fn spec_enqueue(pending: Option<SpecRecord>, rec: SpecRecord) -> (Option<SpecRecord>, Seq<SpecRecord>) {
    let released = match pending {
        Some(p) => seq![SpecRecord { terminated: true, ..p }],
        None => Seq::empty(),
    };
    if rec.terminated {
        (None, released.push(rec))
    } else {
        (Some(rec), released)
    }
}

/// A slot after its stage acted: the slot, what goes on, and whether upstream should stop.
pub open spec fn spec_apply(slot: SpecSlot, a: SpecAction) -> (SpecSlot, Seq<SpecRecord>, bool) {
    match a {
        SpecAction::Drop => (slot, Seq::empty(), false),
        SpecAction::Emit(o) => {
            let (p, q) = spec_enqueue(slot.pending, o);
            (SpecSlot { pending: p, ..slot }, q, false)
        },
        SpecAction::EmitAndStop(o) => {
            let (p, q) = spec_enqueue(slot.pending, o);
            (SpecSlot { pending: p, ..slot }, q, true)
        },
        SpecAction::Stop => (slot, Seq::empty(), true),
    }
}

/// One stage taking `batch[..k]` in order: the slot, what goes on, and whether to stop.
pub open spec fn spec_level(slot: SpecSlot, batch: Seq<SpecRecord>, k: int, paths: Seq<Seq<char>>) -> Result<(SpecSlot, Seq<SpecRecord>, bool), OrderedPipelineFaultV1>
    decreases k,
{
    if k <= 0 {
        Ok((slot, Seq::empty(), false))
    } else {
        match spec_level(slot, batch, k - 1, paths) {
            Err(e) => Err(e),
            Ok((s, next, stop)) => match spec_stage_push(s.stage, batch[k - 1], paths) {
                Err(e) => Err(e),
                Ok((st, a)) => {
                    let (s2, q, stop2) = spec_apply(SpecSlot { stage: st, ..s }, a);
                    Ok((s2, next + q, stop || stop2))
                },
            },
        }
    }
}

/// Records entering at stage `i` and going through the stages after it: the slots, the
/// records that come out of the last stage, and whether upstream should stop.
pub open spec fn spec_route(slots: Seq<SpecSlot>, i: int, batch: Seq<SpecRecord>, paths: Seq<Seq<char>>) -> Result<(Seq<SpecSlot>, Seq<SpecRecord>, bool), OrderedPipelineFaultV1>
    decreases slots.len() - i,
{
    if i < 0 || i >= slots.len() {
        Ok((slots, batch, false))
    } else {
        match spec_level(slots[i], batch, batch.len() as int, paths) {
            Err(e) => Err(e),
            Ok((s, next, stop)) => match spec_route(slots.update(i, s), i + 1, next, paths) {
                Err(e) => Err(e),
                Ok((sl, out, stop2)) => Ok((sl, out, stop || stop2)),
            },
        }
    }
}

/// The first `k` records going to the writer: its state, the frames it releases for
/// writing, and the error that stopped it, if any.
pub open spec fn spec_sink(w: SpecWriter, recs: Seq<SpecRecord>, k: int) -> (SpecWriter, Seq<SpecFrame>, Option<TextStreamWriteErrorV1>)
    decreases k,
{
    if k <= 0 {
        (w, Seq::empty(), None)
    } else {
        let (w1, out, err) = spec_sink(w, recs, k - 1);
        if err is Some {
            (w1, out, err)
        } else {
            match spec_writer_push(w1, SpecFrame { text: recs[k - 1].text, terminated: recs[k - 1].terminated }) {
                Err(e) => (w1, out, Some(e)),
                Ok((released, w2)) => (w2, match released {
                    Some(f) => out.push(f),
                    None => out,
                }, None),
            }
        }
    }
}

pub open spec fn flow_of(stop: bool) -> OrderedFlowV1 {
    if stop { OrderedFlowV1::StopUpstream } else { OrderedFlowV1::Continue }
}

/// Whether `f` is how the pipeline reports the writer's error `e`.
pub open spec fn sink_fault(e: TextStreamWriteErrorV1, f: OrderedPipelineFaultV1) -> bool {
    match e {
        TextStreamWriteErrorV1::Encode(_) => f is Output,
        TextStreamWriteErrorV1::Io { kind } => f == OrderedPipelineFaultV1::Output { kind },
    }
}

/// The value of a pipeline: its slots, the writer's state, the frames released for writing
/// and not yet taken, and the paths of its inputs.
pub struct SpecPipeline {
    pub slots: Seq<SpecSlot>,
    pub sink: SpecWriter,
    pub output: Seq<SpecFrame>,
    pub paths: Seq<Seq<char>>,
}

/// A fault on the way through the pipeline: a stage's, or the writer's.
pub enum SpecStep {
    Fault(OrderedPipelineFaultV1),
    SinkFault(TextStreamWriteErrorV1),
}

/// Whether `f` is how the pipeline reports the fault `s`.
pub open spec fn step_fault_matches(s: SpecStep, f: OrderedPipelineFaultV1) -> bool {
    match s {
        SpecStep::Fault(e) => f == e,
        SpecStep::SinkFault(e) => sink_fault(e, f),
    }
}

/// A record entering at stage `start`: whether upstream should stop and the pipeline after
/// it, or the fault that stopped it.
pub open spec fn spec_route_step(p: SpecPipeline, start: int, rec: SpecRecord) -> Result<(bool, SpecPipeline), SpecStep> {
    match spec_route(p.slots, start, seq![rec], p.paths) {
        Err(e) => Err(SpecStep::Fault(e)),
        Ok((slots, out, stop)) => {
            let (w, frames, err) = spec_sink(p.sink, out, out.len() as int);
            match err {
                Some(e) => Err(SpecStep::SinkFault(e)),
                None => Ok((stop, SpecPipeline { slots, sink: w, output: p.output + frames, paths: p.paths })),
            }
        },
    }
}

/// Whether `r` and `after` are what the step `s` says.
pub open spec fn step_matches(s: Result<(bool, SpecPipeline), SpecStep>, r: Result<OrderedFlowV1, OrderedPipelineFaultV1>, after: SpecPipeline) -> bool {
    match s {
        Err(e) => r matches Err(f) && step_fault_matches(e, f),
        Ok((stop, p2)) => r == Ok::<OrderedFlowV1, OrderedPipelineFaultV1>(flow_of(stop)) && after == p2,
    }
}

/// The slots a plan's stages become, from stage `i` on: a first stage that reads files,
/// lists entries or finds paths is the source and no slot; anywhere else it cannot run.
pub open spec fn spec_plan_slots(stages: Seq<SpecStage>, i: int, direct_search: bool, multiple_paths: bool) -> Option<Seq<SpecSlot>>
    decreases stages.len() - i,
{
    if i < 0 || i >= stages.len() {
        Some(Seq::empty())
    } else if stages[i] is ReadTextFiles || stages[i] is ListEntries || stages[i] is FindPaths {
        if i != 0 {
            None
        } else {
            spec_plan_slots(stages, i + 1, direct_search, multiple_paths)
        }
    } else {
        match spec_from_plan(stages[i], direct_search && i == 0, multiple_paths) {
            None => None,
            Some(st) => match spec_plan_slots(stages, i + 1, direct_search, multiple_paths) {
                None => None,
                Some(rest) => Some(seq![SpecSlot { stage: st, pending: None }] + rest),
            },
        }
    }
}

/// Whether a plan's first stage searches files named in it.
pub open spec fn plan_searches_directly(stages: Seq<SpecStage>) -> bool {
    stages.len() > 0 && (stages[0] matches SpecStage::SearchText { paths, .. } && paths.len() > 0)
}

/// An ordered pipeline: records pass through its stages in order, and what comes out of the
/// last stage goes to a record writer, whose released frames wait to be written.
pub struct OrderedPipelineV1 {
    stages: Vec<StageSlotV1>,
    sink: RecordStreamWriterV1,
    output: Vec<RecordFrameV1>,
    source_paths: Vec<String>,
}

impl View for OrderedPipelineV1 {
    type V = SpecPipeline;

    closed spec fn view(&self) -> SpecPipeline {
        SpecPipeline {
            slots: slots_view(self.stages@),
            sink: self.sink@,
            output: crate::text_stream::frames_view(self.output@),
            paths: strings_view(self.source_paths@),
        }
    }
}

/// Every stage's sizes are those of the records it holds.
pub open spec fn pipeline_wf(p: SpecPipeline) -> bool {
    forall|i: int| 0 <= i < p.slots.len() ==> stage_wf(#[trigger] p.slots[i].stage)
}

impl OrderedPipelineV1 {
    /// The pipeline for a plan, whose source reads the inputs with these paths.
    pub fn new(plan: &ExecutionPlanV1, source_paths: &[ValidatedPathSpecV1]) -> (r: Result<Self, OrderedPipelineFaultV1>)
        ensures
            match spec_plan_slots(plan@.stages, 0, plan_searches_directly(plan@.stages), source_paths@.len() > 1) {
                None => r == Err::<Self, _>(OrderedPipelineFaultV1::Unsupported),
                Some(slots) => r matches Ok(p) && pipeline_wf(p@) && p@ == (SpecPipeline {
                    slots,
                    sink: SpecWriter { pending: None, next_index: 0 },
                    output: Seq::empty(),
                    paths: source_paths@.map_values(|v: ValidatedPathSpecV1| v.original@),
                }),
            },
    {
        let direct_search = match plan.stages.first() {
            Some(StagePlanV1::SearchText { paths, .. }) => paths.len() > 0,
            _ => false,
        };
        proof {
            assert(direct_search == plan_searches_directly(plan@.stages));
        }
        let multiple = source_paths.len() > 1;
        let mut slots: Vec<StageSlotV1> = Vec::new();
        let ghost stages = plan@.stages;
        let mut index: usize = 0;
        while index < plan.stages.len()
            invariant
                stages == plan@.stages,
                direct_search == plan_searches_directly(stages),
                multiple == (source_paths@.len() > 1),
                index <= stages.len(),
                forall|i: int| 0 <= i < slots@.len() ==> stage_wf(#[trigger] slots@[i]@.stage),
                spec_plan_slots(stages, 0, direct_search, multiple) == match spec_plan_slots(stages, index as int, direct_search, multiple) {
                    None => None,
                    Some(tail) => Some(slots_view(slots@) + tail),
                },
            decreases stages.len() - index,
        {
            let stage = &plan.stages[index];
            assert(stages[index as int] == stage@);
            let is_source = match stage {
                StagePlanV1::ReadTextFiles { .. } | StagePlanV1::ListEntries { .. } | StagePlanV1::FindPaths { .. } => true,
                _ => false,
            };
            if is_source {
                if index != 0 {
                    return Err(OrderedPipelineFaultV1::Unsupported);
                }
            } else {
                let runtime = RuntimeStageV1::from_plan(stage, direct_search && index == 0, multiple)?;
                let ghost before = slots@;
                slots.push(StageSlotV1 { stage: runtime, pending_unterminated: None });
                proof {
                    assert(slots_view(slots@) =~= slots_view(before).push(SpecSlot { stage: runtime@, pending: None }));
                    match spec_plan_slots(stages, index + 1, direct_search, multiple) {
                        None => {},
                        Some(tail) => {
                            assert(slots_view(before) + (seq![SpecSlot { stage: runtime@, pending: None }] + tail)
                                =~= slots_view(slots@) + tail);
                        },
                    }
                }
            }
            index += 1;
        }
        let mut paths: Vec<String> = Vec::new();
        let mut k: usize = 0;
        while k < source_paths.len()
            invariant
                k <= source_paths@.len(),
                strings_view(paths@) == source_paths@.subrange(0, k as int).map_values(|v: ValidatedPathSpecV1| v.original@),
            decreases source_paths.len() - k,
        {
            let ghost before = paths@;
            paths.push(source_paths[k].original.clone());
            proof {
                crate::text::lemma_strings_view_push(before, source_paths@[k as int].original);
                assert(source_paths@.subrange(0, k + 1).map_values(|v: ValidatedPathSpecV1| v.original@)
                    =~= source_paths@.subrange(0, k as int).map_values(|v: ValidatedPathSpecV1| v.original@).push(source_paths@[k as int].original@));
            }
            k += 1;
        }
        proof {
            assert(source_paths@.subrange(0, k as int) =~= source_paths@);
            assert(slots_view(slots@) + Seq::<SpecSlot>::empty() =~= slots_view(slots@));
        }
        let output: Vec<RecordFrameV1> = Vec::new();
        proof {
            assert(crate::text_stream::frames_view(output@) =~= Seq::<SpecFrame>::empty());
        }
        Ok(OrderedPipelineV1 { stages: slots, sink: RecordStreamWriterV1::new(), output, source_paths: paths })
    }
}


/// Routing's result with an upstream stop already seen.
pub open spec fn with_stop(stop: bool, r: Result<(Seq<SpecSlot>, Seq<SpecRecord>, bool), OrderedPipelineFaultV1>) -> Result<(Seq<SpecSlot>, Seq<SpecRecord>, bool), OrderedPipelineFaultV1> {
    match r {
        Err(e) => Err(e),
        Ok((sl, out, s2)) => Ok((sl, out, stop || s2)),
    }
}

/// Once the writer failed, later records change nothing.
proof fn lemma_sink_error_sticks(w: SpecWriter, recs: Seq<SpecRecord>, k: int, n: int)
    requires
        0 <= k <= n,
        spec_sink(w, recs, k).2 is Some,
    ensures
        spec_sink(w, recs, n) == spec_sink(w, recs, k),
    decreases n - k,
{
    if k < n {
        lemma_sink_error_sticks(w, recs, k, n - 1);
    }
}

/// Once a stage failed on a batch, the rest of the batch changes nothing.
proof fn lemma_level_error_sticks(slot: SpecSlot, batch: Seq<SpecRecord>, k: int, n: int, paths: Seq<Seq<char>>)
    requires
        0 <= k <= n,
        spec_level(slot, batch, k, paths) is Err,
    ensures
        spec_level(slot, batch, n, paths) == spec_level(slot, batch, k, paths),
    decreases n - k,
{
    if k < n {
        lemma_level_error_sticks(slot, batch, k, n - 1, paths);
    }
}

/// Hands a stage's emitted record on: first the record held back, marked terminated, then
/// the new one, which is held back instead when unterminated.
fn enqueue_output(slot: &mut StageSlotV1, record: PipelineRecordV1, queue: &mut Vec<PipelineRecordV1>)
    ensures
        ({
            let (p, q) = spec_enqueue(old(slot)@.pending, record@);
            final(slot)@ == (SpecSlot { pending: p, ..old(slot)@ }) && records_view(final(queue)@) == records_view(old(queue)@) + q
        }),
{
    let ghost q0 = queue@;
    match slot.pending_unterminated.take() {
        Some(pending) => {
            let mut pending = pending;
            pending.frame.terminated = true;
            queue.push(pending);
        },
        None => {},
    }
    if record.frame.terminated {
        queue.push(record);
    } else {
        slot.pending_unterminated = Some(record);
    }
    proof {
        let (p, q) = spec_enqueue(old(slot)@.pending, record@);
        assert(records_view(queue@) =~= records_view(q0) + q);
    }
}

/// Every slot with its stage's holdings let go and no record held back.
pub open spec fn aborted_slots(slots: Seq<SpecSlot>) -> Seq<SpecSlot> {
    slots.map_values(|s: SpecSlot| SpecSlot { stage: spec_abort(s.stage), pending: None })
}

impl OrderedPipelineV1 {
    /// Lets every stage go of what it holds.
    fn abort(&mut self)
        requires
            pipeline_wf(old(self)@),
        ensures
            pipeline_wf(final(self)@),
            final(self)@ == (SpecPipeline { slots: aborted_slots(old(self)@.slots), ..old(self)@ }),
    {
        let n = self.stages.len();
        let mut i: usize = 0;
        while i < n
            invariant
                n == self.stages@.len(),
                i <= n,
                pipeline_wf(self@),
                self@.paths == old(self)@.paths,
                self@.sink == old(self)@.sink,
                self@.output == old(self)@.output,
                self@.slots.len() == old(self)@.slots.len(),
                forall|j: int| 0 <= j < i ==> #[trigger] self@.slots[j] == aborted_slots(old(self)@.slots)[j],
                forall|j: int| i <= j < n ==> #[trigger] self@.slots[j] == old(self)@.slots[j],
            decreases n - i,
        {
            let ghost before = self.stages@;
            assert(stage_wf(self@.slots[i as int].stage));
            let mut slot = self.stages.remove(i);
            proof {
                assert(slots_view(before)[i as int] == slot@);
            }
            slot.pending_unterminated = None;
            slot.stage.abort();
            self.stages.insert(i, slot);
            proof {
                assert forall|j: int| 0 <= j < self@.slots.len() implies stage_wf(#[trigger] self@.slots[j].stage) by {
                    if j != i {
                        assert(self.stages@[j] == before[j]);
                        assert(slots_view(before)[j] == before[j]@);
                    }
                }
                assert forall|j: int| 0 <= j < n implies #[trigger] self@.slots[j] == (if j <= i {
                    aborted_slots(old(self)@.slots)[j]
                } else {
                    old(self)@.slots[j]
                }) by {
                    if j != i {
                        assert(self.stages@[j] == before[j]);
                        assert(slots_view(before)[j] == before[j]@);
                    }
                }
            }
            i += 1;
        }
        proof {
            assert(self@.slots =~= aborted_slots(old(self)@.slots));
        }
    }

    /// Stage `index` takes a batch of records in order: what it passes on, and whether
    /// upstream should stop.
    fn run_level(&mut self, index: usize, batch: Vec<PipelineRecordV1>, cancellation: &RunnerCancellationV1)
        -> (r: Result<(Vec<PipelineRecordV1>, bool), OrderedPipelineFaultV1>)
        requires
            pipeline_wf(old(self)@),
            index < old(self)@.slots.len(),
        ensures
            pipeline_wf(final(self)@),
            final(self)@.paths == old(self)@.paths,
            final(self)@.sink == old(self)@.sink,
            final(self)@.output == old(self)@.output,
            final(self)@.slots.len() == old(self)@.slots.len(),
            r == Err::<(Vec<PipelineRecordV1>, bool), _>(OrderedPipelineFaultV1::Cancelled)
                || match spec_level(old(self)@.slots[index as int], records_view(batch@), batch@.len() as int, old(self)@.paths) {
                    Err(e) => r == Err::<(Vec<PipelineRecordV1>, bool), _>(e),
                    Ok((s, next, stop)) => r matches Ok((v, st)) && records_view(v@) == next && st == stop
                        && final(self)@.slots == old(self)@.slots.update(index as int, s),
                },
    {
        let ghost slots0 = self@.slots;
        let ghost bv = records_view(batch@);
        let ghost order = batch@;
        let ghost paths = self@.paths;
        let mut slot = self.stages.remove(index);
        proof {
            assert(slots0[index as int] == slot@);
        }
        let count = batch.len();
        let mut pending = reversed(batch);
        let mut next: Vec<PipelineRecordV1> = Vec::new();
        let mut stop = false;
        let mut k: usize = 0;
        proof {
            assert(records_view(next@) =~= Seq::<SpecRecord>::empty());
            assert(stage_wf(slots0[index as int].stage));
        }
        while pending.len() > 0
            invariant
                k <= order.len(),
                count == order.len(),
                order == batch@,
                pending@ == order.subrange(k as int, order.len() as int).reverse(),
                bv == records_view(order),
                stage_wf(slot@.stage),
                paths == strings_view(self.source_paths@),
                paths == old(self)@.paths,
                self.stages@.len() + 1 == slots0.len(),
                forall|j: int| 0 <= j < index ==> (#[trigger] self.stages@[j])@ == slots0[j],
                forall|j: int| index <= j < self.stages@.len() ==> (#[trigger] self.stages@[j])@ == slots0[j + 1],
                self@.sink == old(self)@.sink,
                self@.output == old(self)@.output,
                spec_level(slots0[index as int], bv, k as int, paths) == Ok::<(SpecSlot, Seq<SpecRecord>, bool), OrderedPipelineFaultV1>((slot@, records_view(next@), stop)),
                pipeline_wf(old(self)@),
                slots0 == old(self)@.slots,
                index < slots0.len(),
            decreases pending.len(),
        {
            if cancellation.is_cancelled() {
                self.stages.insert(index, slot);
                proof {
                    assert forall|j: int| 0 <= j < self@.slots.len() implies stage_wf(#[trigger] self@.slots[j].stage) by {
                        if j != index {
                            assert(self@.slots[j] == slots0[j]);
                        }
                    }
                }
                self.abort();
                return Err(OrderedPipelineFaultV1::Cancelled);
            }
            proof {
                lemma_pop_reversed(order, k as int);
            }
            let record = pending.pop().unwrap();
            assert(record@ == bv[k as int]);
            let ghost slot_before = slot@;
            let ghost next_before = records_view(next@);
            match slot.stage.push(record, self.source_paths.as_slice()) {
                Err(e) => {
                    proof {
                        assert(spec_level(slots0[index as int], bv, k + 1, paths) == Err::<(SpecSlot, Seq<SpecRecord>, bool), OrderedPipelineFaultV1>(e));
                        lemma_level_error_sticks(slots0[index as int], bv, k + 1, order.len() as int, paths);
                    }
                    self.stages.insert(index, slot);
                    proof {
                        assert forall|j: int| 0 <= j < self@.slots.len() implies stage_wf(#[trigger] self@.slots[j].stage) by {
                            if j != index {
                                assert(self@.slots[j] == slots0[j]);
                            }
                        }
                    }
                    return Err(e);
                },
                Ok(action) => {
                    let ghost av = action@;
                    match action {
                        StageActionV1::Drop => {},
                        StageActionV1::Emit(o) => {
                            enqueue_output(&mut slot, o, &mut next);
                        },
                        StageActionV1::EmitAndStop(o) => {
                            enqueue_output(&mut slot, o, &mut next);
                            stop = true;
                        },
                        StageActionV1::Stop => {
                            stop = true;
                        },
                    }
                    proof {
                        let s1 = SpecSlot { stage: slot@.stage, ..slot_before };
                        let (s2, q, st2) = spec_apply(s1, av);
                        assert(slot@ == s2);
                        assert(records_view(next@) == next_before + q);
                    }
                },
            }
            k += 1;
            proof {
                assert(pending@ =~= order.subrange(k as int, order.len() as int).reverse());
            }
        }
        self.stages.insert(index, slot);
        proof {
            assert(k == order.len());
            assert(self@.slots =~= slots0.update(index as int, slot@));
            assert forall|j: int| 0 <= j < self@.slots.len() implies stage_wf(#[trigger] self@.slots[j].stage) by {
                if j != index {
                    assert(self@.slots[j] == slots0[j]);
                }
            }
        }
        Ok((next, stop))
    }

    /// A record entering at stage `start` goes through the stages after it; what comes out
    /// of the last goes to the writer.
    fn route_from(&mut self, start: usize, record: PipelineRecordV1, cancellation: &RunnerCancellationV1) -> (r: Result<OrderedFlowV1, OrderedPipelineFaultV1>)
        requires
            pipeline_wf(old(self)@),
            start <= old(self)@.slots.len(),
        ensures
            pipeline_wf(final(self)@),
            final(self)@.paths == old(self)@.paths,
            final(self)@.slots.len() == old(self)@.slots.len(),
            r == Err::<OrderedFlowV1, _>(OrderedPipelineFaultV1::Cancelled)
                || step_matches(spec_route_step(old(self)@, start as int, record@), r, final(self)@),
    {
        let ghost p0 = self@;
        let mut batch: Vec<PipelineRecordV1> = Vec::new();
        batch.push(record);
        proof {
            assert(records_view(batch@) =~= seq![record@]);
        }
        let mut stop = false;
        let mut index = start;
        while index < self.stages.len()
            invariant
                p0 == old(self)@,
                pipeline_wf(self@),
                start <= index <= self@.slots.len(),
                self@.slots.len() == p0.slots.len(),
                self@.paths == p0.paths,
                self@.sink == p0.sink,
                self@.output == p0.output,
                spec_route(p0.slots, start as int, seq![record@], p0.paths)
                    == with_stop(stop, spec_route(self@.slots, index as int, records_view(batch@), p0.paths)),
            decreases self.stages.len() - index,
        {
            let ghost slots_before = self@.slots;
            let ghost bv = records_view(batch@);
            let ghost stop_before = stop;
            let (next, level_stop) = self.run_level(index, batch, cancellation)?;
            batch = next;
            stop = stop || level_stop;
            index += 1;
        }
        let ghost out = records_view(batch@);
        let ghost order = batch@;
        let ghost routed = self@.slots;
        let count = batch.len();
        proof {
            assert(spec_route(p0.slots, start as int, seq![record@], p0.paths) == Ok::<(Seq<SpecSlot>, Seq<SpecRecord>, bool), OrderedPipelineFaultV1>((self@.slots, out, stop)));
        }
        let mut pending = reversed(batch);
        let mut k: usize = 0;
        while pending.len() > 0
            invariant
                k <= order.len(),
                pending@ == order.subrange(k as int, order.len() as int).reverse(),
                out == records_view(order),
                count == order.len(),
                p0 == old(self)@,
                spec_route(p0.slots, start as int, seq![record@], p0.paths) == Ok::<(Seq<SpecSlot>, Seq<SpecRecord>, bool), OrderedPipelineFaultV1>((routed, out, stop)),
                pipeline_wf(self@),
                self@.slots == routed,
                self@.slots.len() == p0.slots.len(),
                self@.paths == p0.paths,
                ({
                    let (w, frames, err) = spec_sink(p0.sink, out, k as int);
                    err is None && w == self@.sink && self@.output == p0.output + frames
                }),
            decreases pending.len(),
        {
            if cancellation.is_cancelled() {
                self.abort();
                return Err(OrderedPipelineFaultV1::Cancelled);
            }
            proof {
                lemma_pop_reversed(order, k as int);
            }
            let rec = pending.pop().unwrap();
            assert(rec@ == out[k as int]);
            let ghost out_before = self.output@;
            match self.sink.push(rec.frame) {
                Err(e) => {
                    proof {
                        lemma_sink_error_sticks(p0.sink, out, k + 1, out.len() as int);
                    }
                    return Err(map_sink_fault(e));
                },
                Ok(released) => {
                    match released {
                        Some(f) => {
                            self.output.push(f);
                            proof {
                                assert(crate::text_stream::frames_view(self.output@) =~= crate::text_stream::frames_view(out_before).push(f@));
                            }
                        },
                        None => {},
                    }
                },
            }
            k += 1;
            proof {
                assert(pending@ =~= order.subrange(k as int, order.len() as int).reverse());
            }
        }
        Ok(if stop { OrderedFlowV1::StopUpstream } else { OrderedFlowV1::Continue })
    }

    /// Takes a record of input `input_index` into the first stage; says whether the input
    /// should go on.
    pub fn push(&mut self, frame: RecordFrameV1, input_index: usize, cancellation: &RunnerCancellationV1) -> (r: Result<OrderedFlowV1, OrderedPipelineFaultV1>)
        requires
            pipeline_wf(old(self)@),
        ensures
            pipeline_wf(final(self)@),
            final(self)@.paths == old(self)@.paths,
            final(self)@.slots.len() == old(self)@.slots.len(),
            r == Err::<OrderedFlowV1, _>(OrderedPipelineFaultV1::Cancelled)
                || step_matches(spec_route_step(old(self)@, 0, SpecRecord { text: frame.text@, terminated: frame.terminated, input_index }), r, final(self)@),
    {
        self.route_from(0, PipelineRecordV1 { frame, input_index }, cancellation)
    }

    /// Takes the frames released for writing, in order.
    pub fn take_output(&mut self) -> (r: Vec<RecordFrameV1>)
        ensures
            crate::text_stream::frames_view(r@) == old(self)@.output,
            final(self)@ == (SpecPipeline { output: Seq::empty(), ..old(self)@ }),
    {
        let mut out: Vec<RecordFrameV1> = Vec::new();
        std::mem::swap(&mut out, &mut self.output);
        proof {
            assert(crate::text_stream::frames_view(self.output@) =~= Seq::<SpecFrame>::empty());
        }
        out
    }
}


/// The records of a queue entering at `start` one after another, from the `k`-th on.
pub open spec fn spec_route_queue(p: SpecPipeline, start: int, q: Seq<SpecRecord>, k: int, stop: bool) -> Result<(bool, SpecPipeline), SpecStep>
    decreases q.len() - k,
{
    if k >= q.len() {
        Ok((stop, p))
    } else {
        match spec_route_step(p, start, q[k]) {
            Err(e) => Err(e),
            Ok((st, p2)) => spec_route_queue(p2, start, q, k + 1, stop || st),
        }
    }
}

/// A pipeline with slot `i` replaced.
pub open spec fn with_slot(p: SpecPipeline, i: int, slot: SpecSlot) -> SpecPipeline {
    SpecPipeline { slots: p.slots.update(i, slot), ..p }
}

/// Stage `i` emits `rec` at the end of the input: the record it held back and this one go
/// on downstream.
pub open spec fn spec_emit(p: SpecPipeline, i: int, rec: SpecRecord) -> Result<(bool, SpecPipeline), SpecStep> {
    let (pend, q) = spec_enqueue(p.slots[i].pending, rec);
    spec_route_queue(with_slot(p, i, SpecSlot { pending: pend, ..p.slots[i] }), i + 1, q, 0, false)
}

/// Stage `i` emits `recs[k..]` in turn, until downstream wants no more.
pub open spec fn spec_emit_all(p: SpecPipeline, i: int, recs: Seq<SpecRecord>, k: int) -> Result<SpecPipeline, SpecStep>
    decreases recs.len() - k,
{
    if k >= recs.len() {
        Ok(p)
    } else {
        match spec_emit(p, i, recs[k]) {
            Err(e) => Err(e),
            Ok((stop, p2)) => if stop { Ok(p2) } else { spec_emit_all(p2, i, recs, k + 1) },
        }
    }
}

/// Stage `i` lets the record it held back go on, at the end of the input.
pub open spec fn spec_release(p: SpecPipeline, i: int) -> Result<SpecPipeline, SpecStep> {
    match p.slots[i].pending {
        None => Ok(p),
        Some(rec) => match spec_route_step(with_slot(p, i, SpecSlot { pending: None, ..p.slots[i] }), i + 1, rec) {
            Err(e) => Err(e),
            Ok((_, p3)) => Ok(p3),
        },
    }
}

/// Stage `i` finishing with the records `out` it still had: they go on, then the record it
/// held back goes on, terminated or not.
pub open spec fn spec_finish_stage(p: SpecPipeline, i: int, out: Result<Seq<SpecRecord>, OrderedPipelineFaultV1>) -> Result<SpecPipeline, SpecStep> {
    match out {
        Err(e) => Err(SpecStep::Fault(e)),
        Ok(recs) => {
            let p1 = with_slot(p, i, SpecSlot { stage: crate::ordered_stage::spec_finished(p.slots[i].stage), ..p.slots[i] });
            match spec_emit_all(p1, i, recs, 0) {
                Err(e) => Err(e),
                Ok(p2) => spec_release(p2, i),
            }
        },
    }
}

/// The stages from `i` to `n` finishing in order, stage `i` with `outs[0]` and so on: `None`
/// when some stage could not have given its output.
pub open spec fn spec_finish_from(p: SpecPipeline, i: int, n: int, cause: OrderedFinishCauseV1, outs: Seq<Result<Seq<SpecRecord>, OrderedPipelineFaultV1>>) -> Option<Result<SpecPipeline, SpecStep>>
    decreases n - i,
{
    if i >= n {
        Some(Ok(p))
    } else if outs.len() == 0 || !crate::ordered_stage::finish_allowed(p.slots[i].stage, cause, outs[0]) {
        None
    } else {
        match spec_finish_stage(p, i, outs[0]) {
            Err(e) => Some(Err(e)),
            Ok(p2) => spec_finish_from(p2, i + 1, n, cause, outs.drop_first()),
        }
    }
}

/// One more stage finished with output `o`: what finishing from the start gives with `o`
/// added to the outputs so far.
proof fn lemma_finish_step(
    p0: SpecPipeline,
    before: SpecPipeline,
    index: int,
    n: int,
    cause: OrderedFinishCauseV1,
    outs: Seq<Result<Seq<SpecRecord>, OrderedPipelineFaultV1>>,
    o: Result<Seq<SpecRecord>, OrderedPipelineFaultV1>,
)
    requires
        0 <= index < n,
        forall|rest: Seq<Result<Seq<SpecRecord>, OrderedPipelineFaultV1>>|
            #[trigger] spec_finish_from(before, index, n, cause, rest) == spec_finish_from(p0, 0, n, cause, outs + rest),
        crate::ordered_stage::finish_allowed(before.slots[index].stage, cause, o),
    ensures
        match spec_finish_stage(before, index, o) {
            Err(e) => spec_finish_from(p0, 0, n, cause, outs.push(o)) == Some(Err::<SpecPipeline, SpecStep>(e)),
            Ok(p3) => forall|rest: Seq<Result<Seq<SpecRecord>, OrderedPipelineFaultV1>>|
                #[trigger] spec_finish_from(p3, index + 1, n, cause, rest) == spec_finish_from(p0, 0, n, cause, outs.push(o) + rest),
        },
{
    match spec_finish_stage(before, index, o) {
        Err(e) => {
            let r1 = seq![o];
            assert(r1[0] == o);
            assert(spec_finish_from(before, index, n, cause, r1) == spec_finish_from(p0, 0, n, cause, outs + r1));
            assert(outs + r1 =~= outs.push(o));
        },
        Ok(p3) => {
            assert forall|rest: Seq<Result<Seq<SpecRecord>, OrderedPipelineFaultV1>>|
                #[trigger] spec_finish_from(p3, index + 1, n, cause, rest) == spec_finish_from(p0, 0, n, cause, outs.push(o) + rest) by {
                let r2 = seq![o] + rest;
                assert(r2[0] == o);
                assert(r2.drop_first() =~= rest);
                assert(spec_finish_from(before, index, n, cause, r2) == spec_finish_from(p0, 0, n, cause, outs + r2));
                assert(outs + r2 =~= outs.push(o) + rest);
            }
        },
    }
}

/// Whether `r` and `after` are what finishing may give.
pub open spec fn finish_matches(f: Option<Result<SpecPipeline, SpecStep>>, r: Result<(), OrderedPipelineFaultV1>, after: SpecPipeline) -> bool {
    match f {
        None => false,
        Some(Err(e)) => r matches Err(x) && step_fault_matches(e, x),
        Some(Ok(p2)) => r == Ok::<(), OrderedPipelineFaultV1>(()) && after == p2,
    }
}

impl OrderedPipelineV1 {
    /// Stage `index` emits a record at the end of the input.
    fn emit_from_slot(&mut self, index: usize, record: PipelineRecordV1, cancellation: &RunnerCancellationV1) -> (r: Result<OrderedFlowV1, OrderedPipelineFaultV1>)
        requires
            pipeline_wf(old(self)@),
            index < old(self)@.slots.len(),
        ensures
            pipeline_wf(final(self)@),
            final(self)@.paths == old(self)@.paths,
            final(self)@.slots.len() == old(self)@.slots.len(),
            r == Err::<OrderedFlowV1, _>(OrderedPipelineFaultV1::Cancelled)
                || step_matches(spec_emit(old(self)@, index as int, record@), r, final(self)@),
    {
        let ghost p0 = self@;
        let total = self.stages.len();
        let next_index = index + 1;
        proof {
            assert(stage_wf(p0.slots[index as int].stage));
        }
        let mut slot = self.stages.remove(index);
        proof {
            assert(p0.slots[index as int] == slot@);
        }
        let mut queue: Vec<PipelineRecordV1> = Vec::new();
        enqueue_output(&mut slot, record, &mut queue);
        self.stages.insert(index, slot);
        let ghost q = records_view(queue@);
        proof {
            assert(records_view(queue@) =~= spec_enqueue(p0.slots[index as int].pending, record@).1);
            assert(self@ == with_slot(p0, index as int, SpecSlot { pending: spec_enqueue(p0.slots[index as int].pending, record@).0, ..p0.slots[index as int] })) by {
                assert(self@.slots =~= p0.slots.update(index as int, slot@));
            }
            assert forall|j: int| 0 <= j < self@.slots.len() implies stage_wf(#[trigger] self@.slots[j].stage) by {
                if j != index {
                    assert(self@.slots[j] == p0.slots[j]);
                }
            }
        }
        let ghost order = queue@;
        let count = queue.len();
        let mut pending = reversed(queue);
        let mut stop = false;
        let mut k: usize = 0;
        while pending.len() > 0
            invariant
                k <= order.len(),
                count == order.len(),
                pending@ == order.subrange(k as int, order.len() as int).reverse(),
                q == records_view(order),
                pipeline_wf(self@),
                self@.paths == p0.paths,
                self@.slots.len() == p0.slots.len(),
                index < p0.slots.len(),
                p0 == old(self)@,
                next_index == index + 1,
                spec_emit(p0, index as int, record@) == spec_route_queue(self@, index + 1, q, k as int, stop),
            decreases pending.len(),
        {
            proof {
                lemma_pop_reversed(order, k as int);
            }
            let rec = pending.pop().unwrap();
            assert(rec@ == q[k as int]);
            let flow = self.route_from(next_index, rec, cancellation)?;
            stop = stop || flow == OrderedFlowV1::StopUpstream;
            k += 1;
            proof {
                assert(pending@ =~= order.subrange(k as int, order.len() as int).reverse());
            }
        }
        Ok(if stop { OrderedFlowV1::StopUpstream } else { OrderedFlowV1::Continue })
    }

    /// Stage `index` emits `records` in turn at the end of the input, until downstream wants
    /// no more.
    fn emit_all(&mut self, index: usize, records: Vec<PipelineRecordV1>, cancellation: &RunnerCancellationV1) -> (r: Result<(), OrderedPipelineFaultV1>)
        requires
            pipeline_wf(old(self)@),
            index < old(self)@.slots.len(),
        ensures
            pipeline_wf(final(self)@),
            final(self)@.paths == old(self)@.paths,
            final(self)@.slots.len() == old(self)@.slots.len(),
            r == Err::<(), _>(OrderedPipelineFaultV1::Cancelled) || match spec_emit_all(old(self)@, index as int, records_view(records@), 0) {
                Err(s) => r matches Err(f) && step_fault_matches(s, f),
                Ok(p2) => r == Ok::<(), OrderedPipelineFaultV1>(()) && final(self)@ == p2,
            },
    {
        let ghost p0 = self@;
        let ghost recs = records_view(records@);
        let ghost order = records@;
        let count = records.len();
        let mut pending = reversed(records);
        let mut k: usize = 0;
        let mut stopped = false;
        while pending.len() > 0 && !stopped
            invariant
                k <= order.len(),
                count == order.len(),
                pending@ == order.subrange(k as int, order.len() as int).reverse(),
                recs == records_view(order),
                order == records@,
                pipeline_wf(self@),
                p0 == old(self)@,
                self@.paths == p0.paths,
                self@.slots.len() == p0.slots.len(),
                index < p0.slots.len(),
                stopped ==> spec_emit_all(p0, index as int, recs, 0) == Ok::<SpecPipeline, SpecStep>(self@),
                !stopped ==> spec_emit_all(p0, index as int, recs, 0) == spec_emit_all(self@, index as int, recs, k as int),
            decreases pending.len(),
        {
            proof {
                lemma_pop_reversed(order, k as int);
            }
            let rec = pending.pop().unwrap();
            assert(rec@ == recs[k as int]);
            let ghost pk = self@;
            let flow = match self.emit_from_slot(index, rec, cancellation) {
                Ok(flow) => flow,
                Err(e) => {
                    proof {
                        if e != OrderedPipelineFaultV1::Cancelled {
                            match spec_emit(pk, index as int, recs[k as int]) {
                                Err(st) => {
                                    assert(spec_emit_all(pk, index as int, recs, k as int) == Err::<SpecPipeline, SpecStep>(st));
                                    assert(step_fault_matches(st, e));
                                },
                                Ok(_) => {},
                            }
                        }
                    }
                    return Err(e);
                },
            };
            if flow == OrderedFlowV1::StopUpstream {
                stopped = true;
            }
            k += 1;
            proof {
                assert(pending@ =~= order.subrange(k as int, order.len() as int).reverse());
            }
        }
        proof {
            if !stopped {
                assert(k == order.len());
            }
        }
        Ok(())
    }

    /// Stage `index` lets the record it held back go on.
    fn release_pending(&mut self, index: usize, cancellation: &RunnerCancellationV1) -> (r: Result<(), OrderedPipelineFaultV1>)
        requires
            pipeline_wf(old(self)@),
            index < old(self)@.slots.len(),
        ensures
            pipeline_wf(final(self)@),
            final(self)@.paths == old(self)@.paths,
            final(self)@.slots.len() == old(self)@.slots.len(),
            r == Err::<(), _>(OrderedPipelineFaultV1::Cancelled) || match spec_release(old(self)@, index as int) {
                Err(s) => r matches Err(f) && step_fault_matches(s, f),
                Ok(p2) => r == Ok::<(), OrderedPipelineFaultV1>(()) && final(self)@ == p2,
            },
    {
        let ghost p2 = self@;
        proof {
            assert(stage_wf(self@.slots[index as int].stage));
        }
        let total = self.stages.len();
        let next_index = index + 1;
        let mut slot = self.stages.remove(index);
        proof {
            assert(p2.slots[index as int] == slot@);
        }
        let held = slot.pending_unterminated.take();
        proof {
            if held is Some {
                assert(p2.slots[index as int].pending == Some(held->0@));
            } else {
                assert(p2.slots[index as int].pending is None);
            }
        }
        self.stages.insert(index, slot);
        proof {
            assert(self@.slots =~= p2.slots.update(index as int, slot@));
            assert(self@ == with_slot(p2, index as int, SpecSlot { pending: None, ..p2.slots[index as int] }));
            assert forall|j: int| 0 <= j < self@.slots.len() implies stage_wf(#[trigger] self@.slots[j].stage) by {
                if j != index {
                    assert(self@.slots[j] == p2.slots[j]);
                }
            }
        }
        match held {
            None => {
                proof {
                    assert(self@.slots =~= p2.slots);
                }
                Ok(())
            },
            Some(rec) => {
                match self.route_from(next_index, rec, cancellation) {
                    Ok(_) => Ok(()),
                    Err(e) => Err(e),
                }
            },
        }
    }

    /// The input ended for the reason `cause`: every stage in turn writes what it still
    /// has, which goes through the stages after it.
    pub fn finish(&mut self, cause: OrderedFinishCauseV1, cancellation: &RunnerCancellationV1) -> (r: Result<(), OrderedPipelineFaultV1>)
        requires
            pipeline_wf(old(self)@),
        ensures
            pipeline_wf(final(self)@),
            final(self)@.paths == old(self)@.paths,
            r == Err::<(), _>(OrderedPipelineFaultV1::Cancelled)
                || exists|outs: Seq<Result<Seq<SpecRecord>, OrderedPipelineFaultV1>>|
                    finish_matches(#[trigger] spec_finish_from(old(self)@, 0, old(self)@.slots.len() as int, cause, outs), r, final(self)@),
    {
        let ghost p0 = self@;
        let n = self.stages.len();
        let ghost mut outs: Seq<Result<Seq<SpecRecord>, OrderedPipelineFaultV1>> = Seq::empty();
        let mut index: usize = 0;
        proof {
            assert forall|rest: Seq<Result<Seq<SpecRecord>, OrderedPipelineFaultV1>>|
                #[trigger] spec_finish_from(self@, 0, n as int, cause, rest) == spec_finish_from(p0, 0, n as int, cause, outs + rest) by {
                assert(outs + rest =~= rest);
            }
        }
        while index < n
            invariant
                n == p0.slots.len(),
                index <= n,
                p0 == old(self)@,
                pipeline_wf(self@),
                self@.paths == p0.paths,
                self@.slots.len() == n,
                forall|rest: Seq<Result<Seq<SpecRecord>, OrderedPipelineFaultV1>>|
                    #[trigger] spec_finish_from(self@, index as int, n as int, cause, rest) == spec_finish_from(p0, 0, n as int, cause, outs + rest),
            decreases n - index,
        {
            if cancellation.is_cancelled() {
                self.abort();
                return Err(OrderedPipelineFaultV1::Cancelled);
            }
            let ghost before = self@;
            proof {
                assert(stage_wf(before.slots[index as int].stage));
            }
            let mut slot = self.stages.remove(index);
            proof {
                assert(before.slots[index as int] == slot@);
            }
            let finished = slot.stage.finish(cause, cancellation);
            self.stages.insert(index, slot);
            let ghost o = crate::ordered_stage::result_records_view(finished);
            proof {
                assert(self@.slots =~= before.slots.update(index as int, slot@));
                assert forall|j: int| 0 <= j < self@.slots.len() implies stage_wf(#[trigger] self@.slots[j].stage) by {
                    if j != index {
                        assert(self@.slots[j] == before.slots[j]);
                    }
                }
                assert(self@ == with_slot(before, index as int, SpecSlot { stage: crate::ordered_stage::spec_finished(before.slots[index as int].stage), ..before.slots[index as int] }));
                lemma_finish_step(p0, before, index as int, n as int, cause, outs, o);
            }
            let records = match finished {
                Err(e) => {
                    proof {
                        assert(finish_matches(spec_finish_from(p0, 0, n as int, cause, outs.push(o)), Err(e), self@));
                    }
                    return Err(e);
                },
                Ok(records) => records,
            };
            match self.emit_all(index, records, cancellation) {
                Ok(()) => {},
                Err(e) => {
                    proof {
                        if e != OrderedPipelineFaultV1::Cancelled {
                            assert(finish_matches(spec_finish_from(p0, 0, n as int, cause, outs.push(o)), Err(e), self@));
                        }
                    }
                    return Err(e);
                },
            }
            match self.release_pending(index, cancellation) {
                Ok(()) => {},
                Err(e) => {
                    proof {
                        if e != OrderedPipelineFaultV1::Cancelled {
                            assert(finish_matches(spec_finish_from(p0, 0, n as int, cause, outs.push(o)), Err(e), self@));
                        }
                    }
                    return Err(e);
                },
            }
            proof {
                assert(spec_finish_stage(before, index as int, o) == Ok::<SpecPipeline, SpecStep>(self@));
                outs = outs.push(o);
            }
            index += 1;
        }
        proof {
            let rest0 = Seq::<Result<Seq<SpecRecord>, OrderedPipelineFaultV1>>::empty();
            assert(outs + rest0 =~= outs);
            assert(spec_finish_from(self@, n as int, n as int, cause, rest0) == Some(Ok::<SpecPipeline, SpecStep>(self@)));
            assert(finish_matches(spec_finish_from(p0, 0, n as int, cause, outs), Ok(()), self@));
        }
        Ok(())
    }
}

/// A slot when a new input starts: a `grep` that searches its inputs directly counts lines
/// from 1 again.
pub open spec fn spec_start_input(slot: SpecSlot) -> SpecSlot {
    match slot.stage {
        SpecStageState::Search(t) => if t.direct {
            SpecSlot { stage: SpecStageState::Search(crate::ordered_stage::SpecSearch { line_number: 1, ..t }), ..slot }
        } else {
            slot
        },
        _ => slot,
    }
}

/// Whether a stage wants no record at all.
pub open spec fn wants_nothing(s: SpecStageState) -> bool {
    (s matches SpecStageState::Head { remaining } && remaining == 0) || (s matches SpecStageState::Tail(t) && t.limit == 0)
}

/// Whether the last stage is a `grep` that selected some record; `None` when the last
/// stage is no `grep`.
pub open spec fn final_search_state(p: SpecPipeline) -> Option<bool> {
    if p.slots.len() > 0 && p.slots.last().stage is Search {
        Some(p.slots.last().stage->Search_0.matched_any)
    } else {
        None
    }
}

impl OrderedPipelineV1 {
    /// Whether some stage wants no record at all, so that the input need not be read.
    pub fn starts_stopped(&self) -> (r: bool)
        ensures
            r == exists|i: int| 0 <= i < self@.slots.len() && wants_nothing(#[trigger] self@.slots[i].stage),
    {
        let mut i: usize = 0;
        while i < self.stages.len()
            invariant
                i <= self.stages@.len(),
                forall|j: int| 0 <= j < i ==> !wants_nothing(#[trigger] self@.slots[j].stage),
            decreases self.stages.len() - i,
        {
            if self.stages[i].stage.wants_nothing() {
                assert(wants_nothing(self@.slots[i as int].stage));
                return true;
            }
            i += 1;
        }
        false
    }

    /// A new input starts.
    pub fn start_input(&mut self)
        requires
            pipeline_wf(old(self)@),
        ensures
            pipeline_wf(final(self)@),
            final(self)@ == (SpecPipeline { slots: old(self)@.slots.map_values(|s: SpecSlot| spec_start_input(s)), ..old(self)@ }),
    {
        let ghost p0 = self@;
        let n = self.stages.len();
        let mut i: usize = 0;
        while i < n
            invariant
                n == p0.slots.len(),
                i <= n,
                p0 == old(self)@,
                self@.sink == p0.sink,
                self@.output == p0.output,
                self@.paths == p0.paths,
                self@.slots.len() == n,
                forall|j: int| 0 <= j < i ==> (#[trigger] self@.slots[j]) == spec_start_input(p0.slots[j]),
                forall|j: int| i <= j < n ==> (#[trigger] self@.slots[j]) == p0.slots[j],
            decreases n - i,
        {
            let ghost before = self@.slots;
            let mut slot = self.stages.remove(i);
            proof {
                assert(before[i as int] == slot@);
            }
            match &mut slot.stage {
                RuntimeStageV1::Search(search) => {
                    if search.direct {
                        search.line_number = 1;
                    }
                },
                _ => {},
            }
            self.stages.insert(i, slot);
            proof {
                assert(self@.slots =~= before.update(i as int, slot@));
            }
            i += 1;
        }
        proof {
            assert(self@.slots =~= p0.slots.map_values(|s: SpecSlot| spec_start_input(s)));
            assert forall|j: int| 0 <= j < self@.slots.len() implies stage_wf(#[trigger] self@.slots[j].stage) by {
                assert(stage_wf(p0.slots[j].stage));
            }
        }
    }

    /// Whether the last stage is a `grep` that selected some record; `None` when the last
    /// stage is no `grep`.
    pub fn final_search_matched(&self) -> (r: Option<bool>)
        ensures
            r == final_search_state(self@),
    {
        if self.stages.len() == 0 {
            return None;
        }
        match &self.stages[self.stages.len() - 1].stage {
            RuntimeStageV1::Search(search) => Some(search.matched_any),
            _ => None,
        }
    }

    /// Ends the output: the record the writer still holds, which is the last one to write.
    pub fn into_final_frame(self) -> (r: Option<RecordFrameV1>)
        ensures
            crate::text_stream::opt_frame_view(r) == match self@.sink.pending {
                Some((_, f)) => Some(f),
                None => None,
            },
    {
        self.sink.finish()
    }
}


/// `head -n c` passes on at most `c` records: whatever records reach a `head` stage, what it
/// emits, together with the record it holds back, numbers at most `c`.
pub proof fn law_head_passes_at_most(c: usize, recs: Seq<SpecRecord>, k: int, paths: Seq<Seq<char>>)
    requires
        0 <= k <= recs.len(),
    ensures
        spec_level(SpecSlot { stage: SpecStageState::Head { remaining: c }, pending: None }, recs, k, paths) matches Ok((s, out, _))
            && s.stage matches SpecStageState::Head { remaining }
            && out.len() + (if s.pending is Some { 1int } else { 0int }) + remaining == c,
    decreases k,
{
    if k > 0 {
        law_head_passes_at_most(c, recs, k - 1, paths);
    }
}

} // verus!
