//! The stages of an ordered pipeline: `grep`, `head`, `tail`, `wc -l`, `sort` and `uniq`,
//! each taking records one at a time and saying what goes on to the next stage.

use vstd::prelude::*;
use crate::grep_pattern::GrepPatternV1;
use crate::ordered_pipeline::{
    OrderedFinishCauseV1, first_occurrences, retain_first_identical_cancellable, seen_before, stable_sort_cancellable, str_views,
    OrderedPipelineFaultV1, orders_by, sorted_by, total_preorder, same_rank, rank_stable, lemma_same_rank_map,
    lemma_same_rank_none,
};
use crate::runner_cancel::RunnerCancellationV1;
use crate::sort_support::{
    compare_decimal, compare_exact_decimal, law_decimal_compare_antisymmetric, law_decimal_compare_transitive,
    ordering_sign, parse_exact_decimal, spec_parse_decimal, ExactDecimalV1,
};
use std::cmp::Ordering;
use crate::pattern_engine::regex_matches;
use crate::sort_support::{resource_limit_exceeded, MAX_SORT_BYTES, MAX_SORT_RECORDS};
use crate::text::{byte_len, chars_of, concat, decimal_text, push_char, strings_view, u64_text};
use crate::text_stream::RecordFrameV1;
use crate::interpreter::{SpecStage, StagePlanV1};
use crate::grep_pattern::{grep_compile_outcome, grep_expression};
use std::collections::VecDeque;

verus! {

pub const MAX_TAIL_BUFFER_RECORDS: usize = 65536;
pub const MAX_TAIL_BUFFER_BYTES: usize = 16777216;

/// A record on its way through the stages, with the index of the input it came from.
#[derive(Clone, Debug)]
pub struct PipelineRecordV1 {
    pub frame: RecordFrameV1,
    pub input_index: usize,
}

/// The value of a record.
pub struct SpecRecord {
    pub text: Seq<char>,
    pub terminated: bool,
    pub input_index: usize,
}

impl View for PipelineRecordV1 {
    type V = SpecRecord;

    open spec fn view(&self) -> SpecRecord {
        SpecRecord { text: self.frame.text@, terminated: self.frame.terminated, input_index: self.input_index }
    }
}

pub open spec fn records_view(s: Seq<PipelineRecordV1>) -> Seq<SpecRecord> {
    s.map_values(|r: PipelineRecordV1| r@)
}

/// The number of UTF-8 bytes of a text.
pub open spec fn text_bytes(t: Seq<char>) -> nat {
    vstd::utf8::encode_utf8(t).len()
}

/// The number of UTF-8 bytes of the texts of some records.
pub open spec fn total_bytes(s: Seq<SpecRecord>) -> nat
    decreases s.len(),
{
    if s.len() == 0 {
        0
    } else {
        text_bytes(s[0].text) + total_bytes(s.drop_first())
    }
}

pub proof fn lemma_total_bytes_push(s: Seq<SpecRecord>, x: SpecRecord)
    ensures
        total_bytes(s.push(x)) == total_bytes(s) + text_bytes(x.text),
    decreases s.len(),
{
    if s.len() == 0 {
        assert(s.push(x).drop_first() =~= s);
    } else {
        lemma_total_bytes_push(s.drop_first(), x);
        assert(s.push(x).drop_first() =~= s.drop_first().push(x));
    }
}

/// What a stage does with a record: nothing goes on, the record goes on, the record goes on
/// and nothing more is wanted, or nothing more is wanted.
pub enum StageActionV1 {
    Drop,
    Emit(PipelineRecordV1),
    EmitAndStop(PipelineRecordV1),
    Stop,
}

pub enum SpecAction {
    Drop,
    Emit(SpecRecord),
    EmitAndStop(SpecRecord),
    Stop,
}

impl View for StageActionV1 {
    type V = SpecAction;

    open spec fn view(&self) -> SpecAction {
        match self {
            StageActionV1::Drop => SpecAction::Drop,
            StageActionV1::Emit(r) => SpecAction::Emit(r@),
            StageActionV1::EmitAndStop(r) => SpecAction::EmitAndStop(r@),
            StageActionV1::Stop => SpecAction::Stop,
        }
    }
}

/// The state of a `grep` stage.
pub struct SearchStateV1 {
    pub pattern: GrepPatternV1,
    pub line_numbers: bool,
    pub invert_match: bool,
    pub direct: bool,
    pub multiple_paths: bool,
    pub line_number: u64,
    pub matched_any: bool,
}

pub struct SpecSearch {
    pub expression: Seq<char>,
    pub ignore_case: bool,
    pub line_numbers: bool,
    pub invert_match: bool,
    pub direct: bool,
    pub multiple_paths: bool,
    pub line_number: u64,
    pub matched_any: bool,
}

impl View for SearchStateV1 {
    type V = SpecSearch;

    open spec fn view(&self) -> SpecSearch {
        SpecSearch {
            expression: self.pattern.expression(),
            ignore_case: self.pattern.ignore_case(),
            line_numbers: self.line_numbers,
            invert_match: self.invert_match,
            direct: self.direct,
            multiple_paths: self.multiple_paths,
            line_number: self.line_number,
            matched_any: self.matched_any,
        }
    }
}

/// The state of a `tail` stage: the last records seen, at most `limit` of them, and their size.
pub struct TailStateV1 {
    pub limit: usize,
    pub records: VecDeque<PipelineRecordV1>,
    pub bytes: usize,
}

pub struct SpecTail {
    pub limit: usize,
    pub records: Seq<SpecRecord>,
    pub bytes: usize,
}

impl View for TailStateV1 {
    type V = SpecTail;

    open spec fn view(&self) -> SpecTail {
        SpecTail { limit: self.limit, records: records_view(self.records@), bytes: self.bytes }
    }
}

/// The state of a `sort` stage: its options, the records held, and their size.
pub struct SortStateV1 {
    pub reverse: bool,
    pub numeric: bool,
    pub unique: bool,
    pub records: Vec<PipelineRecordV1>,
    pub bytes: usize,
}

pub struct SpecSort {
    pub reverse: bool,
    pub numeric: bool,
    pub unique: bool,
    pub records: Seq<SpecRecord>,
    pub bytes: usize,
}

impl View for SortStateV1 {
    type V = SpecSort;

    open spec fn view(&self) -> SpecSort {
        SpecSort {
            reverse: self.reverse,
            numeric: self.numeric,
            unique: self.unique,
            records: records_view(self.records@),
            bytes: self.bytes,
        }
    }
}

/// The state of a `uniq` stage: its options and the group of equal records it is counting.
pub struct UniqueStateV1 {
    pub count: bool,
    pub repeated_only: bool,
    pub unique_only: bool,
    pub pending: Option<(PipelineRecordV1, u64)>,
}

pub struct SpecUnique {
    pub count: bool,
    pub repeated_only: bool,
    pub unique_only: bool,
    pub pending: Option<(SpecRecord, u64)>,
}

impl View for UniqueStateV1 {
    type V = SpecUnique;

    open spec fn view(&self) -> SpecUnique {
        SpecUnique {
            count: self.count,
            repeated_only: self.repeated_only,
            unique_only: self.unique_only,
            pending: match self.pending {
                Some((r, n)) => Some((r@, n)),
                None => None,
            },
        }
    }
}

/// A stage of an ordered pipeline, with its state.
pub enum RuntimeStageV1 {
    Search(SearchStateV1),
    Head { remaining: usize },
    Tail(TailStateV1),
    Count { terminated: u64 },
    Sort(SortStateV1),
    Unique(UniqueStateV1),
}

pub enum SpecStageState {
    Search(SpecSearch),
    Head { remaining: usize },
    Tail(SpecTail),
    Count { terminated: u64 },
    Sort(SpecSort),
    Unique(SpecUnique),
}

impl View for RuntimeStageV1 {
    type V = SpecStageState;

    open spec fn view(&self) -> SpecStageState {
        match self {
            RuntimeStageV1::Search(s) => SpecStageState::Search(s@),
            RuntimeStageV1::Head { remaining } => SpecStageState::Head { remaining: *remaining },
            RuntimeStageV1::Tail(t) => SpecStageState::Tail(t@),
            RuntimeStageV1::Count { terminated } => SpecStageState::Count { terminated: *terminated },
            RuntimeStageV1::Sort(s) => SpecStageState::Sort(s@),
            RuntimeStageV1::Unique(u) => SpecStageState::Unique(u@),
        }
    }
}

/// The sizes a stage keeps are the sizes of the records it holds.
pub open spec fn stage_wf(s: SpecStageState) -> bool {
    match s {
        SpecStageState::Tail(t) => t.bytes == total_bytes(t.records),
        SpecStageState::Sort(t) => t.bytes == total_bytes(t.records),
        _ => true,
    }
}

/// A path as `grep` shows it before a match: with backslashes for slashes.
pub open spec fn backslashed(s: Seq<char>) -> Seq<char> {
    s.map_values(|c: char| if c == '/' { '\\' } else { c })
}

/// The text `grep` writes for a selected record on line `line`: the path of its input when
/// several inputs are searched directly, the line number when asked for, then the record.
/// `None` when the record's input has no path.
pub open spec fn search_text(s: SpecSearch, line: u64, rec: SpecRecord, paths: Seq<Seq<char>>) -> Option<Seq<char>> {
    if s.direct && s.multiple_paths {
        if rec.input_index < paths.len() {
            let p = backslashed(paths[rec.input_index as int]) + seq![':'];
            Some(if s.line_numbers { p + decimal_text(line as nat) + seq![':'] + rec.text } else { p + rec.text })
        } else {
            None
        }
    } else if s.line_numbers {
        Some(decimal_text(line as nat) + seq![':'] + rec.text)
    } else {
        Some(rec.text)
    }
}

/// What a `grep` stage does with a record.
pub open spec fn spec_search_push(s: SpecSearch, rec: SpecRecord, paths: Seq<Seq<char>>) -> Result<(SpecSearch, SpecAction), OrderedPipelineFaultV1> {
    if s.line_number == u64::MAX {
        Err(OrderedPipelineFaultV1::Overflow)
    } else if regex_matches(s.expression, s.ignore_case, rec.text) == s.invert_match {
        Ok((SpecSearch { line_number: (s.line_number + 1) as u64, ..s }, SpecAction::Drop))
    } else {
        match search_text(s, s.line_number, rec, paths) {
            None => Err(OrderedPipelineFaultV1::Unsupported),
            Some(text) => Ok((
                SpecSearch { line_number: (s.line_number + 1) as u64, matched_any: true, ..s },
                SpecAction::Emit(SpecRecord { text, ..rec }),
            )),
        }
    }
}

/// The records a `tail` stage keeps of `records` to make room for one more.
pub open spec fn tail_kept(records: Seq<SpecRecord>, limit: usize) -> Seq<SpecRecord> {
    if records.len() >= limit {
        records.subrange(records.len() - (limit - 1), records.len() as int)
    } else {
        records
    }
}

/// What a `tail` stage does with a record.
pub open spec fn spec_tail_push(t: SpecTail, rec: SpecRecord) -> Result<(SpecTail, SpecAction), OrderedPipelineFaultV1> {
    if t.limit == 0 {
        Ok((t, SpecAction::Stop))
    } else {
        let kept = tail_kept(t.records, t.limit);
        let next_bytes = total_bytes(kept) + text_bytes(rec.text);
        if kept.len() >= MAX_TAIL_BUFFER_RECORDS || next_bytes > MAX_TAIL_BUFFER_BYTES {
            Err(OrderedPipelineFaultV1::TailResource)
        } else {
            Ok((SpecTail { limit: t.limit, records: kept.push(rec), bytes: next_bytes as usize }, SpecAction::Drop))
        }
    }
}

/// What a `sort` stage does with a record: it holds it, within its limits.
pub open spec fn spec_sort_push(t: SpecSort, rec: SpecRecord) -> Result<(SpecSort, SpecAction), OrderedPipelineFaultV1> {
    if t.records.len() >= MAX_SORT_RECORDS || t.bytes + text_bytes(rec.text) > MAX_SORT_BYTES {
        Err(OrderedPipelineFaultV1::SortResource)
    } else {
        Ok((SpecSort { records: t.records.push(rec), bytes: (t.bytes + text_bytes(rec.text)) as usize, ..t }, SpecAction::Drop))
    }
}

/// The text `uniq -c` writes for a group: its size, a space, and the record's text.
pub open spec fn counted_text(occurrences: u64, text: Seq<char>) -> Seq<char> {
    decimal_text(occurrences as nat) + " "@ + text
}

/// Whether a `uniq` stage writes a group of `occurrences` equal records.
pub open spec fn group_shown(u: SpecUnique, occurrences: u64) -> bool {
    !((u.repeated_only && occurrences < 2) || (u.unique_only && occurrences != 1))
}

/// The record a finished group becomes, if it is written.
pub open spec fn group_output(u: SpecUnique, rec: SpecRecord, occurrences: u64) -> Option<SpecRecord> {
    if !group_shown(u, occurrences) {
        None
    } else if u.count {
        Some(SpecRecord { text: counted_text(occurrences, rec.text), ..rec })
    } else {
        Some(rec)
    }
}

/// What a `uniq` stage does with a record: equal text extends the group; other text closes
/// the group, which goes on if it is written, and starts a new one.
pub open spec fn spec_unique_push(u: SpecUnique, rec: SpecRecord) -> Result<(SpecUnique, SpecAction), OrderedPipelineFaultV1> {
    match u.pending {
        None => Ok((SpecUnique { pending: Some((rec, 1u64)), ..u }, SpecAction::Drop)),
        Some((p, n)) => if p.text == rec.text {
            if n == u64::MAX {
                Err(OrderedPipelineFaultV1::Overflow)
            } else {
                Ok((SpecUnique { pending: Some((SpecRecord { terminated: rec.terminated, ..p }, (n + 1) as u64)), ..u }, SpecAction::Drop))
            }
        } else {
            Ok((
                SpecUnique { pending: Some((rec, 1u64)), ..u },
                match group_output(u, SpecRecord { terminated: true, ..p }, n) {
                    Some(o) => SpecAction::Emit(o),
                    None => SpecAction::Drop,
                },
            ))
        },
    }
}

/// What a stage does with a record: its next state and what goes on, or the fault.
pub open spec fn spec_stage_push(s: SpecStageState, rec: SpecRecord, paths: Seq<Seq<char>>) -> Result<(SpecStageState, SpecAction), OrderedPipelineFaultV1> {
    match s {
        SpecStageState::Search(t) => match spec_search_push(t, rec, paths) {
            Ok((t2, a)) => Ok((SpecStageState::Search(t2), a)),
            Err(e) => Err(e),
        },
        SpecStageState::Head { remaining } => if remaining == 0 {
            Ok((s, SpecAction::Stop))
        } else if remaining == 1 {
            Ok((SpecStageState::Head { remaining: 0 }, SpecAction::EmitAndStop(rec)))
        } else {
            Ok((SpecStageState::Head { remaining: (remaining - 1) as usize }, SpecAction::Emit(rec)))
        },
        SpecStageState::Tail(t) => match spec_tail_push(t, rec) {
            Ok((t2, a)) => Ok((SpecStageState::Tail(t2), a)),
            Err(e) => Err(e),
        },
        SpecStageState::Count { terminated } => if !rec.terminated {
            Ok((s, SpecAction::Drop))
        } else if terminated == u64::MAX {
            Err(OrderedPipelineFaultV1::Overflow)
        } else {
            Ok((SpecStageState::Count { terminated: (terminated + 1) as u64 }, SpecAction::Drop))
        },
        SpecStageState::Sort(t) => match spec_sort_push(t, rec) {
            Ok((t2, a)) => Ok((SpecStageState::Sort(t2), a)),
            Err(e) => Err(e),
        },
        SpecStageState::Unique(u) => match spec_unique_push(u, rec) {
            Ok((u2, a)) => Ok((SpecStageState::Unique(u2), a)),
            Err(e) => Err(e),
        },
    }
}

/// A path's text with backslashes for slashes.
pub fn backslash_path(path: &str) -> (r: String)
    ensures
        r@ == backslashed(path@),
{
    let chars = chars_of(path);
    let mut out = String::new();
    let mut i: usize = 0;
    while i < chars.len()
        invariant
            chars@ == path@,
            i <= chars@.len(),
            out@ == backslashed(path@).subrange(0, i as int),
        decreases chars.len() - i,
    {
        let c = chars[i];
        push_char(&mut out, if c == '/' { '\\' } else { c });
        i += 1;
        assert(out@ =~= backslashed(path@).subrange(0, i as int));
    }
    assert(backslashed(path@).subrange(0, i as int) =~= backslashed(path@));
    out
}


/// Equal multisets stay equal when each item is mapped.
pub proof fn lemma_map_multiset<A, B>(a: Seq<A>, b: Seq<A>, f: spec_fn(A) -> B)
    requires
        a.to_multiset() == b.to_multiset(),
    ensures
        a.map_values(f).to_multiset() == b.map_values(f).to_multiset(),
    decreases a.len(),
{
    broadcast use vstd::multiset::group_multiset_axioms;
    broadcast use vstd::seq_lib::group_to_multiset_ensures;
    if a.len() == 0 {
        vstd::seq_lib::to_multiset_len(b);
        assert(b.len() == 0);
        assert(a.map_values(f) =~= Seq::<B>::empty());
        assert(b.map_values(f) =~= Seq::<B>::empty());
    } else {
        let x = a.last();
        let a1 = a.drop_last();
        assert(a1.push(x) =~= a);
        vstd::seq_lib::to_multiset_build(a1, x);
        assert(b.to_multiset().count(x) > 0);
        vstd::seq_lib::to_multiset_contains(b, x);
        let i = choose|i: int| 0 <= i < b.len() && b[i] == x;
        let b1 = b.remove(i);
        vstd::seq_lib::to_multiset_remove(b, i);
        assert(a1.to_multiset() =~= b1.to_multiset());
        lemma_map_multiset(a1, b1, f);
        assert(a.map_values(f) =~= a1.map_values(f).push(f(x)));
        vstd::seq_lib::to_multiset_build(a1.map_values(f), f(x));
        assert(b.map_values(f) =~= b1.map_values(f).insert(i, f(x)));
        vstd::seq_lib::to_multiset_insert(b1.map_values(f), i, f(x));
    }
}

/// Keeping first occurrences commutes with mapping the items.
pub proof fn lemma_first_occurrences_map<A, B>(items: Seq<A>, keys: Seq<Seq<char>>, n: int, f: spec_fn(A) -> B)
    requires
        0 <= n <= items.len(),
    ensures
        first_occurrences(items.map_values(f), keys, n) == first_occurrences(items, keys, n).map_values(f),
    decreases n,
{
    if n <= 0 {
        assert(first_occurrences(items, keys, n).map_values(f) =~= Seq::<B>::empty());
    } else {
        lemma_first_occurrences_map(items, keys, n - 1, f);
        if !seen_before(keys, n - 1) {
            assert(first_occurrences(items, keys, n).map_values(f)
                =~= first_occurrences(items, keys, n - 1).map_values(f).push(f(items[n - 1])));
        }
    }
}

/// Code-point order of two texts, which for UTF-8 is the order of their bytes: -1, 0 or 1.
pub open spec fn text_order(a: Seq<char>, b: Seq<char>) -> int
    decreases a.len(),
{
    if a.len() == 0 {
        if b.len() == 0 { 0 } else { -1 }
    } else if b.len() == 0 {
        1
    } else if (a[0] as u32) < (b[0] as u32) {
        -1
    } else if (a[0] as u32) > (b[0] as u32) {
        1
    } else {
        text_order(a.drop_first(), b.drop_first())
    }
}

/// Code-point order from position `i` on.
pub open spec fn text_order_from(a: Seq<char>, b: Seq<char>, i: int) -> int
    decreases a.len() - i,
{
    if i >= a.len() {
        if i >= b.len() { 0 } else { -1 }
    } else if i >= b.len() {
        1
    } else if (a[i] as u32) < (b[i] as u32) {
        -1
    } else if (a[i] as u32) > (b[i] as u32) {
        1
    } else {
        text_order_from(a, b, i + 1)
    }
}

proof fn lemma_text_order_from(a: Seq<char>, b: Seq<char>, i: int)
    requires
        0 <= i <= a.len(),
        i <= b.len(),
    ensures
        text_order_from(a, b, i) == text_order(a.subrange(i, a.len() as int), b.subrange(i, b.len() as int)),
    decreases a.len() - i,
{
    let sa = a.subrange(i, a.len() as int);
    let sb = b.subrange(i, b.len() as int);
    if i < a.len() && i < b.len() && (a[i] as u32) == (b[i] as u32) {
        lemma_text_order_from(a, b, i + 1);
        assert(sa.drop_first() =~= a.subrange(i + 1, a.len() as int));
        assert(sb.drop_first() =~= b.subrange(i + 1, b.len() as int));
    }
}

/// Code-point order is antisymmetric: swapping the texts flips the result, and a text
/// compares equal to itself.
pub proof fn law_text_order_antisymmetric(a: Seq<char>, b: Seq<char>)
    ensures
        text_order(a, b) == -text_order(b, a),
        text_order(a, a) == 0,
    decreases a.len(),
{
    if a.len() > 0 {
        law_text_order_antisymmetric(a.drop_first(), a.drop_first());
        if b.len() > 0 && (a[0] as u32) == (b[0] as u32) {
            law_text_order_antisymmetric(a.drop_first(), b.drop_first());
        }
    }
}

/// Code-point order is transitive, so `sort` orders texts by a total preorder.
pub proof fn law_text_order_transitive(a: Seq<char>, b: Seq<char>, c: Seq<char>)
    requires
        text_order(a, b) <= 0,
        text_order(b, c) <= 0,
    ensures
        text_order(a, c) <= 0,
    decreases a.len(),
{
    if a.len() > 0 && b.len() > 0 && c.len() > 0 && (a[0] as u32) == (b[0] as u32) && (b[0] as u32) == (c[0] as u32) {
        law_text_order_transitive(a.drop_first(), b.drop_first(), c.drop_first());
    }
}

/// The order of two character keys, as a sign.
fn sign_ordering(sign: i8) -> (r: Ordering)
    requires
        -1 <= sign <= 1,
    ensures
        crate::sort_support::ordering_sign(r) == sign,
{
    if sign < 0 {
        Ordering::Less
    } else if sign > 0 {
        Ordering::Greater
    } else {
        Ordering::Equal
    }
}

/// Code-point order of two texts given as characters: -1, 0 or 1.
pub fn text_order_sign(a: &Vec<char>, b: &Vec<char>) -> (r: i8)
    ensures
        r == text_order(a@, b@),
        -1 <= r <= 1,
{
    proof {
        lemma_text_order_from(a@, b@, 0);
        assert(a@.subrange(0, a@.len() as int) =~= a@);
        assert(b@.subrange(0, b@.len() as int) =~= b@);
    }
    let mut i: usize = 0;
    while i < a.len() && i < b.len()
        invariant
            i <= a@.len(),
            i <= b@.len(),
            text_order_from(a@, b@, i as int) == text_order(a@, b@),
        decreases a.len() - i,
    {
        let x: u32 = a[i] as u32;
        let y: u32 = b[i] as u32;
        if x < y {
            return -1;
        }
        if x > y {
            return 1;
        }
        i += 1;
    }
    if i < b.len() {
        -1
    } else if i < a.len() {
        1
    } else {
        0
    }
}

/// Compares two texts, given as characters, by code point.
pub fn compare_text_keys(a: &Vec<char>, b: &Vec<char>) -> (r: Ordering)
    ensures
        crate::sort_support::ordering_sign(r) == text_order(a@, b@),
{
    let sign = text_order_sign(a, b);
    sign_ordering(sign)
}


/// Popping the last item of a reversed suffix gives its first item.
pub proof fn lemma_pop_reversed<T>(order: Seq<T>, k: int)
    requires
        0 <= k < order.len(),
    ensures
        order.subrange(k, order.len() as int).reverse().last() == order[k],
        order.subrange(k, order.len() as int).reverse().drop_last() == order.subrange(k + 1, order.len() as int).reverse(),
{
    assert(order.subrange(k, order.len() as int).reverse().drop_last() =~= order.subrange(k + 1, order.len() as int).reverse());
}

/// The items of `v` in the opposite order.
pub fn reversed<T>(v: Vec<T>) -> (r: Vec<T>)
    ensures
        r@ == v@.reverse(),
{
    let ghost original = v@;
    let mut v = v;
    let mut r: Vec<T> = Vec::new();
    while v.len() > 0
        invariant
            v@.len() <= original.len(),
            v@ == original.subrange(0, v@.len() as int),
            r@ == original.subrange(v@.len() as int, original.len() as int).reverse(),
        decreases v.len(),
    {
        let ghost before = v@;
        let x = v.pop().unwrap();
        r.push(x);
        proof {
            let k = v@.len() as int;
            assert(k == before.len() - 1);
            assert(v@ =~= original.subrange(0, k));
            assert(x == original[k]);
            assert(r@ =~= original.subrange(k, original.len() as int).reverse()) by {
                assert(original.subrange(k, original.len() as int).reverse()
                    =~= original.subrange(k + 1, original.len() as int).reverse().push(original[k]));
            }
        }
    }
    assert(original.subrange(0, original.len() as int) =~= original);
    r
}

/// The records of keyed entries.
pub open spec fn keyed_records<K>(s: Seq<(PipelineRecordV1, K)>) -> Seq<SpecRecord> {
    s.map_values(|e: (PipelineRecordV1, K)| e.0@)
}

/// The texts of some records.
pub open spec fn record_texts(s: Seq<SpecRecord>) -> Seq<Seq<char>> {
    s.map_values(|r: SpecRecord| r.text)
}

/// The records `sort` orders: all of them, or with `-u` the first of each text.
pub open spec fn unique_kept(s: Seq<SpecRecord>, unique: bool) -> Seq<SpecRecord> {
    if unique {
        first_occurrences(s, record_texts(s), s.len() as int)
    } else {
        s
    }
}

/// Records in the order given, each terminated but for the last, which is terminated as
/// `last_terminated` says.
pub open spec fn with_final_flags(records: Seq<SpecRecord>, last_terminated: bool) -> Seq<SpecRecord> {
    Seq::new(records.len(), |i: int| SpecRecord { terminated: i + 1 < records.len() || last_terminated, ..records[i] })
}

/// How `sort` orders two texts, as a sign: by value with `-n`, by code point otherwise,
/// turned around with `-r`.
pub open spec fn sort_order(s: SpecSort, a: Seq<char>, b: Seq<char>) -> int {
    let base = if s.numeric {
        compare_decimal(spec_parse_decimal(a).unwrap(), spec_parse_decimal(b).unwrap())
    } else {
        text_order(a, b)
    };
    if s.reverse { -base } else { base }
}

/// That no record of `s` comes after a later one in the order of `sort`.
pub open spec fn sort_ordered(s: SpecSort, records: Seq<SpecRecord>) -> bool {
    forall|i: int, j: int| 0 <= i < j < records.len() ==> #[trigger] sort_order(s, records[i].text, records[j].text) <= 0
}

/// Whether `sort` puts the record `a` no later than the record `b`.
pub open spec fn sort_le(s: SpecSort) -> spec_fn(SpecRecord, SpecRecord) -> bool {
    |a: SpecRecord, b: SpecRecord| sort_order(s, a.text, b.text) <= 0
}

/// What a finished `sort` may write: the records it kept, rearranged into its order, records
/// that it ranks together in the order they came in, with only the last one unterminated, and
/// only when the last record it took was.
pub open spec fn sort_result(s: SpecSort, out: Seq<SpecRecord>) -> bool {
    if s.records.len() == 0 {
        out.len() == 0
    } else {
        exists|perm: Seq<SpecRecord>| #[trigger] perm.to_multiset() == unique_kept(s.records, s.unique).to_multiset()
            && sort_ordered(s, perm)
            && rank_stable(sort_le(s), unique_kept(s.records, s.unique), perm)
            && out == with_final_flags(perm, s.records.last().terminated)
    }
}

/// The order of `sort` on records is a total preorder.
proof fn lemma_sort_le_preorder(s: SpecSort)
    ensures
        total_preorder(sort_le(s)),
{
    let le = sort_le(s);
    assert forall|a: SpecRecord, b: SpecRecord| #[trigger] le(a, b) || le(b, a) by {
        law_text_order_antisymmetric(a.text, b.text);
        law_decimal_compare_antisymmetric(spec_parse_decimal(a.text).unwrap(), spec_parse_decimal(b.text).unwrap());
    }
    assert forall|a: SpecRecord, b: SpecRecord, c: SpecRecord| #[trigger] le(a, b) && #[trigger] le(b, c) implies le(a, c) by {
        let (x, y, z) = (a.text, b.text, c.text);
        let (dx, dy, dz) = (spec_parse_decimal(x).unwrap(), spec_parse_decimal(y).unwrap(), spec_parse_decimal(z).unwrap());
        law_text_order_antisymmetric(x, y);
        law_text_order_antisymmetric(y, z);
        law_text_order_antisymmetric(x, z);
        law_decimal_compare_antisymmetric(dx, dy);
        law_decimal_compare_antisymmetric(dy, dz);
        law_decimal_compare_antisymmetric(dx, dz);
        if s.numeric {
            if s.reverse {
                law_decimal_compare_transitive(dz, dy, dx);
            } else {
                law_decimal_compare_transitive(dx, dy, dz);
            }
        } else {
            if s.reverse {
                law_text_order_transitive(z, y, x);
            } else {
                law_text_order_transitive(x, y, z);
            }
        }
    }
}

/// The text of a keyed entry's record.
fn entry_text<K>(entry: &(PipelineRecordV1, K)) -> (r: &str)
    ensures
        r@ == entry.0.frame.text@,
{
    entry.0.frame.text.as_str()
}

/// Keeps, when asked, only the first entry of each text.
fn keep_first_texts<K>(keyed: Vec<(PipelineRecordV1, K)>, unique: bool, cancellation: &RunnerCancellationV1)
    -> (r: Result<Vec<(PipelineRecordV1, K)>, OrderedPipelineFaultV1>)
    ensures
        match r {
            Ok(v) => keyed_records(v@) == unique_kept(keyed_records(keyed@), unique)
                && forall|x: (PipelineRecordV1, K)| v@.contains(x) ==> keyed@.contains(x),
            Err(e) => e == OrderedPipelineFaultV1::Cancelled,
        },
{
    if !unique {
        return Ok(keyed);
    }
    let ghost all = keyed_records(keyed@);
    let retained = retain_first_identical_cancellable(keyed, entry_text, || cancellation.is_cancelled())?;
    proof {
        let ts = choose|ts: Seq<&str>| {
            &&& ts.len() == keyed@.len()
            &&& forall|i: int| 0 <= i < ts.len() ==> entry_text.ensures((&keyed@[i],), #[trigger] ts[i])
            &&& retained@ == first_occurrences(keyed@, str_views(ts), keyed@.len() as int)
        };
        assert(str_views(ts) =~= record_texts(all)) by {
            assert forall|i: int| 0 <= i < ts.len() implies str_views(ts)[i] == record_texts(all)[i] by {
                assert(entry_text.ensures((&keyed@[i],), ts[i]));
            }
        }
        let f = |e: (PipelineRecordV1, K)| e.0@;
        lemma_first_occurrences_map(keyed@, str_views(ts), keyed@.len() as int, f);
        assert(keyed@.map_values(f) =~= all);
        assert(retained@.map_values(f) =~= keyed_records(retained@));
        lemma_first_occurrences_within(keyed@, str_views(ts), keyed@.len() as int);
    }
    Ok(retained)
}

/// Every item kept by `first_occurrences` is one of the items.
proof fn lemma_first_occurrences_within<T>(items: Seq<T>, keys: Seq<Seq<char>>, n: int)
    requires
        n <= items.len(),
    ensures
        forall|x: T| first_occurrences(items, keys, n).contains(x) ==> items.contains(x),
    decreases n,
{
    if n > 0 {
        lemma_first_occurrences_within(items, keys, n - 1);
        assert forall|x: T| first_occurrences(items, keys, n).contains(x) implies items.contains(x) by {
            let prev = first_occurrences(items, keys, n - 1);
            if !seen_before(keys, n - 1) {
                let ext = prev.push(items[n - 1]);
                let k = choose|k: int| 0 <= k < ext.len() && #[trigger] ext[k] == x;
                if k < prev.len() {
                    assert(prev[k] == x);
                } else {
                    assert(items[n - 1] == x);
                }
            }
        }
    }
}

/// The records of keyed entries, in order, without their keys.
fn strip_keys<K>(entries: Vec<(PipelineRecordV1, K)>) -> (r: Vec<PipelineRecordV1>)
    ensures
        records_view(r@) == keyed_records(entries@),
{
    let ghost order = entries@;
    let mut pending = reversed(entries);
    let mut out: Vec<PipelineRecordV1> = Vec::new();
    while pending.len() > 0
        invariant
            pending@ == order.subrange(out@.len() as int, order.len() as int).reverse(),
            out@.len() <= order.len(),
            records_view(out@) == keyed_records(order.subrange(0, out@.len() as int)),
        decreases pending.len(),
    {
        proof {
            lemma_pop_reversed(order, out@.len() as int);
        }
        let ghost k = out@.len() as int;
        let ghost before = out@;
        let entry = pending.pop().unwrap();
        assert(entry == order[k]);
        out.push(entry.0);
        proof {
            assert(out@ =~= before.push(entry.0));
            assert(pending@ =~= order.subrange(out@.len() as int, order.len() as int).reverse());
            assert(keyed_records(order.subrange(0, k + 1)) =~= keyed_records(order.subrange(0, k)).push(order[k].0@));
            assert(records_view(out@) =~= records_view(before).push(entry.0@));
            assert(records_view(out@) =~= keyed_records(order.subrange(0, out@.len() as int)));
        }
    }
    proof {
        assert(order.subrange(0, out@.len() as int) =~= order);
    }
    out
}

/// Each record with its value as an exact decimal; a text that is not a number fails.
fn key_by_decimal(records: Vec<PipelineRecordV1>, cancellation: &RunnerCancellationV1)
    -> (r: Result<Vec<(PipelineRecordV1, ExactDecimalV1)>, OrderedPipelineFaultV1>)
    ensures
        match r {
            Ok(k) => keyed_records(k@) == records_view(records@)
                && forall|i: int| 0 <= i < k@.len() ==> spec_parse_decimal(#[trigger] k@[i].0.frame.text@) == Some(k@[i].1@),
            Err(e) => e == OrderedPipelineFaultV1::Cancelled || (e == OrderedPipelineFaultV1::InvalidNumeric
                && exists|i: int| 0 <= i < records@.len() && (#[trigger] spec_parse_decimal(records@[i].frame.text@)) is None),
        },
{
    let ghost order = records@;
    let mut pending = reversed(records);
    let mut keyed: Vec<(PipelineRecordV1, ExactDecimalV1)> = Vec::new();
    while pending.len() > 0
        invariant
            order == records@,
            pending@ == order.subrange(keyed@.len() as int, order.len() as int).reverse(),
            keyed@.len() <= order.len(),
            keyed_records(keyed@) == records_view(order.subrange(0, keyed@.len() as int)),
            forall|i: int| 0 <= i < keyed@.len() ==> spec_parse_decimal(#[trigger] keyed@[i].0.frame.text@) == Some(keyed@[i].1@),
        decreases pending.len(),
    {
        if cancellation.is_cancelled() {
            return Err(OrderedPipelineFaultV1::Cancelled);
        }
        proof {
            lemma_pop_reversed(order, keyed@.len() as int);
        }
        let ghost k = keyed@.len() as int;
        let ghost before = keyed@;
        let record = pending.pop().unwrap();
        assert(record == order[k]);
        let key = match parse_exact_decimal(record.frame.text.as_str()) {
            Some(key) => key,
            None => {
                proof {
                    assert(order[k].frame.text@ == record.frame.text@);
                    assert(spec_parse_decimal(records@[k].frame.text@) is None);
                }
                return Err(OrderedPipelineFaultV1::InvalidNumeric);
            },
        };
        let ghost rv = record@;
        keyed.push((record, key));
        proof {
            assert(pending@ =~= order.subrange(keyed@.len() as int, order.len() as int).reverse());
            assert(records_view(order.subrange(0, k + 1)) =~= records_view(order.subrange(0, k)).push(order[k]@));
            assert(keyed_records(keyed@) =~= keyed_records(before).push(rv));
            assert(keyed_records(keyed@) =~= records_view(order.subrange(0, keyed@.len() as int)));
        }
    }
    proof {
        assert(order.subrange(0, keyed@.len() as int) =~= order);
    }
    Ok(keyed)
}

/// Each record with its text as characters.
fn key_by_text(records: Vec<PipelineRecordV1>) -> (r: Vec<(PipelineRecordV1, Vec<char>)>)
    ensures
        keyed_records(r@) == records_view(records@),
        forall|i: int| 0 <= i < r@.len() ==> (#[trigger] r@[i]).1@ == r@[i].0.frame.text@,
{
    let ghost order = records@;
    let mut pending = reversed(records);
    let mut keyed: Vec<(PipelineRecordV1, Vec<char>)> = Vec::new();
    while pending.len() > 0
        invariant
            pending@ == order.subrange(keyed@.len() as int, order.len() as int).reverse(),
            keyed@.len() <= order.len(),
            keyed_records(keyed@) == records_view(order.subrange(0, keyed@.len() as int)),
            forall|i: int| 0 <= i < keyed@.len() ==> (#[trigger] keyed@[i]).1@ == keyed@[i].0.frame.text@,
        decreases pending.len(),
    {
        proof {
            lemma_pop_reversed(order, keyed@.len() as int);
        }
        let ghost k = keyed@.len() as int;
        let ghost before = keyed@;
        let record = pending.pop().unwrap();
        assert(record == order[k]);
        let key = chars_of(record.frame.text.as_str());
        let ghost rv = record@;
        keyed.push((record, key));
        proof {
            assert(records_view(order.subrange(0, k + 1)) =~= records_view(order.subrange(0, k)).push(order[k]@));
            assert(keyed_records(keyed@) =~= keyed_records(before).push(rv));
            assert(pending@ =~= order.subrange(keyed@.len() as int, order.len() as int).reverse());
            assert(keyed_records(keyed@) =~= records_view(order.subrange(0, keyed@.len() as int)));
        }
    }
    proof {
        assert(order.subrange(0, keyed@.len() as int) =~= order);
    }
    keyed
}

/// Marks every record terminated but the last, which is terminated as `last_terminated` says.
fn mark_final_flags(records: Vec<PipelineRecordV1>, last_terminated: bool) -> (r: Vec<PipelineRecordV1>)
    ensures
        records_view(r@) == with_final_flags(records_view(records@), last_terminated),
{
    let ghost order = records@;
    let count = records.len();
    let mut pending = reversed(records);
    let mut out: Vec<PipelineRecordV1> = Vec::new();
    while pending.len() > 0
        invariant
            count == order.len(),
            pending@ == order.subrange(out@.len() as int, order.len() as int).reverse(),
            out@.len() <= order.len(),
            records_view(out@) == with_final_flags(records_view(order), last_terminated).subrange(0, out@.len() as int),
        decreases pending.len(),
    {
        proof {
            lemma_pop_reversed(order, out@.len() as int);
        }
        let mut record = pending.pop().unwrap();
        record.frame.terminated = out.len() + 1 < count || last_terminated;
        out.push(record);
        proof {
            assert(pending@ =~= order.subrange(out@.len() as int, order.len() as int).reverse());
            assert(records_view(out@) =~= with_final_flags(records_view(order), last_terminated).subrange(0, out@.len() as int));
        }
    }
    proof {
        assert(with_final_flags(records_view(order), last_terminated).subrange(0, out@.len() as int)
            =~= with_final_flags(records_view(order), last_terminated));
    }
    out
}

/// Keeps the first of equal texts when asked and sorts with `compare`; the entries come
/// back ordered by every total preorder that `compare` follows.
fn sort_keyed<K>(
    keyed: Vec<(PipelineRecordV1, K)>,
    unique: bool,
    compare: impl Fn(&(PipelineRecordV1, K), &(PipelineRecordV1, K)) -> Ordering,
    cancellation: &RunnerCancellationV1,
) -> (r: Result<Vec<(PipelineRecordV1, K)>, OrderedPipelineFaultV1>)
    requires
        forall|a: &(PipelineRecordV1, K), b: &(PipelineRecordV1, K)| compare.requires((a, b)),
    ensures
        match r {
            Ok(v) => keyed_records(v@).to_multiset() == unique_kept(keyed_records(keyed@), unique).to_multiset()
                && (forall|x: (PipelineRecordV1, K)| v@.contains(x) ==> keyed@.contains(x))
                && (forall|le: spec_fn((PipelineRecordV1, K), (PipelineRecordV1, K)) -> bool|
                    #[trigger] orders_by(compare, le) ==> sorted_by(le, v@))
                && (exists|kept: Seq<(PipelineRecordV1, K)>| {
                    &&& #[trigger] keyed_records(kept) == unique_kept(keyed_records(keyed@), unique)
                    &&& forall|x: (PipelineRecordV1, K)| kept.contains(x) ==> keyed@.contains(x)
                    &&& forall|x: (PipelineRecordV1, K)| v@.contains(x) ==> kept.contains(x)
                    &&& forall|le: spec_fn((PipelineRecordV1, K), (PipelineRecordV1, K)) -> bool|
                        #[trigger] orders_by(compare, le) ==> rank_stable(le, kept, v@)
                }),
            Err(e) => e == OrderedPipelineFaultV1::Cancelled,
        },
{
    let kept = keep_first_texts(keyed, unique, cancellation)?;
    let ghost kept_view = kept@;
    let sorted = stable_sort_cancellable(kept, compare, || cancellation.is_cancelled())?;
    proof {
        assert forall|x: (PipelineRecordV1, K)| sorted@.contains(x) implies kept_view.contains(x) by {
            vstd::seq_lib::to_multiset_contains(sorted@, x);
            vstd::seq_lib::to_multiset_contains(kept_view, x);
        }
        assert(keyed_records(kept_view) == unique_kept(keyed_records(keyed@), unique));
        lemma_map_multiset(sorted@, kept@, |e: (PipelineRecordV1, K)| e.0@);
        assert(sorted@.map_values(|e: (PipelineRecordV1, K)| e.0@) =~= keyed_records(sorted@));
        assert(kept@.map_values(|e: (PipelineRecordV1, K)| e.0@) =~= keyed_records(kept@));
        assert forall|x: (PipelineRecordV1, K)| sorted@.contains(x) implies keyed@.contains(x) by {
            vstd::seq_lib::to_multiset_contains(sorted@, x);
            vstd::seq_lib::to_multiset_contains(kept@, x);
        }
    }
    Ok(sorted)
}

/// Entries drawn from `keyed` and ordered by `le` give records in the order of `sort` when
/// `le` orders the entries of `keyed` as `sort` orders their texts.
proof fn lemma_keys_give_order<K>(
    s: SpecSort,
    keyed: Seq<(PipelineRecordV1, K)>,
    entries: Seq<(PipelineRecordV1, K)>,
    le: spec_fn((PipelineRecordV1, K), (PipelineRecordV1, K)) -> bool,
)
    requires
        forall|x: (PipelineRecordV1, K)| entries.contains(x) ==> keyed.contains(x),
        sorted_by(le, entries),
        forall|x: (PipelineRecordV1, K), y: (PipelineRecordV1, K)| keyed.contains(x) && keyed.contains(y) && #[trigger] le(x, y)
            ==> sort_order(s, x.0.frame.text@, y.0.frame.text@) <= 0,
    ensures
        sort_ordered(s, keyed_records(entries)),
{
    let recs = keyed_records(entries);
    assert forall|i: int, j: int| 0 <= i < j < recs.len() implies #[trigger] sort_order(s, recs[i].text, recs[j].text) <= 0 by {
        assert(entries.contains(entries[i]));
        assert(entries.contains(entries[j]));
        assert(le(entries[i], entries[j]));
    }
}

/// Entries ranked stably by `le` give records ranked stably by `sort` when `le` orders the
/// entries of `keyed` exactly as `sort` orders their texts.
proof fn lemma_stable_records<K>(
    s: SpecSort,
    keyed: Seq<(PipelineRecordV1, K)>,
    kept: Seq<(PipelineRecordV1, K)>,
    entries: Seq<(PipelineRecordV1, K)>,
    le: spec_fn((PipelineRecordV1, K), (PipelineRecordV1, K)) -> bool,
)
    requires
        forall|x: (PipelineRecordV1, K)| kept.contains(x) ==> keyed.contains(x),
        forall|x: (PipelineRecordV1, K)| entries.contains(x) ==> kept.contains(x),
        rank_stable(le, kept, entries),
        forall|x: (PipelineRecordV1, K), y: (PipelineRecordV1, K)| keyed.contains(x) && keyed.contains(y)
            ==> (#[trigger] le(x, y) <==> sort_order(s, x.0.frame.text@, y.0.frame.text@) <= 0),
    ensures
        rank_stable(sort_le(s), keyed_records(kept), keyed_records(entries)),
{
    lemma_sort_le_preorder(s);
    let sle = sort_le(s);
    let f = |e: (PipelineRecordV1, K)| e.0@;
    assert(keyed_records(kept) =~= kept.map_values(f));
    assert(keyed_records(entries) =~= entries.map_values(f));
    assert forall|xb: SpecRecord| #[trigger] same_rank(sle, keyed_records(entries), xb) == same_rank(sle, keyed_records(kept), xb) by {
        if exists|i: int| 0 <= i < kept.len() && sle(xb, f(kept[i])) && sle(f(kept[i]), xb) {
            let i = choose|i: int| 0 <= i < kept.len() && sle(xb, f(kept[i])) && sle(f(kept[i]), xb);
            let xa = kept[i];
            assert(kept.contains(xa));
            assert forall|e: (PipelineRecordV1, K)| #[trigger] kept.contains(e) implies
                ((le(xa, e) && le(e, xa)) <==> (sle(xb, f(e)) && sle(f(e), xb))) by {
                assert(le(xa, e) <==> sle(f(xa), f(e)));
                assert(le(e, xa) <==> sle(f(e), f(xa)));
            }
            assert forall|j: int| 0 <= j < kept.len() implies
                ((le(xa, #[trigger] kept[j]) && le(kept[j], xa)) <==> (sle(xb, f(kept[j])) && sle(f(kept[j]), xb))) by {
                assert(kept.contains(kept[j]));
            }
            assert forall|j: int| 0 <= j < entries.len() implies
                ((le(xa, #[trigger] entries[j]) && le(entries[j], xa)) <==> (sle(xb, f(entries[j])) && sle(f(entries[j]), xb))) by {
                assert(entries.contains(entries[j]));
            }
            lemma_same_rank_map(le, sle, f, kept, xa, xb);
            lemma_same_rank_map(le, sle, f, entries, xa, xb);
            assert(same_rank(le, entries, xa) == same_rank(le, kept, xa));
        } else {
            assert forall|j: int| 0 <= j < keyed_records(kept).len() implies
                !(sle(xb, #[trigger] keyed_records(kept)[j]) && sle(keyed_records(kept)[j], xb)) by {
                assert(keyed_records(kept)[j] == f(kept[j]));
            }
            assert forall|j: int| 0 <= j < keyed_records(entries).len() implies
                !(sle(xb, #[trigger] keyed_records(entries)[j]) && sle(keyed_records(entries)[j], xb)) by {
                assert(entries.contains(entries[j]));
                assert(kept.contains(entries[j]));
                let k = choose|k: int| 0 <= k < kept.len() && kept[k] == entries[j];
                assert(keyed_records(entries)[j] == f(kept[k]));
            }
            lemma_same_rank_none(sle, keyed_records(kept), xb);
            lemma_same_rank_none(sle, keyed_records(entries), xb);
        }
    }
}

/// An ordering turned around.
fn reverse_ordering(o: Ordering) -> (r: Ordering)
    ensures
        crate::sort_support::ordering_sign(r) == -crate::sort_support::ordering_sign(o),
{
    match o {
        Ordering::Less => Ordering::Greater,
        Ordering::Equal => Ordering::Equal,
        Ordering::Greater => Ordering::Less,
    }
}

impl SortStateV1 {
    /// Sorts what the stage holds and empties it: by value with `-n`, by text otherwise,
    /// turned around with `-r`, and with `-u` only the first record of each text. A text that
    /// is not a number fails a numeric sort.
    pub fn finish(&mut self, cancellation: &RunnerCancellationV1) -> (r: Result<Vec<PipelineRecordV1>, OrderedPipelineFaultV1>)
        ensures
            final(self)@ == (SpecSort { records: Seq::empty(), bytes: 0, ..old(self)@ }),
            match r {
                Ok(v) => sort_result(old(self)@, records_view(v@)),
                Err(e) => e == OrderedPipelineFaultV1::Cancelled || (e == OrderedPipelineFaultV1::InvalidNumeric
                    && old(self).numeric
                    && exists|i: int| 0 <= i < old(self)@.records.len() && (#[trigger] spec_parse_decimal(old(self)@.records[i].text)) is None),
            },
    {
        let mut records: Vec<PipelineRecordV1> = Vec::new();
        std::mem::swap(&mut records, &mut self.records);
        self.bytes = 0;
        proof {
            assert(self@.records =~= Seq::<SpecRecord>::empty());
        }
        let ghost held = records_view(records@);
        if records.len() == 0 {
            return Ok(records);
        }
        let final_terminated = records[records.len() - 1].frame.terminated;
        let reverse = self.reverse;
        let unique = self.unique;
        let ghost state = old(self)@;
        let sorted = if self.numeric {
            let keyed = match key_by_decimal(records, cancellation) {
                Ok(keyed) => keyed,
                Err(e) => {
                    proof {
                        if e == OrderedPipelineFaultV1::InvalidNumeric {
                            let i = choose|i: int| 0 <= i < records@.len() && (#[trigger] spec_parse_decimal(records@[i].frame.text@)) is None;
                            assert(held[i].text == records@[i].frame.text@);
                            assert(spec_parse_decimal(old(self)@.records[i].text) is None);
                        }
                    }
                    return Err(e);
                },
            };
            let compare = |left: &(PipelineRecordV1, ExactDecimalV1), right: &(PipelineRecordV1, ExactDecimalV1)| -> (o: Ordering)
                ensures
                    ordering_sign(o) == (if reverse { -compare_decimal(left.1@, right.1@) } else { compare_decimal(left.1@, right.1@) }),
                {
                    let ordering = compare_exact_decimal(&left.1, &right.1);
                    if reverse { reverse_ordering(ordering) } else { ordering }
                };
            let ghost le = |x: (PipelineRecordV1, ExactDecimalV1), y: (PipelineRecordV1, ExactDecimalV1)|
                (if reverse { -compare_decimal(x.1@, y.1@) } else { compare_decimal(x.1@, y.1@) }) <= 0;
            proof {
                assert forall|a: (PipelineRecordV1, ExactDecimalV1), b: (PipelineRecordV1, ExactDecimalV1), o: Ordering|
                    #[trigger] call_ensures(compare, (&a, &b), o) implies (o == Ordering::Greater <==> !le(a, b)) by {
                    assert(ordering_sign(o) == (if reverse { -compare_decimal(a.1@, b.1@) } else { compare_decimal(a.1@, b.1@) }));
                }
                assert forall|a: (PipelineRecordV1, ExactDecimalV1), b: (PipelineRecordV1, ExactDecimalV1)| #[trigger] le(a, b) || le(b, a) by {
                    law_decimal_compare_antisymmetric(a.1@, b.1@);
                }
                assert forall|a: (PipelineRecordV1, ExactDecimalV1), b: (PipelineRecordV1, ExactDecimalV1), c: (PipelineRecordV1, ExactDecimalV1)|
                    #[trigger] le(a, b) && #[trigger] le(b, c) implies le(a, c) by {
                    law_decimal_compare_antisymmetric(a.1@, b.1@);
                    law_decimal_compare_antisymmetric(b.1@, c.1@);
                    law_decimal_compare_antisymmetric(a.1@, c.1@);
                    if reverse {
                        law_decimal_compare_transitive(c.1@, b.1@, a.1@);
                    } else {
                        law_decimal_compare_transitive(a.1@, b.1@, c.1@);
                    }
                }
                assert(orders_by(compare, le));
            }
            let ghost kv = keyed@;
            let entries = sort_keyed(keyed, unique, compare, cancellation)?;
            let ghost ev = entries@;
            proof {
                assert(sorted_by(le, ev));
                assert forall|x: (PipelineRecordV1, ExactDecimalV1), y: (PipelineRecordV1, ExactDecimalV1)|
                    kv.contains(x) && kv.contains(y) && #[trigger] le(x, y) implies
                    sort_order(state, x.0.frame.text@, y.0.frame.text@) <= 0 by {
                    let a = choose|a: int| 0 <= a < kv.len() && kv[a] == x;
                    let b = choose|b: int| 0 <= b < kv.len() && kv[b] == y;
                    assert(spec_parse_decimal(kv[a].0.frame.text@) == Some(kv[a].1@));
                    assert(spec_parse_decimal(kv[b].0.frame.text@) == Some(kv[b].1@));
                }
                lemma_keys_give_order(state, kv, ev, le);
                let kept = choose|kept: Seq<(PipelineRecordV1, ExactDecimalV1)>| {
                    &&& #[trigger] keyed_records(kept) == unique_kept(keyed_records(kv), unique)
                    &&& forall|x: (PipelineRecordV1, ExactDecimalV1)| kept.contains(x) ==> kv.contains(x)
                    &&& forall|x: (PipelineRecordV1, ExactDecimalV1)| ev.contains(x) ==> kept.contains(x)
                    &&& forall|l: spec_fn((PipelineRecordV1, ExactDecimalV1), (PipelineRecordV1, ExactDecimalV1)) -> bool|
                        #[trigger] orders_by(compare, l) ==> rank_stable(l, kept, ev)
                };
                assert(rank_stable(le, kept, ev));
                assert forall|x: (PipelineRecordV1, ExactDecimalV1), y: (PipelineRecordV1, ExactDecimalV1)| kv.contains(x) && kv.contains(y) implies
                    (#[trigger] le(x, y) <==> sort_order(state, x.0.frame.text@, y.0.frame.text@) <= 0) by {
                    let a = choose|a: int| 0 <= a < kv.len() && kv[a] == x;
                    let b = choose|b: int| 0 <= b < kv.len() && kv[b] == y;
                    assert(spec_parse_decimal(kv[a].0.frame.text@) == Some(kv[a].1@));
                    assert(spec_parse_decimal(kv[b].0.frame.text@) == Some(kv[b].1@));
                }
                lemma_stable_records(state, kv, kept, ev, le);
                assert(rank_stable(sort_le(state), unique_kept(held, unique), keyed_records(ev)));
            }
            strip_keys(entries)
        } else {
            let keyed = key_by_text(records);
            let compare = |left: &(PipelineRecordV1, Vec<char>), right: &(PipelineRecordV1, Vec<char>)| -> (o: Ordering)
                ensures
                    ordering_sign(o) == (if reverse { -text_order(left.1@, right.1@) } else { text_order(left.1@, right.1@) }),
                {
                    let ordering = compare_text_keys(&left.1, &right.1);
                    if reverse { reverse_ordering(ordering) } else { ordering }
                };
            let ghost le = |x: (PipelineRecordV1, Vec<char>), y: (PipelineRecordV1, Vec<char>)|
                (if reverse { -text_order(x.1@, y.1@) } else { text_order(x.1@, y.1@) }) <= 0;
            proof {
                assert forall|a: (PipelineRecordV1, Vec<char>), b: (PipelineRecordV1, Vec<char>), o: Ordering|
                    #[trigger] call_ensures(compare, (&a, &b), o) implies (o == Ordering::Greater <==> !le(a, b)) by {
                    assert(ordering_sign(o) == (if reverse { -text_order(a.1@, b.1@) } else { text_order(a.1@, b.1@) }));
                }
                assert forall|a: (PipelineRecordV1, Vec<char>), b: (PipelineRecordV1, Vec<char>)| #[trigger] le(a, b) || le(b, a) by {
                    law_text_order_antisymmetric(a.1@, b.1@);
                }
                assert forall|a: (PipelineRecordV1, Vec<char>), b: (PipelineRecordV1, Vec<char>), c: (PipelineRecordV1, Vec<char>)|
                    #[trigger] le(a, b) && #[trigger] le(b, c) implies le(a, c) by {
                    law_text_order_antisymmetric(a.1@, b.1@);
                    law_text_order_antisymmetric(b.1@, c.1@);
                    law_text_order_antisymmetric(a.1@, c.1@);
                    if reverse {
                        law_text_order_transitive(c.1@, b.1@, a.1@);
                    } else {
                        law_text_order_transitive(a.1@, b.1@, c.1@);
                    }
                }
                assert(orders_by(compare, le));
            }
            let ghost kv = keyed@;
            let entries = sort_keyed(keyed, unique, compare, cancellation)?;
            let ghost ev = entries@;
            proof {
                assert(sorted_by(le, ev));
                assert forall|x: (PipelineRecordV1, Vec<char>), y: (PipelineRecordV1, Vec<char>)|
                    kv.contains(x) && kv.contains(y) && #[trigger] le(x, y) implies
                    sort_order(state, x.0.frame.text@, y.0.frame.text@) <= 0 by {
                    let a = choose|a: int| 0 <= a < kv.len() && kv[a] == x;
                    let b = choose|b: int| 0 <= b < kv.len() && kv[b] == y;
                    assert(kv[a].1@ == kv[a].0.frame.text@);
                    assert(kv[b].1@ == kv[b].0.frame.text@);
                }
                lemma_keys_give_order(state, kv, ev, le);
                let kept = choose|kept: Seq<(PipelineRecordV1, Vec<char>)>| {
                    &&& #[trigger] keyed_records(kept) == unique_kept(keyed_records(kv), unique)
                    &&& forall|x: (PipelineRecordV1, Vec<char>)| kept.contains(x) ==> kv.contains(x)
                    &&& forall|x: (PipelineRecordV1, Vec<char>)| ev.contains(x) ==> kept.contains(x)
                    &&& forall|l: spec_fn((PipelineRecordV1, Vec<char>), (PipelineRecordV1, Vec<char>)) -> bool|
                        #[trigger] orders_by(compare, l) ==> rank_stable(l, kept, ev)
                };
                assert(rank_stable(le, kept, ev));
                assert forall|x: (PipelineRecordV1, Vec<char>), y: (PipelineRecordV1, Vec<char>)| kv.contains(x) && kv.contains(y) implies
                    (#[trigger] le(x, y) <==> sort_order(state, x.0.frame.text@, y.0.frame.text@) <= 0) by {
                    let a = choose|a: int| 0 <= a < kv.len() && kv[a] == x;
                    let b = choose|b: int| 0 <= b < kv.len() && kv[b] == y;
                    assert(kv[a].1@ == kv[a].0.frame.text@);
                    assert(kv[b].1@ == kv[b].0.frame.text@);
                }
                lemma_stable_records(state, kv, kept, ev, le);
                assert(rank_stable(sort_le(state), unique_kept(held, unique), keyed_records(ev)));
            }
            strip_keys(entries)
        };
        let ghost perm = records_view(sorted@);
        let out = mark_final_flags(sorted, final_terminated);
        proof {
            assert(held.last().terminated == final_terminated);
            assert(perm.to_multiset() == unique_kept(held, unique).to_multiset());
            assert(sort_ordered(old(self)@, perm));
            assert(rank_stable(sort_le(old(self)@), unique_kept(held, unique), perm));
        }
        Ok(out)
    }
}

impl SearchStateV1 {
    /// Counts the line; a selected record goes on, marked with its path and line number as
    /// asked for.
    pub fn push(&mut self, record: PipelineRecordV1, paths: &[String]) -> (r: Result<StageActionV1, OrderedPipelineFaultV1>)
        ensures
            match spec_search_push(old(self)@, record@, strings_view(paths@)) {
                Ok((s, a)) => r matches Ok(act) && act@ == a && final(self)@ == s,
                Err(e) => r == Err::<StageActionV1, _>(e),
            },
    {
        let current_line = self.line_number;
        if current_line == u64::MAX {
            return Err(OrderedPipelineFaultV1::Overflow);
        }
        self.line_number = current_line + 1;
        let matched = self.pattern.is_match(record.frame.text.as_str());
        if matched == self.invert_match {
            return Ok(StageActionV1::Drop);
        }
        self.matched_any = true;
        let mut record = record;
        if self.direct && self.multiple_paths {
            if record.input_index >= paths.len() {
                return Err(OrderedPipelineFaultV1::Unsupported);
            }
            let path = backslash_path(paths[record.input_index].as_str());
            let head = concat(path.as_str(), ":");
            if self.line_numbers {
                let number = u64_text(current_line);
                let with_number = concat(head.as_str(), number.as_str());
                let prefix = concat(with_number.as_str(), ":");
                record.frame.text = concat(prefix.as_str(), record.frame.text.as_str());
            } else {
                record.frame.text = concat(head.as_str(), record.frame.text.as_str());
            }
            proof {
                reveal_strlit(":");
                assert(":"@ =~= seq![':']);
                assert(strings_view(paths@)[record.input_index as int] == paths@[record.input_index as int]@);
            }
        } else if self.line_numbers {
            let number = u64_text(current_line);
            let prefix = concat(number.as_str(), ":");
            record.frame.text = concat(prefix.as_str(), record.frame.text.as_str());
            proof {
                reveal_strlit(":");
                assert(":"@ =~= seq![':']);
            }
        }
        Ok(StageActionV1::Emit(record))
    }
}

impl TailStateV1 {
    /// The byte count is that of the records held.
    pub open spec fn wf(&self) -> bool {
        self.bytes == total_bytes(self@.records)
    }

    /// Keeps the record among the last `limit` ones, within the buffer's limits; a `tail` of
    /// no lines wants nothing.
    pub fn push(&mut self, record: PipelineRecordV1) -> (r: Result<StageActionV1, OrderedPipelineFaultV1>)
        requires
            old(self).wf(),
        ensures
            final(self).wf(),
            match spec_tail_push(old(self)@, record@) {
                Ok((s, a)) => r matches Ok(act) && act@ == a && final(self)@ == s,
                Err(e) => r == Err::<StageActionV1, _>(e) && final(self)@.records.len() == 0 && final(self)@.limit == old(self)@.limit,
            },
    {
        if self.limit == 0 {
            return Ok(StageActionV1::Stop);
        }
        let ghost original = self@.records;
        while self.records.len() >= self.limit
            invariant
                self.limit == old(self).limit,
                self.limit > 0,
                self.bytes == total_bytes(self@.records),
                self@.records.len() <= original.len(),
                self@.records == original.subrange(original.len() - self@.records.len(), original.len() as int),
                original.len() >= self.limit ==> self@.records.len() >= self.limit - 1,
                original.len() < self.limit ==> self@.records.len() == original.len(),
            decreases self.records.len(),
        {
            let ghost before = self@.records;
            match self.records.pop_front() {
                Some(discarded) => {
                    let n = byte_len(discarded.frame.text.as_str());
                    proof {
                        assert(self@.records =~= before.drop_first());
                        assert(before[0] == discarded@);
                    }
                    self.bytes = self.bytes - n;
                    proof {
                        assert(self@.records =~= original.subrange(original.len() - self@.records.len(), original.len() as int));
                    }
                },
                None => {},
            }
        }
        proof {
            if original.len() >= self.limit {
                assert(self@.records.len() == self.limit - 1);
            } else {
                assert(self@.records =~= original);
            }
            assert(self@.records =~= tail_kept(original, self.limit));
        }
        let n = byte_len(record.frame.text.as_str());
        let next_bytes = self.bytes.saturating_add(n);
        if self.records.len() >= MAX_TAIL_BUFFER_RECORDS || next_bytes > MAX_TAIL_BUFFER_BYTES {
            self.records.clear();
            self.bytes = 0;
            proof {
                assert(self@.records =~= Seq::<SpecRecord>::empty());
            }
            return Err(OrderedPipelineFaultV1::TailResource);
        }
        let ghost kept = self@.records;
        self.records.push_back(record);
        self.bytes = next_bytes;
        proof {
            assert(self@.records =~= kept.push(record@));
            lemma_total_bytes_push(kept, record@);
        }
        Ok(StageActionV1::Drop)
    }
}

impl SortStateV1 {
    /// The byte count is that of the records held.
    pub open spec fn wf(&self) -> bool {
        self.bytes == total_bytes(self@.records)
    }

    /// Holds the record, within `sort`'s limits.
    pub fn push(&mut self, record: PipelineRecordV1) -> (r: Result<StageActionV1, OrderedPipelineFaultV1>)
        requires
            old(self).wf(),
        ensures
            final(self).wf(),
            match spec_sort_push(old(self)@, record@) {
                Ok((s, a)) => r matches Ok(act) && act@ == a && final(self)@ == s,
                Err(e) => r == Err::<StageActionV1, _>(e),
            },
    {
        let n = byte_len(record.frame.text.as_str());
        if resource_limit_exceeded(self.records.len(), self.bytes, n) {
            self.records.clear();
            self.bytes = 0;
            proof {
                assert(self@.records =~= Seq::<SpecRecord>::empty());
            }
            return Err(OrderedPipelineFaultV1::SortResource);
        }
        let ghost before = self@.records;
        self.records.push(record);
        self.bytes = self.bytes + n;
        proof {
            assert(self@.records =~= before.push(record@));
            lemma_total_bytes_push(before, record@);
        }
        Ok(StageActionV1::Drop)
    }
}

impl UniqueStateV1 {
    /// The record a finished group of `occurrences` equal records becomes, if it is written.
    pub fn prepare_group(&self, record: PipelineRecordV1, occurrences: u64) -> (r: Option<PipelineRecordV1>)
        ensures
            match group_output(self@, record@, occurrences) {
                None => r is None,
                Some(o) => r matches Some(out) && out@ == o,
            },
    {
        if (self.repeated_only && occurrences < 2) || (self.unique_only && occurrences != 1) {
            return None;
        }
        let mut record = record;
        if self.count {
            let number = u64_text(occurrences);
            let head = concat(number.as_str(), " ");
            record.frame.text = concat(head.as_str(), record.frame.text.as_str());
        }
        Some(record)
    }

    /// Takes the next record: equal text extends the group; other text closes it and starts
    /// a new one, giving back what the closed group becomes.
    pub fn push(&mut self, record: PipelineRecordV1) -> (r: Result<Option<PipelineRecordV1>, OrderedPipelineFaultV1>)
        ensures
            match spec_unique_push(old(self)@, record@) {
                Ok((s, a)) => final(self)@ == s && (r matches Ok(out) && match a {
                    SpecAction::Emit(o) => out matches Some(x) && x@ == o,
                    _ => out is None,
                }),
                Err(e) => r == Err::<Option<PipelineRecordV1>, _>(e),
            },
    {
        match self.pending.take() {
            None => {
                self.pending = Some((record, 1));
                Ok(None)
            },
            Some((pending, occurrences)) => {
                if pending.frame.text == record.frame.text {
                    if occurrences == u64::MAX {
                        return Err(OrderedPipelineFaultV1::Overflow);
                    }
                    let mut pending = pending;
                    pending.frame.terminated = record.frame.terminated;
                    self.pending = Some((pending, occurrences + 1));
                    return Ok(None);
                }
                let mut pending = pending;
                pending.frame.terminated = true;
                let output = self.prepare_group(pending, occurrences);
                self.pending = Some((record, 1));
                Ok(output)
            },
        }
    }

    /// At the end of the input: what the last group becomes.
    pub fn finish(&mut self) -> (r: Option<PipelineRecordV1>)
        ensures
            final(self)@ == (SpecUnique { pending: None, ..old(self)@ }),
            match old(self)@.pending {
                None => r is None,
                Some((p, n)) => match group_output(old(self)@, p, n) {
                    None => r is None,
                    Some(o) => r matches Some(x) && x@ == o,
                },
            },
    {
        match self.pending.take() {
            None => None,
            Some((record, occurrences)) => self.prepare_group(record, occurrences),
        }
    }
}

impl RuntimeStageV1 {
    /// Takes a record: the stage's next state and what goes on to the next stage.
    pub fn push(&mut self, record: PipelineRecordV1, paths: &[String]) -> (r: Result<StageActionV1, OrderedPipelineFaultV1>)
        requires
            stage_wf(old(self)@),
        ensures
            stage_wf(final(self)@),
            match spec_stage_push(old(self)@, record@, strings_view(paths@)) {
                Ok((s, a)) => r matches Ok(act) && act@ == a && final(self)@ == s,
                Err(e) => r == Err::<StageActionV1, _>(e),
            },
    {
        match self {
            RuntimeStageV1::Search(search) => search.push(record, paths),
            RuntimeStageV1::Head { remaining } => {
                if *remaining == 0 {
                    return Ok(StageActionV1::Stop);
                }
                *remaining = *remaining - 1;
                if *remaining == 0 {
                    Ok(StageActionV1::EmitAndStop(record))
                } else {
                    Ok(StageActionV1::Emit(record))
                }
            },
            RuntimeStageV1::Tail(tail) => tail.push(record),
            RuntimeStageV1::Count { terminated } => {
                if record.frame.terminated {
                    if *terminated == u64::MAX {
                        return Err(OrderedPipelineFaultV1::Overflow);
                    }
                    *terminated = *terminated + 1;
                }
                Ok(StageActionV1::Drop)
            },
            RuntimeStageV1::Sort(sort) => sort.push(record),
            RuntimeStageV1::Unique(unique) => {
                match unique.push(record) {
                    Err(e) => Err(e),
                    Ok(Some(out)) => Ok(StageActionV1::Emit(out)),
                    Ok(None) => Ok(StageActionV1::Drop),
                }
            },
        }
    }
}


/// The stage a plan's stage becomes, if an ordered pipeline runs it: a `grep` whose pattern
/// compiles and that does not recurse, `head`, `tail`, `wc -l`, `sort` or `uniq`.
pub open spec fn spec_from_plan(stage: SpecStage, direct_search: bool, multiple_paths: bool) -> Option<SpecStageState> {
    match stage {
        SpecStage::SearchText { pattern, ignore_case, line_numbers, invert_match, fixed_strings, recursive, .. } =>
            if !recursive && grep_compile_outcome(pattern, fixed_strings, ignore_case) is Ok {
                Some(SpecStageState::Search(SpecSearch {
                    expression: grep_expression(pattern, fixed_strings).unwrap(),
                    ignore_case,
                    line_numbers,
                    invert_match,
                    direct: direct_search,
                    multiple_paths,
                    line_number: 1,
                    matched_any: false,
                }))
            } else {
                None
            },
        SpecStage::HeadLines { count, .. } => Some(SpecStageState::Head { remaining: count }),
        SpecStage::TailLines { count, .. } => Some(SpecStageState::Tail(SpecTail { limit: count, records: Seq::empty(), bytes: 0 })),
        SpecStage::CountLines { .. } => Some(SpecStageState::Count { terminated: 0 }),
        SpecStage::SortLines { reverse, numeric, unique, .. } =>
            Some(SpecStageState::Sort(SpecSort { reverse, numeric, unique, records: Seq::empty(), bytes: 0 })),
        SpecStage::UniqueLines { count, repeated_only, unique_only, .. } =>
            Some(SpecStageState::Unique(SpecUnique { count, repeated_only, unique_only, pending: None })),
        _ => None,
    }
}

/// A stage after an abort: whatever it held is let go.
pub open spec fn spec_abort(s: SpecStageState) -> SpecStageState {
    match s {
        SpecStageState::Tail(t) => SpecStageState::Tail(SpecTail { records: Seq::empty(), bytes: 0, ..t }),
        SpecStageState::Sort(t) => SpecStageState::Sort(SpecSort { records: Seq::empty(), bytes: 0, ..t }),
        SpecStageState::Unique(u) => SpecStageState::Unique(SpecUnique { pending: None, ..u }),
        _ => s,
    }
}

/// A stage after it finished: what it held is let go.
pub open spec fn spec_finished(s: SpecStageState) -> SpecStageState {
    spec_abort(s)
}

/// The records a stage other than `sort` writes when its input ends.
pub open spec fn spec_finish_output(s: SpecStageState) -> Seq<SpecRecord> {
    match s {
        SpecStageState::Tail(t) => t.records,
        SpecStageState::Count { terminated } => seq![SpecRecord { text: decimal_text(terminated as nat), terminated: true, input_index: 0 }],
        SpecStageState::Unique(u) => match u.pending {
            Some((p, n)) => match group_output(u, p, n) {
                Some(o) => seq![o],
                None => Seq::empty(),
            },
            None => Seq::empty(),
        },
        _ => Seq::empty(),
    }
}

/// What a stage may give when its input ends: `sort` its sorted records (none when reading
/// failed), the other stages what they held.
pub open spec fn finish_allowed(s: SpecStageState, cause: OrderedFinishCauseV1, r: Result<Seq<SpecRecord>, OrderedPipelineFaultV1>) -> bool {
    match s {
        SpecStageState::Sort(t) => if cause == OrderedFinishCauseV1::SourceFailed {
            r == Ok::<Seq<SpecRecord>, OrderedPipelineFaultV1>(Seq::empty())
        } else {
            match r {
                Ok(v) => sort_result(t, v),
                Err(e) => e == OrderedPipelineFaultV1::Cancelled || (e == OrderedPipelineFaultV1::InvalidNumeric
                    && t.numeric
                    && exists|i: int| 0 <= i < t.records.len() && (#[trigger] spec_parse_decimal(t.records[i].text)) is None),
            }
        },
        _ => r == Ok::<Seq<SpecRecord>, OrderedPipelineFaultV1>(spec_finish_output(s)),
    }
}

pub open spec fn result_records_view(r: Result<Vec<PipelineRecordV1>, OrderedPipelineFaultV1>) -> Result<Seq<SpecRecord>, OrderedPipelineFaultV1> {
    match r {
        Ok(v) => Ok(records_view(v@)),
        Err(e) => Err(e),
    }
}

impl RuntimeStageV1 {
    /// The stage for a plan's stage; a stage that an ordered pipeline cannot run, or a
    /// pattern that does not compile, is unsupported.
    pub fn from_plan(stage: &StagePlanV1, direct_search: bool, multiple_paths: bool) -> (r: Result<Self, OrderedPipelineFaultV1>)
        ensures
            match spec_from_plan(stage@, direct_search, multiple_paths) {
                Some(s) => r matches Ok(x) && x@ == s && stage_wf(x@),
                None => r == Err::<Self, _>(OrderedPipelineFaultV1::Unsupported),
            },
    {
        match stage {
            StagePlanV1::SearchText { pattern, ignore_case, line_numbers, invert_match, fixed_strings, recursive, .. } => {
                if *recursive {
                    return Err(OrderedPipelineFaultV1::Unsupported);
                }
                match GrepPatternV1::compile(pattern.as_str(), *fixed_strings, *ignore_case) {
                    Err(_) => Err(OrderedPipelineFaultV1::Unsupported),
                    Ok(compiled) => Ok(RuntimeStageV1::Search(SearchStateV1 {
                        pattern: compiled,
                        line_numbers: *line_numbers,
                        invert_match: *invert_match,
                        direct: direct_search,
                        multiple_paths,
                        line_number: 1,
                        matched_any: false,
                    })),
                }
            },
            StagePlanV1::HeadLines { count, .. } => Ok(RuntimeStageV1::Head { remaining: *count }),
            StagePlanV1::TailLines { count, .. } => {
                let records: VecDeque<PipelineRecordV1> = VecDeque::new();
                proof {
                    assert(records_view(records@) =~= Seq::<SpecRecord>::empty());
                }
                Ok(RuntimeStageV1::Tail(TailStateV1 { limit: *count, records, bytes: 0 }))
            },
            StagePlanV1::CountLines { .. } => Ok(RuntimeStageV1::Count { terminated: 0 }),
            StagePlanV1::SortLines { reverse, numeric, unique, .. } => {
                let records: Vec<PipelineRecordV1> = Vec::new();
                proof {
                    assert(records_view(records@) =~= Seq::<SpecRecord>::empty());
                }
                Ok(RuntimeStageV1::Sort(SortStateV1 { reverse: *reverse, numeric: *numeric, unique: *unique, records, bytes: 0 }))
            },
            StagePlanV1::UniqueLines { count, repeated_only, unique_only, .. } => Ok(RuntimeStageV1::Unique(UniqueStateV1 {
                count: *count,
                repeated_only: *repeated_only,
                unique_only: *unique_only,
                pending: None,
            })),
            _ => Err(OrderedPipelineFaultV1::Unsupported),
        }
    }

    /// Whether the stage wants no record at all: a `head` or `tail` of no lines.
    pub fn wants_nothing(&self) -> (r: bool)
        ensures
            r == ((self@ matches SpecStageState::Head { remaining } && remaining == 0)
                || (self@ matches SpecStageState::Tail(t) && t.limit == 0)),
    {
        match self {
            RuntimeStageV1::Head { remaining } => *remaining == 0,
            RuntimeStageV1::Tail(tail) => tail.limit == 0,
            _ => false,
        }
    }

    /// The end of the input: what the stage still has to write.
    pub fn finish(&mut self, cause: OrderedFinishCauseV1, cancellation: &RunnerCancellationV1) -> (r: Result<Vec<PipelineRecordV1>, OrderedPipelineFaultV1>)
        requires
            stage_wf(old(self)@),
        ensures
            final(self)@ == spec_finished(old(self)@),
            stage_wf(final(self)@),
            finish_allowed(old(self)@, cause, result_records_view(r)),
    {
        match self {
            RuntimeStageV1::Search(_) | RuntimeStageV1::Head { .. } => {
                let out: Vec<PipelineRecordV1> = Vec::new();
                proof {
                    assert(records_view(out@) =~= Seq::<SpecRecord>::empty());
                }
                Ok(out)
            },
            RuntimeStageV1::Tail(tail) => {
                let mut out: Vec<PipelineRecordV1> = Vec::new();
                let ghost held = tail@.records;
                let ghost limit = tail.limit;
                while tail.records.len() > 0
                    invariant
                        tail.limit == limit,
                        records_view(out@) + records_view(tail.records@) == held,
                    decreases tail.records.len(),
                {
                    let ghost before = tail.records@;
                    let ghost before_out = out@;
                    match tail.records.pop_front() {
                        Some(record) => {
                            out.push(record);
                            proof {
                                assert(records_view(out@) + records_view(tail.records@) =~= records_view(before_out) + records_view(before));
                            }
                        },
                        None => {},
                    }
                }
                tail.bytes = 0;
                proof {
                    assert(records_view(tail.records@) =~= Seq::<SpecRecord>::empty());
                    assert(records_view(out@) =~= held);
                }
                Ok(out)
            },
            RuntimeStageV1::Count { terminated } => {
                let text = u64_text(*terminated);
                let mut out: Vec<PipelineRecordV1> = Vec::new();
                out.push(PipelineRecordV1 { frame: RecordFrameV1 { text, terminated: true }, input_index: 0 });
                proof {
                    assert(records_view(out@) =~= spec_finish_output(old(self)@));
                }
                Ok(out)
            },
            RuntimeStageV1::Sort(sort) => {
                if cause == OrderedFinishCauseV1::SourceFailed {
                    sort.records.clear();
                    sort.bytes = 0;
                    proof {
                        assert(records_view(sort.records@) =~= Seq::<SpecRecord>::empty());
                    }
                    let out: Vec<PipelineRecordV1> = Vec::new();
                    proof {
                        assert(records_view(out@) =~= Seq::<SpecRecord>::empty());
                    }
                    return Ok(out);
                }
                sort.finish(cancellation)
            },
            RuntimeStageV1::Unique(unique) => {
                let mut out: Vec<PipelineRecordV1> = Vec::new();
                match unique.finish() {
                    Some(record) => out.push(record),
                    None => {},
                }
                proof {
                    assert(records_view(out@) =~= spec_finish_output(old(self)@));
                }
                Ok(out)
            },
        }
    }

    /// Lets go of whatever the stage holds.
    pub fn abort(&mut self)
        requires
            stage_wf(old(self)@),
        ensures
            final(self)@ == spec_abort(old(self)@),
            stage_wf(final(self)@),
    {
        match self {
            RuntimeStageV1::Tail(tail) => {
                tail.records.clear();
                tail.bytes = 0;
                proof {
                    assert(records_view(tail.records@) =~= Seq::<SpecRecord>::empty());
                }
            },
            RuntimeStageV1::Sort(sort) => {
                sort.records.clear();
                sort.bytes = 0;
                proof {
                    assert(records_view(sort.records@) =~= Seq::<SpecRecord>::empty());
                }
            },
            RuntimeStageV1::Unique(unique) => {
                unique.pending = None;
            },
            _ => {},
        }
    }
}


proof fn lemma_first_occurrences_distinct(s: Seq<SpecRecord>, n: int)
    requires
        0 <= n <= s.len(),
    ensures
        forall|i: int| 0 <= i < first_occurrences(s, record_texts(s), n).len()
            ==> exists|j: int| 0 <= j < n && #[trigger] first_occurrences(s, record_texts(s), n)[i] == s[j],
        forall|i: int, j: int| 0 <= i < j < first_occurrences(s, record_texts(s), n).len()
            ==> (#[trigger] first_occurrences(s, record_texts(s), n)[i]).text != (#[trigger] first_occurrences(s, record_texts(s), n)[j]).text,
    decreases n,
{
    if n > 0 {
        lemma_first_occurrences_distinct(s, n - 1);
        let prev = first_occurrences(s, record_texts(s), n - 1);
        let cur = first_occurrences(s, record_texts(s), n);
        if !seen_before(record_texts(s), n - 1) {
            assert(cur == prev.push(s[n - 1]));
            assert forall|i: int| 0 <= i < prev.len() implies (#[trigger] cur[i]).text != s[n - 1].text by {
                let j = choose|j: int| 0 <= j < n - 1 && prev[i] == s[j];
                assert(record_texts(s)[j] == s[j].text);
                assert(record_texts(s)[n - 1] == s[n - 1].text);
            }
            assert forall|i: int| 0 <= i < cur.len() implies exists|j: int| 0 <= j < n && #[trigger] cur[i] == s[j] by {
                if i < prev.len() {
                    let j = choose|j: int| 0 <= j < n - 1 && prev[i] == s[j];
                    assert(cur[i] == s[j]);
                } else {
                    assert(cur[i] == s[n - 1]);
                }
            }
        }
    }
}

/// `sort -u` writes each text once: the records it keeps have pairwise different texts.
pub proof fn law_unique_sort_texts_distinct(s: Seq<SpecRecord>)
    ensures
        forall|i: int, j: int| 0 <= i < j < unique_kept(s, true).len()
            ==> (#[trigger] unique_kept(s, true)[i]).text != (#[trigger] unique_kept(s, true)[j]).text,
{
    lemma_first_occurrences_distinct(s, s.len() as int);
}

/// `uniq` writes a group of `n` equal adjacent records exactly when `-u` is off or the group
/// has one record, and `-d` is off or the group has at least two; without either option every
/// group is written. A written group keeps its record, with the text prefixed by the count in
/// decimal and a space under `-c`. This holds of a group closed by a record of other text and
/// of the last group.
pub proof fn law_uniq_group_selection(u: SpecUnique, p: SpecRecord, n: u64, rec: SpecRecord)
    requires
        u.pending == Some((p, n)),
        p.text != rec.text,
    ensures
        ({
            let shown = (u.unique_only ==> n == 1) && (u.repeated_only ==> n >= 2);
            let closed = SpecRecord { terminated: true, ..p };
            let written = if u.count { SpecRecord { text: decimal_text(n as nat) + seq![' '] + p.text, ..closed } } else { closed };
            &&& spec_unique_push(u, rec) matches Ok((next, action))
            &&& next.pending == Some((rec, 1u64))
            &&& (action is Emit <==> shown)
            &&& (shown ==> action == SpecAction::Emit(written))
            &&& (!shown ==> action == SpecAction::Drop)
            &&& spec_finish_output(SpecStageState::Unique(u)).len() == (if shown { 1int } else { 0int })
            &&& (shown ==> spec_finish_output(SpecStageState::Unique(u))[0]
                == (if u.count { SpecRecord { text: decimal_text(n as nat) + seq![' '] + p.text, ..p } } else { p }))
        }),
{
    reveal_strlit(" ");
    assert(counted_text(n, p.text) =~= decimal_text(n as nat) + seq![' '] + p.text);
}

/// The last `n` items of `s` (all of them when there are fewer).
pub open spec fn last_items<T>(s: Seq<T>, n: nat) -> Seq<T> {
    if s.len() <= n { s } else { s.skip(s.len() - n) }
}

/// `tail -n N` holds the last `N` records it has seen: a record pushed onto a stage that holds
/// at most `N` is kept, with the oldest dropped when more than `N` would be held, and nothing
/// goes on before the input ends. `tail -n 0` holds nothing and asks for no more input.
pub proof fn law_tail_keeps_last(t: SpecTail, rec: SpecRecord)
    requires
        t.records.len() <= t.limit,
    ensures
        t.limit == 0 ==> spec_tail_push(t, rec) == Ok::<_, OrderedPipelineFaultV1>((t, SpecAction::Stop)),
        t.limit > 0 ==> (spec_tail_push(t, rec) matches Ok((t2, action)) ==> {
            &&& action == SpecAction::Drop
            &&& t2.limit == t.limit
            &&& t2.records == last_items(t.records.push(rec), t.limit as nat)
        }),
{
    if t.limit > 0 && t.records.len() >= t.limit {
        let s = t.records.push(rec);
        assert(t.records.subrange(t.records.len() - (t.limit - 1), t.records.len() as int).push(rec)
            =~= s.skip(s.len() - t.limit));
    }
}

/// A `grep` stage writes exactly the records that the pattern matches (those it does not match,
/// under `-v`), and counts every record it reads. A written record keeps its place in the input
/// and its text, prefixed by the file it came from and a colon when several named files are
/// searched, then by its line number and a colon under `-n`.
pub proof fn law_grep_selection(s: SpecSearch, rec: SpecRecord, paths: Seq<Seq<char>>)
    requires
        s.line_number < u64::MAX,
        s.direct && s.multiple_paths ==> rec.input_index < paths.len(),
    ensures
        ({
            let selected = regex_matches(s.expression, s.ignore_case, rec.text) != s.invert_match;
            let file_prefix = if s.direct && s.multiple_paths {
                backslashed(paths[rec.input_index as int]) + seq![':']
            } else {
                Seq::<char>::empty()
            };
            let line_prefix = if s.line_numbers {
                decimal_text(s.line_number as nat) + seq![':']
            } else {
                Seq::<char>::empty()
            };
            &&& spec_search_push(s, rec, paths) matches Ok((s2, action))
            &&& s2.line_number == s.line_number + 1
            &&& s2.matched_any == (s.matched_any || selected)
            &&& (action is Emit <==> selected)
            &&& (!selected ==> action == SpecAction::Drop)
            &&& (selected ==> action == SpecAction::Emit(SpecRecord { text: file_prefix + line_prefix + rec.text, ..rec }))
        }),
{
    let file_prefix = if s.direct && s.multiple_paths {
        backslashed(paths[rec.input_index as int]) + seq![':']
    } else {
        Seq::<char>::empty()
    };
    let line_prefix = if s.line_numbers {
        decimal_text(s.line_number as nat) + seq![':']
    } else {
        Seq::<char>::empty()
    };
    if s.direct && s.multiple_paths {
        if s.line_numbers {
            assert(file_prefix + line_prefix + rec.text
                =~= file_prefix + decimal_text(s.line_number as nat) + seq![':'] + rec.text);
        } else {
            assert(file_prefix + line_prefix + rec.text =~= file_prefix + rec.text);
        }
    } else if s.line_numbers {
        assert(file_prefix + line_prefix + rec.text =~= decimal_text(s.line_number as nat) + seq![':'] + rec.text);
    } else {
        assert(file_prefix + line_prefix + rec.text =~= rec.text);
    }
}

/// `wc -l` counts the records that end in a line break and nothing else, passes nothing on,
/// and when its input ends writes the count in decimal as one terminated record.
pub proof fn law_count_lines(terminated: u64, rec: SpecRecord, paths: Seq<Seq<char>>)
    requires
        terminated < u64::MAX,
    ensures
        spec_stage_push(SpecStageState::Count { terminated }, rec, paths) == Ok::<_, OrderedPipelineFaultV1>((
            SpecStageState::Count { terminated: (terminated + if rec.terminated { 1int } else { 0int }) as u64 },
            SpecAction::Drop,
        )),
        spec_finish_output(SpecStageState::Count { terminated }).len() == 1,
        spec_finish_output(SpecStageState::Count { terminated })[0].text == decimal_text(terminated as nat),
        spec_finish_output(SpecStageState::Count { terminated })[0].terminated,
{
}

/// Code-point order is lexicographic: a common beginning does not decide, the first differing
/// character decides by its code point, and a text comes before every longer text it begins.
pub proof fn law_text_order_lexicographic(p: Seq<char>, a: Seq<char>, b: Seq<char>, x: char, y: char)
    ensures
        text_order(p + a, p + b) == text_order(a, b),
        (x as u32) < (y as u32) ==> text_order(seq![x] + a, seq![y] + b) == -1,
        text_order(p, p + seq![x] + a) == -1,
    decreases p.len(),
{
    let xa = seq![x] + a;
    assert(xa[0] == x);
    if p.len() > 0 {
        law_text_order_lexicographic(p.drop_first(), a, b, x, y);
        assert((p + a).drop_first() =~= p.drop_first() + a);
        assert((p + b).drop_first() =~= p.drop_first() + b);
        assert((p + a)[0] == p[0] && (p + b)[0] == p[0]);
        let q = p + seq![x] + a;
        assert(q.drop_first() =~= p.drop_first() + seq![x] + a);
        assert(q[0] == p[0]);
    } else {
        assert(p + a =~= a);
        assert(p + b =~= b);
        assert(p + seq![x] + a =~= xa);
    }
}

} // verus!
