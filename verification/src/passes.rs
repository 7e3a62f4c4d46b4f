//! Merge passes over encoded runs.

use vstd::multiset::Multiset;
use vstd::prelude::*;

use crate::error;
use crate::error::{limit_error, working_disk_error, ErrorCode, ErrorView, IngestError};
use crate::limits;
use crate::limits::{parser_working_memory_bytes, IngestLimits};
use crate::merge;
use crate::merge::RunMerger;
use crate::options;
use crate::options::IngestOptions;
use crate::order;
use crate::record::RecordView;
use crate::runs;
use crate::runs::{MergeMemory, RunReader};
use crate::sorting;
use crate::sorting::{ParsedRuns, RunsView, SortRun, OPEN_RUN_BYTES, RUN_SLOT_BYTES};

verus! {

/// The queue whose first record comes first.
pub open spec fn front(queues: Seq<Seq<RecordView>>) -> int {
    choose|at: int| merge::is_front(queues, at)
}

/// Some queue of a nonempty pool comes first.
proof fn front_exists(queues: Seq<Seq<RecordView>>) -> (at: int)
    requires
        merge::pooled_len(queues) > 0,
    ensures
        merge::is_front(queues, at),
        front(queues) == at,
    decreases queues.len(),
{
    let last = queues.len() - 1;
    let head = queues.drop_last();
    let found = if merge::pooled_len(head) > 0 {
        let best = front_exists(head);
        assert(queues[best] == head[best]);
        assert forall|j: int| 0 <= j < head.len() implies #[trigger] queues[j] == head[j] by {}
        if queues[last].len() > 0 && order::before(queues[last][0], queues[best][0]) {
            assert forall|j: int|
                0 <= j < last && (#[trigger] queues[j]).len() > 0 implies order::before(
                queues[last][0],
                queues[j][0],
            ) by {
                assert(head[j] == queues[j]);
            }
            last
        } else {
            best
        }
    } else {
        assert forall|j: int| 0 <= j < last implies (#[trigger] queues[j]).len() == 0 by {
            assert(head[j] == queues[j]);
            empty_pool_has_empty_queues(head, j);
        }
        last
    };
    assert(merge::is_front(queues, found));
    front_is_unique(queues, found, front(queues));
    found
}

pub proof fn empty_pool_has_empty_queues(queues: Seq<Seq<RecordView>>, at: int)
    requires
        merge::pooled_len(queues) == 0,
        0 <= at < queues.len(),
    ensures
        queues[at].len() == 0,
    decreases queues.len(),
{
    if at < queues.len() - 1 {
        empty_pool_has_empty_queues(queues.drop_last(), at);
    }
}

pub proof fn front_is_unique(queues: Seq<Seq<RecordView>>, a: int, b: int)
    requires
        merge::is_front(queues, a),
        merge::is_front(queues, b),
    ensures
        a == b,
{
    if a < b {
        assert(order::before(queues[b][0], queues[a][0]));
    } else if b < a {
        assert(order::before(queues[a][0], queues[b][0]));
    }
}

/// The queues after the first record of one was handed out.
pub open spec fn popped(queues: Seq<Seq<RecordView>>, at: int) -> Seq<Seq<RecordView>> {
    queues.update(at, queues[at].drop_first())
}

/// Handing out the first record leaves one record less.
pub proof fn popping_shrinks(queues: Seq<Seq<RecordView>>)
    requires
        merge::pooled_len(queues) > 0,
    ensures
        merge::is_front(queues, front(queues)),
        merge::pooled_len(popped(queues, front(queues))) == merge::pooled_len(queues) - 1,
{
    let at = front_exists(queues);
    merge::pooled_update(queues, at, queues[at].drop_first());
}

/// Everything the queues hold, merged.
pub open spec fn merge_output(queues: Seq<Seq<RecordView>>) -> Seq<RecordView>
    decreases merge::pooled_len(queues),
{
    if merge::pooled_len(queues) == 0 {
        Seq::empty()
    } else {
        proof {
            popping_shrinks(queues);
        }
        seq![queues[front(queues)][0]] + merge_output(popped(queues, front(queues)))
    }
}

/// The heads that a merge holds in memory.
pub open spec fn loaded(queues: Seq<Seq<RecordView>>, pending: Option<int>) -> Seq<
    Option<RecordView>,
> {
    Seq::new(
        queues.len(),
        |i: int|
            if pending == Some(i) || queues[i].len() == 0 {
                None
            } else {
                Some(queues[i][0])
            },
    )
}

/// Reloading the pending queue would exceed the memory budget.
pub open spec fn starved(
    queues: Seq<Seq<RecordView>>,
    pending: Option<int>,
    base: int,
    limit: u64,
) -> bool {
    pending matches Some(p) && queues[p].len() > 0 && base + merge::held(loaded(queues, pending))
        + runs::text_size(queues[p][0]) > limit
}

pub open spec fn starvation(
    queues: Seq<Seq<RecordView>>,
    pending: Option<int>,
    base: int,
    limit: u64,
) -> ErrorView {
    let first = queues[pending->0][0];
    runs::reserve_error(
        MergeMemory { limit, used: (base + merge::held(loaded(queues, pending))) as u64 },
        runs::text_size(first),
        first.line,
        first.byte_offset,
    )
}

/// Why merging the queues into a new run fails.
pub open spec fn merge_fault(
    queues: Seq<Seq<RecordView>>,
    pending: Option<int>,
    base: int,
    limit: u64,
    total: int,
    disk_limit: u64,
) -> Option<ErrorView>
    decreases merge::pooled_len(queues),
{
    if starved(queues, pending, base, limit) {
        Some(starvation(queues, pending, base, limit))
    } else if merge::pooled_len(queues) == 0 {
        None
    } else {
        proof {
            popping_shrinks(queues);
        }
        let at = front(queues);
        let first = queues[at][0];
        match sorting::record_disk_fault(first, total, disk_limit) {
            Some(e) => Some(e),
            None => merge_fault(
                popped(queues, at),
                Some(at),
                base,
                limit,
                total + runs::record_size(first),
                disk_limit,
            ),
        }
    }
}

/// A record in the pool is in one of the queues.
pub proof fn pool_member(queues: Seq<Seq<RecordView>>, r: RecordView) -> (place: (int, int))
    requires
        merge::pooled(queues).count(r) > 0,
    ensures
        0 <= place.0 < queues.len(),
        0 <= place.1 < queues[place.0].len(),
        queues[place.0][place.1] == r,
    decreases queues.len(),
{
    broadcast use vstd::seq_lib::group_to_multiset_ensures;

    let last = queues.last();
    if last.to_multiset().count(r) > 0 {
        assert(last.contains(r));
        let k = choose|k: int| 0 <= k < last.len() && last[k] == r;
        (queues.len() - 1, k)
    } else {
        let place = pool_member(queues.drop_last(), r);
        assert(queues.drop_last()[place.0] == queues[place.0]);
        place
    }
}

/// Merging ordered queues gives everything they hold, in canonical order.
pub proof fn merging_sorts(queues: Seq<Seq<RecordView>>)
    requires
        forall|i: int| 0 <= i < queues.len() ==> order::ordered(#[trigger] queues[i]),
    ensures
        order::ordered(merge_output(queues)),
        merge_output(queues).to_multiset() == merge::pooled(queues),
        merge_output(queues).len() == merge::pooled_len(queues),
    decreases merge::pooled_len(queues),
{
    broadcast use vstd::seq_lib::group_to_multiset_ensures;

    if merge::pooled_len(queues) == 0 {
        assert forall|i: int| 0 <= i < queues.len() implies (#[trigger] queues[i]).len() == 0 by {
            empty_pool_has_empty_queues(queues, i);
        }
        merge::pooled_empty(queues);
        assert(merge_output(queues).to_multiset() =~= Multiset::<RecordView>::empty());
    } else {
        popping_shrinks(queues);
        let at = front(queues);
        let first = queues[at][0];
        let rest = popped(queues, at);
        assert forall|i: int| 0 <= i < rest.len() implies order::ordered(#[trigger] rest[i]) by {
            assert(order::ordered(queues[i]));
            if i == at {
                let shorter = queues[at].drop_first();
                assert forall|a: int, b: int| 0 <= a < b < shorter.len() implies !order::before(
                    #[trigger] shorter[b],
                    #[trigger] shorter[a],
                ) by {
                    assert(shorter[b] == queues[at][b + 1]);
                    assert(shorter[a] == queues[at][a + 1]);
                }
            }
        }
        merging_sorts(rest);
        let tail = merge_output(rest);
        let out = merge_output(queues);
        assert(out == seq![first] + tail);
        assert forall|j: int| 0 <= j < tail.len() implies !order::before(
            #[trigger] tail[j],
            first,
        ) by {
            assert(tail.contains(tail[j]));
            assert(tail.to_multiset().count(tail[j]) > 0);
            let place = pool_member(rest, tail[j]);
            let queue = queues[place.0];
            assert(order::ordered(queue));
            if place.0 == at {
                assert(rest[at][place.1] == queue[place.1 + 1]);
                assert(!order::before(queue[place.1 + 1], queue[0]));
            } else {
                assert(rest[place.0] == queue);
                if place.1 > 0 {
                    assert(!order::before(queue[place.1], queue[0]));
                }
                if place.0 < at {
                    assert(order::before(first, queue[0]));
                } else {
                    assert(!order::before(queue[0], first));
                }
            }
        }
        assert forall|i: int, j: int| 0 <= i < j < out.len() implies !order::before(
            #[trigger] out[j],
            #[trigger] out[i],
        ) by {
            assert(out[j] == tail[j - 1]);
            if i > 0 {
                assert(out[i] == tail[i - 1]);
            }
        }
        merge::pooled_update(queues, at, queues[at].drop_first());
        first_and_rest(queues[at]);
        assert(out =~= seq![first] + tail);
        first_and_rest(out);
        assert(out.drop_first() =~= tail);
        assert forall|r: RecordView| #[trigger] out.to_multiset().count(r) == merge::pooled(
            queues,
        ).count(r) by {
            assert(merge::pooled(rest).add(queues[at].to_multiset()).count(r) == merge::pooled(
                queues,
            ).add(queues[at].drop_first().to_multiset()).count(r));
        }
        assert(out.to_multiset() =~= merge::pooled(queues));
    }
}

proof fn first_and_rest(s: Seq<RecordView>)
    requires
        s.len() > 0,
    ensures
        s.to_multiset() == s.drop_first().to_multiset().insert(s[0]),
{
    broadcast use vstd::seq_lib::group_to_multiset_ensures;

    assert(s =~= s.drop_first().insert(0, s[0]));
    assert(s.to_multiset() =~= s.drop_first().to_multiset().insert(s[0]));
}

/// Why loading the first record of each queue fails.
pub open spec fn open_fault(queues: Seq<Seq<RecordView>>, base: int, limit: u64) -> Option<ErrorView>
    decreases queues.len(),
{
    if queues.len() == 0 {
        None
    } else {
        match open_fault(queues.drop_last(), base, limit) {
            Some(e) => Some(e),
            None => {
                let used = base + merge::held(loaded(queues.drop_last(), None));
                let last = queues.last();
                if last.len() > 0 && used + runs::text_size(last[0]) > limit {
                    Some(
                        runs::reserve_error(
                            MergeMemory { limit, used: used as u64 },
                            runs::text_size(last[0]),
                            last[0].line,
                            last[0].byte_offset,
                        ),
                    )
                } else {
                    None
                }
            },
        }
    }
}

proof fn open_fault_of_prefix(queues: Seq<Seq<RecordView>>, count: int, base: int, limit: u64)
    requires
        0 <= count <= queues.len(),
        open_fault(queues.take(count), base, limit) is Some,
    ensures
        open_fault(queues, base, limit) == open_fault(queues.take(count), base, limit),
    decreases queues.len() - count,
{
    if count == queues.len() {
        assert(queues.take(count) =~= queues);
    } else {
        let next = queues.take(count + 1);
        assert(next.drop_last() =~= queues.take(count));
        open_fault_of_prefix(queues, count + 1, base, limit);
    }
}

/// The records of runs `from..to`.
pub open spec fn group_contents(list: Seq<SortRun>, from: int, to: int) -> Seq<Seq<RecordView>> {
    Seq::new((to - from) as nat, |i: int| list[from + i].content@)
}

/// Why opening runs for a merge fails.
pub open spec fn readers_fault(queues: Seq<Seq<RecordView>>, resident: int, limit: u64) -> Option<
    ErrorView,
> {
    let base = resident + queues.len() * OPEN_RUN_BYTES;
    match sorting::memory_fault(base, limit, 0, 0) {
        Some(e) => Some(e),
        None => open_fault(queues, base, limit),
    }
}

/// Opens runs `from..to` and loads their first records.
pub fn open_merge_readers<'a>(
    list: &'a Vec<SortRun>,
    from: usize,
    to: usize,
    resident: u64,
    options: &IngestOptions,
) -> (merger: Result<RunMerger<'a>, IngestError>)
    requires
        from <= to <= list@.len(),
        forall|i: int| 0 <= i < list@.len() ==> (#[trigger] list@[i]).wf(options.limits),
        sorting::all_held(list@),
    ensures
        ({
            let queues = group_contents(list@, from as int, to as int);
            let limit = limits::parser_share(options.limits.working_memory_bytes);
            match merger {
                Ok(merger) => {
                    &&& readers_fault(queues, resident as int, limit) is None
                    &&& merger.wf(options.limits)
                    &&& merger.queues() == queues
                    &&& merger.pending is None
                    &&& merger.memory.limit == limit
                    &&& merger.base@ == resident + (to - from) * OPEN_RUN_BYTES
                },
                Err(e) => readers_fault(queues, resident as int, limit) == Some(e@),
            }
        }),
{
    let ghost queues = group_contents(list@, from as int, to as int);
    let limit: u64 = parser_working_memory_bytes(options.limits.working_memory_bytes);
    let requested: u64 = resident.saturating_add(sorting::slots(to - from, OPEN_RUN_BYTES));
    match sorting::parser_memory_check(requested, limit, 0, 0) {
        Ok(()) => {},
        Err(e) => return Err(e),
    }
    let ghost base: int = resident + (to - from) * OPEN_RUN_BYTES;
    let mut merger = RunMerger {
        readers: Vec::new(),
        heads: Vec::new(),
        pending: None,
        memory: MergeMemory { limit, used: requested },
        unread: Ghost(Seq::empty()),
        base: Ghost(base),
    };
    let mut index: usize = from;
    assert(merger.head_views() =~= Seq::<Option<RecordView>>::empty());
    assert(merger.queues() =~= queues.take(0));
    while index < to
        invariant
            from <= index <= to <= list@.len(),
            forall|i: int| 0 <= i < list@.len() ==> (#[trigger] list@[i]).wf(options.limits),
            queues == group_contents(list@, from as int, to as int),
            base == resident + (to - from) * OPEN_RUN_BYTES,
            limit == limits::parser_share(options.limits.working_memory_bytes),
            base <= limit,
            sorting::all_held(list@),
            merger.wf(options.limits),
            merger.queues() == queues.take(index - from),
            merger.pending is None,
            merger.memory.limit == limit,
            merger.base@ == base,
            open_fault(queues.take(index - from), base, limit) is None,
        decreases to - index,
    {
        let run = &list[index];
        let ghost content = run.content@;
        let ghost next = queues.take(index - from + 1);
        proof {
            assert(next.drop_last() =~= queues.take(index - from));
            assert(next.last() == content);
            assert(run.wf(options.limits));
            assert(run.data@.take(8) =~= runs::run_magic());
            assert(run.data@.skip(8) =~= runs::records_bytes(content));
            heads_are_loaded(merger, options.limits);
        }
        let mut reader = match RunReader::open(run.data.as_slice(), run.records) {
            Ok(reader) => reader,
            Err(e) => {
                assert(false);
                return Err(e);
            },
        };
        let mut memory = merger.memory;
        let head = match reader.next_of(&options.limits, &mut memory, Ghost(content)) {
            Ok(head) => head,
            Err(e) => {
                proof {
                    open_fault_of_prefix(queues, index - from + 1, base, limit);
                }
                return Err(e);
            },
        };
        let ghost before = merger;
        merger.readers.push(reader);
        merger.heads.push(head);
        merger.memory = memory;
        proof {
            let rest = if head is Some {
                content.drop_first()
            } else {
                content
            };
            merger.unread@ = merger.unread@.push(rest);
            let view = merge::head_view(head);
            assert(merger.head_views() =~= before.head_views().push(view));
            assert(merger.head_views().drop_last() =~= before.head_views());
            assert(merge::held(merger.head_views()) == merge::held(before.head_views())
                + merge::head_size(view));
            assert(merge::queue_of(view, rest) =~= content);
            assert forall|i: int| 0 <= i < merger.unread@.len() implies #[trigger] merger.queues()[i]
                == next[i] by {
                if i < before.unread@.len() {
                    assert(before.queues()[i] == queues.take(index - from)[i]);
                    assert(merger.head_views()[i] == before.head_views()[i]);
                }
            }
            assert(merger.queues() =~= next);
            assert forall|i: int| 0 <= i < merger.unread@.len() implies (
            #[trigger] merger.readers@[i]).reads(merger.unread@[i], options.limits) by {
                if i < before.unread@.len() {
                    assert(merger.readers@[i] == before.readers@[i]);
                }
            }
            assert forall|i: int|
                0 <= i < merger.unread@.len() && (#[trigger] merger.heads@[i])
                    is None implies merger.unread@[i].len() == 0 by {
                if i < before.unread@.len() {
                    assert(merger.heads@[i] == before.heads@[i]);
                }
            }
        }
        index = index + 1;
    }
    assert(queues.take(to - from) =~= queues);
    Ok(merger)
}

/// A merger's heads are exactly the loaded first records of its queues.
pub proof fn heads_are_loaded(merger: RunMerger, limits: IngestLimits)
    requires
        merger.wf(limits),
    ensures
        merger.head_views() == loaded(merger.queues(), pending_of(merger)),
        merger.starved() == starved(
            merger.queues(),
            pending_of(merger),
            merger.base@,
            merger.memory.limit,
        ),
        merger.starved() ==> merger.starvation() == starvation(
            merger.queues(),
            pending_of(merger),
            merger.base@,
            merger.memory.limit,
        ),
{
    let views = merger.head_views();
    let expected = loaded(merger.queues(), pending_of(merger));
    assert(merger.heads.len() == merger.heads@.len());
    assert forall|i: int| 0 <= i < views.len() implies views[i] == expected[i] by {
        assert(merger.queues()[i] == merge::queue_of(views[i], merger.unread@[i]));
        let head = merger.heads@[i];
    }
    assert(views =~= expected);
}

pub open spec fn pending_of(merger: RunMerger) -> Option<int> {
    match merger.pending {
        Some(p) => Some(p as int),
        None => None,
    }
}

/// What merging a group of runs gives.
#[verifier::opaque]
pub open spec fn group_outcome(
    queues: Seq<Seq<RecordView>>,
    resident: int,
    disk: int,
    id: int,
    directory: u32,
    limits: IngestLimits,
) -> Result<Seq<RecordView>, ErrorView> {
    let limit = limits::parser_share(limits.working_memory_bytes);
    let disk_limit = limits.working_disk_bytes;
    let named = resident + sorting::run_path_memory(directory);
    let base = named + queues.len() * OPEN_RUN_BYTES;
    if id >= u64::MAX {
        Err(error::disk_error(u64::MAX, disk_limit, 0, 0))
    } else if sorting::memory_fault(named, limit, 0, 0) is Some {
        Err(sorting::memory_fault(named, limit, 0, 0)->0)
    } else if sorting::run_header_fault(disk, disk_limit) is Some {
        Err(sorting::run_header_fault(disk, disk_limit)->0)
    } else if readers_fault(queues, named, limit) is Some {
        Err(readers_fault(queues, named, limit)->0)
    } else {
        match merge_fault(queues, None, base, limit, disk + runs::RUN_HEADER_BYTES, disk_limit) {
            Some(e) => Err(e),
            None => Ok(merge_output(queues)),
        }
    }
}

/// Merges runs `from..to` into one run.
pub fn merge_group(
    list: &Vec<SortRun>,
    from: usize,
    to: usize,
    resident: u64,
    disk: u64,
    id: u64,
    directory: u32,
    options: &IngestOptions,
) -> (merged: Result<SortRun, IngestError>)
    requires
        from <= to <= list@.len(),
        forall|i: int| 0 <= i < list@.len() ==> (#[trigger] list@[i]).wf(options.limits),
        sorting::all_held(list@),
    ensures
        ({
            let queues = group_contents(list@, from as int, to as int);
            let outcome = group_outcome(
                queues,
                resident as int,
                disk as int,
                id as int,
                directory,
                options.limits,
            );
            match merged {
                Ok(run) => {
                    &&& outcome == Ok::<Seq<RecordView>, ErrorView>(run.content@)
                    &&& run.wf(options.limits)
                    &&& run.id == id
                    &&& !run.stored
                    &&& disk + run.size <= options.limits.working_disk_bytes
                    &&& id < u64::MAX
                },
                Err(e) => options::may_cancel(*options, e@) || outcome == Err::<
                    Seq<RecordView>,
                    ErrorView,
                >(e@),
            }
        }),
{
    proof {
        reveal(group_outcome);
    }
    let ghost queues = group_contents(list@, from as int, to as int);
    let limit: u64 = parser_working_memory_bytes(options.limits.working_memory_bytes);
    let disk_limit: u64 = options.limits.working_disk_bytes;
    if id == u64::MAX {
        return Err(working_disk_error(u64::MAX, disk_limit, 0, 0));
    }
    let named: u64 = resident.saturating_add(sorting::run_path_bytes(directory));
    match sorting::parser_memory_check(named, limit, 0, 0) {
        Ok(()) => {},
        Err(e) => return Err(e),
    }
    let mut total: u64 = match sorting::check_run_header(disk, disk_limit) {
        Ok(total) => total,
        Err(e) => return Err(e),
    };
    let mut merger = match open_merge_readers(list, from, to, named, options) {
        Ok(merger) => merger,
        Err(e) => return Err(e),
    };
    let ghost base = merger.base@;
    let mut data = sorting::magic_bytes();
    let mut records: u64 = 0;
    let ghost mut out: Seq<RecordView> = Seq::empty();
    let ghost fault = merge_fault(
        queues,
        None,
        base,
        limit,
        disk + runs::RUN_HEADER_BYTES,
        disk_limit,
    );
    assert(data@ =~= runs::run_bytes(out));
    assert(out + merge_output(queues) =~= merge_output(queues));
    loop
        invariant_except_break
            merger.wf(options.limits),
            merger.base@ == base,
            merger.memory.limit == limit,
            data@ == runs::run_bytes(out),
            records == out.len(),
            out + merge_output(merger.queues()) == merge_output(queues),
            fault == merge_fault(
                merger.queues(),
                pending_of(merger),
                base,
                limit,
                total as int,
                disk_limit,
            ),
        invariant
            queues == group_contents(list@, from as int, to as int),
            disk_limit == options.limits.working_disk_bytes,
            limit == limits::parser_share(options.limits.working_memory_bytes),
            total <= disk_limit,
            total == disk + data@.len(),
            group_outcome(
                queues,
                resident as int,
                disk as int,
                id as int,
                directory,
                options.limits,
            )
                == match fault {
                Some(e) => Err::<Seq<RecordView>, ErrorView>(e),
                None => Ok(merge_output(queues)),
            },
        ensures
            fault is None,
            data@ == runs::run_bytes(merge_output(queues)),
            records == merge_output(queues).len(),
            disk + data@.len() <= disk_limit,
        decreases merge::pooled_len(merger.queues()),
    {
        let ghost qs = merger.queues();
        let ghost pending = pending_of(merger);
        proof {
            heads_are_loaded(merger, options.limits);
        }
        let record = match merger.next(&options.limits) {
            Err(e) => return Err(e),
            Ok(None) => {
                proof {
                    assert(out + merge_output(qs) =~= out);
                }
                break;
            },
            Ok(Some(record)) => record,
        };
        let ghost at = merger.pending->0 as int;
        proof {
            merge::pooled_update(qs, at, qs[at].drop_first());
            popping_shrinks(qs);
            front_is_unique(qs, at, front(qs));
        }
        match options.check_cancelled(record.line, record.byte_offset) {
            Ok(()) => {},
            Err(e) => return Err(e),
        }
        let ghost previous = data@;
        match sorting::append_record(&mut data, &record, total, disk_limit) {
            Ok(next) => {
                total = next;
            },
            Err(e) => return Err(e),
        }
        assert(data.len() == data@.len());
        proof {
            runs::charged_size_is_encoded_size(record@);
            let longer = out.push(record@);
            assert(longer.drop_last() =~= out);
            assert(data@ =~= runs::run_bytes(longer));
            assert(out + merge_output(qs) =~= longer + merge_output(popped(qs, at)));
            sorting::records_size_is_length(longer);
            records_are_fewer_than_bytes(longer);
            out = longer;
        }
        records = records + 1;
    }
    proof {
        let content = merge_output(queues);
        assert forall|i: int| 0 <= i < queues.len() implies order::ordered(
            #[trigger] queues[i],
        ) by {
            assert(list@[from + i].wf(options.limits));
        }
        merging_sorts(queues);
        assert forall|k: int| 0 <= k < content.len() implies runs::storable(
            #[trigger] content[k],
            options.limits,
        ) by {
            merged_member(queues, content[k]);
            let place = merged_member(queues, content[k]);
            assert(list@[from + place.0].wf(options.limits));
            assert(queues[place.0] == list@[from + place.0].content@);
        }
    }
    Ok(
        SortRun {
            id,
            size: data.len() as u64,
            data,
            stored: false,
            records,
            content: Ghost(merge_output(queues)),
        },
    )
}

proof fn merged_member(queues: Seq<Seq<RecordView>>, r: RecordView) -> (place: (int, int))
    requires
        forall|i: int| 0 <= i < queues.len() ==> order::ordered(#[trigger] queues[i]),
        merge_output(queues).contains(r),
    ensures
        0 <= place.0 < queues.len(),
        0 <= place.1 < queues[place.0].len(),
        queues[place.0][place.1] == r,
{
    broadcast use vstd::seq_lib::group_to_multiset_ensures;

    merging_sorts(queues);
    assert(merge_output(queues).to_multiset().count(r) > 0);
    pool_member(queues, r)
}

/// Encoded records take more bytes than there are records.
pub proof fn records_are_fewer_than_bytes(records: Seq<RecordView>)
    ensures
        records.len() <= runs::records_bytes(records).len(),
    decreases records.len(),
{
    if records.len() > 0 {
        records_are_fewer_than_bytes(records.drop_last());
        runs::charged_size_is_encoded_size(records.last());
    }
}

/// The fan-in of merge passes as a machine count.
pub open spec fn fan_in_of(limits: IngestLimits) -> int {
    if limits.run_fan_in > usize::MAX {
        usize::MAX as int
    } else {
        limits.run_fan_in as int
    }
}

/// How many runs a pass over `count` runs leaves.
#[verifier::opaque]
pub open spec fn groups_of(count: int, fan_in: int) -> int {
    (count + fan_in - 1) / fan_in
}

/// Memory charged while `count` runs are merged into `groups` runs, of which
/// `done` are written.
pub open spec fn pass_memory(count: int, groups: int, done: int, directory: u32) -> int {
    sorting::runs_memory(count, directory) + groups * RUN_SLOT_BYTES + done
        * sorting::run_path_memory(directory)
}

pub open spec fn group_end(from: int, fan_in: int, count: int) -> int {
    if from + fan_in < count {
        from + fan_in
    } else {
        count
    }
}

/// What the rest of a merge pass gives, from run `from` on.
pub open spec fn pass_outcome(
    input: Seq<Seq<RecordView>>,
    from: int,
    next: Seq<Seq<RecordView>>,
    disk: int,
    id: int,
    directory: u32,
    limits: IngestLimits,
) -> Result<RunsView, ErrorView>
    decreases input.len() - from,
{
    let fan_in = fan_in_of(limits);
    if from < 0 || from >= input.len() || fan_in < 2 {
        Ok(RunsView { directory, contents: next, disk, next_id: id })
    } else {
        let to = group_end(from, fan_in, input.len() as int);
        let group = input.subrange(from, to);
        let resident = pass_memory(
            input.len() as int,
            groups_of(input.len() as int, fan_in),
            next.len() as int,
            directory,
        );
        match group_outcome(group, resident, disk, id, directory, limits) {
            Err(e) => Err(e),
            Ok(content) => pass_outcome(
                input,
                to,
                next.push(content),
                disk + runs::run_bytes(content).len() - sorting::runs_size(group),
                id + 1,
                directory,
                limits,
            ),
        }
    }
}

/// What merge passes give: at most as many runs as one merge may open.
pub open spec fn passes_outcome(state: RunsView, limits: IngestLimits) -> Result<RunsView, ErrorView>
    decreases state.contents.len(),
{
    let fan_in = fan_in_of(limits);
    let count = state.contents.len() as int;
    let limit = limits::parser_share(limits.working_memory_bytes);
    if count <= fan_in {
        Ok(state)
    } else if fan_in < 2 {
        Err(error::bound_error(ErrorCode::RunFanInLimit, "run_fan_in"@, limits.run_fan_in))
    } else {
        match sorting::memory_fault(
            pass_memory(count, groups_of(count, fan_in), 0, state.directory),
            limit,
            0,
            0,
        ) {
            Some(e) => Err(e),
            None => match pass_outcome(
                state.contents,
                0,
                Seq::empty(),
                state.disk,
                state.next_id,
                state.directory,
                limits,
            ) {
                Err(e) => Err(e),
                Ok(after) => if after.contents.len() < state.contents.len() {
                    passes_outcome(after, limits)
                } else {
                    Ok(after)
                },
            },
        }
    }
}

/// What bringing the number of runs within the fan-in gives.
pub open spec fn merge_all_outcome(state: RunsView, limits: IngestLimits) -> Result<
    RunsView,
    ErrorView,
> {
    if state.contents.len() <= fan_in_of(limits) {
        Ok(state)
    } else {
        match passes_outcome(state, limits) {
            Err(e) => Err(e),
            Ok(after) => match sorting::memory_fault(
                sorting::runs_memory(after.contents.len() as int, after.directory),
                limits::parser_share(limits.working_memory_bytes),
                0,
                0,
            ) {
                Some(e) => Err(e),
                None => Ok(after),
            },
        }
    }
}

pub proof fn runs_size_update(contents: Seq<Seq<RecordView>>, from: int, to: int)
    requires
        0 <= from <= to <= contents.len(),
    ensures
        sorting::runs_size(contents.subrange(from, contents.len() as int)) == sorting::runs_size(
            contents.subrange(from, to),
        ) + sorting::runs_size(contents.subrange(to, contents.len() as int)),
        sorting::runs_size(contents.subrange(from, to)) >= 0,
    decreases contents.len() - to, to,
{
    let len = contents.len() as int;
    if to < len {
        let whole = contents.subrange(from, len);
        let tail = contents.subrange(to, len);
        let shorter = contents.drop_last();
        runs_size_update(shorter, from, to);
        assert(whole.drop_last() =~= shorter.subrange(from, len - 1));
        assert(tail.drop_last() =~= shorter.subrange(to, len - 1));
        assert(shorter.subrange(from, to) =~= contents.subrange(from, to));
    } else {
        assert(contents.subrange(to, len) =~= Seq::<Seq<RecordView>>::empty());
        assert(contents.subrange(from, to) =~= contents.subrange(from, len));
        if from < to {
            runs_size_nonnegative(contents.subrange(from, to));
        }
    }
}

pub proof fn runs_size_nonnegative(contents: Seq<Seq<RecordView>>)
    ensures
        sorting::runs_size(contents) >= 0,
    decreases contents.len(),
{
    if contents.len() > 0 {
        runs_size_nonnegative(contents.drop_last());
    }
}

pub open spec fn contents_of(list: Seq<SortRun>) -> Seq<Seq<RecordView>> {
    list.map_values(|run: SortRun| run.content@)
}

/// A pass has written `done` runs from the first `from` of `count` runs.
#[verifier::opaque]
spec fn pass_progress(done: int, from: int, fan_in: int, count: int) -> bool {
    from == done * fan_in || (from == count && (done - 1) * fan_in < count)
}

proof fn pass_start(fan_in: int, count: int)
    ensures
        pass_progress(0, 0, fan_in, count),
{
    reveal(pass_progress);
    assert(0 * fan_in == 0) by (nonlinear_arith);
}

proof fn pass_step(done: int, from: int, fan_in: int, count: int)
    requires
        fan_in >= 2,
        count > fan_in,
        done >= 0,
        pass_progress(done, from, fan_in, count),
        from < count,
    ensures
        pass_progress(done + 1, group_end(from, fan_in, count), fan_in, count),
{
    reveal(pass_progress);
    assert((done + 1) * fan_in == done * fan_in + fan_in) by (nonlinear_arith);
}

proof fn pass_end(done: int, fan_in: int, count: int)
    requires
        fan_in >= 2,
        count > fan_in,
        done >= 0,
        pass_progress(done, count, fan_in, count),
    ensures
        done < count,
{
    reveal(pass_progress);
    assert(done < count) by (nonlinear_arith)
        requires
            fan_in >= 2,
            count > fan_in,
            done >= 0,
            count == done * fan_in || (done - 1) * fan_in < count,
    ;
}

/// How many runs a pass over `count` runs leaves.
pub(crate) fn group_count(count: usize, fan_in: usize) -> (groups: usize)
    requires
        fan_in >= 2,
    ensures
        groups == groups_of(count as int, fan_in as int),
{
    proof {
        ceiling_division(count as int, fan_in as int);
    }
    if count % fan_in == 0 {
        count / fan_in
    } else {
        count / fan_in + 1
    }
}

/// One pass over all runs.
fn merge_pass(
    input: Vec<SortRun>,
    start_disk: u64,
    start_id: u64,
    directory: u32,
    fan_in: usize,
    options: &IngestOptions,
) -> (result: Result<(Vec<SortRun>, u64, u64), IngestError>)
    requires
        fan_in == fan_in_of(options.limits),
        fan_in >= 2,
        input@.len() > fan_in,
        start_disk == sorting::runs_size(contents_of(input@)),
        forall|i: int| 0 <= i < input@.len() ==> (#[trigger] input@[i]).wf(options.limits),
        sorting::all_held(input@),
    ensures
        ({
            let outcome = pass_outcome(
                contents_of(input@),
                0,
                Seq::empty(),
                start_disk as int,
                start_id as int,
                directory,
                options.limits,
            );
            match result {
                Ok((next, disk_after, id_after)) => {
                    &&& outcome == Ok::<RunsView, ErrorView>(
                        RunsView {
                            directory,
                            contents: contents_of(next@),
                            disk: disk_after as int,
                            next_id: id_after as int,
                        },
                    )
                    &&& next@.len() < input@.len()
                    &&& disk_after == sorting::runs_size(contents_of(next@))
                    &&& forall|i: int|
                        0 <= i < next@.len() ==> (#[trigger] next@[i]).wf(options.limits)
                    &&& sorting::all_held(next@)
                    &&& sorting::numbered(next@, id_after as int)
                },
                Err(e) => options::may_cancel(*options, e@) || outcome == Err::<
                    RunsView,
                    ErrorView,
                >(e@),
            }
        }),
{
    let ghost contents = contents_of(input@);
    let ghost outcome = pass_outcome(
        contents,
        0,
        Seq::empty(),
        start_disk as int,
        start_id as int,
        directory,
        options.limits,
    );
    let count: usize = input.len();
    let groups: usize = group_count(count, fan_in);
    let fixed: u64 = sorting::runs_bytes(count, directory).saturating_add(
        sorting::slots(groups, RUN_SLOT_BYTES),
    );
    let mut next: Vec<SortRun> = Vec::new();
    let mut disk: u64 = start_disk;
    let mut id: u64 = start_id;
    let mut from: usize = 0;
    proof {
        assert(contents_of(next@) =~= Seq::<Seq<RecordView>>::empty());
        assert(contents.subrange(0, count as int) =~= contents);
        pass_start(fan_in as int, count as int);
    }
    while from < count
        invariant
            count == input@.len(),
            contents == contents_of(input@),
            outcome == pass_outcome(
                contents,
                0,
                Seq::empty(),
                start_disk as int,
                start_id as int,
                directory,
                options.limits,
            ),
            fan_in == fan_in_of(options.limits),
            fan_in >= 2,
            count > fan_in,
            groups == groups_of(count as int, fan_in as int),
            from <= count,
            pass_progress(next@.len() as int, from as int, fan_in as int, count as int),
            fixed == sorting::sat(pass_memory(count as int, groups as int, 0, directory)),
            forall|i: int| 0 <= i < input@.len() ==> (#[trigger] input@[i]).wf(options.limits),
            forall|i: int| 0 <= i < next@.len() ==> (#[trigger] next@[i]).wf(options.limits),
            sorting::all_held(input@),
            sorting::all_held(next@),
            sorting::numbered(next@, id as int),
            disk == sorting::runs_size(contents_of(next@)) + sorting::runs_size(
                contents.subrange(from as int, count as int),
            ),
            outcome == pass_outcome(
                contents,
                from as int,
                contents_of(next@),
                disk as int,
                id as int,
                directory,
                options.limits,
            ),
        decreases count - from,
    {
        match options.check_cancelled(0, 0) {
            Ok(()) => {},
            Err(e) => return Err(e),
        }
        let to: usize = if fan_in < count - from {
            from + fan_in
        } else {
            count
        };
        let resident: u64 = fixed.saturating_add(
            sorting::slots(next.len(), sorting::run_path_bytes(directory)),
        );
        let ghost group = contents.subrange(from as int, to as int);
        proof {
            pass_step(next@.len() as int, from as int, fan_in as int, count as int);
            assert(group_contents(input@, from as int, to as int) =~= group);
            runs_size_update(contents, from as int, to as int);
            resident_memory(
                count as int,
                groups as int,
                next@.len() as int,
                directory,
                fixed,
                resident,
            );
            group_of_saturated_memory(
                group,
                pass_memory(count as int, groups as int, next@.len() as int, directory),
                resident,
                disk as int,
                id as int,
                directory,
                options.limits,
            );
        }
        let merged = match merge_group(&input, from, to, resident, disk, id, directory, options) {
            Ok(merged) => merged,
            Err(e) => return Err(e),
        };
        proof {
            runs_size_nonnegative(contents_of(next@));
            runs_size_nonnegative(contents.subrange(to as int, count as int));
        }
        let mut old_bytes: u64 = 0;
        let mut index: usize = from;
        assert(contents.subrange(from as int, from as int) =~= Seq::<Seq<RecordView>>::empty());
        while index < to
            invariant
                from <= index <= to <= input@.len(),
                contents == contents_of(input@),
                forall|i: int| 0 <= i < input@.len() ==> (#[trigger] input@[i]).wf(options.limits),
                old_bytes == sorting::runs_size(contents.subrange(from as int, index as int)),
                sorting::runs_size(contents.subrange(from as int, to as int)) <= u64::MAX,
            decreases to - index,
        {
            proof {
                let longer = contents.subrange(from as int, index as int + 1);
                assert(longer.drop_last() =~= contents.subrange(from as int, index as int));
                assert(longer.last() == input@[index as int].content@);
                assert(input@[index as int].wf(options.limits));
                let group = contents.subrange(from as int, to as int);
                runs_size_update(group, 0, index - from + 1);
                assert(group.subrange(0, index - from + 1) =~= longer);
                assert(group.subrange(0, group.len() as int) =~= group);
                runs_size_nonnegative(group.subrange(index - from + 1, group.len() as int));
            }
            old_bytes = old_bytes + input[index].size;
            index = index + 1;
        }
        let ghost content = merged.content@;
        let merged_bytes: u64 = merged.size;
        disk = disk + merged_bytes - old_bytes;
        id = id + 1;
        let ghost next_before = next@;
        next.push(merged);
        proof {
            assert(contents_of(next@) =~= contents_of(next_before).push(content));
            assert(contents_of(next@).drop_last() =~= contents_of(next_before));
            assert forall|i: int| 0 <= i < next@.len() implies (#[trigger] next@[i]).wf(
                options.limits,
            ) by {
                if i < next_before.len() {
                    assert(next@[i] == next_before[i]);
                }
            }
        }
        from = to;
    }
    proof {
        pass_end(next@.len() as int, fan_in as int, count as int);
        assert(contents.subrange(count as int, count as int) =~= Seq::<Seq<RecordView>>::empty());
    }
    Ok((next, disk, id))
}

proof fn ceiling_division(count: int, fan_in: int)
    requires
        count >= 0,
        fan_in >= 2,
    ensures
        groups_of(count, fan_in) == if count % fan_in == 0 {
            count / fan_in
        } else {
            count / fan_in + 1
        },
        groups_of(count, fan_in) <= count,
{
    reveal(groups_of);
    let q = count / fan_in;
    let r = count % fan_in;
    assert(count == fan_in * q + r && 0 <= r < fan_in) by (nonlinear_arith)
        requires
            fan_in >= 2,
            q == count / fan_in,
            r == count % fan_in,
    ;
    if r == 0 {
        assert((fan_in * q + fan_in - 1) / fan_in == q) by (nonlinear_arith)
            requires
                fan_in >= 2,
        ;
    } else {
        assert((fan_in * q + r + fan_in - 1) / fan_in == q + 1) by (nonlinear_arith)
            requires
                fan_in >= 2,
                1 <= r < fan_in,
        ;
    }
    assert(fan_in * q + r >= q + if r == 0 {
        0int
    } else {
        1int
    }) by (nonlinear_arith)
        requires
            fan_in >= 2,
            q >= 0,
            r >= 0,
    ;
}

proof fn resident_memory(
    count: int,
    groups: int,
    done: int,
    directory: u32,
    fixed: u64,
    resident: u64,
)
    requires
        count >= 0,
        groups >= 0,
        done >= 0,
        fixed == sorting::sat(pass_memory(count, groups, 0, directory)),
        resident == sorting::sat(
            fixed + sorting::sat(done * sorting::run_path_memory(directory)),
        ),
    ensures
        resident == sorting::sat(pass_memory(count, groups, done, directory)),
        pass_memory(count, groups, done, directory) >= 0,
{
    sorting::another_run(count, directory);
    let each = sorting::run_path_memory(directory);
    assert(done * each >= 0) by (nonlinear_arith)
        requires
            done >= 0,
            each >= 0,
    ;
    assert(0 * each == 0);
}

/// A saturated memory count is refused like the exact one.
proof fn group_of_saturated_memory(
    group: Seq<Seq<RecordView>>,
    exact: int,
    saturated: u64,
    disk: int,
    id: int,
    directory: u32,
    limits: IngestLimits,
)
    requires
        exact >= 0,
        saturated == sorting::sat(exact),
    ensures
        group_outcome(group, exact, disk, id, directory, limits) == group_outcome(
            group,
            saturated as int,
            disk,
            id,
            directory,
            limits,
        ),
{
    reveal(group_outcome);
    if exact > u64::MAX {
        let limit = limits::parser_share(limits.working_memory_bytes);
        assert(sorting::memory_fault(exact + sorting::run_path_memory(directory), limit, 0, 0)
            == sorting::memory_fault(u64::MAX + sorting::run_path_memory(directory), limit, 0, 0));
    }
}

/// Merges runs until one merge may open all of them.
pub fn merge_all_runs(state: &mut ParsedRuns, options: &IngestOptions) -> (result: Result<
    (),
    IngestError,
>)
    requires
        old(state).wf(options.limits),
        old(state).held(),
    ensures
        match result {
            Ok(()) => {
                &&& merge_all_outcome(old(state)@, options.limits) == Ok::<RunsView, ErrorView>(
                    final(state)@,
                )
                &&& final(state).wf(options.limits)
                &&& final(state).held()
                &&& final(state)@.contents.len() <= fan_in_of(options.limits)
            },
            Err(e) => options::may_cancel(*options, e@) || merge_all_outcome(
                old(state)@,
                options.limits,
            ) == Err::<RunsView, ErrorView>(e@),
        },
{
    let ghost start = state@;
    let ghost outcome = passes_outcome(start, options.limits);
    let limit: u64 = parser_working_memory_bytes(options.limits.working_memory_bytes);
    let fan_in: usize = if options.limits.run_fan_in > usize::MAX as u64 {
        usize::MAX
    } else {
        options.limits.run_fan_in as usize
    };
    if state.runs.len() <= fan_in {
        return Ok(());
    }
    if fan_in < 2 {
        return Err(
            limit_error(ErrorCode::RunFanInLimit, "run_fan_in", options.limits.run_fan_in),
        );
    }
    assert(!state.runs@[0].stored);
    let mut current: Vec<SortRun> = Vec::new();
    core::mem::swap(&mut current, &mut state.runs);
    let mut disk: u64 = state.disk_bytes;
    let mut id: u64 = state.next_run_id;
    let directory: u32 = state.directory;
    assert(contents_of(current@) =~= start.contents);
    while current.len() > fan_in
        invariant
            fan_in == fan_in_of(options.limits),
            fan_in >= 2,
            limit == limits::parser_share(options.limits.working_memory_bytes),
            disk == sorting::runs_size(contents_of(current@)),
            forall|i: int| 0 <= i < current@.len() ==> (#[trigger] current@[i]).wf(options.limits),
            sorting::all_held(current@),
            sorting::numbered(current@, id as int),
            state.handed == 0,
            state.directory == directory,
            start.directory == directory,
            start == old(state)@,
            start.contents.len() > fan_in,
            merge_all_outcome(start, options.limits) == match outcome {
                Err(e) => Err::<RunsView, ErrorView>(e),
                Ok(after) => match sorting::memory_fault(
                    sorting::runs_memory(after.contents.len() as int, after.directory),
                    limit,
                    0,
                    0,
                ) {
                    Some(e) => Err(e),
                    None => Ok(after),
                },
            },
            outcome == passes_outcome(
                RunsView {
                    directory,
                    contents: contents_of(current@),
                    disk: disk as int,
                    next_id: id as int,
                },
                options.limits,
            ),
        decreases current.len(),
    {
        let count: usize = current.len();
        let groups: usize = group_count(count, fan_in);
        let requested: u64 = sorting::runs_bytes(count, directory).saturating_add(
            sorting::slots(groups, RUN_SLOT_BYTES),
        );
        proof {
            sorting::another_run(count as int, directory);
            assert(0 * sorting::run_path_memory(directory) == 0);
        }
        match sorting::parser_memory_check(requested, limit, 0, 0) {
            Ok(()) => {},
            Err(e) => return Err(e),
        }
        let (next, disk_after, id_after) = match merge_pass(
            current,
            disk,
            id,
            directory,
            fan_in,
            options,
        ) {
            Ok(next) => next,
            Err(e) => return Err(e),
        };
        current = next;
        disk = disk_after;
        id = id_after;
    }
    let requested: u64 = sorting::runs_bytes(current.len(), directory);
    proof {
        sorting::another_run(current@.len() as int, directory);
    }
    let ghost final_contents = contents_of(current@);
    state.runs = current;
    state.disk_bytes = disk;
    state.next_run_id = id;
    assert(state@.contents =~= final_contents);
    sorting::parser_memory_check(requested, limit, 0, 0)
}

/// Two pools side by side hold what both hold.
pub proof fn pooled_concat(a: Seq<Seq<RecordView>>, b: Seq<Seq<RecordView>>)
    ensures
        merge::pooled(a + b) == merge::pooled(a).add(merge::pooled(b)),
        merge::pooled_len(a + b) == merge::pooled_len(a) + merge::pooled_len(b),
    decreases b.len(),
{
    if b.len() == 0 {
        assert(a + b =~= a);
        assert(merge::pooled(a).add(merge::pooled(b)) =~= merge::pooled(a));
    } else {
        pooled_concat(a, b.drop_last());
        assert((a + b).drop_last() =~= a + b.drop_last());
        assert(merge::pooled(a + b) =~= merge::pooled(a).add(merge::pooled(b)));
    }
}

pub open spec fn all_ordered(contents: Seq<Seq<RecordView>>) -> bool {
    forall|i: int| 0 <= i < contents.len() ==> order::ordered(#[trigger] contents[i])
}

proof fn pass_keeps_records(
    input: Seq<Seq<RecordView>>,
    from: int,
    next: Seq<Seq<RecordView>>,
    disk: int,
    id: int,
    directory: u32,
    limits: IngestLimits,
)
    requires
        0 <= from <= input.len(),
        fan_in_of(limits) >= 2,
        all_ordered(input),
        all_ordered(next),
    ensures
        pass_outcome(input, from, next, disk, id, directory, limits) matches Ok(after) ==> all_ordered(
            after.contents,
        ) && merge::pooled(after.contents) == merge::pooled(next).add(
            merge::pooled(input.skip(from)),
        ),
    decreases input.len() - from,
{
    if from >= input.len() {
        assert(input.skip(from) =~= Seq::<Seq<RecordView>>::empty());
        assert(merge::pooled(next).add(merge::pooled(input.skip(from))) =~= merge::pooled(next));
    } else {
        let fan_in = fan_in_of(limits);
        let to = group_end(from, fan_in, input.len() as int);
        let group = input.subrange(from, to);
        let resident = pass_memory(
            input.len() as int,
            groups_of(input.len() as int, fan_in),
            next.len() as int,
            directory,
        );
        match group_outcome(group, resident, disk, id, directory, limits) {
            Err(_) => {},
            Ok(content) => {
                reveal(group_outcome);
                assert(content == merge_output(group));
                assert forall|i: int| 0 <= i < group.len() implies order::ordered(
                    #[trigger] group[i],
                ) by {
                    assert(group[i] == input[from + i]);
                }
                merging_sorts(group);
                let longer = next.push(content);
                assert(longer.drop_last() =~= next);
                pass_keeps_records(
                    input,
                    to,
                    longer,
                    disk + runs::run_bytes(content).len() - sorting::runs_size(group),
                    id + 1,
                    directory,
                    limits,
                );
                assert(input.skip(from) =~= group + input.skip(to));
                pooled_concat(group, input.skip(to));
                assert(merge::pooled(longer).add(merge::pooled(input.skip(to))) =~= merge::pooled(
                    next,
                ).add(merge::pooled(input.skip(from))));
            },
        }
    }
}

proof fn passes_keep_records(state: RunsView, limits: IngestLimits)
    requires
        all_ordered(state.contents),
    ensures
        passes_outcome(state, limits) matches Ok(after) ==> all_ordered(after.contents)
            && merge::pooled(after.contents) == merge::pooled(state.contents),
    decreases state.contents.len(),
{
    let fan_in = fan_in_of(limits);
    if state.contents.len() > fan_in && fan_in >= 2 {
        pass_keeps_records(
            state.contents,
            0,
            Seq::empty(),
            state.disk,
            state.next_id,
            state.directory,
            limits,
        );
        assert(state.contents.skip(0) =~= state.contents);
        assert(merge::pooled(Seq::<Seq<RecordView>>::empty()).add(merge::pooled(state.contents))
            =~= merge::pooled(state.contents));
        match pass_outcome(
            state.contents,
            0,
            Seq::empty(),
            state.disk,
            state.next_id,
            state.directory,
            limits,
        ) {
            Ok(after) => {
                if after.contents.len() < state.contents.len() {
                    passes_keep_records(after, limits);
                }
            },
            Err(_) => {},
        }
    }
}

/// Merge passes lose no record, add none and leave every run ordered,
/// whatever the fan-in is.
pub proof fn merge_passes_keep_records(state: RunsView, limits: IngestLimits)
    requires
        all_ordered(state.contents),
    ensures
        merge_all_outcome(state, limits) matches Ok(after) ==> all_ordered(after.contents)
            && merge::pooled(after.contents) == merge::pooled(state.contents),
{
    passes_keep_records(state, limits);
}

/// Handing out runs after any merge passes gives the same records in the same
/// order, whatever the fan-in is.
pub proof fn fan_in_does_not_change_the_order(
    state: RunsView,
    one: IngestLimits,
    other: IngestLimits,
    all: Seq<RecordView>,
)
    requires
        all_ordered(state.contents),
        merge::pooled(state.contents) == all.to_multiset(),
        order::distinct_sequences(all),
        merge_all_outcome(state, one) is Ok,
        merge_all_outcome(state, other) is Ok,
    ensures
        merge_output((merge_all_outcome(state, one)->Ok_0).contents) == order::in_order(all),
        merge_output((merge_all_outcome(state, other)->Ok_0).contents) == order::in_order(all),
{
    merge_passes_keep_records(state, one);
    merge_passes_keep_records(state, other);
    merging_sorts((merge_all_outcome(state, one)->Ok_0).contents);
    merging_sorts((merge_all_outcome(state, other)->Ok_0).contents);
    order::in_order_is(merge_output((merge_all_outcome(state, one)->Ok_0).contents), all);
    order::in_order_is(merge_output((merge_all_outcome(state, other)->Ok_0).contents), all);
}

} // verus!
