//! What holds of every answer of the chain query filter.

use crate::header::{HeaderHash, HeaderHashed};
use crate::query::{hash_index, walk_back, walk_to_start, ChainQueryFilter, ChainQueryFilterRange};
use vstd::prelude::*;

verus! {

/// Whether every header of the index stands under its own hash.
pub open spec fn keyed_by_hash(index: Map<HeaderHash, HeaderHashed>) -> bool {
    forall|hash: HeaderHash| #[trigger] index.contains_key(hash) ==> index[hash].hash == hash
}

/// Whether every header of the index is one of the candidates.
pub open spec fn drawn_from(index: Map<HeaderHash, HeaderHashed>, headers: Seq<HeaderHashed>) -> bool {
    forall|hash: HeaderHash| #[trigger] index.contains_key(hash) ==> headers.contains(index[hash])
}

/// Whether no two candidates carry one hash.
pub open spec fn hashes_unique(headers: Seq<HeaderHashed>) -> bool {
    forall|i: int, j: int|
        0 <= i < j < headers.len() ==> (#[trigger] headers[i]).hash != (#[trigger] headers[j]).hash
}

/// Whether the links to the predecessors lead from `from` to `to` in exactly
/// `steps` steps, over headers that the index holds.
pub open spec fn linked(
    index: Map<HeaderHash, HeaderHashed>,
    from: HeaderHash,
    to: HeaderHash,
    steps: nat,
) -> bool
    decreases steps,
{
    index.contains_key(from) && if steps == 0 {
        from == to
    } else {
        match index[from].prev_header {
            Some(prev) => linked(index, prev, to, (steps - 1) as nat),
            None => false,
        }
    }
}

/// The index of a candidate set is finite, holds exactly the hashes of the
/// candidates, each header under its own hash, and holds candidates only.
pub proof fn lemma_hash_index(headers: Seq<HeaderHashed>)
    ensures
        hash_index(headers).dom().finite(),
        keyed_by_hash(hash_index(headers)),
        drawn_from(hash_index(headers), headers),
        forall|i: int|
            0 <= i < headers.len() ==> hash_index(headers).contains_key(
                (#[trigger] headers[i]).hash,
            ),
    decreases headers.len(),
{
    if headers.len() > 0 {
        let front = headers.drop_last();
        let last = headers.last();
        lemma_hash_index(front);
        let index = hash_index(headers);
        assert forall|hash: HeaderHash| #[trigger] index.contains_key(hash) implies headers.contains(
            index[hash],
        ) by {
            if hash == last.hash {
                assert(headers[headers.len() - 1] == last);
            } else {
                let held = hash_index(front)[hash];
                let i = choose|i: int| 0 <= i < front.len() && front[i] == held;
                assert(headers[i] == held);
            }
        }
        assert forall|i: int| 0 <= i < headers.len() implies index.contains_key(
            (#[trigger] headers[i]).hash,
        ) by {
            if i < headers.len() - 1 {
                assert(front[i] == headers[i]);
            }
        }
    }
}

/// Where no two candidates carry one hash, the index holds each candidate
/// under its hash, whatever the order of the candidates.
pub proof fn lemma_hash_index_of_unique(headers: Seq<HeaderHashed>, i: int)
    requires
        hashes_unique(headers),
        0 <= i < headers.len(),
    ensures
        hash_index(headers).contains_key(headers[i].hash),
        hash_index(headers)[headers[i].hash] == headers[i],
    decreases headers.len(),
{
    let front = headers.drop_last();
    if i < headers.len() - 1 {
        assert forall|a: int, b: int| 0 <= a < b < front.len() implies (#[trigger] front[a]).hash != (
        #[trigger] front[b]).hash by {
            assert(front[a] == headers[a] && front[b] == headers[b]);
        }
        assert(front[i] == headers[i]);
        lemma_hash_index_of_unique(front, i);
        assert(headers[i].hash != headers[headers.len() - 1].hash);
    }
}

/// Whether the header at position `i` names the one after it as its
/// predecessor.
pub open spec fn names_next(headers: Seq<HeaderHashed>, i: int) -> bool {
    headers[i].prev_header == Some(headers[i + 1].hash)
}

/// Whether the headers form a chain: each is the predecessor that the one
/// before it names, and no hash occurs twice.
pub open spec fn is_chain(headers: Seq<HeaderHashed>) -> bool {
    &&& forall|i: int| 0 <= i < headers.len() - 1 ==> #[trigger] names_next(headers, i)
    &&& forall|i: int, j: int|
        0 <= i < j < headers.len() ==> (#[trigger] headers[i]).hash != (#[trigger] headers[j]).hash
}

/// Whether the index holds each of the headers under its hash.
pub open spec fn held_by(index: Map<HeaderHash, HeaderHashed>, headers: Seq<HeaderHashed>) -> bool {
    forall|i: int|
        0 <= i < headers.len() ==> index.contains_key((#[trigger] headers[i]).hash)
            && index[headers[i].hash] == headers[i]
}

/// Taking a header out of an index that is keyed by hash leaves it keyed by
/// hash.
proof fn lemma_keyed_without(index: Map<HeaderHash, HeaderHashed>, gone: HeaderHash)
    requires
        keyed_by_hash(index),
    ensures
        keyed_by_hash(index.remove(gone)),
{
    let rest = index.remove(gone);
    assert forall|hash: HeaderHash| #[trigger] rest.contains_key(hash) implies rest[hash].hash
        == hash by {
        assert(index.contains_key(hash));
    }
}

/// A header ahead of a chain that it names and does not hold makes a longer
/// chain.
proof fn lemma_chain_grows(header: HeaderHashed, tail: Seq<HeaderHashed>)
    requires
        is_chain(tail),
        tail.len() > 0 ==> header.prev_header == Some(tail[0].hash),
        forall|i: int| 0 <= i < tail.len() ==> (#[trigger] tail[i]).hash != header.hash,
    ensures
        is_chain(seq![header] + tail),
{
    let whole = seq![header] + tail;
    assert forall|i: int| 0 <= i < whole.len() - 1 implies #[trigger] names_next(whole, i) by {
        if i > 0 {
            assert(whole[i] == tail[i - 1]);
            assert(whole[i + 1] == tail[i]);
            assert(names_next(tail, i - 1));
        } else {
            assert(whole[1] == tail[0]);
        }
    }
    assert forall|i: int, j: int| 0 <= i < j < whole.len() implies (#[trigger] whole[i]).hash != (
    #[trigger] whole[j]).hash by {
        assert(whole[j] == tail[j - 1]);
        if i > 0 {
            assert(whole[i] == tail[i - 1]);
        }
    }
}

/// A walk towards a start returns a chain that begins at the hash from which
/// it set out, holds the start at its end or not at all, and is no longer
/// than the index is large.
pub proof fn lemma_walk_to_start_is_chain(
    index: Map<HeaderHash, HeaderHashed>,
    at: HeaderHash,
    start: HeaderHash,
)
    requires
        index.dom().finite(),
        keyed_by_hash(index),
    ensures
        is_chain(walk_to_start(index, at, start)),
        held_by(index, walk_to_start(index, at, start)),
        walk_to_start(index, at, start).len() <= index.dom().len(),
        walk_to_start(index, at, start).len() > 0 <==> index.contains_key(at),
        index.contains_key(at) ==> walk_to_start(index, at, start)[0] == index[at],
        forall|i: int|
            0 <= i < walk_to_start(index, at, start).len() - 1 ==> (#[trigger] walk_to_start(
                index,
                at,
                start,
            )[i]).hash != start,
    decreases index.dom().len(),
{
    if index.contains_key(at) {
        let header = index[at];
        if header.prev_header is Some && header.hash != start {
            let prev = header.prev_header->0;
            let rest = index.remove(at);
            lemma_keyed_without(index, at);
            lemma_walk_to_start_is_chain(rest, prev, start);
            let tail = walk_to_start(rest, prev, start);
            let whole = walk_to_start(index, at, start);
            assert(whole == seq![header] + tail);
            assert forall|i: int| 0 <= i < tail.len() implies (#[trigger] tail[i]).hash
                != header.hash by {
                assert(rest.contains_key(tail[i].hash));
            }
            lemma_chain_grows(header, tail);
            assert forall|i: int| 0 <= i < whole.len() implies index.contains_key(
                (#[trigger] whole[i]).hash,
            ) && index[whole[i].hash] == whole[i] by {
                if i > 0 {
                    assert(whole[i] == tail[i - 1]);
                    assert(rest.contains_key(tail[i - 1].hash));
                }
            }
            assert forall|i: int| 0 <= i < whole.len() - 1 implies (#[trigger] whole[i]).hash
                != start by {
                if i > 0 {
                    assert(whole[i] == tail[i - 1]);
                }
            }
        } else {
            assert(index.dom().len() > 0) by {
                if index.dom().len() == 0 {
                    assert(index.dom() =~= Set::<HeaderHash>::empty());
                }
            }
        }
    }
}

/// A counted walk returns a chain that begins at the hash from which it set
/// out and holds no more than the header of that hash and `n` ancestors.
pub proof fn lemma_walk_back_is_chain(index: Map<HeaderHash, HeaderHashed>, at: HeaderHash, n: nat)
    requires
        keyed_by_hash(index),
    ensures
        is_chain(walk_back(index, at, n)),
        held_by(index, walk_back(index, at, n)),
        walk_back(index, at, n).len() <= n + 1,
        walk_back(index, at, n).len() > 0 <==> index.contains_key(at),
        index.contains_key(at) ==> walk_back(index, at, n)[0] == index[at],
    decreases n,
{
    if index.contains_key(at) {
        let header = index[at];
        if header.prev_header is Some && n > 0 {
            let prev = header.prev_header->0;
            let rest = index.remove(at);
            lemma_keyed_without(index, at);
            lemma_walk_back_is_chain(rest, prev, (n - 1) as nat);
            let tail = walk_back(rest, prev, (n - 1) as nat);
            let whole = walk_back(index, at, n);
            assert(whole == seq![header] + tail);
            assert forall|i: int| 0 <= i < tail.len() implies (#[trigger] tail[i]).hash
                != header.hash by {
                assert(rest.contains_key(tail[i].hash));
            }
            lemma_chain_grows(header, tail);
            assert forall|i: int| 0 <= i < whole.len() implies index.contains_key(
                (#[trigger] whole[i]).hash,
            ) && index[whole[i].hash] == whole[i] by {
                if i > 0 {
                    assert(whole[i] == tail[i - 1]);
                    assert(rest.contains_key(tail[i - 1].hash));
                }
            }
        }
    }
}

/// Every header that the range of a filter selects is one of the candidates.
pub proof fn lemma_selected_within_candidates(filter: ChainQueryFilter, headers: Seq<HeaderHashed>)
    ensures
        forall|i: int|
            0 <= i < filter.selected(headers).len() ==> headers.contains(
                #[trigger] filter.selected(headers)[i],
            ),
{
    let selected = filter.selected(headers);
    let index = hash_index(headers);
    lemma_hash_index(headers);
    match filter.sequence_range {
        ChainQueryFilterRange::Unbounded => {},
        ChainQueryFilterRange::HeaderSeqRange(start, end) => {
            let in_range = |header: HeaderHashed| start <= header.header_seq <= end;
            assert forall|i: int| 0 <= i < selected.len() implies headers.contains(
                #[trigger] selected[i],
            ) by {
                assert(headers.filter(in_range).contains(selected[i]));
                headers.lemma_filter_contains_rev(in_range, selected[i]);
            }
        },
        ChainQueryFilterRange::HeaderHashRange(start, end) => {
            lemma_walk_to_start_is_chain(index, end, start);
            assert forall|i: int| 0 <= i < selected.len() implies headers.contains(
                #[trigger] selected[i],
            ) by {
                assert(index.contains_key(selected[i].hash));
            }
        },
        ChainQueryFilterRange::HeaderHashTerminated(end, n) => {
            lemma_walk_back_is_chain(index, end, n as nat);
            assert forall|i: int| 0 <= i < selected.len() implies headers.contains(
                #[trigger] selected[i],
            ) by {
                assert(index.contains_key(selected[i].hash));
            }
        },
    }
}

/// The answer of a filter holds candidates only, each of which passes the
/// predicates of the filter: whatever the range and the predicates, nothing
/// is returned that was not handed in.
pub proof fn lemma_answer_within_candidates(filter: ChainQueryFilter, headers: Seq<HeaderHashed>)
    ensures
        forall|i: int|
            0 <= i < filter.filtered(headers).len() ==> headers.contains(
                #[trigger] filter.filtered(headers)[i],
            ) && filter.admits(filter.filtered(headers)[i]),
{
    let selected = filter.selected(headers);
    let admitted = |header: HeaderHashed| filter.admits(header);
    let answer = filter.filtered(headers);
    lemma_selected_within_candidates(filter, headers);
    assert forall|i: int| 0 <= i < answer.len() implies headers.contains(#[trigger] answer[i])
        && filter.admits(answer[i]) by {
        assert(selected.filter(admitted).contains(answer[i]));
        selected.lemma_filter_contains_rev(admitted, answer[i]);
        selected.lemma_filter_pred(admitted, i);
        let k = choose|k: int| 0 <= k < selected.len() && selected[k] == answer[i];
        assert(headers.contains(selected[k]));
    }
}

/// A filter that sets no predicate answers with what its range selects.
pub proof fn lemma_without_predicates(filter: ChainQueryFilter, headers: Seq<HeaderHashed>)
    requires
        filter.entry_type is None,
        filter.entry_hashes is None,
        filter.header_type is None,
    ensures
        filter.filtered(headers) == filter.selected(headers),
{
    lemma_filter_all(filter.selected(headers), |header: HeaderHashed| filter.admits(header));
}

/// A filter with no range and no predicate answers with the candidates as
/// they came.
pub proof fn lemma_unbounded_returns_candidates(filter: ChainQueryFilter, headers: Seq<HeaderHashed>)
    requires
        filter.sequence_range is Unbounded,
        filter.entry_type is None,
        filter.entry_hashes is None,
        filter.header_type is None,
    ensures
        filter.filtered(headers) == headers,
{
    lemma_without_predicates(filter, headers);
}

/// Filtering by a predicate that holds of every element changes nothing.
proof fn lemma_filter_all(headers: Seq<HeaderHashed>, pred: spec_fn(HeaderHashed) -> bool)
    requires
        forall|i: int| 0 <= i < headers.len() ==> pred(#[trigger] headers[i]),
    ensures
        headers.filter(pred) == headers,
    decreases headers.len(),
{
    reveal(Seq::filter);
    if headers.len() > 0 {
        assert forall|i: int| 0 <= i < headers.drop_last().len() implies pred(
            #[trigger] headers.drop_last()[i],
        ) by {
            assert(headers.drop_last()[i] == headers[i]);
        }
        lemma_filter_all(headers.drop_last(), pred);
        assert(pred(headers[headers.len() - 1]));
        assert(headers.drop_last().push(headers.last()) == headers);
    }
}

/// Taking one header out of the index leaves a chain of links whole, unless
/// the chain passed through that header: then there is a chain from that
/// header to the same end that is no longer.
proof fn lemma_linked_without(
    index: Map<HeaderHash, HeaderHashed>,
    gone: HeaderHash,
    from: HeaderHash,
    to: HeaderHash,
    steps: nat,
) -> (through: Option<nat>)
    requires
        linked(index, from, to, steps),
    ensures
        match through {
            Some(shorter) => shorter <= steps && linked(index, gone, to, shorter),
            None => linked(index.remove(gone), from, to, steps),
        },
    decreases steps,
{
    if from == gone {
        Some(steps)
    } else if steps == 0 {
        None
    } else {
        let prev = index[from].prev_header->0;
        let through = lemma_linked_without(index, gone, prev, to, (steps - 1) as nat);
        assert(index.remove(gone)[from] == index[from]);
        through
    }
}

/// Where the links lead from `end` to `start`, the walk from `end` begins
/// with the header of `end` and ends with the header of `start`.
pub proof fn lemma_walk_reaches_start(
    index: Map<HeaderHash, HeaderHashed>,
    end: HeaderHash,
    start: HeaderHash,
    steps: nat,
)
    requires
        index.dom().finite(),
        keyed_by_hash(index),
        linked(index, end, start, steps),
    ensures
        walk_to_start(index, end, start).len() > 0,
        walk_to_start(index, end, start).first() == index[end],
        walk_to_start(index, end, start).last() == index[start],
    decreases steps,
{
    let header = index[end];
    if end != start {
        let prev = header.prev_header->0;
        let rest = index.remove(end);
        match lemma_linked_without(index, end, prev, start, (steps - 1) as nat) {
            Some(shorter) => {
                lemma_walk_reaches_start(index, end, start, shorter);
            },
            None => {
                lemma_keyed_without(index, end);
                lemma_walk_reaches_start(rest, prev, start, (steps - 1) as nat);
                let tail = walk_to_start(rest, prev, start);
                let whole = walk_to_start(index, end, start);
                assert(whole == seq![header] + tail);
                assert(whole.last() == tail.last());
            },
        }
    }
}

/// A chain of links ends at a header that the index holds.
proof fn lemma_linked_holds_end(
    index: Map<HeaderHash, HeaderHashed>,
    from: HeaderHash,
    to: HeaderHash,
    steps: nat,
)
    requires
        linked(index, from, to, steps),
    ensures
        index.contains_key(to),
    decreases steps,
{
    if steps > 0 {
        lemma_linked_holds_end(index, index[from].prev_header->0, to, (steps - 1) as nat);
    }
}

/// An inclusive hash range holds both of its bounds: where the candidates
/// hold the two hashes and the links to the predecessors lead from the end
/// to the start, the selection begins with the header of the end and ends
/// with the header of the start.
pub proof fn lemma_hash_range_holds_both_bounds(
    filter: ChainQueryFilter,
    headers: Seq<HeaderHashed>,
    start: HeaderHash,
    end: HeaderHash,
    steps: nat,
)
    requires
        filter.sequence_range == ChainQueryFilterRange::HeaderHashRange(start, end),
        linked(hash_index(headers), end, start, steps),
    ensures
        filter.selected(headers).len() > 0,
        filter.selected(headers).first() == hash_index(headers)[end],
        filter.selected(headers).last() == hash_index(headers)[start],
        filter.selected(headers).first().hash == end,
        filter.selected(headers).last().hash == start,
        headers.contains(filter.selected(headers).first()),
        headers.contains(filter.selected(headers).last()),
{
    lemma_hash_index(headers);
    lemma_linked_holds_end(hash_index(headers), end, start, steps);
    lemma_walk_reaches_start(hash_index(headers), end, start, steps);
}

/// A range that ends in a hash and asks for no ancestors selects the header
/// of that hash and nothing else; it selects nothing where no candidate
/// carries the hash.
pub proof fn lemma_hash_terminated_alone(
    filter: ChainQueryFilter,
    headers: Seq<HeaderHashed>,
    end: HeaderHash,
)
    requires
        filter.sequence_range == ChainQueryFilterRange::HeaderHashTerminated(end, 0),
    ensures
        filter.selected(headers) == if hash_index(headers).contains_key(end) {
            seq![hash_index(headers)[end]]
        } else {
            Seq::empty()
        },
        hash_index(headers).contains_key(end) <==> exists|i: int|
            0 <= i < headers.len() && (#[trigger] headers[i]).hash == end,
        hash_index(headers).contains_key(end) ==> hash_index(headers)[end].hash == end
            && headers.contains(hash_index(headers)[end]),
{
    lemma_hash_index(headers);
    if hash_index(headers).contains_key(end) {
        let held = hash_index(headers)[end];
        let i = choose|i: int| 0 <= i < headers.len() && headers[i] == held;
        assert(headers[i].hash == end);
    }
}

/// The index does not depend on the order of the candidates: two sets of
/// candidates that hold the same headers, neither with one hash twice, have
/// one index, so that a range that ends in a hash selects the same headers
/// from both.
pub proof fn lemma_hash_index_ignores_order(first: Seq<HeaderHashed>, second: Seq<HeaderHashed>)
    requires
        hashes_unique(first),
        hashes_unique(second),
        first.to_set() == second.to_set(),
    ensures
        hash_index(first) == hash_index(second),
{
    lemma_hash_index(first);
    lemma_hash_index(second);
    let one = hash_index(first);
    let other = hash_index(second);
    assert forall|hash: HeaderHash| one.contains_key(hash) implies other.contains_key(hash)
        && other[hash] == one[hash] by {
        lemma_held_by_both(first, second, hash);
    }
    assert forall|hash: HeaderHash| other.contains_key(hash) implies one.contains_key(hash) by {
        lemma_held_by_both(second, first, hash);
    }
    assert(one =~= other);
}

/// A header that the index of one set of candidates holds stands under the
/// same hash in the index of any set that holds the same headers.
proof fn lemma_held_by_both(first: Seq<HeaderHashed>, second: Seq<HeaderHashed>, hash: HeaderHash)
    requires
        hashes_unique(second),
        first.to_set() == second.to_set(),
        hash_index(first).contains_key(hash),
    ensures
        hash_index(second).contains_key(hash),
        hash_index(second)[hash] == hash_index(first)[hash],
{
    lemma_hash_index(first);
    let held = hash_index(first)[hash];
    assert(first.contains(held));
    assert(first.to_set().contains(held));
    assert(second.to_set().contains(held));
    assert(second.contains(held));
    let j = choose|j: int| 0 <= j < second.len() && second[j] == held;
    lemma_hash_index_of_unique(second, j);
}

/// What a range that ends in a hash selects is one branch: a chain of
/// candidates from the final header towards genesis, each the predecessor
/// that the one before it names, no hash twice. It is empty exactly where no
/// candidate carries the final hash.
pub proof fn lemma_hash_bounded_selection_is_chain(
    filter: ChainQueryFilter,
    headers: Seq<HeaderHashed>,
)
    requires
        filter.sequence_range is HeaderHashRange || filter.sequence_range is HeaderHashTerminated,
    ensures
        is_chain(filter.selected(headers)),
        held_by(hash_index(headers), filter.selected(headers)),
        match filter.sequence_range {
            ChainQueryFilterRange::HeaderHashRange(start, end) => {
                &&& filter.selected(headers).len() > 0 <==> hash_index(headers).contains_key(end)
                &&& filter.selected(headers).len() > 0 ==> filter.selected(headers)[0].hash == end
                &&& forall|i: int|
                    0 <= i < filter.selected(headers).len() - 1 ==> (#[trigger] filter.selected(
                        headers,
                    )[i]).hash != start
            },
            ChainQueryFilterRange::HeaderHashTerminated(end, n) => {
                &&& filter.selected(headers).len() > 0 <==> hash_index(headers).contains_key(end)
                &&& filter.selected(headers).len() > 0 ==> filter.selected(headers)[0].hash == end
                &&& filter.selected(headers).len() <= n + 1
            },
            _ => true,
        },
{
    lemma_hash_index(headers);
    match filter.sequence_range {
        ChainQueryFilterRange::HeaderHashRange(start, end) => {
            lemma_walk_to_start_is_chain(hash_index(headers), end, start);
        },
        ChainQueryFilterRange::HeaderHashTerminated(end, n) => {
            lemma_walk_back_is_chain(hash_index(headers), end, n as nat);
        },
        _ => {},
    }
}

} // verus!
