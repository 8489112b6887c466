//! Queries over a chain: a declarative filter and the fork-aware selection of
//! the headers that it names.

use crate::header::{Element, EntryHash, EntryType, HeaderHash, HeaderHashed, HeaderType};
use crate::query_lemmas::{lemma_answer_within_candidates, lemma_without_predicates};
use std::collections::HashMap;
use std::collections::HashSet;
use vstd::prelude::*;

verus! {

broadcast use vstd::std_specs::hash::group_hash_axioms;

/// The ways in which a query can be restricted to a range of a chain.
///
/// A range that ends in a hash selects one branch of a forked history: the
/// final header points at its own ancestors and at nothing else. A range of
/// sequence numbers cannot do that, because one position can occur in many
/// forks. All bounds are inclusive.
#[derive(Clone, Copy, Debug, PartialEq)]
pub enum ChainQueryFilterRange {
    /// No restriction.
    Unbounded,
    /// The headers whose sequence number lies between the two bounds. Every
    /// fork contributes, so this is not for use in validation.
    HeaderSeqRange(u32, u32),
    /// The headers from the second hash back to the first, along the links to
    /// the predecessors.
    HeaderHashRange(HeaderHash, HeaderHash),
    /// The header with this hash and that many of its ancestors.
    HeaderHashTerminated(HeaderHash, u32),
}

impl Default for ChainQueryFilterRange {
    fn default() -> (range: Self)
        ensures
            range == ChainQueryFilterRange::Unbounded,
    {
        ChainQueryFilterRange::Unbounded
    }
}

/// The arguments of a query.
#[derive(Clone, Debug, PartialEq)]
#[non_exhaustive]
pub struct ChainQueryFilter {
    /// Limits the results to a range of the chain.
    pub sequence_range: ChainQueryFilterRange,
    /// Keeps the headers that commit an entry of this type.
    pub entry_type: Option<EntryType>,
    /// Keeps the headers that commit one of these entries.
    pub entry_hashes: Option<HashSet<EntryHash>>,
    /// Keeps the headers of this kind.
    pub header_type: Option<HeaderType>,
    /// Whether the answer carries the entries along with the headers.
    pub include_entries: bool,
}

impl Default for ChainQueryFilter {
    fn default() -> (filter: Self)
        ensures
            filter.sequence_range == ChainQueryFilterRange::Unbounded,
            filter.entry_type is None,
            filter.entry_hashes is None,
            filter.header_type is None,
            !filter.include_entries,
    {
        ChainQueryFilter {
            sequence_range: ChainQueryFilterRange::Unbounded,
            entry_type: None,
            entry_hashes: None,
            header_type: None,
            include_entries: false,
        }
    }
}

/// The index of a candidate set by hash. Where two candidates carry one hash,
/// the later one stands in the index.
pub open spec fn hash_index(headers: Seq<HeaderHashed>) -> Map<HeaderHash, HeaderHashed>
    decreases headers.len(),
{
    if headers.len() == 0 {
        Map::empty()
    } else {
        hash_index(headers.drop_last()).insert(headers.last().hash, headers.last())
    }
}

/// The headers met on the way from `at` towards genesis, each taken out of
/// the index as it is met. The walk ends with the header whose hash is
/// `start`, with a header that has no predecessor, or before a hash that the
/// index does not hold.
pub open spec fn walk_to_start(
    index: Map<HeaderHash, HeaderHashed>,
    at: HeaderHash,
    start: HeaderHash,
) -> Seq<HeaderHashed>
    decreases index.dom().len(),
    when index.dom().finite()
{
    if index.contains_key(at) {
        let header = index[at];
        match header.prev_header {
            Some(prev) if header.hash != start => seq![header] + walk_to_start(
                index.remove(at),
                prev,
                start,
            ),
            _ => seq![header],
        }
    } else {
        Seq::empty()
    }
}

/// The header at `at` and up to `n` of its ancestors, nearest first, each
/// taken out of the index as it is met.
pub open spec fn walk_back(index: Map<HeaderHash, HeaderHashed>, at: HeaderHash, n: nat) -> Seq<
    HeaderHashed,
>
    decreases n,
{
    if index.contains_key(at) {
        let header = index[at];
        match header.prev_header {
            Some(prev) if n > 0 => seq![header] + walk_back(
                index.remove(at),
                prev,
                (n - 1) as nat,
            ),
            _ => seq![header],
        }
    } else {
        Seq::empty()
    }
}

impl ChainQueryFilter {
    /// Whether a header passes every predicate that the filter sets. A
    /// predicate that is not set lets every header pass; one on the entry
    /// lets no header pass that commits no entry.
    pub open spec fn admits(&self, header: HeaderHashed) -> bool {
        &&& match self.header_type {
            Some(kind) => header.header_type == kind,
            None => true,
        }
        &&& match self.entry_type {
            Some(entry_type) => header.entry_type == Some(entry_type),
            None => true,
        }
        &&& match self.entry_hashes {
            Some(entry_hashes) => match header.entry_hash {
                Some(entry_hash) => entry_hashes@.contains(entry_hash),
                None => false,
            },
            None => true,
        }
    }

    /// The candidates that the range of the filter selects, in the order in
    /// which `disambiguate_forks` returns them.
    pub open spec fn selected(&self, headers: Seq<HeaderHashed>) -> Seq<HeaderHashed> {
        match self.sequence_range {
            ChainQueryFilterRange::Unbounded => headers,
            ChainQueryFilterRange::HeaderSeqRange(start, end) => headers.filter(
                |header: HeaderHashed| start <= header.header_seq <= end,
            ),
            ChainQueryFilterRange::HeaderHashRange(start, end) => walk_to_start(
                hash_index(headers),
                end,
                start,
            ),
            ChainQueryFilterRange::HeaderHashTerminated(end, n) => walk_back(
                hash_index(headers),
                end,
                n as nat,
            ),
        }
    }

    /// The answer of the filter to a candidate set: the selected range,
    /// narrowed by the predicates.
    pub open spec fn filtered(&self, headers: Seq<HeaderHashed>) -> Seq<HeaderHashed> {
        self.selected(headers).filter(|header: HeaderHashed| self.admits(header))
    }

    /// A filter that lets everything pass.
    pub fn new() -> (filter: Self)
        ensures
            filter.sequence_range == ChainQueryFilterRange::Unbounded,
            filter.entry_type is None,
            filter.entry_hashes is None,
            filter.header_type is None,
            !filter.include_entries,
    {
        ChainQueryFilter {
            sequence_range: ChainQueryFilterRange::Unbounded,
            entry_type: None,
            entry_hashes: None,
            header_type: None,
            include_entries: false,
        }
    }

    /// Restricts the filter to a range of the chain.
    pub fn sequence_range(self, sequence_range: ChainQueryFilterRange) -> (filter: Self)
        ensures
            filter == (ChainQueryFilter { sequence_range, ..self }),
    {
        ChainQueryFilter { sequence_range, ..self }
    }

    /// Restricts the filter to the headers that commit an entry of this type.
    pub fn entry_type(self, entry_type: EntryType) -> (filter: Self)
        ensures
            filter == (ChainQueryFilter { entry_type: Some(entry_type), ..self }),
    {
        ChainQueryFilter { entry_type: Some(entry_type), ..self }
    }

    /// Restricts the filter to the headers that commit one of these entries.
    pub fn entry_hashes(self, entry_hashes: HashSet<EntryHash>) -> (filter: Self)
        ensures
            filter == (ChainQueryFilter { entry_hashes: Some(entry_hashes), ..self }),
    {
        ChainQueryFilter { entry_hashes: Some(entry_hashes), ..self }
    }

    /// Restricts the filter to the headers of this kind.
    pub fn header_type(self, header_type: HeaderType) -> (filter: Self)
        ensures
            filter == (ChainQueryFilter { header_type: Some(header_type), ..self }),
    {
        ChainQueryFilter { header_type: Some(header_type), ..self }
    }

    /// Says whether the answer carries the entries along with the headers.
    pub fn include_entries(self, include_entries: bool) -> (filter: Self)
        ensures
            filter == (ChainQueryFilter { include_entries, ..self }),
    {
        ChainQueryFilter { include_entries, ..self }
    }

    /// Selects the candidates in the range of the filter.
    ///
    /// A range that ends in a hash is walked from that hash back along the
    /// links to the predecessors, through an index of the candidates by hash,
    /// so that of several forks only the branch under the final header is
    /// returned, nearest header first. A walk that meets a hash that is not
    /// among the candidates ends there. The other ranges keep the order of
    /// the candidates; a range of sequence numbers keeps every fork.
    pub fn disambiguate_forks(&self, headers: Vec<HeaderHashed>) -> (selected: Vec<HeaderHashed>)
        ensures
            selected@ == self.selected(headers@),
    {
        match self.sequence_range {
            ChainQueryFilterRange::Unbounded => headers,
            ChainQueryFilterRange::HeaderSeqRange(start, end) => {
                let ghost in_range = |header: HeaderHashed| start <= header.header_seq <= end;
                let mut selected: Vec<HeaderHashed> = Vec::new();
                let mut i: usize = 0;
                while i < headers.len()
                    invariant
                        i <= headers.len(),
                        in_range == |header: HeaderHashed| start <= header.header_seq <= end,
                        selected@ == headers@.take(i as int).filter(in_range),
                    decreases headers.len() - i,
                {
                    let header = headers[i];
                    proof {
                        assert(headers@.take(i + 1) == headers@.take(i as int).push(header));
                        headers@.take(i as int).lemma_filter_push(header, in_range);
                    }
                    if start <= header.header_seq && header.header_seq <= end {
                        selected.push(header);
                    }
                    i += 1;
                }
                assert(headers@.take(i as int) == headers@);
                selected
            },
            ChainQueryFilterRange::HeaderHashRange(start, end) => {
                let mut index = index_by_hash(&headers);
                let mut selected: Vec<HeaderHashed> = Vec::new();
                let mut next = index.remove(&end);
                let ghost whole = walk_to_start(hash_index(headers@), end, start);
                while next.is_some()
                    invariant_except_break
                        whole == selected@ + rest_to_start(index@, next, start),
                    ensures
                        whole == selected@,
                    decreases index@.dom().len() + (if next is Some { 1nat } else { 0nat }),
                {
                    let header = next.unwrap();
                    next = match header.prev_header {
                        Some(prev) => index.remove(&prev),
                        None => None,
                    };
                    let is_start = header.hash == start;
                    selected.push(header);
                    if is_start {
                        break ;
                    }
                }
                selected
            },
            ChainQueryFilterRange::HeaderHashTerminated(end, n) => {
                let mut index = index_by_hash(&headers);
                let mut selected: Vec<HeaderHashed> = Vec::new();
                let mut next = index.remove(&end);
                let mut i: u32 = 0;
                let ghost whole = walk_back(hash_index(headers@), end, n as nat);
                while next.is_some()
                    invariant_except_break
                        i <= n,
                        whole == selected@ + rest_back(index@, next, (n - i) as nat),
                    ensures
                        whole == selected@,
                    decreases index@.dom().len() + (if next is Some { 1nat } else { 0nat }),
                {
                    let header = next.unwrap();
                    next = match header.prev_header {
                        Some(prev) => index.remove(&prev),
                        None => None,
                    };
                    selected.push(header);
                    if i == n {
                        break ;
                    }
                    i += 1;
                }
                selected
            },
        }
    }

    /// Decides whether a header passes the predicates of the filter.
    fn passes(&self, header: &HeaderHashed) -> (pass: bool)
        ensures
            pass == self.admits(*header),
    {
        let kind_ok = match self.header_type {
            Some(kind) => header.header_type == kind,
            None => true,
        };
        let entry_type_ok = match self.entry_type {
            Some(entry_type) => match header.entry_type {
                Some(found) => found == entry_type,
                None => false,
            },
            None => true,
        };
        let entry_hash_ok = match &self.entry_hashes {
            Some(entry_hashes) => match header.entry_hash {
                Some(entry_hash) => entry_hashes.contains(&entry_hash),
                None => false,
            },
            None => true,
        };
        kind_ok && entry_type_ok && entry_hash_ok
    }

    /// Answers the query over a set of candidate headers.
    ///
    /// The range is applied first, to all the candidates, because a walk
    /// along the links needs every ancestor; the predicates then narrow what
    /// the range selected. The answer keeps the order of the selection.
    pub fn filter_headers(&self, headers: Vec<HeaderHashed>) -> (filtered: Vec<HeaderHashed>)
        ensures
            filtered@ == self.filtered(headers@),
            forall|i: int|
                0 <= i < filtered@.len() ==> headers@.contains(#[trigger] filtered@[i])
                    && self.admits(filtered@[i]),
            self.sequence_range is Unbounded && self.entry_type is None && self.entry_hashes
                is None && self.header_type is None ==> filtered@ == headers@,
    {
        let ghost candidates = headers@;
        let selected = self.disambiguate_forks(headers);
        let ghost admitted = |header: HeaderHashed| self.admits(header);
        let mut filtered: Vec<HeaderHashed> = Vec::new();
        let mut i: usize = 0;
        while i < selected.len()
            invariant
                i <= selected.len(),
                admitted == |header: HeaderHashed| self.admits(header),
                filtered@ == selected@.take(i as int).filter(admitted),
            decreases selected.len() - i,
        {
            let header = selected[i];
            proof {
                assert(selected@.take(i + 1) == selected@.take(i as int).push(header));
                selected@.take(i as int).lemma_filter_push(header, admitted);
            }
            if self.passes(&header) {
                filtered.push(header);
            }
            i += 1;
        }
        proof {
            assert(selected@.take(i as int) == selected@);
            lemma_answer_within_candidates(*self, candidates);
            if self.entry_type is None && self.entry_hashes is None && self.header_type is None {
                lemma_without_predicates(*self, candidates);
            }
        }
        filtered
    }

    /// The hashes of the headers with which the filter answers the headers of
    /// these elements.
    pub open spec fn kept_hashes(&self, elements: Seq<Element>) -> Set<HeaderHash> {
        self.filtered(elements.map_values(|element: Element| element.header)).map_values(
            |header: HeaderHashed| header.hash,
        ).to_set()
    }

    /// The answer of the filter to a set of elements: those whose header has
    /// a hash that the answer to their headers holds.
    pub open spec fn filtered_elements(&self, elements: Seq<Element>) -> Seq<Element> {
        elements.filter(|element: Element| self.kept_hashes(elements).contains(element.header.hash))
    }

    /// Answers the query over a set of elements, by the headers that they
    /// carry. The elements are returned in the order in which they came, each
    /// with the content that it came with.
    pub fn filter_elements(&self, elements: Vec<Element>) -> (filtered: Vec<Element>)
        ensures
            filtered@ == self.filtered_elements(elements@),
    {
        let ghost to_header = |element: Element| element.header;
        let ghost to_hash = |header: HeaderHashed| header.hash;
        let mut candidates: Vec<HeaderHashed> = Vec::new();
        let mut i: usize = 0;
        while i < elements.len()
            invariant
                i <= elements.len(),
                to_header == |element: Element| element.header,
                candidates@ == elements@.take(i as int).map_values(to_header),
            decreases elements.len() - i,
        {
            proof {
                assert(elements@.take(i + 1).map_values(to_header) == elements@.take(
                    i as int,
                ).map_values(to_header).push(elements@[i as int].header));
            }
            candidates.push(elements[i].header);
            i += 1;
        }
        assert(elements@.take(i as int) == elements@);
        let headers = self.filter_headers(candidates);
        let mut kept: HashSet<HeaderHash> = HashSet::new();
        let mut j: usize = 0;
        while j < headers.len()
            invariant
                j <= headers.len(),
                to_hash == |header: HeaderHashed| header.hash,
                kept@ == headers@.take(j as int).map_values(to_hash).to_set(),
            decreases headers.len() - j,
        {
            proof {
                let before = headers@.take(j as int).map_values(to_hash);
                assert(headers@.take(j + 1).map_values(to_hash) == before.push(
                    headers@[j as int].hash,
                ));
                before.lemma_push_to_set_commute(headers@[j as int].hash);
            }
            kept.insert(headers[j].hash);
            j += 1;
        }
        assert(headers@.take(j as int) == headers@);
        let ghost all = elements@;
        let ghost keep = |element: Element| self.kept_hashes(all).contains(element.header.hash);
        let mut filtered: Vec<Element> = Vec::new();
        for element in iter: elements
            invariant
                iter.seq() == all,
                kept@ == self.kept_hashes(all),
                keep == |element: Element| self.kept_hashes(all).contains(element.header.hash),
                filtered@ == all.take(iter.index() as int).filter(keep),
        {
            proof {
                assert(all.take(iter.index() + 1) == all.take(iter.index() as int).push(element));
                all.take(iter.index() as int).lemma_filter_push(element, keep);
            }
            if kept.contains(&element.header.hash) {
                filtered.push(element);
            }
        }
        assert(all.take(all.len() as int) == all);
        filtered
    }
}

/// What a walk towards `start` still has to return when `next` has been
/// taken out of the index and not yet been returned.
spec fn rest_to_start(
    index: Map<HeaderHash, HeaderHashed>,
    next: Option<HeaderHashed>,
    start: HeaderHash,
) -> Seq<HeaderHashed> {
    match next {
        Some(header) => match header.prev_header {
            Some(prev) if header.hash != start => seq![header] + walk_to_start(index, prev, start),
            _ => seq![header],
        },
        None => Seq::empty(),
    }
}

/// What a walk over `n` more ancestors still has to return when `next` has
/// been taken out of the index and not yet been returned.
spec fn rest_back(
    index: Map<HeaderHash, HeaderHashed>,
    next: Option<HeaderHashed>,
    n: nat,
) -> Seq<HeaderHashed> {
    match next {
        Some(header) => match header.prev_header {
            Some(prev) if n > 0 => seq![header] + walk_back(index, prev, (n - 1) as nat),
            _ => seq![header],
        },
        None => Seq::empty(),
    }
}

/// Builds the index of the candidates by hash.
fn index_by_hash(headers: &Vec<HeaderHashed>) -> (index: HashMap<HeaderHash, HeaderHashed>)
    ensures
        index@ == hash_index(headers@),
{
    let mut index: HashMap<HeaderHash, HeaderHashed> = HashMap::new();
    let mut i: usize = 0;
    while i < headers.len()
        invariant
            i <= headers.len(),
            index@ == hash_index(headers@.take(i as int)),
        decreases headers.len() - i,
    {
        let header = headers[i];
        proof {
            assert(headers@.take(i + 1).drop_last() == headers@.take(i as int));
        }
        index.insert(header.hash, header);
        i += 1;
    }
    assert(headers@.take(i as int) == headers@);
    index
}

} // verus!
