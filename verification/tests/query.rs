use chain_runtime::header::{
    AppEntryType, Element, EntryType, EntryVisibility, HeaderHashed, HeaderType,
};
use chain_runtime::query::{ChainQueryFilter, ChainQueryFilterRange};
use std::collections::HashSet;

/// A chain of seven headers with a fork at sequence 3: the fifth header is a
/// sibling of the fourth, and the chain goes on from the fourth.
fn fixtures() -> [HeaderHashed; 7] {
    let entry_type_1 = EntryType::App(AppEntryType {
        id: 3,
        zome_id: 1,
        visibility: EntryVisibility::Public,
    });
    let entry_type_2 = EntryType::AgentPubKey;
    let entry_hash_0 = 9000;

    let hh0 = HeaderHashed {
        hash: 100,
        header_seq: 0,
        prev_header: Some(77),
        header_type: HeaderType::Create,
        entry_type: Some(entry_type_1),
        entry_hash: Some(entry_hash_0),
    };
    let hh1 = HeaderHashed {
        hash: 101,
        header_seq: 1,
        prev_header: Some(*hh0.as_hash()),
        header_type: HeaderType::Update,
        entry_type: Some(entry_type_2),
        entry_hash: Some(9001),
    };
    let hh2 = HeaderHashed {
        hash: 102,
        header_seq: 2,
        prev_header: Some(*hh1.as_hash()),
        header_type: HeaderType::CreateLink,
        entry_type: None,
        entry_hash: None,
    };
    let hh3 = HeaderHashed {
        hash: 103,
        header_seq: 3,
        prev_header: Some(*hh2.as_hash()),
        header_type: HeaderType::Create,
        entry_type: Some(entry_type_2),
        entry_hash: Some(9003),
    };
    let hh3a = HeaderHashed {
        hash: 1030,
        header_seq: 3,
        prev_header: Some(*hh2.as_hash()),
        header_type: HeaderType::Create,
        entry_type: Some(entry_type_1),
        entry_hash: Some(9030),
    };
    let hh4 = HeaderHashed {
        hash: 104,
        header_seq: 4,
        prev_header: Some(*hh3.as_hash()),
        header_type: HeaderType::Update,
        entry_type: Some(entry_type_1),
        entry_hash: Some(entry_hash_0),
    };
    let hh5 = HeaderHashed {
        hash: 105,
        header_seq: 5,
        prev_header: Some(*hh4.as_hash()),
        header_type: HeaderType::CreateLink,
        entry_type: None,
        entry_hash: None,
    };
    [hh0, hh1, hh2, hh3, hh3a, hh4, hh5]
}

fn map_query(query: &ChainQueryFilter, headers: &[HeaderHashed]) -> Vec<bool> {
    let filtered = query.filter_headers(headers.to_vec());
    headers
        .iter()
        .map(|h| filtered.contains(h))
        .collect::<Vec<_>>()
}

fn check_range(sequence_range: ChainQueryFilterRange, expected: Vec<bool>, name: &str) {
    let headers = fixtures();
    assert_eq!(
        (
            map_query(
                &ChainQueryFilter::new().sequence_range(sequence_range),
                &headers,
            ),
            name
        ),
        (expected, name),
    );
}

#[test]
fn filter_by_entry_type() {
    let headers = fixtures();

    let query_1 = ChainQueryFilter::new().entry_type(headers[0].entry_type().unwrap().to_owned());
    let query_2 = ChainQueryFilter::new().entry_type(headers[1].entry_type().unwrap().to_owned());

    assert_eq!(
        map_query(&query_1, &headers),
        [true, false, false, false, true, true, false].to_vec()
    );
    assert_eq!(
        map_query(&query_2, &headers),
        [false, true, false, true, false, false, false].to_vec()
    );
}

#[test]
fn filter_by_entry_hash() {
    let headers = fixtures();

    let query = ChainQueryFilter::new().entry_hashes(
        vec![
            headers[3].entry_hash().unwrap().clone(),
            // headers[5] has same entry hash as headers[0]
            headers[5].entry_hash().unwrap().clone(),
        ]
        .into_iter()
        .collect(),
    );

    assert_eq!(
        map_query(&query, &headers),
        vec![true, false, false, true, false, true, false]
    );
}

#[test]
fn filter_by_header_type() {
    let headers = fixtures();

    let query_1 = ChainQueryFilter::new().header_type(headers[0].header_type());
    let query_2 = ChainQueryFilter::new().header_type(headers[1].header_type());
    let query_3 = ChainQueryFilter::new().header_type(headers[2].header_type());

    assert_eq!(
        map_query(&query_1, &headers),
        [true, false, false, true, true, false, false].to_vec()
    );
    assert_eq!(
        map_query(&query_2, &headers),
        [false, true, false, false, false, true, false].to_vec()
    );
    assert_eq!(
        map_query(&query_3, &headers),
        [false, false, true, false, false, false, true].to_vec()
    );
}

#[test]
fn filter_by_chain_sequence() {
    let headers = fixtures();

    check_range(
        ChainQueryFilterRange::Unbounded,
        vec![true, true, true, true, true, true, true],
        "unbounded",
    );
    check_range(
        ChainQueryFilterRange::HeaderSeqRange(0, 0),
        vec![true, false, false, false, false, false, false],
        "first only",
    );
    check_range(
        ChainQueryFilterRange::HeaderSeqRange(0, 1),
        vec![true, true, false, false, false, false, false],
        "several from start",
    );
    check_range(
        ChainQueryFilterRange::HeaderSeqRange(1, 2),
        vec![false, true, true, false, false, false, false],
        "several not start",
    );
    check_range(
        ChainQueryFilterRange::HeaderSeqRange(2, 999),
        vec![false, false, true, true, true, true, true],
        "exceeds chain length, not start",
    );
    check_range(
        ChainQueryFilterRange::HeaderHashRange(
            headers[2].as_hash().clone(),
            headers[6].as_hash().clone(),
        ),
        vec![false, false, true, true, false, true, true],
        "hash bounded not 3a",
    );
    check_range(
        ChainQueryFilterRange::HeaderHashRange(
            headers[2].as_hash().clone(),
            headers[4].as_hash().clone(),
        ),
        vec![false, false, true, false, true, false, false],
        "hash bounded 3a",
    );
    check_range(
        ChainQueryFilterRange::HeaderHashTerminated(headers[2].as_hash().clone(), 1),
        vec![false, true, true, false, false, false, false],
        "hash terminated not start",
    );
    check_range(
        ChainQueryFilterRange::HeaderHashTerminated(headers[2].as_hash().clone(), 0),
        vec![false, false, true, false, false, false, false],
        "hash terminated not start 0 prior",
    );
    check_range(
        ChainQueryFilterRange::HeaderHashTerminated(headers[5].as_hash().clone(), 7),
        vec![true, true, true, true, false, true, false],
        "hash terminated main chain before chain start",
    );
    check_range(
        ChainQueryFilterRange::HeaderHashTerminated(headers[4].as_hash().clone(), 7),
        vec![true, true, true, false, true, false, false],
        "hash terminated 3a chain before chain start",
    );
}

#[test]
fn filter_by_multi() {
    let headers = fixtures();

    assert_eq!(
        map_query(
            &ChainQueryFilter::new()
                .header_type(headers[0].header_type())
                .entry_type(headers[0].entry_type().unwrap().clone())
                .sequence_range(ChainQueryFilterRange::HeaderSeqRange(0, 0)),
            &headers
        ),
        [true, false, false, false, false, false, false].to_vec()
    );

    assert_eq!(
        map_query(
            &ChainQueryFilter::new()
                .header_type(headers[1].header_type())
                .entry_type(headers[0].entry_type().unwrap().clone())
                .sequence_range(ChainQueryFilterRange::HeaderSeqRange(0, 999)),
            &headers
        ),
        [false, false, false, false, false, true, false].to_vec()
    );

    assert_eq!(
        map_query(
            &ChainQueryFilter::new()
                .entry_type(headers[0].entry_type().unwrap().clone())
                .sequence_range(ChainQueryFilterRange::HeaderSeqRange(0, 999)),
            &headers
        ),
        [true, false, false, false, true, true, false].to_vec()
    );
}

#[test]
fn new_filter_sets_nothing() {
    let filter = ChainQueryFilter::new();
    assert_eq!(filter.sequence_range, ChainQueryFilterRange::Unbounded);
    assert_eq!(filter.entry_type, None);
    assert_eq!(filter.entry_hashes, None);
    assert_eq!(filter.header_type, None);
    assert!(!filter.include_entries);
    assert_eq!(filter, ChainQueryFilter::default());
    assert_eq!(
        ChainQueryFilterRange::default(),
        ChainQueryFilterRange::Unbounded
    );
}

#[test]
fn builders_set_one_field_each() {
    let hashes: HashSet<u64> = vec![1, 2].into_iter().collect();
    let filter = ChainQueryFilter::new()
        .sequence_range(ChainQueryFilterRange::HeaderSeqRange(3, 4))
        .entry_type(EntryType::CapGrant)
        .entry_hashes(hashes.clone())
        .header_type(HeaderType::Delete)
        .include_entries(true);
    assert_eq!(
        filter.sequence_range,
        ChainQueryFilterRange::HeaderSeqRange(3, 4)
    );
    assert_eq!(filter.entry_type, Some(EntryType::CapGrant));
    assert_eq!(filter.entry_hashes, Some(hashes));
    assert_eq!(filter.header_type, Some(HeaderType::Delete));
    assert!(filter.include_entries);
}

#[test]
fn unbounded_without_predicates_returns_the_input() {
    let headers = fixtures().to_vec();
    assert_eq!(
        ChainQueryFilter::new().filter_headers(headers.clone()),
        headers
    );
    assert_eq!(
        ChainQueryFilter::new().filter_headers(Vec::new()),
        Vec::new()
    );
}

#[test]
fn answer_is_drawn_from_the_candidates() {
    let headers = fixtures().to_vec();
    let filters = vec![
        ChainQueryFilter::new().sequence_range(ChainQueryFilterRange::HeaderSeqRange(1, 3)),
        ChainQueryFilter::new().sequence_range(ChainQueryFilterRange::HeaderHashRange(100, 105)),
        ChainQueryFilter::new()
            .sequence_range(ChainQueryFilterRange::HeaderHashTerminated(1030, 2))
            .header_type(HeaderType::Create),
    ];
    for filter in filters {
        let answer = filter.filter_headers(headers.clone());
        assert!(answer.len() <= headers.len());
        for header in answer {
            assert!(headers.contains(&header));
        }
    }
}

#[test]
fn hash_range_walks_back_from_the_end() {
    let headers = fixtures();
    let range = ChainQueryFilter::new()
        .sequence_range(ChainQueryFilterRange::HeaderHashRange(102, 104));
    assert_eq!(
        range.disambiguate_forks(headers.to_vec()),
        vec![headers[5], headers[3], headers[2]]
    );
}

#[test]
fn hash_range_stops_where_a_predecessor_is_missing() {
    let headers = fixtures();
    let candidates = vec![headers[6], headers[5], headers[2], headers[1]];
    let range = ChainQueryFilter::new()
        .sequence_range(ChainQueryFilterRange::HeaderHashRange(101, 105));
    assert_eq!(
        range.disambiguate_forks(candidates),
        vec![headers[6], headers[5]]
    );
}

#[test]
fn hash_range_with_unknown_end_is_empty() {
    let headers = fixtures();
    let range = ChainQueryFilter::new()
        .sequence_range(ChainQueryFilterRange::HeaderHashRange(100, 4242));
    assert_eq!(range.disambiguate_forks(headers.to_vec()), Vec::new());
    let counted = ChainQueryFilter::new()
        .sequence_range(ChainQueryFilterRange::HeaderHashTerminated(4242, 3));
    assert_eq!(counted.disambiguate_forks(headers.to_vec()), Vec::new());
}

#[test]
fn hash_range_ends_on_a_cycle() {
    let a = HeaderHashed {
        hash: 1,
        header_seq: 0,
        prev_header: Some(2),
        header_type: HeaderType::Create,
        entry_type: None,
        entry_hash: None,
    };
    let b = HeaderHashed {
        hash: 2,
        header_seq: 1,
        prev_header: Some(1),
        header_type: HeaderType::Create,
        entry_type: None,
        entry_hash: None,
    };
    let range = ChainQueryFilter::new()
        .sequence_range(ChainQueryFilterRange::HeaderHashRange(99, 2));
    assert_eq!(range.disambiguate_forks(vec![a, b]), vec![b, a]);
    let counted = ChainQueryFilter::new()
        .sequence_range(ChainQueryFilterRange::HeaderHashTerminated(2, 10));
    assert_eq!(counted.disambiguate_forks(vec![a, b]), vec![b, a]);
}

#[test]
fn hash_terminated_with_no_ancestors_is_the_end_alone() {
    let headers = fixtures();
    for header in headers.iter() {
        let filter = ChainQueryFilter::new()
            .sequence_range(ChainQueryFilterRange::HeaderHashTerminated(header.hash, 0));
        assert_eq!(filter.filter_headers(headers.to_vec()), vec![*header]);
    }
}

#[test]
fn hash_terminated_counts_the_ancestors() {
    let headers = fixtures();
    let filter = ChainQueryFilter::new()
        .sequence_range(ChainQueryFilterRange::HeaderHashTerminated(105, 2));
    assert_eq!(
        filter.disambiguate_forks(headers.to_vec()),
        vec![headers[6], headers[5], headers[3]]
    );
    let all = ChainQueryFilter::new()
        .sequence_range(ChainQueryFilterRange::HeaderHashTerminated(105, u32::MAX));
    assert_eq!(
        all.disambiguate_forks(headers.to_vec()),
        vec![headers[6], headers[5], headers[3], headers[2], headers[1], headers[0]]
    );
}

#[test]
fn the_later_of_two_candidates_with_one_hash_is_indexed() {
    let headers = fixtures();
    let mut twin = headers[2];
    twin.prev_header = None;
    let candidates = vec![headers[0], headers[1], headers[2], twin];
    let filter = ChainQueryFilter::new()
        .sequence_range(ChainQueryFilterRange::HeaderHashTerminated(102, 5));
    assert_eq!(filter.disambiguate_forks(candidates), vec![twin]);
}

#[test]
fn sequence_range_keeps_the_order_of_the_candidates() {
    let headers = fixtures();
    let candidates = vec![headers[6], headers[4], headers[0], headers[3]];
    let filter = ChainQueryFilter::new()
        .sequence_range(ChainQueryFilterRange::HeaderSeqRange(3, 5));
    assert_eq!(
        filter.disambiguate_forks(candidates),
        vec![headers[6], headers[4], headers[3]]
    );
    let empty = ChainQueryFilter::new()
        .sequence_range(ChainQueryFilterRange::HeaderSeqRange(4, 3));
    assert_eq!(empty.disambiguate_forks(headers.to_vec()), Vec::new());
}

#[test]
fn predicates_narrow_what_the_range_selected() {
    let headers = fixtures();
    // The walk needs the link headers, which the predicate then removes.
    let filter = ChainQueryFilter::new()
        .sequence_range(ChainQueryFilterRange::HeaderHashRange(100, 105))
        .header_type(HeaderType::Create);
    assert_eq!(
        filter.filter_headers(headers.to_vec()),
        vec![headers[3], headers[0]]
    );
}

#[test]
fn entry_predicates_reject_headers_without_an_entry() {
    let headers = fixtures();
    let none: HashSet<u64> = HashSet::new();
    let filter = ChainQueryFilter::new().entry_hashes(none);
    assert_eq!(filter.filter_headers(headers.to_vec()), Vec::new());
    let cap = ChainQueryFilter::new().entry_type(EntryType::CapClaim);
    assert_eq!(cap.filter_headers(headers.to_vec()), Vec::new());
}

#[test]
fn filter_elements_keeps_elements_by_header() {
    let headers = fixtures();
    let elements: Vec<Element> = headers
        .iter()
        .map(|h| Element::new(*h, h.entry_hash.map(|e| e.to_le_bytes().to_vec())))
        .collect();
    let filter = ChainQueryFilter::new()
        .sequence_range(ChainQueryFilterRange::HeaderHashRange(102, 104))
        .include_entries(true);
    assert_eq!(
        filter.filter_elements(elements.clone()),
        vec![elements[2].clone(), elements[3].clone(), elements[5].clone()]
    );
    assert_eq!(
        ChainQueryFilter::new().filter_elements(elements.clone()),
        elements
    );
    assert_eq!(elements[3].header_hashed(), &headers[3]);
    assert_eq!(elements[2].entry, None);
}

#[test]
fn ranges_over_the_forked_chain() {
    let headers = fixtures();
    let [h0, h1, h2, h3, h3a, h4, h5] = headers;

    // A range of sequence numbers keeps both branches of the fork.
    let by_seq = ChainQueryFilter::new()
        .sequence_range(ChainQueryFilterRange::HeaderSeqRange(2, 999));
    assert_eq!(
        by_seq.filter_headers(headers.to_vec()),
        vec![h2, h3, h3a, h4, h5]
    );

    // A range between two hashes keeps the branch of its end alone.
    let by_hash = ChainQueryFilter::new().sequence_range(
        ChainQueryFilterRange::HeaderHashRange(*h2.as_hash(), *h4.as_hash()),
    );
    let answer = by_hash.filter_headers(headers.to_vec());
    assert_eq!(answer, vec![h4, h3, h2]);
    assert!(!answer.contains(&h3a));

    let terminated = ChainQueryFilter::new()
        .sequence_range(ChainQueryFilterRange::HeaderHashTerminated(*h2.as_hash(), 1));
    assert_eq!(terminated.filter_headers(headers.to_vec()), vec![h2, h1]);
    assert!(!terminated
        .filter_headers(headers.to_vec())
        .contains(&h0));
}

#[test]
fn the_answer_does_not_depend_on_the_order_of_the_candidates() {
    let headers = fixtures();
    let mut shuffled = headers.to_vec();
    shuffled.reverse();
    shuffled.swap(1, 4);
    for range in [
        ChainQueryFilterRange::HeaderHashRange(101, 105),
        ChainQueryFilterRange::HeaderHashRange(102, 1030),
        ChainQueryFilterRange::HeaderHashTerminated(104, 3),
    ] {
        let filter = ChainQueryFilter::new().sequence_range(range);
        assert_eq!(
            filter.filter_headers(shuffled.clone()),
            filter.filter_headers(headers.to_vec())
        );
    }
}

#[test]
fn hash_range_holds_both_of_its_bounds() {
    let headers = fixtures();
    for (start, end) in [(100, 105), (100, 1030), (102, 102), (101, 103)] {
        let filter = ChainQueryFilter::new()
            .sequence_range(ChainQueryFilterRange::HeaderHashRange(start, end));
        let answer = filter.filter_headers(headers.to_vec());
        assert_eq!(answer.first().map(|h| h.hash), Some(end));
        assert_eq!(answer.last().map(|h| h.hash), Some(start));
    }
}
