//! Search for a byte pattern with wildcards.
use vstd::prelude::*;

verus! {

/// What a search over a byte sequence found.
#[derive(Debug, PartialEq, Eq)]
pub struct PatternSearch {
    /// How many offsets match.
    pub matches: usize,
    /// The offset that matches, where there is exactly one.
    pub unique_offset: Option<usize>,
}

/// Whether `data` agrees with `pattern` from `offset` on; a `None` stands for any byte.
pub open spec fn matches_at(data: Seq<u8>, pattern: Seq<Option<u8>>, offset: int) -> bool {
    forall|i: int|
        0 <= i < pattern.len() ==> (#[trigger] pattern[i] matches Some(byte) ==> data[offset + i]
            == byte)
}

/// Every offset at which the whole pattern lies inside `data` and matches.
pub open spec fn match_offsets(data: Seq<u8>, pattern: Seq<Option<u8>>) -> Set<int> {
    Set::new(
        |offset: int|
            0 <= offset && offset + pattern.len() <= data.len() && matches_at(
                data,
                pattern,
                offset,
            ),
    )
}

spec fn match_offsets_below(data: Seq<u8>, pattern: Seq<Option<u8>>, end: int) -> Set<int> {
    match_offsets(data, pattern).filter(|offset: int| offset < end)
}

/// What the count of matches and the unique offset have to be.
pub open spec fn search_result(
    data: Seq<u8>,
    pattern: Seq<Option<u8>>,
    matches: usize,
    unique_offset: Option<usize>,
) -> bool {
    let offsets = match_offsets(data, pattern);
    &&& offsets.finite()
    &&& matches == offsets.len()
    &&& unique_offset is Some <==> matches == 1
    &&& unique_offset matches Some(offset) ==> offsets == set![offset as int]
}

proof fn lemma_offsets_step(data: Seq<u8>, pattern: Seq<Option<u8>>, end: int)
    requires
        0 <= end,
        match_offsets_below(data, pattern, end).finite(),
    ensures
        match_offsets_below(data, pattern, end + 1) == if end + pattern.len() <= data.len()
            && matches_at(data, pattern, end) {
            match_offsets_below(data, pattern, end).insert(end)
        } else {
            match_offsets_below(data, pattern, end)
        },
        match_offsets_below(data, pattern, end + 1).finite(),
{
    let before = match_offsets_below(data, pattern, end);
    let after = match_offsets_below(data, pattern, end + 1);
    if end + pattern.len() <= data.len() && matches_at(data, pattern, end) {
        assert(after =~= before.insert(end));
    } else {
        assert(after =~= before);
    }
}

/// Law: a search that reports one match reports the only offset at which the pattern matches.
pub proof fn unique_match_is_the_only_match(
    data: Seq<u8>,
    pattern: Seq<Option<u8>>,
    matches: usize,
    offset: usize,
    other: int,
)
    requires
        search_result(data, pattern, matches, Some(offset)),
        0 <= other,
        other + pattern.len() <= data.len(),
        matches_at(data, pattern, other),
    ensures
        other == offset,
{
    assert(match_offsets(data, pattern).contains(other));
}

/// Law: a search counts every offset at which the data has each byte that the pattern names, and
/// no other, and tells the offset where it is the only one.
pub proof fn every_match_is_counted(
    data: Seq<u8>,
    pattern: Seq<Option<u8>>,
    matches: usize,
    unique_offset: Option<usize>,
    offsets: Set<int>,
)
    requires
        search_result(data, pattern, matches, unique_offset),
        forall|offset: int|
            offsets.contains(offset) <==> {
                &&& 0 <= offset <= data.len() - pattern.len()
                &&& forall|i: int|
                    0 <= i < pattern.len() && #[trigger] pattern[i] is Some ==> data[offset + i]
                        == pattern[i]->0
            },
    ensures
        offsets.finite(),
        matches == offsets.len(),
        unique_offset is Some <==> offsets.len() == 1,
        unique_offset matches Some(offset) ==> offsets.contains(offset as int),
{
    assert forall|offset: int|
        offsets.contains(offset) == match_offsets(data, pattern).contains(offset) by {}
    assert(offsets =~= match_offsets(data, pattern));
    if let Some(offset) = unique_offset {
        assert(set![offset as int].contains(offset as int));
    }
}

/// Law: of one pattern and one byte sequence there is only one search result.
pub proof fn search_is_determined(
    data: Seq<u8>,
    pattern: Seq<Option<u8>>,
    first: PatternSearch,
    second: PatternSearch,
)
    requires
        search_result(data, pattern, first.matches, first.unique_offset),
        search_result(data, pattern, second.matches, second.unique_offset),
    ensures
        first == second,
{
    if first.unique_offset is Some {
        let a = first.unique_offset->0 as int;
        let b = second.unique_offset->0 as int;
        assert(set![a].contains(a));
        assert(set![b].contains(a));
    }
}

/// Whether `data` is as long as `pattern` and agrees with it.
pub fn bytes_match(data: &[u8], pattern: &[Option<u8>]) -> (r: bool)
    ensures
        r == (data@.len() == pattern@.len() && matches_at(data@, pattern@, 0)),
{
    if data.len() != pattern.len() {
        return false;
    }
    let mut offset: usize = 0;
    while offset < pattern.len()
        invariant
            data@.len() == pattern@.len(),
            0 <= offset <= pattern@.len(),
            forall|i: int|
                0 <= i < offset ==> (#[trigger] pattern@[i] matches Some(byte) ==> data@[0 + i]
                    == byte),
        decreases pattern@.len() - offset,
    {
        if let Some(byte) = pattern[offset] {
            if data[offset] != byte {
                assert(pattern@[offset as int] == Some(byte));
                assert(!matches_at(data@, pattern@, 0));
                return false;
            }
        }
        offset = offset + 1;
    }
    true
}

/// Counts the offsets of `data` at which `pattern` matches and tells the offset of a lone match.
pub fn find_pattern(data: &[u8], pattern: &[Option<u8>]) -> (r: PatternSearch)
    requires
        pattern@.len() > 0,
    ensures
        search_result(data@, pattern@, r.matches, r.unique_offset),
{
    let mut matches: usize = 0;
    let mut unique_offset: Option<usize> = None;
    if data.len() < pattern.len() {
        assert(match_offsets(data@, pattern@) =~= Set::empty());
        return PatternSearch { matches, unique_offset };
    }
    let last: usize = data.len() - pattern.len();
    let mut offset: usize = 0;
    assert(match_offsets_below(data@, pattern@, 0) =~= Set::empty());
    while offset <= last
        invariant
            pattern@.len() > 0,
            last + pattern.len() == data.len(),
            0 <= offset <= last + 1,
            matches <= offset,
            match_offsets_below(data@, pattern@, offset as int).finite(),
            matches == match_offsets_below(data@, pattern@, offset as int).len(),
            unique_offset is Some <==> matches == 1,
            unique_offset matches Some(found) ==> match_offsets_below(
                data@,
                pattern@,
                offset as int,
            ) == set![found as int],
        decreases last + 1 - offset,
    {
        let window: &[u8] = &data[offset..offset + pattern.len()];
        let hit: bool = bytes_match(window, pattern);
        proof {
            lemma_offsets_step(data@, pattern@, offset as int);
            if hit {
                assert forall|i: int|
                    0 <= i < pattern@.len() implies (#[trigger] pattern@[i] matches Some(byte)
                    ==> data@[offset + i] == byte) by {
                    assert(window@[0 + i] == data@[offset + i]);
                }
            } else if matches_at(data@, pattern@, offset as int) {
                assert forall|i: int|
                    0 <= i < pattern@.len() implies (#[trigger] pattern@[i] matches Some(byte)
                    ==> window@[0 + i] == byte) by {
                    assert(window@[0 + i] == data@[offset + i]);
                }
            }
        }
        if hit {
            proof {
                let before = match_offsets_below(data@, pattern@, offset as int);
                if matches == 0 {
                    assert(before =~= Set::empty());
                    assert(before.insert(offset as int) =~= set![offset as int]);
                }
            }
            matches = matches + 1;
            unique_offset =
            if matches == 1 {
                Some(offset)
            } else {
                None
            };
        }
        offset = offset + 1;
    }
    assert(match_offsets(data@, pattern@) =~= match_offsets_below(data@, pattern@, last + 1));
    PatternSearch { matches, unique_offset }
}

} // verus!
