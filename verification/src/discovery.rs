//! Finding the segment files of a log in its directory.
use vstd::prelude::*;

use crate::names::{parse_segment_name, SegmentName};

verus! {

/// A segment file found in the log's directory.
#[derive(Debug)]
pub struct DiscoveredFile {
    /// The id in the file's name.
    pub entry_id: u64,
    /// The file's name.
    pub name: String,
    /// Whether the name says that the segment has been checkpointed.
    pub has_checkpointed: bool,
}

/// The segment files among the files called `names`, in the order of `names`.
pub open spec fn segments_among(names: Seq<String>) -> Seq<DiscoveredFile>
    decreases names.len(),
{
    if names.len() == 0 {
        Seq::empty()
    } else {
        let before = segments_among(names.drop_last());
        match crate::names::segment_name_in(names.last()@) {
            Some(parsed) => before.push(
                DiscoveredFile {
                    entry_id: parsed.entry_id,
                    name: names.last(),
                    has_checkpointed: parsed.has_checkpointed,
                },
            ),
            None => before,
        }
    }
}

/// Whether the ids in `files` never decrease.
pub open spec fn in_id_order(files: Seq<DiscoveredFile>) -> bool {
    forall|i: int, j: int|
        0 <= i < j < files.len() ==> (#[trigger] files[i]).entry_id <= (#[trigger] files[j]).entry_id
}

/// Those of `files` that have the id `id`, in their order.
pub open spec fn with_id(files: Seq<DiscoveredFile>, id: u64) -> Seq<DiscoveredFile> {
    files.filter(|file: DiscoveredFile| file.entry_id == id)
}

/// Whether `sorted` holds the elements of `files` by increasing id, those of
/// equal id in the order they had.
pub open spec fn is_stable_sort_of(sorted: Seq<DiscoveredFile>, files: Seq<DiscoveredFile>) -> bool {
    &&& in_id_order(sorted)
    &&& forall|id: u64| #[trigger] with_id(sorted, id) == with_id(files, id)
}

/// Inserting a file behind all those of no larger id keeps the order.
proof fn lemma_insert(
    sorted: Seq<DiscoveredFile>,
    files: Seq<DiscoveredFile>,
    at: int,
    file: DiscoveredFile,
)
    requires
        is_stable_sort_of(sorted, files),
        0 <= at <= sorted.len(),
        forall|i: int| 0 <= i < at ==> (#[trigger] sorted[i]).entry_id <= file.entry_id,
        forall|i: int| at <= i < sorted.len() ==> (#[trigger] sorted[i]).entry_id > file.entry_id,
    ensures
        is_stable_sort_of(sorted.insert(at, file), files.push(file)),
{
    let inserted = sorted.insert(at, file);
    let front = sorted.subrange(0, at);
    let back = sorted.subrange(at, sorted.len() as int);
    assert(sorted =~= front + back);
    assert(inserted =~= front.push(file) + back);
    assert forall|id: u64| #[trigger] with_id(inserted, id) == with_id(files.push(file), id) by {
        let has_id = |f: DiscoveredFile| f.entry_id == id;
        reveal(Seq::filter);
        assert(with_id(sorted, id) == with_id(files, id));
        Seq::filter_distributes_over_add(front, back, has_id);
        Seq::filter_distributes_over_add(front.push(file), back, has_id);
        assert(front.push(file).drop_last() =~= front);
        assert(files.push(file).drop_last() =~= files);
        if id == file.entry_id {
            assert forall|i: int| 0 <= i < back.len() implies !has_id(#[trigger] back[i]) by {
                assert(back[i] == sorted[at + i]);
            }
            back.lemma_all_neg_filter_empty(has_id);
            assert(front.filter(has_id) + back.filter(has_id) =~= front.filter(has_id));
            assert(front.filter(has_id).push(file) + back.filter(has_id) =~= front.filter(has_id).push(
                file,
            ));
        }
    }
}

/// Finds the segment files among the files called `names`, which may be listed
/// in any order, and orders them by their ids.
pub fn discover_segments(names: &Vec<String>) -> (discovered: Vec<DiscoveredFile>)
    ensures
        is_stable_sort_of(discovered@, segments_among(names@)),
        forall|i: int, j: int|
            0 <= i < j < discovered@.len() ==> (#[trigger] discovered@[i]).entry_id <= (
            #[trigger] discovered@[j]).entry_id,
{
    let mut discovered: Vec<DiscoveredFile> = Vec::new();
    let mut i: usize = 0;
    proof {
        assert(names@.subrange(0, 0) =~= Seq::<String>::empty());
    }
    while i < names.len()
        invariant
            i <= names@.len(),
            is_stable_sort_of(discovered@, segments_among(names@.subrange(0, i as int))),
        decreases names@.len() - i,
    {
        proof {
            assert(names@.subrange(0, i + 1).drop_last() =~= names@.subrange(0, i as int));
        }
        let parsed: Option<SegmentName> = parse_segment_name(names[i].as_str());
        match parsed {
            Some(parsed) => {
                let file = DiscoveredFile {
                    entry_id: parsed.entry_id,
                    name: names[i].clone(),
                    has_checkpointed: parsed.has_checkpointed,
                };
                let mut at: usize = discovered.len();
                while at > 0 && discovered[at - 1].entry_id > file.entry_id
                    invariant
                        at <= discovered@.len(),
                        forall|j: int|
                            at <= j < discovered@.len() ==> (#[trigger] discovered@[j]).entry_id
                                > file.entry_id,
                    decreases at,
                {
                    at -= 1;
                }
                proof {
                    lemma_insert(
                        discovered@,
                        segments_among(names@.subrange(0, i as int)),
                        at as int,
                        file,
                    );
                }
                discovered.insert(at, file);
            },
            None => {},
        }
        i += 1;
    }
    proof {
        assert(names@.subrange(0, i as int) =~= names@);
    }
    discovered
}

proof fn lemma_with_id_nonempty(files: Seq<DiscoveredFile>, i: int)
    requires
        0 <= i < files.len(),
    ensures
        with_id(files, files[i].entry_id).len() > 0,
{
    let id = files[i].entry_id;
    let has_id = |file: DiscoveredFile| file.entry_id == id;
    files.lemma_filter_contains(has_id, i);
}

proof fn lemma_with_id_has_member(files: Seq<DiscoveredFile>, id: u64) -> (i: int)
    requires
        with_id(files, id).len() > 0,
    ensures
        0 <= i < files.len(),
        files[i].entry_id == id,
    decreases files.len(),
{
    reveal(Seq::filter);
    if files.last().entry_id == id {
        files.len() - 1
    } else {
        lemma_with_id_has_member(files.drop_last(), id)
    }
}

proof fn lemma_same_order(a: Seq<DiscoveredFile>, b: Seq<DiscoveredFile>)
    requires
        in_id_order(a),
        is_stable_sort_of(b, a),
    ensures
        a == b,
    decreases a.len(),
{
    if a.len() == 0 {
        if b.len() > 0 {
            lemma_with_id_nonempty(b, 0);
            let i = lemma_with_id_has_member(a, b[0].entry_id);
        }
        assert(a =~= b);
    } else {
        let id = a.last().entry_id;
        lemma_with_id_nonempty(a, a.len() - 1);
        let i = lemma_with_id_has_member(b, id);
        let j = {
            lemma_with_id_nonempty(b, b.len() - 1);
            assert(with_id(b, b.last().entry_id) == with_id(a, b.last().entry_id));
            lemma_with_id_has_member(a, b.last().entry_id)
        };
        assert(a[j].entry_id <= id);
        assert(b[i].entry_id <= b.last().entry_id);
        assert(b.last().entry_id == id);
        let front_a = a.drop_last();
        let front_b = b.drop_last();
        assert(with_id(b, id) == with_id(a, id));
        assert(with_id(a, id) == with_id(front_a, id).push(a.last())) by {
            reveal(Seq::filter);
        }
        assert(with_id(b, id) == with_id(front_b, id).push(b.last())) by {
            reveal(Seq::filter);
        }
        assert(with_id(a, id).last() == a.last());
        assert(with_id(b, id).last() == b.last());
        assert forall|other: u64| #[trigger] with_id(front_b, other) == with_id(front_a, other) by {
            assert(with_id(b, other) == with_id(a, other));
            if other == id {
                assert(with_id(a, id).drop_last() =~= with_id(front_a, id));
                assert(with_id(b, id).drop_last() =~= with_id(front_b, id));
            } else {
                reveal(Seq::filter);
            }
        }
        lemma_same_order(front_a, front_b);
        assert(a =~= front_a.push(a.last()));
        assert(b =~= front_b.push(b.last()));
    }
}

/// There is one way only to order files by id that keeps those of equal id in
/// their order.
pub proof fn law_order_is_unique(
    a: Seq<DiscoveredFile>,
    b: Seq<DiscoveredFile>,
    files: Seq<DiscoveredFile>,
)
    requires
        is_stable_sort_of(a, files),
        is_stable_sort_of(b, files),
    ensures
        a == b,
{
    assert forall|id: u64| #[trigger] with_id(b, id) == with_id(a, id) by {
        assert(with_id(a, id) == with_id(files, id));
    }
    lemma_same_order(a, b);
}

proof fn lemma_count_with_id(files: Seq<DiscoveredFile>, file: DiscoveredFile)
    ensures
        files.to_multiset().count(file) == with_id(files, file.entry_id).to_multiset().count(file),
    decreases files.len(),
{
    let id = file.entry_id;
    reveal(Seq::filter);
    if files.len() == 0 {
        assert(with_id(files, id) =~= files);
    } else {
        let front = files.drop_last();
        lemma_count_with_id(front, file);
        files.to_multiset_ensures();
        front.to_multiset_ensures();
        with_id(front, id).to_multiset_ensures();
        assert(files =~= front.push(files.last()));
        if files.last().entry_id == id {
            assert(with_id(files, id) == with_id(front, id).push(files.last()));
        }
    }
}

/// Ordering files loses none, adds none and doubles none.
pub proof fn law_ordering_keeps_every_file(
    sorted: Seq<DiscoveredFile>,
    files: Seq<DiscoveredFile>,
)
    requires
        is_stable_sort_of(sorted, files),
    ensures
        sorted.to_multiset() == files.to_multiset(),
        sorted.len() == files.len(),
{
    assert forall|file: DiscoveredFile|
        sorted.to_multiset().count(file) == files.to_multiset().count(file) by {
        lemma_count_with_id(sorted, file);
        lemma_count_with_id(files, file);
        assert(with_id(sorted, file.entry_id) == with_id(files, file.entry_id));
    }
    assert(sorted.to_multiset() =~= files.to_multiset());
    sorted.to_multiset_ensures();
    files.to_multiset_ensures();
}

/// Whether `file` is what its name says.
pub open spec fn matches_its_name(file: DiscoveredFile) -> bool {
    crate::names::segment_name_in(file.name@) == Some(
        SegmentName { entry_id: file.entry_id, has_checkpointed: file.has_checkpointed },
    )
}

proof fn lemma_segments_match_names(names: Seq<String>)
    ensures
        forall|i: int|
            0 <= i < segments_among(names).len() ==> matches_its_name(
                #[trigger] segments_among(names)[i],
            ) && names.contains(segments_among(names)[i].name),
    decreases names.len(),
{
    if names.len() > 0 {
        let front = names.drop_last();
        let before = segments_among(front);
        lemma_segments_match_names(front);
        assert forall|i: int| 0 <= i < segments_among(names).len() implies matches_its_name(
            #[trigger] segments_among(names)[i],
        ) && names.contains(segments_among(names)[i].name) by {
            if i < before.len() {
                assert(segments_among(names)[i] == before[i]);
                let k = choose|k: int| 0 <= k < front.len() && front[k] == before[i].name;
                assert(names[k] == before[i].name);
            } else {
                assert(names[names.len() - 1] == segments_among(names)[i].name);
            }
        }
    }
}

proof fn lemma_segment_is_found(names: Seq<String>, k: int) -> (i: int)
    requires
        0 <= k < names.len(),
        crate::names::segment_name_in(names[k]@) is Some,
    ensures
        0 <= i < segments_among(names).len(),
        segments_among(names)[i].name == names[k],
    decreases names.len(),
{
    if k == names.len() - 1 {
        segments_among(names).len() - 1
    } else {
        let i = lemma_segment_is_found(names.drop_last(), k);
        assert(segments_among(names)[i] == segments_among(names.drop_last())[i]);
        i
    }
}

/// The files found in a directory are segments that it lists, as their names say,
/// and every segment that it lists is found.
pub proof fn law_exactly_the_segments_are_found(names: Seq<String>, found: Seq<DiscoveredFile>)
    requires
        is_stable_sort_of(found, segments_among(names)),
    ensures
        forall|i: int|
            0 <= i < found.len() ==> matches_its_name(#[trigger] found[i]) && names.contains(
                found[i].name,
            ),
        forall|k: int|
            0 <= k < names.len() && crate::names::segment_name_in((#[trigger] names[k])@) is Some
                ==> exists|i: int| 0 <= i < found.len() && (#[trigger] found[i]).name == names[k],
{
    let files = segments_among(names);
    law_ordering_keeps_every_file(found, files);
    found.to_multiset_ensures();
    files.to_multiset_ensures();
    lemma_segments_match_names(names);
    assert forall|i: int| 0 <= i < found.len() implies matches_its_name(#[trigger] found[i])
        && names.contains(found[i].name) by {
        assert(found.contains(found[i]));
        assert(found.to_multiset().count(found[i]) > 0);
        assert(files.contains(found[i]));
    }
    assert forall|k: int|
        0 <= k < names.len() && crate::names::segment_name_in((#[trigger] names[k])@) is Some implies
        exists|i: int| 0 <= i < found.len() && (#[trigger] found[i]).name == names[k] by {
        let j = lemma_segment_is_found(names, k);
        assert(files.contains(files[j]));
        assert(files.to_multiset().count(files[j]) > 0);
        assert(found.contains(files[j]));
    }
}

/// The files that are found come by increasing id.
pub proof fn law_files_are_found_by_increasing_id(
    names: Seq<String>,
    found: Seq<DiscoveredFile>,
    i: int,
    j: int,
)
    requires
        is_stable_sort_of(found, segments_among(names)),
        0 <= i < j < found.len(),
    ensures
        found[i].entry_id <= found[j].entry_id,
{
}

proof fn lemma_names_of_segments_with_id(names: Seq<String>, id: u64)
    ensures
        segments_among(names).filter(|file: DiscoveredFile| file.entry_id == id).map_values(
            |file: DiscoveredFile| file.name,
        ) == names.filter(
            |name: String|
                crate::names::segment_name_in(name@) is Some && crate::names::segment_name_in(
                    name@,
                )->0.entry_id == id,
        ),
    decreases names.len(),
{
    reveal(Seq::filter);
    let has_id = |file: DiscoveredFile| file.entry_id == id;
    let name_of = |file: DiscoveredFile| file.name;
    let names_id = |name: String|
        crate::names::segment_name_in(name@) is Some && crate::names::segment_name_in(
            name@,
        )->0.entry_id == id;
    let found = segments_among(names);
    if names.len() == 0 {
        assert(found.filter(has_id).map_values(name_of) =~= names.filter(names_id));
    } else {
        let front = names.drop_last();
        let before = segments_among(front);
        lemma_names_of_segments_with_id(front, id);
        if crate::names::segment_name_in(names.last()@) is Some {
            assert(found.drop_last() =~= before);
            if found.last().entry_id == id {
                assert(found.filter(has_id) =~= before.filter(has_id).push(found.last()));
                assert(found.filter(has_id).map_values(name_of) =~= before.filter(
                    has_id,
                ).map_values(name_of).push(names.last()));
            }
        }
        assert(found.filter(has_id).map_values(name_of) =~= names.filter(names_id));
    }
}

/// Of each id, the files that are found are exactly those listed under a name
/// with that id, each as often and in the order in which they are listed.
pub proof fn law_files_of_equal_id_are_found_as_listed(
    names: Seq<String>,
    found: Seq<DiscoveredFile>,
    id: u64,
)
    requires
        is_stable_sort_of(found, segments_among(names)),
    ensures
        found.filter(|file: DiscoveredFile| file.entry_id == id).map_values(
            |file: DiscoveredFile| file.name,
        ) == names.filter(
            |name: String|
                crate::names::segment_name_in(name@) is Some && crate::names::segment_name_in(
                    name@,
                )->0.entry_id == id,
        ),
{
    assert(with_id(found, id) == with_id(segments_among(names), id));
    lemma_names_of_segments_with_id(names, id);
}

/// Each file that is found is listed, has the id in its name, and has been
/// checkpointed exactly if its name says so.
pub proof fn law_files_are_found_as_named(names: Seq<String>, found: Seq<DiscoveredFile>, i: int)
    requires
        is_stable_sort_of(found, segments_among(names)),
        0 <= i < found.len(),
    ensures
        names.contains(found[i].name),
        crate::names::segment_name_in(found[i].name@) == Some(
            SegmentName {
                entry_id: found[i].entry_id,
                has_checkpointed: found[i].has_checkpointed,
            },
        ),
{
    law_exactly_the_segments_are_found(names, found);
    assert(matches_its_name(found[i]));
}

} // verus!
