//! Label/image resolution: which distinct image ids an export's label
//! filter selects. An empty filter selects every image that has at least
//! one annotation; a non-empty filter selects the images having at least
//! one annotation whose label is in the filter. Ids come out in first
//! occurrence order over the annotation sequence — a stable order the
//! split assigner can rely on.

use vstd::prelude::*;
use crate::models::AnnotationRecord;
use crate::strutil::string_eq;

verus! {

/// Whether a label occurs in a filter.
pub open spec fn label_in_filter(filter: Seq<String>, label: Seq<char>) -> bool {
    exists|i: int| 0 <= i < filter.len() && filter[i]@ == label
}

/// Whether an annotation is selected by a filter: an empty filter selects
/// every annotation.
pub open spec fn ann_matches(filter: Seq<String>, ann: AnnotationRecord) -> bool {
    filter.len() == 0 || label_in_filter(filter, ann.label@)
}

/// The distinct image ids with at least one selected annotation, in first
/// occurrence order.
pub open spec fn resolve_spec(filter: Seq<String>, anns: Seq<AnnotationRecord>) -> Seq<u128>
    decreases anns.len(),
{
    if anns.len() == 0 {
        Seq::empty()
    } else {
        let prev = resolve_spec(filter, anns.drop_last());
        if ann_matches(filter, anns.last()) && !prev.contains(anns.last().image_id) {
            prev.push(anns.last().image_id)
        } else {
            prev
        }
    }
}

/// Every resolved id belongs to some selected annotation: with a non-empty
/// filter, every exported image has at least one annotation whose label is
/// in the filter.
pub proof fn lemma_resolve_sound(filter: Seq<String>, anns: Seq<AnnotationRecord>, id: u128)
    requires
        resolve_spec(filter, anns).contains(id),
    ensures
        exists|j: int|
            0 <= j < anns.len() && anns[j].image_id == id && ann_matches(filter, anns[j]),
    decreases anns.len(),
{
    if anns.len() > 0 {
        let prev = resolve_spec(filter, anns.drop_last());
        if prev.contains(id) {
            lemma_resolve_sound(filter, anns.drop_last(), id);
            let j = choose|j: int|
                0 <= j < anns.drop_last().len() && anns.drop_last()[j].image_id == id
                    && ann_matches(filter, anns.drop_last()[j]);
            assert(anns[j] == anns.drop_last()[j]);
        } else {
            assert(resolve_spec(filter, anns) =~= if ann_matches(filter, anns.last())
                && !prev.contains(anns.last().image_id) {
                prev.push(anns.last().image_id)
            } else {
                prev
            });
            assert(anns.last().image_id == id && ann_matches(filter, anns.last()));
            assert(anns[anns.len() - 1] == anns.last());
        }
    }
}

/// Every image with a selected annotation is resolved: nothing the filter
/// matches is dropped.
pub proof fn lemma_resolve_complete(filter: Seq<String>, anns: Seq<AnnotationRecord>, j: int)
    requires
        0 <= j < anns.len(),
        ann_matches(filter, anns[j]),
    ensures
        resolve_spec(filter, anns).contains(anns[j].image_id),
    decreases anns.len(),
{
    let prev = resolve_spec(filter, anns.drop_last());
    if j == anns.len() - 1 {
        if !prev.contains(anns.last().image_id) {
            assert(resolve_spec(filter, anns).last() == anns.last().image_id);
        }
    } else {
        assert(anns.drop_last()[j] == anns[j]);
        lemma_resolve_complete(filter, anns.drop_last(), j);
        let k = choose|k: int| 0 <= k < prev.len() && prev[k] == anns[j].image_id;
        if ann_matches(filter, anns.last()) && !prev.contains(anns.last().image_id) {
            assert(resolve_spec(filter, anns)[k] == anns[j].image_id);
        }
    }
}

/// Resolved ids are distinct.
pub proof fn lemma_resolve_distinct(filter: Seq<String>, anns: Seq<AnnotationRecord>)
    ensures
        forall|i: int, j: int|
            0 <= i < j < resolve_spec(filter, anns).len() ==> resolve_spec(filter, anns)[i]
                != resolve_spec(filter, anns)[j],
    decreases anns.len(),
{
    if anns.len() > 0 {
        lemma_resolve_distinct(filter, anns.drop_last());
        let prev = resolve_spec(filter, anns.drop_last());
        let r = resolve_spec(filter, anns);
        assert forall|i: int, j: int| 0 <= i < j < r.len() implies r[i] != r[j] by {
            if j < prev.len() {
            } else if j == prev.len() && r.len() == prev.len() + 1 {
                assert(r[i] == prev[i]);
                assert(!prev.contains(anns.last().image_id));
                assert(prev[i] != anns.last().image_id);
            }
        }
    }
}

/// Whether `label` holds the same characters as some filter entry.
fn filter_contains(filter: &Vec<String>, label: &String) -> (r: bool)
    ensures
        r == label_in_filter(filter@, label@),
{
    let mut i: usize = 0;
    while i < filter.len()
        invariant
            i <= filter@.len(),
            forall|j: int| 0 <= j < i ==> filter@[j]@ != label@,
        decreases filter@.len() - i,
    {
        if string_eq(&filter[i], label) {
            return true;
        }
        i = i + 1;
    }
    false
}

/// Whether `ids` already carries `id`.
fn ids_contain(ids: &Vec<u128>, id: u128) -> (r: bool)
    ensures
        r == ids@.contains(id),
{
    let mut i: usize = 0;
    while i < ids.len()
        invariant
            i <= ids@.len(),
            forall|j: int| 0 <= j < i ==> ids@[j] != id,
        decreases ids@.len() - i,
    {
        if ids[i] == id {
            return true;
        }
        i = i + 1;
    }
    false
}

/// Resolves the distinct set of image ids an export's label filter
/// selects, in first occurrence order over the annotation store. An empty
/// result is the "nothing to export" outcome, not an error.
pub fn resolve(filter: &Vec<String>, annotations: &Vec<AnnotationRecord>) -> (r: Vec<u128>)
    ensures
        r@ == resolve_spec(filter@, annotations@),
{
    let mut out: Vec<u128> = Vec::new();
    let mut i: usize = 0;
    while i < annotations.len()
        invariant
            i <= annotations@.len(),
            out@ == resolve_spec(filter@, annotations@.take(i as int)),
        decreases annotations@.len() - i,
    {
        let ann = &annotations[i];
        let selected = if filter.len() == 0 {
            true
        } else {
            filter_contains(filter, &ann.label)
        };
        if selected && !ids_contain(&out, ann.image_id) {
            out.push(ann.image_id);
        }
        proof {
            assert(annotations@.take(i + 1).drop_last() =~= annotations@.take(i as int));
            assert(annotations@.take(i + 1).last() == annotations@[i as int]);
        }
        i = i + 1;
    }
    proof {
        assert(annotations@.take(i as int) =~= annotations@);
    }
    out
}

} // verus!
