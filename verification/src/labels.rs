//! The label index: the sorted, deduplicated sequence of every annotation
//! label across an aggregated image set. Index positions are the class ids
//! every encoded label file refers to, so the index is built once per
//! export job, after aggregation and before any encoding.

use vstd::prelude::*;
use crate::models::AggView;
use crate::models::AggregatedImage;
use crate::models::AnnotationRecord;
use crate::models::LabelsResponse;
use crate::models::agg_views;
use crate::strutil::bytes_lt;
use crate::strutil::bytes_lt_exec;
use crate::strutil::lemma_bytes_lt_trans;
use crate::strutil::lemma_bytes_lt_trichotomy;
use crate::strutil::lemma_utf8_bytes_eq;
use crate::strutil::str_bytes;
use crate::strutil::string_eq;
use crate::strutil::utf8_bytes;

verus! {

/// The UTF-8 encodings of a sequence of labels.
pub open spec fn enc_labels(s: Seq<String>) -> Seq<Seq<u8>> {
    s.map_values(|x: String| utf8_bytes(x@))
}

/// A label sequence is strictly increasing in the byte-wise order: sorted,
/// with no duplicates.
pub open spec fn sorted_unique(s: Seq<Seq<u8>>) -> bool {
    forall|i: int, j: int| 0 <= i < j < s.len() ==> bytes_lt(s[i], s[j])
}

/// Insertion of one label into a sorted, deduplicated sequence; an already
/// present label leaves the sequence unchanged.
pub open spec fn insert_sorted(s: Seq<Seq<u8>>, l: Seq<u8>) -> Seq<Seq<u8>>
    decreases s.len(),
{
    if s.len() == 0 {
        seq![l]
    } else if bytes_lt(l, s[0]) {
        seq![l] + s
    } else if l == s[0] {
        s
    } else {
        seq![s[0]] + insert_sorted(s.skip(1), l)
    }
}

/// Every element of `insert_sorted(s, l)` is `l` or an element of `s`.
pub proof fn lemma_insert_sorted_elems(s: Seq<Seq<u8>>, l: Seq<u8>)
    ensures
        forall|i: int|
            0 <= i < insert_sorted(s, l).len() ==> (insert_sorted(s, l)[i] == l || s.contains(
                insert_sorted(s, l)[i],
            )),
    decreases s.len(),
{
    let r = insert_sorted(s, l);
    if s.len() == 0 {
    } else if bytes_lt(l, s[0]) {
        assert forall|i: int| 0 <= i < r.len() implies (r[i] == l || s.contains(r[i])) by {
            if i > 0 {
                assert(r[i] == s[i - 1]);
            }
        }
    } else if l == s[0] {
        assert forall|i: int| 0 <= i < r.len() implies (r[i] == l || s.contains(r[i])) by {
            assert(r[i] == s[i]);
        }
    } else {
        lemma_insert_sorted_elems(s.skip(1), l);
        let inner = insert_sorted(s.skip(1), l);
        assert forall|i: int| 0 <= i < r.len() implies (r[i] == l || s.contains(r[i])) by {
            if i == 0 {
                assert(r[0] == s[0]);
                assert(s.contains(s[0]));
            } else {
                assert(r[i] == inner[i - 1]);
                if inner[i - 1] != l {
                    let k = choose|k: int| 0 <= k < s.skip(1).len() && s.skip(1)[k] == inner[i - 1];
                    assert(s[k + 1] == s.skip(1)[k]);
                    assert(s.contains(s[k + 1]));
                }
            }
        }
    }
}

/// Insertion preserves the sorted, deduplicated invariant.
pub proof fn lemma_insert_sorted_sorted(s: Seq<Seq<u8>>, l: Seq<u8>)
    requires
        sorted_unique(s),
    ensures
        sorted_unique(insert_sorted(s, l)),
    decreases s.len(),
{
    let r = insert_sorted(s, l);
    if s.len() == 0 {
    } else if bytes_lt(l, s[0]) {
        assert forall|i: int, j: int| 0 <= i < j < r.len() implies bytes_lt(r[i], r[j]) by {
            if i == 0 {
                assert(r[j] == s[j - 1]);
                if j - 1 > 0 {
                    lemma_bytes_lt_trans(l, s[0], s[j - 1]);
                }
            } else {
                assert(r[i] == s[i - 1] && r[j] == s[j - 1]);
            }
        }
    } else if l == s[0] {
    } else {
        lemma_bytes_lt_trichotomy(l, s[0]);
        assert(bytes_lt(s[0], l));
        assert(sorted_unique(s.skip(1))) by {
            assert forall|i: int, j: int|
                0 <= i < j < s.skip(1).len() implies bytes_lt(s.skip(1)[i], s.skip(1)[j]) by {
                assert(s.skip(1)[i] == s[i + 1] && s.skip(1)[j] == s[j + 1]);
            }
        }
        lemma_insert_sorted_sorted(s.skip(1), l);
        lemma_insert_sorted_elems(s.skip(1), l);
        let inner = insert_sorted(s.skip(1), l);
        assert forall|i: int, j: int| 0 <= i < j < r.len() implies bytes_lt(r[i], r[j]) by {
            if i == 0 {
                assert(r[0] == s[0]);
                assert(r[j] == inner[j - 1]);
                if inner[j - 1] == l {
                } else {
                    let k = choose|k: int|
                        0 <= k < s.skip(1).len() && s.skip(1)[k] == inner[j - 1];
                    assert(s.skip(1)[k] == s[k + 1]);
                    assert(bytes_lt(s[0], s[k + 1]));
                }
            } else {
                assert(r[i] == inner[i - 1] && r[j] == inner[j - 1]);
            }
        }
    }
}

/// Where the insertion point `k` of `l` is known — everything before `k`
/// is below `l` and the element at `k`, if any, is not — `insert_sorted`
/// either finds `l` at `k` or splices it in at `k`.
pub proof fn lemma_insert_sorted_at(s: Seq<Seq<u8>>, l: Seq<u8>, k: int)
    requires
        0 <= k <= s.len(),
        forall|i: int| 0 <= i < k ==> bytes_lt(s[i], l),
        k < s.len() ==> !bytes_lt(s[k], l),
    ensures
        k < s.len() && s[k] == l ==> insert_sorted(s, l) == s,
        !(k < s.len() && s[k] == l) ==> insert_sorted(s, l) == s.take(k) + seq![l] + s.skip(k),
    decreases s.len(),
{
    if k == 0 {
        if s.len() == 0 {
            assert(insert_sorted(s, l) =~= s.take(0) + seq![l] + s.skip(0));
        } else if s[0] == l {
        } else {
            lemma_bytes_lt_trichotomy(l, s[0]);
            assert(bytes_lt(l, s[0]));
            assert(insert_sorted(s, l) =~= s.take(0) + seq![l] + s.skip(0));
        }
    } else {
        lemma_bytes_lt_trichotomy(l, s[0]);
        assert(bytes_lt(s[0], l));
        let t = s.skip(1);
        assert forall|i: int| 0 <= i < k - 1 implies bytes_lt(t[i], l) by {
            assert(t[i] == s[i + 1]);
        }
        assert(k - 1 < t.len() ==> !bytes_lt(t[k - 1], l)) by {
            if k - 1 < t.len() {
                assert(t[k - 1] == s[k]);
            }
        }
        lemma_insert_sorted_at(t, l, k - 1);
        if k < s.len() && s[k] == l {
            assert(t[k - 1] == l);
            assert(insert_sorted(s, l) =~= s);
        } else {
            assert(insert_sorted(s, l) =~= s.take(k) + seq![l] + s.skip(k)) by {
                assert(insert_sorted(t, l) == t.take(k - 1) + seq![l] + t.skip(k - 1));
                assert forall|i: int|
                    0 <= i < insert_sorted(s, l).len() implies insert_sorted(s, l)[i] == (s.take(k)
                    + seq![l] + s.skip(k))[i] by {
                    if i > 0 {
                        assert(insert_sorted(s, l)[i] == insert_sorted(t, l)[i - 1]);
                    }
                }
            }
        }
    }
}

/// The label index after folding in the labels of one annotation list.
pub open spec fn index_fold(s: Seq<Seq<u8>>, anns: Seq<AnnotationRecord>) -> Seq<Seq<u8>>
    decreases anns.len(),
{
    if anns.len() == 0 {
        s
    } else {
        insert_sorted(index_fold(s, anns.drop_last()), utf8_bytes(anns.last().label@))
    }
}

/// The label index after folding in every annotation of every image.
pub open spec fn index_fold_images(s: Seq<Seq<u8>>, images: Seq<AggView>) -> Seq<Seq<u8>>
    decreases images.len(),
{
    if images.len() == 0 {
        s
    } else {
        index_fold(index_fold_images(s, images.drop_last()), images.last().annotations)
    }
}

/// The label index of an aggregated image set: every annotation label,
/// deduplicated and sorted byte-wise.
pub open spec fn label_index_spec(images: Seq<AggView>) -> Seq<Seq<u8>> {
    index_fold_images(Seq::empty(), images)
}

/// Folding more labels in keeps the sorted, deduplicated invariant.
pub proof fn lemma_index_fold_sorted(s: Seq<Seq<u8>>, anns: Seq<AnnotationRecord>)
    requires
        sorted_unique(s),
    ensures
        sorted_unique(index_fold(s, anns)),
    decreases anns.len(),
{
    if anns.len() > 0 {
        lemma_index_fold_sorted(s, anns.drop_last());
        lemma_insert_sorted_sorted(index_fold(s, anns.drop_last()), utf8_bytes(anns.last().label@));
    }
}

proof fn lemma_index_fold_images_sorted(s: Seq<Seq<u8>>, images: Seq<AggView>)
    requires
        sorted_unique(s),
    ensures
        sorted_unique(index_fold_images(s, images)),
    decreases images.len(),
{
    if images.len() > 0 {
        lemma_index_fold_images_sorted(s, images.drop_last());
        lemma_index_fold_sorted(index_fold_images(s, images.drop_last()), images.last().annotations);
    }
}

/// The label index of any aggregated image set is sorted and free of
/// duplicates.
pub proof fn lemma_label_index_sorted(images: Seq<AggView>)
    ensures
        sorted_unique(label_index_spec(images)),
{
    lemma_index_fold_images_sorted(Seq::empty(), images);
}

/// Inserts one label into a sorted, deduplicated label vector.
fn insert_label(out: &mut Vec<String>, l: String)
    requires
        sorted_unique(enc_labels(old(out)@)),
    ensures
        enc_labels(final(out)@) == insert_sorted(enc_labels(old(out)@), utf8_bytes(l@)),
        sorted_unique(enc_labels(final(out)@)),
{
    let ghost s0 = enc_labels(old(out)@);
    let ghost lb_spec = utf8_bytes(l@);
    let lb = str_bytes(l.as_str());
    let mut k: usize = 0;
    loop
        invariant
            out@ == old(out)@,
            k <= out@.len(),
            lb@ == lb_spec,
            s0 == enc_labels(out@),
            forall|i: int| 0 <= i < k ==> bytes_lt(s0[i], lb_spec),
        ensures
            out@ == old(out)@,
            k <= out@.len(),
            forall|i: int| 0 <= i < k ==> bytes_lt(s0[i], lb_spec),
            k < out@.len() ==> !bytes_lt(s0[k as int], lb_spec),
        decreases out@.len() - k,
    {
        if k == out.len() {
            break;
        }
        let kb = str_bytes(out[k].as_str());
        assert(kb@ == s0[k as int]);
        if bytes_lt_exec(kb.as_slice(), lb.as_slice()) {
            k = k + 1;
        } else {
            break;
        }
    }
    if k < out.len() && string_eq(&out[k], &l) {
        proof {
            lemma_utf8_bytes_eq(out@[k as int]@, l@);
            assert(s0[k as int] == lb_spec);
            lemma_bytes_lt_trichotomy(s0[k as int], lb_spec);
            lemma_insert_sorted_at(s0, lb_spec, k as int);
        }
    } else {
        proof {
            if k < out@.len() {
                lemma_utf8_bytes_eq(out@[k as int]@, l@);
            }
            lemma_insert_sorted_at(s0, lb_spec, k as int);
        }
        out.insert(k, l);
        proof {
            assert(enc_labels(out@) =~= s0.take(k as int) + seq![lb_spec] + s0.skip(
                k as int,
            )) by {
                assert forall|i: int|
                    0 <= i < enc_labels(out@).len() implies enc_labels(out@)[i] == (s0.take(
                    k as int,
                ) + seq![lb_spec] + s0.skip(k as int))[i] by {
                    assert(out@[i] == old(out)@.insert(k as int, l)[i]);
                }
            }
            lemma_insert_sorted_sorted(s0, lb_spec);
        }
    }
}

/// Builds the label index of an aggregated image set: collects every
/// annotation label, discards duplicates, and sorts byte-wise. The result
/// is exactly `label_index_spec` of the input, so a job's class ids are a
/// pure function of its aggregated images.
pub fn build_label_index(images: &Vec<AggregatedImage>) -> (r: Vec<String>)
    ensures
        enc_labels(r@) == label_index_spec(agg_views(images@)),
        sorted_unique(enc_labels(r@)),
{
    let ghost iv = agg_views(images@);
    let mut out: Vec<String> = Vec::new();
    assert(enc_labels(out@) =~= Seq::<Seq<u8>>::empty());
    let mut i: usize = 0;
    while i < images.len()
        invariant
            i <= images@.len(),
            iv == agg_views(images@),
            iv.len() == images@.len(),
            enc_labels(out@) == index_fold_images(Seq::empty(), iv.take(i as int)),
            sorted_unique(enc_labels(out@)),
        decreases images@.len() - i,
    {
        let anns = &images[i].annotations;
        assert(anns@ == iv[i as int].annotations);
        let mut j: usize = 0;
        while j < anns.len()
            invariant
                i < images@.len(),
                iv == agg_views(images@),
                j <= anns@.len(),
                anns@ == iv[i as int].annotations,
                enc_labels(out@) == index_fold(
                    index_fold_images(Seq::empty(), iv.take(i as int)),
                    anns@.take(j as int),
                ),
                sorted_unique(enc_labels(out@)),
            decreases anns@.len() - j,
        {
            let l = anns[j].label.clone();
            assert(l@ == anns@[j as int].label@);
            insert_label(&mut out, l);
            proof {
                assert(anns@.take(j + 1).drop_last() =~= anns@.take(j as int));
                assert(anns@.take(j + 1).last() == anns@[j as int]);
            }
            j = j + 1;
        }
        proof {
            assert(anns@.take(j as int) =~= anns@);
            assert(iv.take(i + 1).drop_last() =~= iv.take(i as int));
            assert(iv.take(i + 1).last() == iv[i as int]);
        }
        i = i + 1;
    }
    proof {
        assert(iv.take(i as int) =~= iv);
    }
    out
}

/// The distinct labels of a plain label listing, sorted byte-wise.
pub open spec fn distinct_labels_spec(labels: Seq<String>) -> Seq<Seq<u8>>
    decreases labels.len(),
{
    if labels.len() == 0 {
        Seq::empty()
    } else {
        insert_sorted(distinct_labels_spec(labels.drop_last()), utf8_bytes(labels.last()@))
    }
}

/// The distinct labels currently in use, sorted, ready to hand to a
/// client.
pub fn distinct_sorted_labels(labels: &Vec<String>) -> (r: LabelsResponse)
    ensures
        enc_labels(r.labels@) == distinct_labels_spec(labels@),
        sorted_unique(enc_labels(r.labels@)),
{
    let mut out: Vec<String> = Vec::new();
    assert(enc_labels(out@) =~= Seq::<Seq<u8>>::empty());
    let mut i: usize = 0;
    while i < labels.len()
        invariant
            i <= labels@.len(),
            enc_labels(out@) == distinct_labels_spec(labels@.take(i as int)),
            sorted_unique(enc_labels(out@)),
        decreases labels@.len() - i,
    {
        let l = labels[i].clone();
        insert_label(&mut out, l);
        proof {
            assert(labels@.take(i + 1).drop_last() =~= labels@.take(i as int));
            assert(labels@.take(i + 1).last() == labels@[i as int]);
        }
        i = i + 1;
    }
    proof {
        assert(labels@.take(i as int) =~= labels@);
    }
    LabelsResponse { labels: out }
}

} // verus!
