//! The normalized-box format encoder. Every annotation that carries a box
//! becomes one text line `<class> <cx> <cy> <w> <h>`: the class id is the
//! label's position in the label index, and the four coordinates are the
//! box centre and size divided by the image dimensions, written with six
//! decimal digits. An annotation is skipped — never clamped, never an
//! error — when the image has non-positive dimensions, when its label is
//! not in the index, or when any normalized value falls outside [0, 1].

use vstd::prelude::*;
use vstd::arithmetic::div_mod::lemma_div_is_ordered;
use vstd::arithmetic::div_mod::lemma_div_pos_is_pos;
use vstd::arithmetic::div_mod::lemma_fundamental_div_mod_converse;
use crate::labels::enc_labels;
use crate::models::AnnotationRecord;
use crate::numtext::dec_digits;
use crate::numtext::fixed6;
use crate::numtext::micro_of;
use crate::numtext::norm_micro;
use crate::numtext::push_dec_u64;
use crate::numtext::push_fixed6;
use crate::strutil::string_eq;
use crate::strutil::lemma_utf8_bytes_eq;
use crate::strutil::utf8_bytes;

verus! {

/// The first position of `l` in `s`, or `-1` when it is absent.
pub open spec fn find_pos(s: Seq<Seq<u8>>, l: Seq<u8>) -> int
    decreases s.len(),
{
    if s.len() == 0 {
        -1
    } else if s[0] == l {
        0
    } else {
        let r = find_pos(s.skip(1), l);
        if r < 0 {
            -1
        } else {
            r + 1
        }
    }
}

/// A found position is in bounds and holds the label looked for.
pub proof fn lemma_find_pos_bound(s: Seq<Seq<u8>>, l: Seq<u8>)
    ensures
        find_pos(s, l) < s.len(),
        find_pos(s, l) >= 0 ==> s[find_pos(s, l)] == l,
    decreases s.len(),
{
    if s.len() > 0 && s[0] != l {
        lemma_find_pos_bound(s.skip(1), l);
        if find_pos(s.skip(1), l) >= 0 {
            assert(s.skip(1)[find_pos(s.skip(1), l)] == s[find_pos(s, l)]);
        }
    }
}

proof fn lemma_find_pos_hit(s: Seq<Seq<u8>>, l: Seq<u8>, k: int)
    requires
        0 <= k < s.len(),
        forall|i: int| 0 <= i < k ==> s[i] != l,
        s[k] == l,
    ensures
        find_pos(s, l) == k,
    decreases s.len(),
{
    if k > 0 {
        assert forall|i: int| 0 <= i < k - 1 implies s.skip(1)[i] != l by {
            assert(s.skip(1)[i] == s[i + 1]);
        }
        assert(s.skip(1)[k - 1] == s[k]);
        lemma_find_pos_hit(s.skip(1), l, k - 1);
    }
}

proof fn lemma_find_pos_none(s: Seq<Seq<u8>>, l: Seq<u8>)
    requires
        forall|i: int| 0 <= i < s.len() ==> s[i] != l,
    ensures
        find_pos(s, l) == -1,
    decreases s.len(),
{
    if s.len() > 0 {
        assert forall|i: int| 0 <= i < s.skip(1).len() implies s.skip(1)[i] != l by {
            assert(s.skip(1)[i] == s[i + 1]);
        }
        lemma_find_pos_none(s.skip(1), l);
    }
}

/// A fraction lies in the unit interval exactly when its numerator lies
/// between zero and its (positive) denominator.
pub open spec fn in_unit(n: int, d: int) -> bool {
    0 <= n && n <= d
}

/// Whether one annotation produces a line: it carries a box, the image has
/// positive dimensions, its label is indexed, and all four normalized
/// values lie in [0, 1].
pub open spec fn box_emitted(ann: AnnotationRecord, w: int, h: int, index: Seq<Seq<u8>>) -> bool {
    &&& ann.bbox is Some
    &&& w > 0
    &&& h > 0
    &&& find_pos(index, utf8_bytes(ann.label@)) >= 0
    &&& in_unit(2 * ann.bbox.unwrap().x + ann.bbox.unwrap().w, 2 * w)
    &&& in_unit(2 * ann.bbox.unwrap().y + ann.bbox.unwrap().h, 2 * h)
    &&& in_unit(ann.bbox.unwrap().w as int, w)
    &&& in_unit(ann.bbox.unwrap().h as int, h)
}

/// The text line of an emitted annotation.
pub open spec fn line_of(ann: AnnotationRecord, w: int, h: int, index: Seq<Seq<u8>>) -> Seq<u8>
    recommends
        box_emitted(ann, w, h, index),
{
    let b = ann.bbox.unwrap();
    dec_digits(find_pos(index, utf8_bytes(ann.label@)) as nat) + seq![32u8] + fixed6(
        micro_of(2 * b.x + b.w, 2 * w) as nat,
    ) + seq![32u8] + fixed6(micro_of(2 * b.y + b.h, 2 * h) as nat) + seq![32u8] + fixed6(
        micro_of(b.w as int, w) as nat,
    ) + seq![32u8] + fixed6(micro_of(b.h as int, h) as nat) + seq![10u8]
}

/// The whole label file of one image: the lines of its emitted
/// annotations, in order; skipped annotations leave no trace.
pub open spec fn label_file_spec(
    anns: Seq<AnnotationRecord>,
    w: int,
    h: int,
    index: Seq<Seq<u8>>,
) -> Seq<u8>
    decreases anns.len(),
{
    if anns.len() == 0 {
        Seq::empty()
    } else {
        label_file_spec(anns.drop_last(), w, h, index) + if box_emitted(
            anns.last(),
            w,
            h,
            index,
        ) {
            line_of(anns.last(), w, h, index)
        } else {
            Seq::empty()
        }
    }
}

/// A normalized fraction of the unit interval scales to [0, 1000000]
/// millionths: every value written into a label file lies in [0, 1].
pub proof fn lemma_micro_of_unit(n: int, d: int)
    requires
        d > 0,
        in_unit(n, d),
    ensures
        0 <= micro_of(n, d) <= 1000000,
{
    lemma_div_pos_is_pos(2 * n * 1000000 + d, 2 * d);
    lemma_div_is_ordered(2 * n * 1000000 + d, 2 * d * 1000000 + d, 2 * d);
    lemma_fundamental_div_mod_converse(2 * d * 1000000 + d, 2 * d, 1000000, d);
}

/// The class id of every emitted line is a valid index into the label
/// index.
pub proof fn lemma_emitted_class_in_index(
    ann: AnnotationRecord,
    w: int,
    h: int,
    index: Seq<Seq<u8>>,
)
    requires
        box_emitted(ann, w, h, index),
    ensures
        0 <= find_pos(index, utf8_bytes(ann.label@)) < index.len(),
        index[find_pos(index, utf8_bytes(ann.label@))] == utf8_bytes(ann.label@),
{
    lemma_find_pos_bound(index, utf8_bytes(ann.label@));
}

/// Looks a label up in the index; `Some(p)` is its class id.
fn find_label(index: &Vec<String>, l: &String) -> (r: Option<usize>)
    ensures
        match r {
            Some(p) => find_pos(enc_labels(index@), utf8_bytes(l@)) == p && p < index@.len(),
            None => find_pos(enc_labels(index@), utf8_bytes(l@)) == -1,
        },
{
    let mut i: usize = 0;
    while i < index.len()
        invariant
            i <= index@.len(),
            forall|j: int| 0 <= j < i ==> enc_labels(index@)[j] != utf8_bytes(l@),
        decreases index@.len() - i,
    {
        if string_eq(&index[i], l) {
            proof {
                lemma_utf8_bytes_eq(index@[i as int]@, l@);
                lemma_find_pos_hit(enc_labels(index@), utf8_bytes(l@), i as int);
            }
            return Some(i);
        }
        proof {
            lemma_utf8_bytes_eq(index@[i as int]@, l@);
        }
        i = i + 1;
    }
    proof {
        lemma_find_pos_none(enc_labels(index@), utf8_bytes(l@));
    }
    None
}

/// Encodes one image's annotations as its label file. The image's own
/// bytes pass through elsewhere untouched: encoding only ever produces
/// text.
pub fn encode_label_file(
    anns: &Vec<AnnotationRecord>,
    width: i32,
    height: i32,
    index: &Vec<String>,
) -> (r: Vec<u8>)
    ensures
        r@ == label_file_spec(anns@, width as int, height as int, enc_labels(index@)),
{
    let ghost ix = enc_labels(index@);
    let mut out: Vec<u8> = Vec::new();
    let mut i: usize = 0;
    while i < anns.len()
        invariant
            i <= anns@.len(),
            ix == enc_labels(index@),
            out@ == label_file_spec(anns@.take(i as int), width as int, height as int, ix),
        decreases anns@.len() - i,
    {
        let ghost prev = out@;
        let ann = &anns[i];
        match &ann.bbox {
            Some(b) => {
                if width > 0 && height > 0 {
                    match find_label(index, &ann.label) {
                        Some(pos) => {
                            let w2: i128 = 2 * (width as i128);
                            let h2: i128 = 2 * (height as i128);
                            let ncx: i128 = 2 * (b.x as i128) + (b.w as i128);
                            let ncy: i128 = 2 * (b.y as i128) + (b.h as i128);
                            let nw: i128 = b.w as i128;
                            let nh: i128 = b.h as i128;
                            if 0 <= ncx && ncx <= w2 && 0 <= ncy && ncy <= h2 && 0 <= nw && nw
                                <= (width as i128) && 0 <= nh && nh <= (height as i128) {
                                assert(box_emitted(
                                    anns@[i as int],
                                    width as int,
                                    height as int,
                                    ix,
                                ));
                                push_dec_u64(&mut out, pos as u64);
                                out.push(32);
                                push_fixed6(&mut out, norm_micro(ncx, w2));
                                out.push(32);
                                push_fixed6(&mut out, norm_micro(ncy, h2));
                                out.push(32);
                                push_fixed6(&mut out, norm_micro(nw, width as i128));
                                out.push(32);
                                push_fixed6(&mut out, norm_micro(nh, height as i128));
                                out.push(10);
                                proof {
                                    assert(out@ =~= prev + line_of(
                                        anns@[i as int],
                                        width as int,
                                        height as int,
                                        ix,
                                    ));
                                }
                            } else {
                                assert(!box_emitted(
                                    anns@[i as int],
                                    width as int,
                                    height as int,
                                    ix,
                                ));
                            }
                        },
                        None => {
                            assert(!box_emitted(anns@[i as int], width as int, height as int, ix));
                        },
                    }
                } else {
                    assert(!box_emitted(anns@[i as int], width as int, height as int, ix));
                }
            },
            None => {
                assert(!box_emitted(anns@[i as int], width as int, height as int, ix));
            },
        }
        proof {
            assert(anns@.take(i + 1).drop_last() =~= anns@.take(i as int));
            assert(anns@.take(i + 1).last() == anns@[i as int]);
            if !box_emitted(anns@[i as int], width as int, height as int, ix) {
                assert(out@ =~= prev + Seq::<u8>::empty());
            }
        }
        i = i + 1;
    }
    proof {
        assert(anns@.take(i as int) =~= anns@);
    }
    out
}

} // verus!
