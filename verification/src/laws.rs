//! The export engine's cross-cutting guarantees, stated over the spec
//! pipeline and proved once: a non-empty filter is respected by every
//! aggregated image, and distinct image ids always produce distinct
//! archive member paths, whatever their filenames.

use vstd::prelude::*;
use vstd::utf8::encode_utf8_valid_utf8;
use vstd::utf8::is_ascii_chars;
use vstd::utf8::is_ascii_chars_encode_utf8;
use vstd::utf8::is_char_boundary_iff_not_is_continuation_byte;
use vstd::utf8::valid_utf8;
use vstd::utf8::valid_utf8_concat;
use vstd::utf8::valid_utf8_split;
use crate::aggregate::aggregate_spec;
use crate::aggregate::lemma_aggregate_ok_outcomes;
use crate::aggregate::outcome_images;
use crate::archive::archive_entries_spec;
use crate::archive::base_name;
use crate::archive::dir_entries;
use crate::archive::ext_part;
use crate::archive::image_entries;
use crate::archive::image_path;
use crate::archive::label_path;
use crate::archive::lemma_image_entries_len;
use crate::archive::lemma_image_entries_pair_at;
use crate::archive::split_seg;
use crate::archive::yaml_entry;
use crate::engine::anns_for;
use crate::engine::export_plan;
use crate::engine::fetch_one_spec;
use crate::engine::fetch_results_spec;
use crate::engine::lemma_anns_for_complete;
use crate::models::AggView;
use crate::models::AnnotationRecord;
use crate::models::BlobObject;
use crate::models::ExportRequest;
use crate::models::FetchView;
use crate::models::ImageRecord;
use crate::numtext::hex_fixed;
use crate::numtext::lemma_hex_fixed_injective;
use crate::numtext::lemma_hex_fixed_len;
use crate::numtext::lemma_pow16_32;
use crate::resolver::ann_matches;
use crate::resolver::label_in_filter;
use crate::resolver::lemma_resolve_sound;
use crate::resolver::resolve_spec;
use crate::split::Split;
use crate::split::split_of;
use crate::strutil::ext_of;
use crate::strutil::rfind_dot;
use crate::strutil::stem_of;
use crate::strutil::utf8_bytes;
use crate::zipio::entry_paths_distinct;
use crate::zipio::entry_paths_utf8;

verus! {

/// Whether an image carries at least one annotation whose label is in
/// the filter.
pub open spec fn image_has_filtered_label(filter: Seq<String>, img: AggView) -> bool {
    exists|j: int|
        0 <= j < img.annotations.len() && label_in_filter(filter, img.annotations[j].label@)
}

/// With a non-empty label filter, every image an export job aggregates —
/// and therefore every image placed into the archive — carries at least
/// one annotation whose label is in the filter.
#[verifier::rlimit(80)]
pub proof fn lemma_archive_respects_filter(
    req: ExportRequest,
    images: Seq<ImageRecord>,
    anns: Seq<AnnotationRecord>,
    blobs: Seq<BlobObject>,
)
    requires
        req.filter.labels@.len() > 0,
        export_plan(req, images, anns, blobs) is Ok,
    ensures
        ({
            let ids = resolve_spec(req.filter.labels@, anns);
            let aggregated = aggregate_spec(fetch_results_spec(ids, images, anns, blobs))->Ok_0;
            forall|i: int|
                0 <= i < aggregated.len() ==> image_has_filtered_label(
                    req.filter.labels@,
                    #[trigger] aggregated[i],
                )
        }),
{
    let filter = req.filter.labels@;
    let ids = resolve_spec(filter, anns);
    let results = fetch_results_spec(ids, images, anns, blobs);
    lemma_aggregate_ok_outcomes(results);
    let aggregated = aggregate_spec(results)->Ok_0;
    assert(aggregated == outcome_images(results));
    assert forall|i: int|
        0 <= i < aggregated.len() implies image_has_filtered_label(
            req.filter.labels@,
            #[trigger] aggregated[i],
        ) by {
        assert(aggregated[i] == results[i].outcome->Ok_0);
        assert(results[i] == (FetchView {
            id: ids[i],
            outcome: fetch_one_spec(ids[i], images, anns, blobs),
        }));
        let id = ids[i];
        assert(aggregated[i].annotations == anns_for(anns, id));
        assert(ids.contains(id));
        lemma_resolve_sound(filter, anns, id);
        let k = choose|k: int|
            0 <= k < anns.len() && anns[k].image_id == id && ann_matches(filter, anns[k]);
        lemma_anns_for_complete(anns, id, k);
        let j = choose|j: int|
            0 <= j < anns_for(anns, id).len() && anns_for(anns, id)[j] == anns[k];
        assert(label_in_filter(req.filter.labels@, aggregated[i].annotations[j].label@));
        assert(image_has_filtered_label(req.filter.labels@, aggregated[i]));
    }
}

/// The concrete bytes of the fixed path segments: the directory prefixes
/// are eight bytes long and differ in their second byte, the manifest
/// name differs from both there too, and the train and val segments
/// differ in their first byte.
proof fn lemma_segment_bytes()
    ensures
        utf8_bytes("/images/"@).len() == 8,
        utf8_bytes("/labels/"@).len() == 8,
        utf8_bytes("train"@).len() == 5,
        utf8_bytes("val"@).len() == 3,
        utf8_bytes(".txt"@).len() == 4,
        utf8_bytes("/data.yaml"@).len() == 10,
        utf8_bytes("/images/train"@).len() == 13,
        utf8_bytes("/images/val"@).len() == 11,
        utf8_bytes("/labels/train"@).len() == 13,
        utf8_bytes("/labels/val"@).len() == 11,
        utf8_bytes("train"@)[0] == 116,
        utf8_bytes("val"@)[0] == 118,
        utf8_bytes("/images/"@)[1] == 105,
        utf8_bytes("/labels/"@)[1] == 108,
        utf8_bytes("/data.yaml"@)[1] == 100,
        utf8_bytes("/images/train"@)[1] == 105,
        utf8_bytes("/images/val"@)[1] == 105,
        utf8_bytes("/labels/train"@)[1] == 108,
        utf8_bytes("/labels/val"@)[1] == 108,
        utf8_bytes("/images/train"@)[8] == 116,
        utf8_bytes("/images/val"@)[8] == 118,
        utf8_bytes("/labels/train"@)[8] == 116,
        utf8_bytes("/labels/val"@)[8] == 118,
{
    reveal_strlit("/images/");
    reveal_strlit("/labels/");
    reveal_strlit("train");
    reveal_strlit("val");
    reveal_strlit(".txt");
    reveal_strlit("/data.yaml");
    reveal_strlit("/images/train");
    reveal_strlit("/images/val");
    reveal_strlit("/labels/train");
    reveal_strlit("/labels/val");
    assert(is_ascii_chars("/images/"@));
    assert(is_ascii_chars("/labels/"@));
    assert(is_ascii_chars("train"@));
    assert(is_ascii_chars("val"@));
    assert(is_ascii_chars(".txt"@));
    assert(is_ascii_chars("/data.yaml"@));
    assert(is_ascii_chars("/images/train"@));
    assert(is_ascii_chars("/images/val"@));
    assert(is_ascii_chars("/labels/train"@));
    assert(is_ascii_chars("/labels/val"@));
    is_ascii_chars_encode_utf8("/images/"@);
    is_ascii_chars_encode_utf8("/labels/"@);
    is_ascii_chars_encode_utf8("train"@);
    is_ascii_chars_encode_utf8("val"@);
    is_ascii_chars_encode_utf8(".txt"@);
    is_ascii_chars_encode_utf8("/data.yaml"@);
    is_ascii_chars_encode_utf8("/images/train"@);
    is_ascii_chars_encode_utf8("/images/val"@);
    is_ascii_chars_encode_utf8("/labels/train"@);
    is_ascii_chars_encode_utf8("/labels/val"@);
}

/// Any two partition segments are either the same or differ in their
/// first byte.
proof fn lemma_segs_same_or_differ(sa: Split, sb: Split)
    ensures
        split_seg(sa) == split_seg(sb) || (split_seg(sa).len() > 0 && split_seg(sb).len() > 0
            && split_seg(sa)[0] != split_seg(sb)[0]),
{
    lemma_segment_bytes();
}

/// Paths of the fixed archive shape — root, an eight-byte directory
/// prefix, a partition segment, a slash, the 32 hexadecimal id digits,
/// and arbitrary remainders — are distinct whenever the ids are.
proof fn lemma_shaped_paths_distinct(
    name: Seq<u8>,
    m: Seq<u8>,
    sega: Seq<u8>,
    segb: Seq<u8>,
    a_id: u128,
    b_id: u128,
    resta: Seq<u8>,
    restb: Seq<u8>,
)
    requires
        a_id != b_id,
        sega == segb || (sega.len() > 0 && segb.len() > 0 && sega[0] != segb[0]),
    ensures
        name + m + sega + seq![47u8] + (hex_fixed(a_id as nat, 32) + resta) != name + m + segb
            + seq![47u8] + (hex_fixed(b_id as nat, 32) + restb),
{
    let hex_a = hex_fixed(a_id as nat, 32);
    let hex_b = hex_fixed(b_id as nat, 32);
    lemma_hex_fixed_len(a_id as nat, 32);
    lemma_hex_fixed_len(b_id as nat, 32);
    let pa = name + m + sega + seq![47u8] + (hex_a + resta);
    let pb = name + m + segb + seq![47u8] + (hex_b + restb);
    if pa == pb {
        if sega == segb {
            let pre = name.len() + m.len() + sega.len() + 1;
            assert forall|k: int| 0 <= k < 32 implies hex_a[k] == hex_b[k] by {
                assert(pa[pre + k] == (hex_a + resta)[k]);
                assert(pb[pre + k] == (hex_b + restb)[k]);
                assert(pa[pre + k] == pb[pre + k]);
            }
            assert(hex_a =~= hex_b);
            lemma_pow16_32();
            lemma_hex_fixed_injective(a_id as nat, b_id as nat, 32);
            assert(false);
        } else {
            let i0 = name.len() + m.len();
            assert(pa[i0 as int] == sega[0]);
            assert(pb[i0 as int] == segb[0]);
            assert(false);
        }
    }
}

/// Filename collisions cannot occur: two images with distinct ids land
/// under distinct archive paths — both their image files and both their
/// label files — whatever their original filenames and whichever
/// partition each falls in.
pub proof fn lemma_distinct_ids_distinct_paths(
    name: Seq<u8>,
    a: ImageRecord,
    b: ImageRecord,
    sa: Split,
    sb: Split,
)
    requires
        a.id != b.id,
    ensures
        image_path(name, a, sa) != image_path(name, b, sb),
        label_path(name, a, sa) != label_path(name, b, sb),
{
    lemma_segs_same_or_differ(sa, sb);
    let stem_a = base_name(a).skip(32);
    let stem_b = base_name(b).skip(32);
    lemma_hex_fixed_len(a.id as nat, 32);
    lemma_hex_fixed_len(b.id as nat, 32);
    assert(base_name(a) =~= hex_fixed(a.id as nat, 32) + stem_a);
    assert(base_name(b) =~= hex_fixed(b.id as nat, 32) + stem_b);

    let ia = image_path(name, a, sa);
    let ib = image_path(name, b, sb);
    let ea = ext_tail(a);
    let eb = ext_tail(b);
    assert(ia =~= name + utf8_bytes("/images/"@) + split_seg(sa) + seq![47u8] + (hex_fixed(
        a.id as nat,
        32,
    ) + (stem_a + ea)));
    assert(ib =~= name + utf8_bytes("/images/"@) + split_seg(sb) + seq![47u8] + (hex_fixed(
        b.id as nat,
        32,
    ) + (stem_b + eb)));
    lemma_shaped_paths_distinct(
        name,
        utf8_bytes("/images/"@),
        split_seg(sa),
        split_seg(sb),
        a.id,
        b.id,
        stem_a + ea,
        stem_b + eb,
    );

    let la = label_path(name, a, sa);
    let lb = label_path(name, b, sb);
    assert(la =~= name + utf8_bytes("/labels/"@) + split_seg(sa) + seq![47u8] + (hex_fixed(
        a.id as nat,
        32,
    ) + (stem_a + utf8_bytes(".txt"@))));
    assert(lb =~= name + utf8_bytes("/labels/"@) + split_seg(sb) + seq![47u8] + (hex_fixed(
        b.id as nat,
        32,
    ) + (stem_b + utf8_bytes(".txt"@))));
    lemma_shaped_paths_distinct(
        name,
        utf8_bytes("/labels/"@),
        split_seg(sa),
        split_seg(sb),
        a.id,
        b.id,
        stem_a + utf8_bytes(".txt"@),
        stem_b + utf8_bytes(".txt"@),
    );
}

/// The extension tail of an image's archive file name.
spec fn ext_tail(img: ImageRecord) -> Seq<u8> {
    ext_part(utf8_bytes(img.original_filename@))
}

/// A sequence of plain ASCII bytes is valid UTF-8.
proof fn lemma_ascii_valid(bytes: Seq<u8>)
    requires
        forall|i: int| 0 <= i < bytes.len() ==> bytes[i] < 128,
    ensures
        valid_utf8(bytes),
    decreases bytes.len(),
{
    if bytes.len() > 0 {
        assert(vstd::utf8::is_leading_byte_width_1(bytes[0]));
        assert(vstd::utf8::valid_first_scalar(bytes));
        assert(vstd::utf8::length_of_first_scalar(bytes) == 1);
        assert(vstd::utf8::pop_first_scalar(bytes) =~= bytes.skip(1));
        assert forall|i: int| 0 <= i < bytes.skip(1).len() implies bytes.skip(1)[i] < 128 by {
            assert(bytes.skip(1)[i] == bytes[i + 1]);
        }
        lemma_ascii_valid(bytes.skip(1));
    }
}

/// Hexadecimal digit bytes are ASCII.
proof fn lemma_hex_fixed_ascii(n: nat, width: nat)
    ensures
        forall|i: int| 0 <= i < hex_fixed(n, width).len() ==> hex_fixed(n, width)[i] < 128,
    decreases width,
{
    if width > 0 {
        lemma_hex_fixed_ascii(n / 16, (width - 1) as nat);
        assert forall|i: int|
            0 <= i < hex_fixed(n, width).len() implies hex_fixed(n, width)[i] < 128 by {
            if i < hex_fixed(n, width).len() - 1 {
                assert(hex_fixed(n, width)[i] == hex_fixed(n / 16, (width - 1) as nat)[i]);
            }
        }
    }
}

/// The last-dot index is in range and marks a dot.
proof fn lemma_rfind_dot_bounds(f: Seq<u8>)
    ensures
        -1 <= rfind_dot(f) < f.len(),
        rfind_dot(f) >= 0 ==> f[rfind_dot(f)] == 46,
    decreases f.len(),
{
    if f.len() > 0 && f[f.len() - 1] != 46 {
        lemma_rfind_dot_bounds(f.drop_last());
        if rfind_dot(f.drop_last()) >= 0 {
            assert(f.drop_last()[rfind_dot(f)] == f[rfind_dot(f)]);
        }
    }
}

/// Splitting a filename's encoding at its last dot leaves two valid
/// UTF-8 pieces: the dot is an ASCII byte, so it sits on a character
/// boundary.
proof fn lemma_filename_pieces_valid(f: Seq<char>)
    ensures
        valid_utf8(stem_of(utf8_bytes(f))),
        valid_utf8(ext_part(utf8_bytes(f))),
{
    let b = utf8_bytes(f);
    encode_utf8_valid_utf8(f);
    lemma_rfind_dot_bounds(b);
    let k = rfind_dot(b);
    if k < 0 {
        assert(stem_of(b) == b);
        assert(ext_part(b) == Seq::<u8>::empty());
        assert(valid_utf8(Seq::<u8>::empty()));
    } else {
        is_char_boundary_iff_not_is_continuation_byte(b, k);
        valid_utf8_split(b, k);
        assert(stem_of(b) == b.subrange(0, k));
        let sfx = b.subrange(k, b.len() as int);
        assert(valid_utf8(sfx));
        assert(sfx[0] == 46);
        assert(vstd::utf8::is_leading_byte_width_1(sfx[0]));
        assert(vstd::utf8::length_of_first_scalar(sfx) == 1);
        assert(vstd::utf8::is_char_boundary(vstd::utf8::pop_first_scalar(sfx), 0));
        assert(vstd::utf8::is_char_boundary(sfx, 1));
        valid_utf8_split(sfx, 1);
        assert(ext_of(b) =~= sfx.subrange(1, sfx.len() as int));
        if ext_of(b).len() == 0 {
            assert(ext_part(b) == Seq::<u8>::empty());
            assert(valid_utf8(Seq::<u8>::empty()));
        } else {
            lemma_ascii_valid(seq![46u8]);
            valid_utf8_concat(seq![46u8], ext_of(b));
        }
    }
}

/// Both partition segments are valid ASCII encodings.
proof fn lemma_split_seg_valid(sp: Split)
    ensures
        valid_utf8(split_seg(sp)),
        split_seg(sp).len() >= 3,
{
    lemma_segment_bytes();
    if sp is Train {
        encode_utf8_valid_utf8("train"@);
    } else {
        encode_utf8_valid_utf8("val"@);
    }
}

/// Every archive member path of an export job is valid UTF-8, whatever
/// the dataset name, image set and label index: each path concatenates
/// the name's encoding, ASCII literal segments, ASCII hexadecimal
/// digits, and filename pieces split at an ASCII dot.
pub proof fn lemma_export_paths_utf8(name: Seq<char>, images: Seq<AggView>, index: Seq<Seq<u8>>)
    ensures
        entry_paths_utf8(archive_entries_spec(utf8_bytes(name), images, index)),
{
    let nm = utf8_bytes(name);
    let es = archive_entries_spec(nm, images, index);
    let n = images.len() as int;
    encode_utf8_valid_utf8(name);
    lemma_ascii_valid(seq![47u8]);
    lemma_ascii_valid(seq![95u8]);
    lemma_image_entries_len(nm, images, index, n);
    assert forall|e: int| 0 <= e < es.len() implies valid_utf8(#[trigger] es[e].path) by {
        if e < 4 {
            assert(es[e] == dir_entries(nm)[e]);
            encode_utf8_valid_utf8("/images/train"@);
            encode_utf8_valid_utf8("/images/val"@);
            encode_utf8_valid_utf8("/labels/train"@);
            encode_utf8_valid_utf8("/labels/val"@);
            if e == 0 {
                valid_utf8_concat(nm, utf8_bytes("/images/train"@));
                valid_utf8_concat(nm + utf8_bytes("/images/train"@), seq![47u8]);
            } else if e == 1 {
                valid_utf8_concat(nm, utf8_bytes("/images/val"@));
                valid_utf8_concat(nm + utf8_bytes("/images/val"@), seq![47u8]);
            } else if e == 2 {
                valid_utf8_concat(nm, utf8_bytes("/labels/train"@));
                valid_utf8_concat(nm + utf8_bytes("/labels/train"@), seq![47u8]);
            } else {
                valid_utf8_concat(nm, utf8_bytes("/labels/val"@));
                valid_utf8_concat(nm + utf8_bytes("/labels/val"@), seq![47u8]);
            }
        } else if e == 4 {
            assert(es[4] == yaml_entry(nm, index));
            encode_utf8_valid_utf8("/data.yaml"@);
            valid_utf8_concat(nm, utf8_bytes("/data.yaml"@));
        } else {
            let m = e - 5;
            let k = m / 2;
            assert(0 <= k < n && (m == 2 * k || m == 2 * k + 1));
            lemma_image_entries_pair_at(nm, images, index, n, k);
            let img = images[k].image;
            let sp = split_of(k, n);
            assert(es[e] == image_entries(nm, images, index, n)[m]);
            let fb = utf8_bytes(img.original_filename@);
            lemma_filename_pieces_valid(img.original_filename@);
            lemma_hex_fixed_ascii(img.id as nat, 32);
            lemma_ascii_valid(hex_fixed(img.id as nat, 32));
            lemma_split_seg_valid(sp);
            encode_utf8_valid_utf8("/images/"@);
            encode_utf8_valid_utf8("/labels/"@);
            encode_utf8_valid_utf8(".txt"@);
            valid_utf8_concat(hex_fixed(img.id as nat, 32), seq![95u8]);
            valid_utf8_concat(hex_fixed(img.id as nat, 32) + seq![95u8], stem_of(fb));
            assert(valid_utf8(base_name(img)));
            if m == 2 * k {
                valid_utf8_concat(nm, utf8_bytes("/labels/"@));
                valid_utf8_concat(nm + utf8_bytes("/labels/"@), split_seg(sp));
                valid_utf8_concat(nm + utf8_bytes("/labels/"@) + split_seg(sp), seq![47u8]);
                valid_utf8_concat(
                    nm + utf8_bytes("/labels/"@) + split_seg(sp) + seq![47u8],
                    base_name(img),
                );
                valid_utf8_concat(
                    nm + utf8_bytes("/labels/"@) + split_seg(sp) + seq![47u8] + base_name(img),
                    utf8_bytes(".txt"@),
                );
                assert(es[e].path == label_path(nm, img, sp));
            } else {
                valid_utf8_concat(nm, utf8_bytes("/images/"@));
                valid_utf8_concat(nm + utf8_bytes("/images/"@), split_seg(sp));
                valid_utf8_concat(nm + utf8_bytes("/images/"@) + split_seg(sp), seq![47u8]);
                valid_utf8_concat(
                    nm + utf8_bytes("/images/"@) + split_seg(sp) + seq![47u8],
                    base_name(img),
                );
                valid_utf8_concat(
                    nm + utf8_bytes("/images/"@) + split_seg(sp) + seq![47u8] + base_name(img),
                    ext_part(fb),
                );
                assert(es[e].path == image_path(nm, img, sp));
            }
        }
    }
}

/// A label file path and an image file path can never coincide: they
/// differ right after the dataset root, at the first byte of `/labels/`
/// against `/images/`.
proof fn lemma_label_vs_image_path(
    name: Seq<u8>,
    a: ImageRecord,
    b: ImageRecord,
    sa: Split,
    sb: Split,
)
    ensures
        label_path(name, a, sa) != image_path(name, b, sb),
{
    lemma_segment_bytes();
    let la = label_path(name, a, sa);
    let ib = image_path(name, b, sb);
    if la == ib {
        let i1 = name.len() + 1;
        assert(la[i1 as int] == utf8_bytes("/labels/"@)[1]);
        assert(ib[i1 as int] == utf8_bytes("/images/"@)[1]);
        assert(false);
    }
}

/// The member paths of an export archive are pairwise distinct whenever
/// the aggregated images carry pairwise distinct ids: the fixed segments
/// tell the directories, the manifest, label files and image files
/// apart, and the 32 leading hexadecimal id digits tell same-kind files
/// apart.
#[verifier::rlimit(100)]
pub proof fn lemma_export_paths_distinct(
    name: Seq<u8>,
    images: Seq<AggView>,
    index: Seq<Seq<u8>>,
)
    requires
        forall|i: int, j: int|
            0 <= i < j < images.len() ==> images[i].image.id != images[j].image.id,
    ensures
        entry_paths_distinct(archive_entries_spec(name, images, index)),
{
    let es = archive_entries_spec(name, images, index);
    let n = images.len() as int;
    lemma_segment_bytes();
    lemma_image_entries_len(name, images, index, n);
    assert forall|i: int, j: int| 0 <= i < j < es.len() implies es[i].path != es[j].path by {
        if j < 4 {
            assert(es[i] == dir_entries(name)[i] && es[j] == dir_entries(name)[j]);
            if es[i].path == es[j].path {
                if (i == 0 && j == 1) || (i == 2 && j == 3) {
                    let q = name.len() + 8;
                    assert(es[i].path[q as int] != es[j].path[q as int]);
                } else {
                    let q = name.len() + 1;
                    assert(es[i].path[q as int] != es[j].path[q as int]);
                }
                assert(false);
            }
        } else if j == 4 {
            assert(es[i] == dir_entries(name)[i] && es[4] == yaml_entry(name, index));
            if es[i].path == es[4].path {
                let q = name.len() + 1;
                assert(es[i].path[q as int] != es[4].path[q as int]);
                assert(false);
            }
        } else {
            let m = j - 5;
            let kj = m / 2;
            assert(0 <= kj < n && (m == 2 * kj || m == 2 * kj + 1));
            lemma_image_entries_pair_at(name, images, index, n, kj);
            let bj = images[kj].image;
            let sj = split_of(kj, n);
            assert(es[j] == image_entries(name, images, index, n)[m]);
            lemma_hex_fixed_len(bj.id as nat, 32);
            assert(es[j].path.len() >= name.len() + 8 + 3 + 1 + 33) by {
                if m == 2 * kj {
                    assert(es[j].path == label_path(name, bj, sj));
                } else {
                    assert(es[j].path == image_path(name, bj, sj));
                }
            }
            if i < 4 {
                assert(es[i] == dir_entries(name)[i]);
                assert(es[i].path.len() <= name.len() + 14);
            } else if i == 4 {
                assert(es[4] == yaml_entry(name, index));
                assert(es[4].path.len() == name.len() + 10);
            } else {
                let mi = i - 5;
                let ki = mi / 2;
                assert(0 <= ki <= kj && (mi == 2 * ki || mi == 2 * ki + 1));
                lemma_image_entries_pair_at(name, images, index, n, ki);
                let bi = images[ki].image;
                let si = split_of(ki, n);
                assert(es[i] == image_entries(name, images, index, n)[mi]);
                if mi == 2 * ki && m == 2 * kj {
                    assert(ki != kj);
                    lemma_distinct_ids_distinct_paths(name, bi, bj, si, sj);
                } else if mi == 2 * ki + 1 && m == 2 * kj + 1 {
                    assert(ki != kj);
                    lemma_distinct_ids_distinct_paths(name, bi, bj, si, sj);
                } else if mi == 2 * ki && m == 2 * kj + 1 {
                    lemma_label_vs_image_path(name, bi, bj, si, sj);
                } else {
                    lemma_label_vs_image_path(name, bj, bi, sj, si);
                }
            }
        }
    }
}

} // verus!
