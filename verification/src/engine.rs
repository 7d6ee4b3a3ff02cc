//! The export engine's top-level pipeline: resolve the filter, fetch every
//! resolved image's record, bytes and annotations from the backing-store
//! snapshots, aggregate fail-fast, build the label index, and assemble the
//! archive. The whole job is a pure transformation of store contents —
//! `export_plan` — and the returned bytes are pinned to it.

use vstd::prelude::*;
use crate::aggregate::aggregate;
use crate::aggregate::aggregate_spec;
use crate::archive::archive_entries_spec;
use crate::archive::generate_yolo_zip;
use crate::labels::build_label_index;
use crate::labels::enc_labels;
use crate::labels::label_index_spec;
use crate::models::AggView;
use crate::models::AggregatedImage;
use crate::models::AnnotationRecord;
use crate::models::agg_views;
use crate::models::fetch_views;
use crate::models::FetchView;
use crate::models::BlobObject;
use crate::models::DatasetFormat;
use crate::models::ExportError;
use crate::models::ExportRequest;
use crate::models::FetchCause;
use crate::models::FetchResult;
use crate::models::ImageRecord;
use crate::resolver::resolve;
use crate::resolver::resolve_spec;
use crate::laws::lemma_export_paths_distinct;
use crate::laws::lemma_export_paths_utf8;
use crate::resolver::lemma_resolve_distinct;
use crate::strutil::string_eq;
use crate::strutil::utf8_bytes;
use crate::zipio::ZipEntry;
use crate::zipio::entries_writable;
use crate::zipio::entry_data_small;
use crate::zipio::entry_paths_short;
use crate::zipio::zip_encoding;
use vstd::slice::slice_to_vec;

verus! {

/// The first image record with the given id, or `-1`.
pub open spec fn find_image(images: Seq<ImageRecord>, id: u128) -> int
    decreases images.len(),
{
    if images.len() == 0 {
        -1
    } else if images[0].id == id {
        0
    } else {
        let r = find_image(images.skip(1), id);
        if r < 0 {
            -1
        } else {
            r + 1
        }
    }
}

/// The first blob object under the given bucket and key, or `-1`.
pub open spec fn find_blob(blobs: Seq<BlobObject>, bucket: Seq<char>, key: Seq<char>) -> int
    decreases blobs.len(),
{
    if blobs.len() == 0 {
        -1
    } else if blobs[0].bucket@ == bucket && blobs[0].key@ == key {
        0
    } else {
        let r = find_blob(blobs.skip(1), bucket, key);
        if r < 0 {
            -1
        } else {
            r + 1
        }
    }
}

/// The annotations of one image, in store order.
pub open spec fn anns_for(anns: Seq<AnnotationRecord>, id: u128) -> Seq<AnnotationRecord>
    decreases anns.len(),
{
    if anns.len() == 0 {
        Seq::empty()
    } else {
        anns_for(anns.drop_last(), id) + if anns.last().image_id == id {
            seq![anns.last()]
        } else {
            Seq::empty()
        }
    }
}

/// Every store annotation of an image is carried into that image's
/// aggregated annotation list.
pub proof fn lemma_anns_for_complete(anns: Seq<AnnotationRecord>, id: u128, j: int)
    requires
        0 <= j < anns.len(),
        anns[j].image_id == id,
    ensures
        anns_for(anns, id).contains(anns[j]),
    decreases anns.len(),
{
    if j == anns.len() - 1 {
        assert(anns_for(anns, id).last() == anns[j]);
    } else {
        assert(anns.drop_last()[j] == anns[j]);
        lemma_anns_for_complete(anns.drop_last(), id, j);
        let prev = anns_for(anns.drop_last(), id);
        let k = choose|k: int| 0 <= k < prev.len() && prev[k] == anns[j];
        assert(anns_for(anns, id)[k] == anns[j]);
    }
}

/// The outcome of the three fetches for one image: its record by id, its
/// bytes by the record's locator, and its annotations. A missing record or
/// missing blob object is that image's fetch failure, and the cause says
/// which store failed it.
pub open spec fn fetch_one_spec(
    id: u128,
    images: Seq<ImageRecord>,
    anns: Seq<AnnotationRecord>,
    blobs: Seq<BlobObject>,
) -> Result<AggView, FetchCause> {
    let ii = find_image(images, id);
    if ii < 0 {
        Err(FetchCause::RecordUnavailable)
    } else {
        let img = images[ii];
        let bi = find_blob(blobs, img.s3_bucket@, img.s3_key@);
        if bi < 0 {
            Err(FetchCause::BlobUnavailable)
        } else {
            Ok(AggView { image: img, data: blobs[bi].data@, annotations: anns_for(anns, id) })
        }
    }
}

/// The per-image outcomes of every resolved id, in resolver order.
pub open spec fn fetch_results_spec(
    ids: Seq<u128>,
    images: Seq<ImageRecord>,
    anns: Seq<AnnotationRecord>,
    blobs: Seq<BlobObject>,
) -> Seq<FetchView> {
    ids.map_values(|id: u128| FetchView { id, outcome: fetch_one_spec(id, images, anns, blobs) })
}

/// The whole export as a pure function of the request and the backing
/// stores: either the archive's member sequence, or the first error the
/// pipeline hits — no matching image, a failed fetch, an empty label set,
/// or a format without an encoder, in that order.
pub open spec fn export_plan(
    req: ExportRequest,
    images: Seq<ImageRecord>,
    anns: Seq<AnnotationRecord>,
    blobs: Seq<BlobObject>,
) -> Result<Seq<ZipEntry>, ExportError> {
    let ids = resolve_spec(req.filter.labels@, anns);
    if ids.len() == 0 {
        Err(ExportError::NotFound)
    } else {
        match aggregate_spec(fetch_results_spec(ids, images, anns, blobs)) {
            Err(f) => Err(ExportError::AggregationFailed(f.0, f.1)),
            Ok(aggregated) => {
                let index = label_index_spec(aggregated);
                if index.len() == 0 {
                    Err(ExportError::NoLabelsFound)
                } else if !(req.format is Yolo) {
                    Err(ExportError::UnsupportedFormat)
                } else {
                    Ok(archive_entries_spec(utf8_bytes(req.name@), aggregated, index))
                }
            },
        }
    }
}

/// A found image record carries the id it was looked up by.
proof fn lemma_find_image_found(images: Seq<ImageRecord>, id: u128)
    requires
        find_image(images, id) >= 0,
    ensures
        find_image(images, id) < images.len(),
        images[find_image(images, id)].id == id,
    decreases images.len(),
{
    if images.len() > 0 && images[0].id != id {
        lemma_find_image_found(images.skip(1), id);
        assert(images.skip(1)[find_image(images.skip(1), id)] == images[find_image(images, id)]);
    }
}

/// A successful aggregation pairs each aggregated image with its resolved
/// id, position by position.
proof fn lemma_fetch_ok_ids(
    ids: Seq<u128>,
    images: Seq<ImageRecord>,
    anns: Seq<AnnotationRecord>,
    blobs: Seq<BlobObject>,
)
    requires
        aggregate_spec(fetch_results_spec(ids, images, anns, blobs)) is Ok,
    ensures
        aggregate_spec(fetch_results_spec(ids, images, anns, blobs))->Ok_0.len() == ids.len(),
        forall|i: int|
            0 <= i < ids.len() ==> aggregate_spec(
                fetch_results_spec(ids, images, anns, blobs),
            )->Ok_0[i].image.id == ids[i],
{
    let results = fetch_results_spec(ids, images, anns, blobs);
    crate::aggregate::lemma_aggregate_ok_outcomes(results);
    let aggregated = aggregate_spec(results)->Ok_0;
    assert(aggregated == crate::aggregate::outcome_images(results));
    assert forall|i: int| 0 <= i < ids.len() implies aggregated[i].image.id == ids[i] by {
        assert(results[i] == (FetchView {
            id: ids[i],
            outcome: fetch_one_spec(ids[i], images, anns, blobs),
        }));
        assert(results[i].outcome is Ok);
        lemma_find_image_found(images, ids[i]);
        assert(aggregated[i] == results[i].outcome->Ok_0);
    }
}

/// A field-by-field copy of an image record.
fn clone_image(img: &ImageRecord) -> (r: ImageRecord)
    ensures
        r == *img,
{
    ImageRecord {
        id: img.id,
        s3_bucket: img.s3_bucket.clone(),
        s3_key: img.s3_key.clone(),
        original_filename: img.original_filename.clone(),
        width: img.width,
        height: img.height,
    }
}

/// A field-by-field copy of an annotation record.
fn clone_ann(ann: &AnnotationRecord) -> (r: AnnotationRecord)
    ensures
        r == *ann,
{
    AnnotationRecord { image_id: ann.image_id, label: ann.label.clone(), bbox: ann.bbox }
}

/// Looks an image record up by id.
fn image_for(images: &Vec<ImageRecord>, id: u128) -> (r: Option<usize>)
    ensures
        match r {
            Some(k) => find_image(images@, id) == k && k < images@.len(),
            None => find_image(images@, id) < 0,
        },
{
    let mut i: usize = 0;
    while i < images.len()
        invariant
            i <= images@.len(),
            forall|j: int| 0 <= j < i ==> images@[j].id != id,
        decreases images@.len() - i,
    {
        if images[i].id == id {
            proof {
                lemma_find_first_image(images@, id, i as int);
            }
            return Some(i);
        }
        i = i + 1;
    }
    proof {
        lemma_find_image_none(images@, id);
    }
    None
}

proof fn lemma_find_first_image(images: Seq<ImageRecord>, id: u128, k: int)
    requires
        0 <= k < images.len(),
        forall|j: int| 0 <= j < k ==> images[j].id != id,
        images[k].id == id,
    ensures
        find_image(images, id) == k,
    decreases images.len(),
{
    if k > 0 {
        assert forall|j: int| 0 <= j < k - 1 implies images.skip(1)[j].id != id by {
            assert(images.skip(1)[j] == images[j + 1]);
        }
        assert(images.skip(1)[k - 1] == images[k]);
        lemma_find_first_image(images.skip(1), id, k - 1);
    }
}

proof fn lemma_find_image_none(images: Seq<ImageRecord>, id: u128)
    requires
        forall|j: int| 0 <= j < images.len() ==> images[j].id != id,
    ensures
        find_image(images, id) < 0,
    decreases images.len(),
{
    if images.len() > 0 {
        assert forall|j: int| 0 <= j < images.skip(1).len() implies images.skip(1)[j].id != id by {
            assert(images.skip(1)[j] == images[j + 1]);
        }
        lemma_find_image_none(images.skip(1), id);
    }
}

/// Looks a blob object up by bucket and key.
fn blob_for(blobs: &Vec<BlobObject>, bucket: &String, key: &String) -> (r: Option<usize>)
    ensures
        match r {
            Some(k) => find_blob(blobs@, bucket@, key@) == k && k < blobs@.len(),
            None => find_blob(blobs@, bucket@, key@) < 0,
        },
{
    let mut i: usize = 0;
    while i < blobs.len()
        invariant
            i <= blobs@.len(),
            forall|j: int|
                0 <= j < i ==> !(blobs@[j].bucket@ == bucket@ && blobs@[j].key@ == key@),
        decreases blobs@.len() - i,
    {
        if string_eq(&blobs[i].bucket, bucket) && string_eq(&blobs[i].key, key) {
            proof {
                lemma_find_first_blob(blobs@, bucket@, key@, i as int);
            }
            return Some(i);
        }
        i = i + 1;
    }
    proof {
        lemma_find_blob_none(blobs@, bucket@, key@);
    }
    None
}

proof fn lemma_find_first_blob(blobs: Seq<BlobObject>, bucket: Seq<char>, key: Seq<char>, k: int)
    requires
        0 <= k < blobs.len(),
        forall|j: int| 0 <= j < k ==> !(blobs[j].bucket@ == bucket && blobs[j].key@ == key),
        blobs[k].bucket@ == bucket && blobs[k].key@ == key,
    ensures
        find_blob(blobs, bucket, key) == k,
    decreases blobs.len(),
{
    if k > 0 {
        assert forall|j: int|
            0 <= j < k - 1 implies !(blobs.skip(1)[j].bucket@ == bucket && blobs.skip(1)[j].key@
            == key) by {
            assert(blobs.skip(1)[j] == blobs[j + 1]);
        }
        assert(blobs.skip(1)[k - 1] == blobs[k]);
        lemma_find_first_blob(blobs.skip(1), bucket, key, k - 1);
    }
}

proof fn lemma_find_blob_none(blobs: Seq<BlobObject>, bucket: Seq<char>, key: Seq<char>)
    requires
        forall|j: int|
            0 <= j < blobs.len() ==> !(blobs[j].bucket@ == bucket && blobs[j].key@ == key),
    ensures
        find_blob(blobs, bucket, key) < 0,
    decreases blobs.len(),
{
    if blobs.len() > 0 {
        assert forall|j: int|
            0 <= j < blobs.skip(1).len() implies !(blobs.skip(1)[j].bucket@ == bucket && blobs.skip(
            1,
        )[j].key@ == key) by {
            assert(blobs.skip(1)[j] == blobs[j + 1]);
        }
        lemma_find_blob_none(blobs.skip(1), bucket, key);
    }
}

/// Collects one image's annotations, in store order.
fn collect_anns(anns: &Vec<AnnotationRecord>, id: u128) -> (r: Vec<AnnotationRecord>)
    ensures
        r@ == anns_for(anns@, id),
{
    let mut out: Vec<AnnotationRecord> = Vec::new();
    let mut i: usize = 0;
    while i < anns.len()
        invariant
            i <= anns@.len(),
            out@ == anns_for(anns@.take(i as int), id),
        decreases anns@.len() - i,
    {
        if anns[i].image_id == id {
            out.push(clone_ann(&anns[i]));
        }
        proof {
            assert(anns@.take(i + 1).drop_last() =~= anns@.take(i as int));
            assert(anns@.take(i + 1).last() == anns@[i as int]);
            if anns@[i as int].image_id == id {
                assert(out@ =~= anns_for(anns@.take(i + 1), id));
            } else {
                assert(out@ =~= anns_for(anns@.take(i + 1), id));
            }
        }
        i = i + 1;
    }
    proof {
        assert(anns@.take(i as int) =~= anns@);
    }
    out
}

/// Performs the three per-image fetches against the store snapshots.
fn fetch_one(
    id: u128,
    images: &Vec<ImageRecord>,
    anns: &Vec<AnnotationRecord>,
    blobs: &Vec<BlobObject>,
) -> (r: FetchResult)
    ensures
        r@ == (FetchView { id, outcome: fetch_one_spec(id, images@, anns@, blobs@) }),
{
    match image_for(images, id) {
        None => FetchResult { id, outcome: Err(FetchCause::RecordUnavailable) },
        Some(ii) => {
            let img = clone_image(&images[ii]);
            match blob_for(blobs, &img.s3_bucket, &img.s3_key) {
                None => FetchResult { id, outcome: Err(FetchCause::BlobUnavailable) },
                Some(bi) => {
                    let data = slice_to_vec(blobs[bi].data.as_slice());
                    let annotations = collect_anns(anns, id);
                    assert(data@ == blobs@[bi as int].data@);
                    FetchResult {
                        id,
                        outcome: Ok(AggregatedImage { image: img, data, annotations }),
                    }
                },
            }
        },
    }
}

/// Fans the fetches out over every resolved id and collects the outcomes
/// in resolver order.
fn fetch_all(
    ids: &Vec<u128>,
    images: &Vec<ImageRecord>,
    anns: &Vec<AnnotationRecord>,
    blobs: &Vec<BlobObject>,
) -> (r: Vec<FetchResult>)
    ensures
        fetch_views(r@) == fetch_results_spec(ids@, images@, anns@, blobs@),
{
    let mut out: Vec<FetchResult> = Vec::new();
    let mut i: usize = 0;
    while i < ids.len()
        invariant
            i <= ids@.len(),
            fetch_views(out@) == fetch_results_spec(ids@.take(i as int), images@, anns@, blobs@),
        decreases ids@.len() - i,
    {
        let ghost prev_out = out@;
        out.push(fetch_one(ids[i], images, anns, blobs));
        proof {
            let target = fetch_results_spec(ids@.take(i + 1), images@, anns@, blobs@);
            assert(fetch_views(prev_out).len() == prev_out.len());
            assert(fetch_views(out@).len() == out@.len());
            assert(out@.len() == prev_out.len() + 1);
            assert(target.len() == ids@.take(i + 1).len());
            assert(fetch_views(out@).len() == target.len());
            assert forall|j: int| 0 <= j < out@.len() implies fetch_views(out@)[j] == target[j] by {
                assert(fetch_views(out@)[j] == out@[j]@);
                assert(target[j] == (FetchView {
                    id: ids@.take(i + 1)[j],
                    outcome: fetch_one_spec(ids@.take(i + 1)[j], images@, anns@, blobs@),
                }));
                if j < i {
                    assert(out@[j] == prev_out[j]);
                    assert(fetch_views(prev_out)[j] == prev_out[j]@);
                    assert(fetch_results_spec(ids@.take(i as int), images@, anns@, blobs@)[j]
                        == (FetchView {
                        id: ids@.take(i as int)[j],
                        outcome: fetch_one_spec(ids@.take(i as int)[j], images@, anns@, blobs@),
                    }));
                    assert(ids@.take(i as int)[j] == ids@.take(i + 1)[j]);
                }
            }
            assert(fetch_views(out@) =~= target);
        }
        i = i + 1;
    }
    proof {
        assert(ids@.take(i as int) =~= ids@);
        assert(fetch_results_spec(ids@.take(i as int), images@, anns@, blobs@) =~= fetch_results_spec(
            ids@,
            images@,
            anns@,
            blobs@,
        ));
    }
    out
}

/// Runs one export job against snapshots of the backing stores: resolves
/// the filter, fetches and aggregates every matching image fail-fast,
/// builds the label index, and assembles the archive. The outcome is
/// exactly `export_plan` of the inputs; only the archive-write step may
/// turn a planned success into `ArchiveWriteFailed`, and only when the
/// planned members overrun the archive format — names too long for its
/// name field or data past its stored-size threshold. Planned members
/// within those bounds are guaranteed to be written: their paths are
/// distinct and valid by construction.
pub fn export_dataset(
    req: &ExportRequest,
    images: &Vec<ImageRecord>,
    annotations: &Vec<AnnotationRecord>,
    blobs: &Vec<BlobObject>,
) -> (r: Result<Vec<u8>, ExportError>)
    ensures
        match export_plan(*req, images@, annotations@, blobs@) {
            Err(e) => r == Err::<Vec<u8>, ExportError>(e),
            Ok(entries) => {
                &&& match r {
                    Ok(bytes) => bytes@ == zip_encoding(entries),
                    Err(e) => e == ExportError::ArchiveWriteFailed,
                }
                &&& (entry_paths_short(entries) && entry_data_small(entries)) ==> r is Ok
            },
        },
{
    let ids = resolve(&req.filter.labels, annotations);
    if ids.len() == 0 {
        return Err(ExportError::NotFound);
    }
    let results = fetch_all(&ids, images, annotations, blobs);
    let aggregated = match aggregate(results) {
        Ok(a) => a,
        Err(e) => {
            return Err(e);
        },
    };
    let index = build_label_index(&aggregated);
    if index.len() == 0 {
        assert(label_index_spec(agg_views(aggregated@)).len() == 0);
        return Err(ExportError::NoLabelsFound);
    }
    match req.format {
        DatasetFormat::Yolo => {},
        _ => {
            return Err(ExportError::UnsupportedFormat);
        },
    }
    proof {
        let ids_s = resolve_spec(req.filter.labels@, annotations@);
        lemma_resolve_distinct(req.filter.labels@, annotations@);
        lemma_fetch_ok_ids(ids_s, images@, annotations@, blobs@);
        let av = agg_views(aggregated@);
        assert forall|a: int, b: int|
            0 <= a < b < av.len() implies av[a].image.id != av[b].image.id by {
            assert(av[a].image.id == ids_s[a] && av[b].image.id == ids_s[b]);
        }
        lemma_export_paths_distinct(utf8_bytes(req.name@), av, enc_labels(index@));
        lemma_export_paths_utf8(req.name@, av, enc_labels(index@));
    }
    generate_yolo_zip(&aggregated, &index, &req.name)
}

} // verus!
