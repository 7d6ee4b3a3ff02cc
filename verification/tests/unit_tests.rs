use dataset_export::aggregate::aggregate;
use dataset_export::encoder::encode_label_file;
use dataset_export::keys::dataset_archive_key;
use dataset_export::keys::dataset_download_url;
use dataset_export::keys::upload_object_key;
use dataset_export::keys::uuid_hyphenated;
use dataset_export::labels::build_label_index;
use dataset_export::labels::distinct_sorted_labels;
use dataset_export::models::AggregatedImage;
use dataset_export::models::AnnotationRecord;
use dataset_export::models::DatasetFormat;
use dataset_export::models::ExportError;
use dataset_export::models::FetchCause;
use dataset_export::models::FetchResult;
use dataset_export::models::ImageRecord;
use dataset_export::models::PixelBox;
use dataset_export::numtext::push_dec_u64;
use dataset_export::numtext::push_fixed6;
use dataset_export::numtext::push_hex_fixed;
use dataset_export::resolver::resolve;
use dataset_export::split::assign_splits;
use dataset_export::split::compute_train_count;
use dataset_export::split::Split;
use dataset_export::web::mutation_status;
use dataset_export::web::strip_stage_prefix;

fn ann(image_id: u128, label: &str, bbox: Option<PixelBox>) -> AnnotationRecord {
    AnnotationRecord { image_id, label: label.to_string(), bbox }
}

fn agg(id: u128, w: i32, h: i32, anns: Vec<AnnotationRecord>) -> AggregatedImage {
    AggregatedImage {
        image: ImageRecord {
            id,
            s3_bucket: "b".to_string(),
            s3_key: format!("k{}", id),
            original_filename: "f.png".to_string(),
            width: w,
            height: h,
        },
        data: vec![1, 2, 3],
        annotations: anns,
    }
}

#[test]
fn resolver_keeps_first_occurrence_order_and_dedups() {
    let annotations = vec![
        ann(3, "cat", None),
        ann(1, "dog", None),
        ann(3, "dog", None),
        ann(2, "cat", None),
    ];
    let all = resolve(&vec![], &annotations);
    assert_eq!(all, vec![3, 1, 2]);
    let cats = resolve(&vec!["cat".to_string()], &annotations);
    assert_eq!(cats, vec![3, 2]);
    let none = resolve(&vec!["zebra".to_string()], &annotations);
    assert!(none.is_empty());
}

#[test]
fn label_index_sorts_and_dedups() {
    let images = vec![
        agg(1, 4, 4, vec![ann(1, "dog", None), ann(1, "ant", None)]),
        agg(2, 4, 4, vec![ann(2, "cat", None), ann(2, "dog", None)]),
    ];
    let index = build_label_index(&images);
    assert_eq!(index, vec!["ant".to_string(), "cat".to_string(), "dog".to_string()]);
}

#[test]
fn distinct_labels_listing_is_sorted() {
    let labels = vec!["b".to_string(), "a".to_string(), "b".to_string(), "c".to_string()];
    let r = distinct_sorted_labels(&labels);
    assert_eq!(r.labels, vec!["a".to_string(), "b".to_string(), "c".to_string()]);
}

#[test]
fn train_counts_round_down() {
    assert_eq!(compute_train_count(0), 0);
    assert_eq!(compute_train_count(1), 0);
    assert_eq!(compute_train_count(2), 1);
    assert_eq!(compute_train_count(5), 4);
    assert_eq!(compute_train_count(10), 8);
}

#[test]
fn splits_follow_ordinal_position() {
    let images = vec![
        agg(1, 4, 4, vec![]),
        agg(2, 4, 4, vec![]),
        agg(3, 4, 4, vec![]),
        agg(4, 4, 4, vec![]),
        agg(5, 4, 4, vec![]),
    ];
    let splits = assign_splits(&images);
    assert_eq!(
        splits,
        vec![Split::Train, Split::Train, Split::Train, Split::Train, Split::Val]
    );
    let lone = vec![agg(9, 4, 4, vec![])];
    let one = assign_splits(&lone);
    assert_eq!(one, vec![Split::Val]);
}

#[test]
fn encoder_emits_six_decimal_lines() {
    let anns = vec![ann(1, "cat", Some(PixelBox { x: 1, y: 2, w: 3, h: 4 }))];
    let index = vec!["cat".to_string()];
    let content = encode_label_file(&anns, 10, 10, &index);
    assert_eq!(
        String::from_utf8(content).unwrap(),
        "0 0.250000 0.400000 0.300000 0.400000\n"
    );
}

#[test]
fn encoder_rounds_to_nearest_millionth() {
    // 1/3 of the width: 0.333333...; 2/3: 0.666666... rounds up to 0.666667
    let anns = vec![ann(1, "x", Some(PixelBox { x: 0, y: 0, w: 1, h: 2 }))];
    let index = vec!["x".to_string()];
    let content = encode_label_file(&anns, 3, 3, &index);
    assert_eq!(
        String::from_utf8(content).unwrap(),
        "0 0.166667 0.333333 0.333333 0.666667\n"
    );
}

#[test]
fn encoder_skips_zero_dimension_images() {
    let anns = vec![ann(1, "cat", Some(PixelBox { x: 0, y: 0, w: 1, h: 1 }))];
    let index = vec!["cat".to_string()];
    assert!(encode_label_file(&anns, 0, 10, &index).is_empty());
    assert!(encode_label_file(&anns, 10, 0, &index).is_empty());
}

#[test]
fn encoder_skips_unindexed_labels() {
    let anns = vec![ann(1, "stray", Some(PixelBox { x: 0, y: 0, w: 1, h: 1 }))];
    let index = vec!["cat".to_string()];
    assert!(encode_label_file(&anns, 10, 10, &index).is_empty());
}

#[test]
fn encoder_accepts_full_frame_box() {
    let anns = vec![ann(1, "cat", Some(PixelBox { x: 0, y: 0, w: 10, h: 10 }))];
    let index = vec!["cat".to_string()];
    let content = encode_label_file(&anns, 10, 10, &index);
    assert_eq!(
        String::from_utf8(content).unwrap(),
        "0 0.500000 0.500000 1.000000 1.000000\n"
    );
}

#[test]
fn decimal_and_hex_rendering() {
    let mut v: Vec<u8> = Vec::new();
    push_dec_u64(&mut v, 0);
    v.push(b' ');
    push_dec_u64(&mut v, 1234);
    assert_eq!(String::from_utf8(v).unwrap(), "0 1234");
    let mut h: Vec<u8> = Vec::new();
    push_hex_fixed(&mut h, 0xabc, 8);
    assert_eq!(String::from_utf8(h).unwrap(), "00000abc");
    let mut f: Vec<u8> = Vec::new();
    push_fixed6(&mut f, 1000000);
    f.push(b' ');
    push_fixed6(&mut f, 250000);
    f.push(b' ');
    push_fixed6(&mut f, 0);
    assert_eq!(String::from_utf8(f).unwrap(), "1.000000 0.250000 0.000000");
}

#[test]
fn identifiers_render_hyphenated() {
    assert_eq!(uuid_hyphenated(0), "00000000-0000-0000-0000-000000000000");
    assert_eq!(
        uuid_hyphenated(0x123e4567_e89b_12d3_a456_426614174000),
        "123e4567-e89b-12d3-a456-426614174000"
    );
    assert_eq!(uuid_hyphenated(u128::MAX), "ffffffff-ffff-ffff-ffff-ffffffffffff");
}

#[test]
fn object_keys_and_urls() {
    let key = upload_object_key(5, &"photo.png".to_string());
    assert_eq!(key, "images/00000000-0000-0000-0000-000000000005_photo.png");
    let dkey = dataset_archive_key(5, &"my-set".to_string());
    assert_eq!(dkey, "datasets/00000000-0000-0000-0000-000000000005/my-set.zip");
    let url = dataset_download_url(&"b".to_string(), &dkey);
    assert_eq!(
        url,
        "https://s3.ap-northeast-1.amazonaws.com/b/datasets/00000000-0000-0000-0000-000000000005/my-set.zip"
    );
}

#[test]
fn mutation_statuses() {
    assert_eq!(mutation_status(3, 200), 200);
    assert_eq!(mutation_status(0, 200), 404);
    assert_eq!(mutation_status(1, 204), 204);
    assert_eq!(mutation_status(0, 204), 404);
}

#[test]
fn stage_prefix_stripping() {
    assert_eq!(strip_stage_prefix("/v1/api/images", "v1"), Some("/api/images".to_string()));
    assert_eq!(strip_stage_prefix("/v1", "v1"), Some("".to_string()));
    assert_eq!(strip_stage_prefix("/v2/api", "v1"), None);
    assert_eq!(strip_stage_prefix("api", "v1"), None);
    assert_eq!(strip_stage_prefix("/v", "v1"), None);
}

#[test]
fn aggregation_reports_the_first_failing_fetch_and_its_cause() {
    let results = vec![
        FetchResult { id: 1, outcome: Ok(agg(1, 4, 4, vec![])) },
        FetchResult { id: 2, outcome: Err(FetchCause::AnnotationsUnavailable) },
        FetchResult { id: 3, outcome: Err(FetchCause::BlobUnavailable) },
    ];
    let r = aggregate(results);
    assert_eq!(
        r.err().unwrap(),
        ExportError::AggregationFailed(2, FetchCause::AnnotationsUnavailable)
    );
    let ok = aggregate(vec![FetchResult { id: 7, outcome: Ok(agg(7, 4, 4, vec![])) }]);
    let images = ok.unwrap();
    assert_eq!(images.len(), 1);
    assert_eq!(images[0].image.id, 7);
}

#[test]
fn error_statuses_distinguish_outcomes() {
    assert_eq!(ExportError::DataUnavailable.http_status(), 500);
    assert_eq!(ExportError::NotFound.http_status(), 404);
    assert_eq!(ExportError::AggregationFailed(9, FetchCause::BlobUnavailable).http_status(), 500);
    assert_eq!(ExportError::NoLabelsFound.http_status(), 404);
    assert_eq!(ExportError::UnsupportedFormat.http_status(), 501);
    assert_eq!(ExportError::ArchiveWriteFailed.http_status(), 500);
}

#[test]
fn format_names() {
    assert_eq!(DatasetFormat::Yolo.as_str(), "yolo");
    assert_eq!(DatasetFormat::Coco.as_str(), "coco");
    assert_eq!(DatasetFormat::Voc.as_str(), "voc");
}

#[test]
fn empty_annotation_set_gives_empty_index() {
    let images = vec![agg(1, 4, 4, vec![])];
    let index = build_label_index(&images);
    assert!(index.is_empty());
}
