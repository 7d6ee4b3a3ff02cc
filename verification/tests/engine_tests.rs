use std::io::Read;

use dataset_export::engine::export_dataset;
use dataset_export::models::AnnotationRecord;
use dataset_export::models::BlobObject;
use dataset_export::models::DatasetFormat;
use dataset_export::models::ExportError;
use dataset_export::models::FetchCause;
use dataset_export::models::ExportRequest;
use dataset_export::models::FilterOptions;
use dataset_export::models::ImageRecord;
use dataset_export::models::PixelBox;

fn img(id: u128, filename: &str, w: i32, h: i32) -> ImageRecord {
    ImageRecord {
        id,
        s3_bucket: "bucket".to_string(),
        s3_key: format!("k{}", id),
        original_filename: filename.to_string(),
        width: w,
        height: h,
    }
}

fn ann(image_id: u128, label: &str, bbox: Option<PixelBox>) -> AnnotationRecord {
    AnnotationRecord { image_id, label: label.to_string(), bbox }
}

fn blob(id: u128, data: &[u8]) -> BlobObject {
    BlobObject { bucket: "bucket".to_string(), key: format!("k{}", id), data: data.to_vec() }
}

fn req(name: &str, format: DatasetFormat, labels: Vec<&str>) -> ExportRequest {
    ExportRequest {
        name: name.to_string(),
        format,
        filter: FilterOptions {
            filter_type: "labels".to_string(),
            labels: labels.into_iter().map(|s| s.to_string()).collect(),
        },
    }
}

fn archive_names(bytes: &[u8]) -> Vec<String> {
    let za = zip::ZipArchive::new(std::io::Cursor::new(bytes.to_vec())).unwrap();
    za.file_names().map(|s| s.to_string()).collect()
}

fn archive_file(bytes: &[u8], name: &str) -> Vec<u8> {
    let mut za = zip::ZipArchive::new(std::io::Cursor::new(bytes.to_vec())).unwrap();
    let mut f = za.by_name(name).unwrap();
    let mut out = Vec::new();
    f.read_to_end(&mut out).unwrap();
    out
}

#[test]
fn filter_cat_exports_exactly_the_cat_image() {
    let images = vec![img(1, "one.jpg", 10, 10), img(2, "two.jpg", 10, 10)];
    let annotations = vec![
        ann(1, "cat", Some(PixelBox { x: 1, y: 2, w: 3, h: 4 })),
        ann(2, "dog", Some(PixelBox { x: 0, y: 0, w: 5, h: 5 })),
    ];
    let blobs = vec![blob(1, b"cat-image-bytes"), blob(2, b"dog-image-bytes")];
    let r = export_dataset(&req("ds", DatasetFormat::Yolo, vec!["cat"]), &images, &annotations, &blobs);
    let bytes = r.unwrap();
    let names = archive_names(&bytes);
    // four directories, the manifest, and exactly one label/image pair
    assert_eq!(names.len(), 7);
    let hex = format!("{:032x}", 1u128);
    let label_name = format!("ds/labels/val/{}_one.txt", hex);
    let image_name = format!("ds/images/val/{}_one.jpg", hex);
    assert!(names.contains(&label_name));
    assert!(names.contains(&image_name));
    let label = archive_file(&bytes, &label_name);
    assert_eq!(
        String::from_utf8(label).unwrap(),
        "0 0.250000 0.400000 0.300000 0.400000\n"
    );
    assert_eq!(archive_file(&bytes, &image_name), b"cat-image-bytes".to_vec());
    let yaml = archive_file(&bytes, "ds/data.yaml");
    assert_eq!(
        String::from_utf8(yaml).unwrap(),
        "path: ..\ntrain: images/train\nval: images/val\nnc: 1\nnames:\n  - 'cat'\n"
    );
}

#[test]
fn archive_has_the_four_split_directories() {
    let images = vec![img(1, "a.png", 4, 4)];
    let annotations = vec![ann(1, "x", Some(PixelBox { x: 0, y: 0, w: 2, h: 2 }))];
    let blobs = vec![blob(1, b"p")];
    let bytes =
        export_dataset(&req("d", DatasetFormat::Yolo, vec![]), &images, &annotations, &blobs)
            .unwrap();
    let names = archive_names(&bytes);
    assert!(names.contains(&"d/images/train/".to_string()));
    assert!(names.contains(&"d/images/val/".to_string()));
    assert!(names.contains(&"d/labels/train/".to_string()));
    assert!(names.contains(&"d/labels/val/".to_string()));
}

#[test]
fn single_image_lands_in_val() {
    let images = vec![img(7, "only.png", 8, 8)];
    let annotations = vec![ann(7, "thing", Some(PixelBox { x: 0, y: 0, w: 4, h: 4 }))];
    let blobs = vec![blob(7, b"data")];
    let bytes =
        export_dataset(&req("d", DatasetFormat::Yolo, vec![]), &images, &annotations, &blobs)
            .unwrap();
    let names = archive_names(&bytes);
    let hex = format!("{:032x}", 7u128);
    assert!(names.contains(&format!("d/images/val/{}_only.png", hex)));
    assert!(names.contains(&format!("d/labels/val/{}_only.txt", hex)));
    assert!(!names.iter().any(|n| n.starts_with("d/images/train/") && n.len() > 16));
}

#[test]
fn two_of_two_images_split_train_then_val() {
    let images = vec![img(1, "a.png", 4, 4), img(2, "b.png", 4, 4)];
    let annotations = vec![
        ann(1, "x", Some(PixelBox { x: 0, y: 0, w: 2, h: 2 })),
        ann(2, "x", Some(PixelBox { x: 0, y: 0, w: 2, h: 2 })),
    ];
    let blobs = vec![blob(1, b"1"), blob(2, b"2")];
    let bytes =
        export_dataset(&req("d", DatasetFormat::Yolo, vec![]), &images, &annotations, &blobs)
            .unwrap();
    let names = archive_names(&bytes);
    // floor(2 * 8 / 10) = 1: the first resolved image trains, the second validates
    assert!(names.contains(&format!("d/images/train/{:032x}_a.png", 1u128)));
    assert!(names.contains(&format!("d/images/val/{:032x}_b.png", 2u128)));
}

#[test]
fn rerunning_the_engine_gives_identical_bytes() {
    let images = vec![img(1, "a.png", 4, 4), img(2, "b.png", 4, 4), img(3, "c.png", 4, 4)];
    let annotations = vec![
        ann(1, "dog", Some(PixelBox { x: 0, y: 0, w: 2, h: 2 })),
        ann(2, "cat", Some(PixelBox { x: 1, y: 1, w: 2, h: 2 })),
        ann(3, "cat", None),
    ];
    let blobs = vec![blob(1, b"1"), blob(2, b"2"), blob(3, b"3")];
    let r = req("d", DatasetFormat::Yolo, vec![]);
    let first = export_dataset(&r, &images, &annotations, &blobs).unwrap();
    let second = export_dataset(&r, &images, &annotations, &blobs).unwrap();
    assert_eq!(first, second);
}

#[test]
fn identical_filenames_with_distinct_ids_do_not_collide() {
    let images = vec![img(1, "same.png", 4, 4), img(2, "same.png", 4, 4)];
    let annotations = vec![
        ann(1, "x", Some(PixelBox { x: 0, y: 0, w: 2, h: 2 })),
        ann(2, "x", Some(PixelBox { x: 0, y: 0, w: 2, h: 2 })),
    ];
    let blobs = vec![blob(1, b"first-bytes"), blob(2, b"second-bytes")];
    let bytes =
        export_dataset(&req("d", DatasetFormat::Yolo, vec![]), &images, &annotations, &blobs)
            .unwrap();
    let names = archive_names(&bytes);
    let p1 = format!("d/images/train/{:032x}_same.png", 1u128);
    let p2 = format!("d/images/val/{:032x}_same.png", 2u128);
    assert_ne!(p1, p2);
    assert!(names.contains(&p1));
    assert!(names.contains(&p2));
    assert_eq!(archive_file(&bytes, &p1), b"first-bytes".to_vec());
    assert_eq!(archive_file(&bytes, &p2), b"second-bytes".to_vec());
}

#[test]
fn zero_width_image_gets_empty_label_file_but_is_archived() {
    let images = vec![img(5, "flat.png", 0, 10)];
    let annotations = vec![ann(5, "cat", Some(PixelBox { x: 1, y: 1, w: 2, h: 2 }))];
    let blobs = vec![blob(5, b"flat-bytes")];
    let bytes =
        export_dataset(&req("d", DatasetFormat::Yolo, vec![]), &images, &annotations, &blobs)
            .unwrap();
    let hex = format!("{:032x}", 5u128);
    let label = archive_file(&bytes, &format!("d/labels/val/{}_flat.txt", hex));
    assert!(label.is_empty());
    let data = archive_file(&bytes, &format!("d/images/val/{}_flat.png", hex));
    assert_eq!(data, b"flat-bytes".to_vec());
}

#[test]
fn out_of_range_boxes_are_skipped_not_clamped() {
    let images = vec![img(1, "a.png", 10, 10)];
    let annotations = vec![
        ann(1, "cat", Some(PixelBox { x: 1, y: 2, w: 3, h: 4 })),
        // centre beyond the right edge
        ann(1, "cat", Some(PixelBox { x: 9, y: 0, w: 5, h: 1 })),
        // negative origin pushes the centre below zero
        ann(1, "cat", Some(PixelBox { x: -8, y: 0, w: 2, h: 2 })),
        // point or polygon geometry carries no box at all
        ann(1, "cat", None),
    ];
    let blobs = vec![blob(1, b"b")];
    let bytes =
        export_dataset(&req("d", DatasetFormat::Yolo, vec![]), &images, &annotations, &blobs)
            .unwrap();
    let label =
        archive_file(&bytes, &format!("d/labels/val/{:032x}_a.txt", 1u128));
    assert_eq!(
        String::from_utf8(label).unwrap(),
        "0 0.250000 0.400000 0.300000 0.400000\n"
    );
}

#[test]
fn label_index_is_sorted_and_class_ids_stay_in_range() {
    let images = vec![img(1, "a.png", 10, 10), img(2, "b.png", 10, 10)];
    let annotations = vec![
        ann(1, "dog", Some(PixelBox { x: 0, y: 0, w: 2, h: 2 })),
        ann(2, "cat", Some(PixelBox { x: 2, y: 2, w: 2, h: 2 })),
        ann(2, "dog", Some(PixelBox { x: 4, y: 4, w: 2, h: 2 })),
    ];
    let blobs = vec![blob(1, b"1"), blob(2, b"2")];
    let bytes =
        export_dataset(&req("d", DatasetFormat::Yolo, vec![]), &images, &annotations, &blobs)
            .unwrap();
    let yaml = String::from_utf8(archive_file(&bytes, "d/data.yaml")).unwrap();
    assert_eq!(
        yaml,
        "path: ..\ntrain: images/train\nval: images/val\nnc: 2\nnames:\n  - 'cat'\n  - 'dog'\n"
    );
    // image 1 carries only "dog", which sorts to class 1
    let l1 = String::from_utf8(archive_file(
        &bytes,
        &format!("d/labels/train/{:032x}_a.txt", 1u128),
    ))
    .unwrap();
    for line in l1.lines() {
        let class: usize = line.split(' ').next().unwrap().parse().unwrap();
        assert!(class < 2);
    }
    assert!(l1.starts_with("1 "));
    // image 2 carries "cat" then "dog": classes 0 and 1
    let l2 = String::from_utf8(archive_file(
        &bytes,
        &format!("d/labels/val/{:032x}_b.txt", 2u128),
    ))
    .unwrap();
    let classes: Vec<&str> = l2.lines().map(|l| l.split(' ').next().unwrap()).collect();
    assert_eq!(classes, vec!["0", "1"]);
}

#[test]
fn missing_blob_aborts_the_whole_export() {
    let images: Vec<ImageRecord> = (1..=5).map(|i| img(i, "p.png", 10, 10)).collect();
    let annotations: Vec<AnnotationRecord> =
        (1..=5).map(|i| ann(i, "x", Some(PixelBox { x: 0, y: 0, w: 2, h: 2 }))).collect();
    // every blob but the third image's
    let blobs: Vec<BlobObject> =
        [1u128, 2, 4, 5].iter().map(|&i| blob(i, b"bytes")).collect();
    let r = export_dataset(&req("d", DatasetFormat::Yolo, vec![]), &images, &annotations, &blobs);
    assert_eq!(
        r.err().unwrap(),
        ExportError::AggregationFailed(3, FetchCause::BlobUnavailable)
    );
}

#[test]
fn missing_image_record_aborts_the_whole_export() {
    let images = vec![img(1, "a.png", 10, 10)];
    let annotations = vec![
        ann(1, "x", Some(PixelBox { x: 0, y: 0, w: 2, h: 2 })),
        ann(9, "x", Some(PixelBox { x: 0, y: 0, w: 2, h: 2 })),
    ];
    let blobs = vec![blob(1, b"b")];
    let r = export_dataset(&req("d", DatasetFormat::Yolo, vec![]), &images, &annotations, &blobs);
    assert_eq!(
        r.err().unwrap(),
        ExportError::AggregationFailed(9, FetchCause::RecordUnavailable)
    );
}

#[test]
fn empty_match_is_not_found() {
    let images = vec![img(1, "a.png", 10, 10)];
    let annotations = vec![ann(1, "cat", Some(PixelBox { x: 0, y: 0, w: 2, h: 2 }))];
    let blobs = vec![blob(1, b"b")];
    let r =
        export_dataset(&req("d", DatasetFormat::Yolo, vec!["zebra"]), &images, &annotations, &blobs);
    assert_eq!(r.err().unwrap(), ExportError::NotFound);
}

#[test]
fn formats_without_an_encoder_are_rejected() {
    let images = vec![img(1, "a.png", 10, 10)];
    let annotations = vec![ann(1, "cat", Some(PixelBox { x: 0, y: 0, w: 2, h: 2 }))];
    let blobs = vec![blob(1, b"b")];
    let r = export_dataset(&req("d", DatasetFormat::Coco, vec![]), &images, &annotations, &blobs);
    assert_eq!(r.err().unwrap(), ExportError::UnsupportedFormat);
    let r = export_dataset(&req("d", DatasetFormat::Voc, vec![]), &images, &annotations, &blobs);
    assert_eq!(r.err().unwrap(), ExportError::UnsupportedFormat);
}

#[test]
fn largest_id_renders_all_f_digits() {
    let images = vec![img(u128::MAX, "big.png", 4, 4)];
    let annotations = vec![ann(u128::MAX, "x", Some(PixelBox { x: 0, y: 0, w: 2, h: 2 }))];
    let blobs = vec![blob(u128::MAX, b"big")];
    let bytes =
        export_dataset(&req("d", DatasetFormat::Yolo, vec![]), &images, &annotations, &blobs)
            .unwrap();
    let names = archive_names(&bytes);
    let hex = "f".repeat(32);
    assert!(names.contains(&format!("d/images/val/{}_big.png", hex)));
}

#[test]
fn filename_without_extension_and_trailing_dot() {
    let images = vec![img(1, "noext", 4, 4), img(2, "dot.", 4, 4)];
    let annotations = vec![
        ann(1, "x", Some(PixelBox { x: 0, y: 0, w: 2, h: 2 })),
        ann(2, "x", Some(PixelBox { x: 0, y: 0, w: 2, h: 2 })),
    ];
    let blobs = vec![blob(1, b"1"), blob(2, b"2")];
    let bytes =
        export_dataset(&req("d", DatasetFormat::Yolo, vec![]), &images, &annotations, &blobs)
            .unwrap();
    let names = archive_names(&bytes);
    assert!(names.contains(&format!("d/images/train/{:032x}_noext", 1u128)));
    assert!(names.contains(&format!("d/images/val/{:032x}_dot", 2u128)));
}
