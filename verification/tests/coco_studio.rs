use edgefirst_client::coco::studio::{coco_source, require_images, server_annotation_label, CocoOperation, CocoSource};
use edgefirst_client::dataset::Label;
use edgefirst_client::coco::studio::{image_search_dirs, images_to_check};
use edgefirst_client::coco::studio::{
    convert_coco_image_to_sample, plan_annotation_update, select_images_for_import,
    CocoExportOptions, CocoImportOptions, CocoIndex,
};
use edgefirst_client::coco::types::{CocoAnnotation, CocoCategory, CocoDataset, CocoImage};

fn bbox(x: f64, y: f64, w: f64, h: f64) -> [u64; 4] {
    [x.to_bits(), y.to_bits(), w.to_bits(), h.to_bits()]
}

#[test]
fn test_coco_import_options_default() {
    let options = CocoImportOptions::default();
    assert!(options.include_masks);
    assert!(options.include_images);
    assert!(options.group.is_none());
    assert_eq!(options.batch_size, 100);
    assert_eq!(options.concurrency, 64);
    assert!(options.resume);
}

#[test]
fn test_coco_export_options_default() {
    let options = CocoExportOptions::default();
    assert!(options.groups.is_empty());
    assert!(options.include_masks);
    assert!(!options.include_images);
    assert!(!options.output_zip);
}

#[test]
fn test_convert_coco_image_to_sample() {
    let image = CocoImage {
        id: 1,
        width: 640,
        height: 480,
        file_name: "test.jpg".to_string(),
        ..Default::default()
    };

    let dataset = CocoDataset {
        images: vec![image.clone()],
        categories: vec![CocoCategory {
            id: 1,
            name: "person".to_string(),
            supercategory: None,
            ..Default::default()
        }],
        annotations: vec![CocoAnnotation {
            id: 1,
            image_id: 1,
            category_id: 1,
            bbox: bbox(100.0, 50.0, 200.0, 150.0),
            area: 30000.0f64.to_bits(),
            iscrowd: 0,
            segmentation: None,
            ..Default::default()
        }],
        ..Default::default()
    };

    let index = CocoIndex::from_dataset(&dataset);

    // No image file: images are not included.
    let sample = convert_coco_image_to_sample(&image, &index, None, true, Some("train")).unwrap();

    assert_eq!(sample.image_name, Some("test".to_string()));
    assert_eq!(sample.width, Some(640));
    assert_eq!(sample.height, Some(480));
    assert_eq!(sample.group, Some("train".to_string()));
    assert_eq!(sample.annotations.len(), 1);
    assert_eq!(sample.annotations[0].label(), Some(&"person".to_string()));
}

#[test]
fn import_selection_counts() {
    let images: Vec<CocoImage> = ["train2017/a.jpg", "train2017/b.jpg", "val2017/c.jpg", "train2017/d.jpg"]
        .iter()
        .enumerate()
        .map(|(i, f)| CocoImage { id: i as u64, file_name: f.to_string(), ..Default::default() })
        .collect();
    let groups = vec![
        Some("train".to_string()),
        Some("train".to_string()),
        Some("val".to_string()),
        Some("train".to_string()),
    ];
    let existing = vec!["b".to_string()];
    let sel = select_images_for_import(&images, &existing, Some("train"), &groups);
    assert_eq!(sel.to_import, vec![0, 3]);
    assert_eq!(sel.filtered_by_group, 1);
    assert_eq!(sel.skipped, 1);
    let all = select_images_for_import(&images, &existing, None, &groups);
    assert_eq!(all.to_import, vec![0, 2, 3]);
    assert_eq!(all.filtered_by_group, 0);
    assert_eq!(all.skipped, 1);
}

#[test]
fn annotation_update_plan() {
    let images: Vec<CocoImage> = ["train2017/a.jpg", "x.jpg", "val2017/b.png"]
        .iter()
        .enumerate()
        .map(|(i, f)| CocoImage { id: i as u64, file_name: f.to_string(), ..Default::default() })
        .collect();
    let names = vec!["a".to_string(), "b".to_string(), "a".to_string()];
    let groups = vec![Some("train".to_string()), None, Some("val".to_string())];
    let expected = vec![Some("train".to_string()), None, Some("val".to_string())];
    let plan = plan_annotation_update(&images, &names, &groups, &expected);
    assert_eq!(plan.matched, vec![(0, 2), (2, 1)]);
    assert_eq!(plan.not_found, 1);
    assert_eq!(plan.group_updates, vec![(2, "train".to_string()), (1, "val".to_string())]);
}

#[test]
fn index_lookups() {
    let dataset = CocoDataset {
        categories: vec![
            CocoCategory { id: 3, name: "first".to_string(), supercategory: None, ..Default::default() },
            CocoCategory { id: 3, name: "second".to_string(), supercategory: None, ..Default::default() },
        ],
        annotations: vec![
            CocoAnnotation { id: 1, image_id: 5, category_id: 3, ..Default::default() },
            CocoAnnotation { id: 2, image_id: 6, category_id: 3, ..Default::default() },
            CocoAnnotation { id: 3, image_id: 5, category_id: 9, ..Default::default() },
        ],
        ..Default::default()
    };
    let index = CocoIndex::from_dataset(&dataset);
    let anns = index.annotations_for_image(5);
    assert_eq!(anns.iter().map(|a| a.id).collect::<Vec<_>>(), vec![1, 3]);
    assert_eq!(index.label_name(3), Some("first"));
    assert_eq!(index.label_name(9), None);
    assert_eq!(index.label_index(3), Some(3));
    assert_eq!(index.label_index(9), None);
    let image = CocoImage { id: 5, width: 10, height: 20, file_name: "dir/pic.jpg".to_string(), ..Default::default() };
    let sample = convert_coco_image_to_sample(&image, &index, Some("/data/pic.jpg".to_string()), false, None).unwrap();
    assert_eq!(sample.annotations.len(), 1);
    assert_eq!(sample.annotations[0].name, Some("pic".to_string()));
    assert_eq!(sample.annotations[0].label_index, Some(3));
    assert!(sample.annotations[0].mask.is_none());
    assert_eq!(sample.files.len(), 1);
    assert_eq!(sample.files[0].file_type, "image");
    assert_eq!(sample.files[0].filename, Some("/data/pic.jpg".to_string()));
    assert!(sample.group.is_none());
}

#[test]
fn image_search_locations() {
    assert_eq!(
        image_search_dirs(),
        vec!["", "images", "train2017", "val2017", "test2017", "train2014", "val2014"]
    );
    assert_eq!(images_to_check(3), 3);
    assert_eq!(images_to_check(500), 5);
}

#[test]
fn coco_sources() {
    assert_eq!(coco_source(true, "coco", CocoOperation::Import).unwrap(), CocoSource::Folder);
    assert_eq!(
        coco_source(false, "ann/instances_val2017.json", CocoOperation::Update).unwrap(),
        CocoSource::JsonFile
    );
    match coco_source(false, "coco.zip", CocoOperation::Import) {
        Err(edgefirst_client::error::Error::InvalidParameters(m)) => {
            assert!(m.contains("ZIP archives must be extracted first"))
        }
        other => panic!("unexpected {other:?}"),
    }
    match coco_source(false, ".json", CocoOperation::Verify) {
        Err(edgefirst_client::error::Error::InvalidParameters(m)) => {
            assert_eq!(m, "COCO verification requires a JSON annotation file or directory.")
        }
        other => panic!("unexpected {other:?}"),
    }
    assert!(require_images(3).is_ok());
    assert!(matches!(
        require_images(0),
        Err(edgefirst_client::error::Error::MissingAnnotations(_))
    ));
}

#[test]
fn server_labels_of_annotations() {
    let d = CocoDataset {
        categories: vec![CocoCategory { id: 4, name: "cat".to_string(), ..Default::default() }],
        ..Default::default()
    };
    let index = CocoIndex::from_dataset(&d);
    let labels = vec![
        Label { id: 10, name: "cat".to_string() },
        Label { id: 11, name: "cat".to_string() },
        Label { id: 12, name: "dog".to_string() },
    ];
    assert_eq!(server_annotation_label(&index, &labels, 4), ("cat".to_string(), Some(11)));
    assert_eq!(server_annotation_label(&index, &labels, 9), ("unknown".to_string(), None));
}
