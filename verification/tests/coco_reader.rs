use edgefirst_client::coco::reader::{
    is_annotation_entry, is_image_file_name, merge_datasets, validate_dataset, CocoReadOptions,
    CocoReader,
};
use edgefirst_client::coco::types::{CocoAnnotation, CocoCategory, CocoDataset, CocoImage};

fn bbox(x: f64, y: f64, w: f64, h: f64) -> [u64; 4] {
    [x.to_bits(), y.to_bits(), w.to_bits(), h.to_bits()]
}

#[test]
fn test_reader_default() {
    let reader = CocoReader::new();
    assert!(!reader.options().validate);
    assert_eq!(reader.options().max_images, 0);
    assert!(reader.options().category_filter.is_empty());
}

#[test]
fn test_reader_with_options() {
    let options = CocoReadOptions {
        validate: true,
        max_images: 100,
        category_filter: vec!["person".to_string()],
    };
    let reader = CocoReader::with_options(options.clone());
    assert!(reader.options().validate);
    assert_eq!(reader.options().max_images, 100);
}

#[test]
fn test_validate_dataset_valid() {
    let dataset = CocoDataset {
        images: vec![CocoImage {
            id: 1,
            width: 640,
            height: 480,
            file_name: "test.jpg".to_string(),
            ..Default::default()
        }],
        categories: vec![CocoCategory {
            id: 1,
            name: "person".to_string(),
            supercategory: None,
            ..Default::default()
        }],
        annotations: vec![CocoAnnotation {
            id: 1,
            image_id: 1,
            category_id: 1,
            bbox: bbox(10.0, 20.0, 100.0, 80.0),
            area: 8000.0f64.to_bits(),
            iscrowd: 0,
            segmentation: None,
            ..Default::default()
        }],
        ..Default::default()
    };

    assert!(validate_dataset(&dataset).is_ok());
}

#[test]
fn test_validate_dataset_missing_image() {
    let dataset = CocoDataset {
        images: vec![],
        categories: vec![CocoCategory {
            id: 1,
            name: "person".to_string(),
            supercategory: None,
            ..Default::default()
        }],
        annotations: vec![CocoAnnotation {
            id: 1,
            image_id: 999, // Non-existent
            category_id: 1,
            bbox: bbox(10.0, 20.0, 100.0, 80.0),
            ..Default::default()
        }],
        ..Default::default()
    };

    assert!(validate_dataset(&dataset).is_err());
}

#[test]
fn test_merge_datasets() {
    let mut target = CocoDataset {
        images: vec![CocoImage {
            id: 1,
            width: 640,
            height: 480,
            file_name: "img1.jpg".to_string(),
            ..Default::default()
        }],
        categories: vec![CocoCategory {
            id: 1,
            name: "person".to_string(),
            supercategory: None,
            ..Default::default()
        }],
        annotations: vec![],
        ..Default::default()
    };

    let source = CocoDataset {
        images: vec![
            CocoImage {
                id: 1, // Duplicate - should not be added
                width: 640,
                height: 480,
                file_name: "img1.jpg".to_string(),
                ..Default::default()
            },
            CocoImage {
                id: 2, // New - should be added
                width: 800,
                height: 600,
                file_name: "img2.jpg".to_string(),
                ..Default::default()
            },
        ],
        categories: vec![CocoCategory {
            id: 2,
            name: "car".to_string(),
            supercategory: None,
            ..Default::default()
        }],
        annotations: vec![],
        ..Default::default()
    };

    merge_datasets(&mut target, source);

    assert_eq!(target.images.len(), 2);
    assert_eq!(target.categories.len(), 2);
}

#[test]
fn test_apply_max_images_filter() {
    let reader = CocoReader::with_options(CocoReadOptions {
        max_images: 2,
        ..Default::default()
    });

    let dataset = CocoDataset {
        images: vec![
            CocoImage {
                id: 1,
                ..Default::default()
            },
            CocoImage {
                id: 2,
                ..Default::default()
            },
            CocoImage {
                id: 3,
                ..Default::default()
            },
        ],
        annotations: vec![
            CocoAnnotation {
                id: 1,
                image_id: 1,
                ..Default::default()
            },
            CocoAnnotation {
                id: 2,
                image_id: 2,
                ..Default::default()
            },
            CocoAnnotation {
                id: 3,
                image_id: 3,
                ..Default::default()
            },
        ],
        ..Default::default()
    };

    let filtered = reader.apply_filters(dataset);
    assert_eq!(filtered.images.len(), 2);
    assert_eq!(filtered.annotations.len(), 2);
}

#[test]
fn finish_reading_validates_then_filters() {
    let bad = CocoDataset {
        annotations: vec![CocoAnnotation {
            id: 7,
            image_id: 1,
            category_id: 1,
            bbox: bbox(0.0, 0.0, 1.0, 1.0),
            ..Default::default()
        }],
        ..Default::default()
    };
    let strict = CocoReader::with_options(CocoReadOptions { validate: true, ..Default::default() });
    match strict.finish_reading(bad.clone()) {
        Err(edgefirst_client::error::Error::CocoError(m)) => {
            assert_eq!(m, "Annotation 7 references non-existent image_id 1")
        }
        other => panic!("unexpected {other:?}"),
    }
    let lenient = CocoReader::new();
    assert_eq!(lenient.finish_reading(bad).unwrap().annotations.len(), 1);
}

#[test]
fn validate_reports_bad_boxes_and_categories() {
    let mut d = CocoDataset {
        images: vec![CocoImage { id: 1, ..Default::default() }],
        categories: vec![CocoCategory { id: 1, name: "a".to_string(), supercategory: None, ..Default::default() }],
        annotations: vec![CocoAnnotation {
            id: 2,
            image_id: 1,
            category_id: 9,
            bbox: bbox(0.0, 0.0, 1.0, 1.0),
            ..Default::default()
        }],
        ..Default::default()
    };
    match validate_dataset(&d) {
        Err(edgefirst_client::error::Error::CocoError(m)) => {
            assert_eq!(m, "Annotation 2 references non-existent category_id 9")
        }
        other => panic!("unexpected {other:?}"),
    }
    d.annotations[0].category_id = 1;
    d.annotations[0].bbox = bbox(0.0, 0.0, 0.0, 1.0);
    match validate_dataset(&d) {
        Err(edgefirst_client::error::Error::CocoError(m)) => {
            assert_eq!(m, "Annotation 2 has invalid bbox dimensions")
        }
        other => panic!("unexpected {other:?}"),
    }
    d.annotations[0].bbox = bbox(0.0, 0.0, f64::NAN, 1.0);
    assert!(validate_dataset(&d).is_ok());
}

#[test]
fn image_and_annotation_entry_names() {
    assert!(is_image_file_name("a/B.JPG"));
    assert!(is_image_file_name("x.jpeg"));
    assert!(is_image_file_name("x.Png"));
    assert!(!is_image_file_name("x.gif"));
    assert!(is_annotation_entry("annotations/instances_val2017.json"));
    assert!(!is_annotation_entry("annotations/captions_val2017.json"));
    assert!(!is_annotation_entry("instances.txt"));
}

#[test]
fn category_filter_keeps_matching_annotations() {
    let reader = CocoReader::with_options(CocoReadOptions {
        category_filter: vec!["dog".to_string()],
        ..Default::default()
    });
    let d = CocoDataset {
        categories: vec![
            CocoCategory { id: 1, name: "cat".to_string(), supercategory: None, ..Default::default() },
            CocoCategory { id: 2, name: "dog".to_string(), supercategory: None, ..Default::default() },
        ],
        annotations: vec![
            CocoAnnotation { id: 1, category_id: 1, ..Default::default() },
            CocoAnnotation { id: 2, category_id: 2, ..Default::default() },
        ],
        ..Default::default()
    };
    let f = reader.apply_filters(d);
    assert_eq!(f.categories.len(), 1);
    assert_eq!(f.annotations.len(), 1);
    assert_eq!(f.annotations[0].id, 2);
}

#[test]
fn filtering_twice_changes_nothing() {
    let reader = CocoReader::with_options(CocoReadOptions {
        max_images: 1,
        category_filter: vec!["dog".to_string()],
        ..Default::default()
    });
    let d = CocoDataset {
        images: vec![
            CocoImage { id: 1, ..Default::default() },
            CocoImage { id: 2, ..Default::default() },
        ],
        categories: vec![
            CocoCategory { id: 1, name: "cat".to_string(), ..Default::default() },
            CocoCategory { id: 2, name: "dog".to_string(), ..Default::default() },
        ],
        annotations: vec![
            CocoAnnotation { id: 1, image_id: 1, category_id: 2, ..Default::default() },
            CocoAnnotation { id: 2, image_id: 2, category_id: 2, ..Default::default() },
            CocoAnnotation { id: 3, image_id: 1, category_id: 1, ..Default::default() },
        ],
        ..Default::default()
    };
    let once = reader.apply_filters(d);
    let twice = reader.apply_filters(once.clone());
    assert_eq!(once, twice);
    assert_eq!(once.annotations.len(), 1);
}

#[test]
fn merge_keeps_repeated_ids_of_the_source() {
    let mut target = CocoDataset {
        images: vec![CocoImage { id: 1, ..Default::default() }],
        ..Default::default()
    };
    let source = CocoDataset {
        images: vec![
            CocoImage { id: 1, ..Default::default() },
            CocoImage { id: 2, ..Default::default() },
            CocoImage { id: 5, file_name: "a".to_string(), ..Default::default() },
            CocoImage { id: 5, file_name: "b".to_string(), ..Default::default() },
        ],
        ..Default::default()
    };
    merge_datasets(&mut target, source);
    assert_eq!(target.images.iter().map(|i| i.id).collect::<Vec<_>>(), vec![1, 2, 5, 5]);
}
