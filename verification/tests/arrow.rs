use edgefirst_client::coco::arrow::{
    category_labels, category_metadata, coco_from_rows, drop_row_geometry, image_rows, row_image_sizes, ArrowToCocoOptions, CategoryMeta, SampleRow,
};
use edgefirst_client::coco::studio::CocoIndex;
use edgefirst_client::coco::types::{
    CocoAnnotation, CocoCategory, CocoDataset, CocoImage, CocoSegmentation,
};

fn row(name: &str, group: &str, label: &str, index: Option<u64>) -> SampleRow {
    SampleRow {
        name: name.to_string(),
        group: group.to_string(),
        label: label.to_string(),
        label_index: index,
        size: Some((640, 480)),
        bbox: [1.0f64.to_bits(), 2.0f64.to_bits(), 3.0f64.to_bits(), 4.0f64.to_bits()],
        area: 12.0f64.to_bits(),
        segmentation: None,
        iscrowd: 0,
        box2d_score: None,
        polygon_score: None,
        mask_score: None,
        category_frequency: None,
        neg_label_indices: None,
        not_exhaustive_label_indices: None,
    }
}

fn meta(name: &str, id: Option<u64>) -> CategoryMeta {
    CategoryMeta {
        name: name.to_string(),
        id,
        supercategory: None,
        synset: None,
        frequency: None,
        synonyms: None,
        def: None,
    }
}

#[test]
fn test_arrow_to_coco_options_default() {
    let options = ArrowToCocoOptions::default();
    assert!(options.groups.is_empty());
    assert!(options.include_masks);
    assert!(options.info.is_none());
}

#[test]
fn rows_become_images_categories_and_annotations() {
    let mut sentinel = row("c", "train", "", None);
    sentinel.neg_label_indices = Some(vec![7]);
    let rows = vec![
        row("a", "train", "cat", Some(7)),
        row("b", "train", "dog", None),
        row("a", "train", "dog", None),
        sentinel,
    ];
    let d = coco_from_rows(&rows, &vec![], &vec![], &ArrowToCocoOptions::default());
    let names: Vec<_> = d.images.iter().map(|i| (i.id, i.file_name.clone())).collect();
    assert_eq!(names, vec![(1, "a".to_string()), (2, "b".to_string()), (3, "c".to_string())]);
    assert_eq!(d.images[2].neg_category_ids, Some(vec![7]));
    let cats: Vec<_> = d.categories.iter().map(|c| (c.id, c.name.clone())).collect();
    assert_eq!(cats, vec![(7, "cat".to_string()), (8, "dog".to_string())]);
    // The sentinel row makes no annotation.
    let anns: Vec<_> = d.annotations.iter().map(|a| (a.id, a.image_id, a.category_id)).collect();
    assert_eq!(anns, vec![(1, 1, 7), (2, 2, 8), (3, 1, 8)]);
    assert_eq!(d.annotations[0].bbox[2], 3.0f64.to_bits());
}

#[test]
fn rows_outside_the_groups_are_left_out() {
    let rows = vec![row("a", "train", "cat", Some(1)), row("b", "val", "dog", Some(2))];
    let options = ArrowToCocoOptions {
        groups: vec!["val".to_string()],
        include_masks: true,
        info: None,
    };
    let d = coco_from_rows(&rows, &vec![], &vec![], &options);
    assert_eq!(d.images.len(), 1);
    assert_eq!(d.images[0].file_name, "b");
    assert_eq!(d.annotations.len(), 1);
    assert_eq!(d.annotations[0].category_id, 2);
}

#[test]
fn category_metadata_and_frequency() {
    let mut r = row("a", "", "cat", Some(1));
    r.category_frequency = Some("f".to_string());
    let mut m = meta("cat", Some(1));
    m.synset = Some("cat.n.01".to_string());
    m.supercategory = Some("animal".to_string());
    let mut extra = meta("zebra", Some(9));
    extra.frequency = Some("r".to_string());
    let d = coco_from_rows(&vec![r], &vec![m, extra], &vec![], &ArrowToCocoOptions::default());
    assert_eq!(d.categories.len(), 2);
    assert_eq!(d.categories[0].frequency, Some("f".to_string()));
    assert_eq!(d.categories[0].synset, Some("cat.n.01".to_string()));
    assert_eq!(d.categories[0].supercategory, Some("animal".to_string()));
    assert_eq!((d.categories[1].id, d.categories[1].name.as_str()), (9, "zebra"));
    assert_eq!(d.categories[1].frequency, Some("r".to_string()));
}

#[test]
fn label_list_adds_missing_categories() {
    let rows = vec![row("a", "", "cat", Some(3))];
    let d = coco_from_rows(&rows, &vec![], &vec!["cat".to_string(), "owl".to_string()], &ArrowToCocoOptions::default());
    let cats: Vec<_> = d.categories.iter().map(|c| (c.id, c.name.clone())).collect();
    assert_eq!(cats, vec![(3, "cat".to_string()), (4, "owl".to_string())]);
}

#[test]
fn scores_prefer_mask_then_polygon_then_box() {
    let mut r = row("a", "", "cat", Some(1));
    r.box2d_score = Some(0.5f64.to_bits());
    r.polygon_score = Some(0.7f64.to_bits());
    let d = coco_from_rows(&vec![r], &vec![], &vec![], &ArrowToCocoOptions::default());
    assert_eq!(d.annotations[0].score, Some(0.7f64.to_bits()));
}

#[test]
fn row_sizes_follow_the_first_row_of_each_image() {
    let mut second = row("a", "", "dog", None);
    second.size = Some((10, 20));
    let rows = vec![row("a", "", "cat", None), second];
    assert_eq!(row_image_sizes(&rows, &ArrowToCocoOptions::default()), vec![(640, 480), (640, 480)]);
}

fn dataset() -> CocoDataset {
    CocoDataset {
        images: vec![
            CocoImage { id: 1, width: 4, height: 3, file_name: "dir/img1.jpg".to_string(), ..Default::default() },
            CocoImage {
                id: 2,
                width: 4,
                height: 3,
                file_name: "img2.png".to_string(),
                neg_category_ids: Some(vec![5, 99]),
                ..Default::default()
            },
            CocoImage { id: 3, file_name: "img3.png".to_string(), ..Default::default() },
        ],
        categories: vec![CocoCategory {
            id: 5,
            name: "cat".to_string(),
            frequency: Some("c".to_string()),
            ..Default::default()
        }],
        annotations: vec![
            CocoAnnotation { id: 1, image_id: 1, category_id: 5, iscrowd: 2, score: Some(0.9f64.to_bits()), ..Default::default() },
            CocoAnnotation {
                id: 2,
                image_id: 1,
                category_id: 5,
                segmentation: Some(CocoSegmentation::Polygon(vec![vec![1, 2, 3, 4, 5, 6]])),
                ..Default::default()
            },
            CocoAnnotation { id: 3, image_id: 1, category_id: 42, ..Default::default() },
        ],
        ..Default::default()
    }
}

#[test]
fn image_rows_one_per_labelled_annotation() {
    let d = dataset();
    let index = CocoIndex::from_dataset(&d);
    let rows = image_rows(&d.images[0], &index, true, Some("train"));
    assert_eq!(rows.len(), 2);
    assert_eq!(rows[0].name, "img1");
    assert_eq!(rows[0].group, "train");
    assert_eq!(rows[0].label, "cat");
    assert_eq!(rows[0].label_index, Some(5));
    assert_eq!(rows[0].iscrowd, 1);
    assert_eq!(rows[0].box2d_score, Some(0.9f64.to_bits()));
    assert_eq!(rows[0].category_frequency, Some("c".to_string()));
    assert!(rows[1].segmentation.is_some());
    let no_masks = image_rows(&d.images[0], &index, false, None);
    assert!(no_masks[1].segmentation.is_none());
    assert_eq!(no_masks[1].group, "");
}

#[test]
fn image_without_annotations_keeps_its_negative_labels() {
    let d = dataset();
    let index = CocoIndex::from_dataset(&d);
    let rows = image_rows(&d.images[1], &index, true, None);
    assert_eq!(rows.len(), 1);
    assert_eq!(rows[0].label, "");
    assert_eq!(rows[0].neg_label_indices, Some(vec![5]));
    assert!(image_rows(&d.images[2], &index, true, None).is_empty());
}

#[test]
fn rows_round_trip_to_coco() {
    let d = dataset();
    let index = CocoIndex::from_dataset(&d);
    let mut rows = Vec::new();
    for img in &d.images {
        rows.extend(image_rows(img, &index, true, None));
    }
    let back = coco_from_rows(&rows, &vec![], &vec![], &ArrowToCocoOptions::default());
    let names: Vec<_> = back.images.iter().map(|i| i.file_name.clone()).collect();
    assert_eq!(names, vec!["img1".to_string(), "img2".to_string()]);
    assert_eq!(back.annotations.len(), 2);
    assert_eq!(back.images[1].neg_category_ids, Some(vec![5]));
}

fn bits4(v: [f64; 4]) -> [u64; 4] {
    [v[0].to_bits(), v[1].to_bits(), v[2].to_bits(), v[3].to_bits()]
}

#[test]
fn test_convert_image_annotations_basic() {
    let image = CocoImage {
        id: 1,
        width: 640,
        height: 480,
        file_name: "test_image.jpg".to_string(),
        ..Default::default()
    };
    let dataset = CocoDataset {
        images: vec![image.clone()],
        categories: vec![CocoCategory {
            id: 1,
            name: "cat".to_string(),
            supercategory: Some("animal".to_string()),
            ..Default::default()
        }],
        annotations: vec![CocoAnnotation {
            id: 1,
            image_id: 1,
            category_id: 1,
            bbox: bits4([100.0, 100.0, 200.0, 200.0]),
            area: 40000.0f64.to_bits(),
            iscrowd: 0,
            segmentation: None,
            score: None,
        }],
        ..Default::default()
    };
    let index = CocoIndex::from_dataset(&dataset);
    let rows = image_rows(&image, &index, true, Some("train"));
    assert_eq!(rows.len(), 1);
    assert_eq!(rows[0].name, "test_image");
    assert_eq!(rows[0].group, "train");
    assert_eq!(rows[0].label, "cat");
}

#[test]
fn test_convert_image_annotations_with_mask() {
    let image = CocoImage {
        id: 1,
        width: 100,
        height: 100,
        file_name: "masked.jpg".to_string(),
        ..Default::default()
    };
    let polygon: Vec<u64> =
        [10.0f64, 10.0, 60.0, 10.0, 60.0, 60.0, 10.0, 60.0].iter().map(|v| v.to_bits()).collect();
    let dataset = CocoDataset {
        images: vec![image.clone()],
        categories: vec![CocoCategory { id: 1, name: "object".to_string(), supercategory: None, ..Default::default() }],
        annotations: vec![CocoAnnotation {
            id: 1,
            image_id: 1,
            category_id: 1,
            bbox: bits4([10.0, 10.0, 50.0, 50.0]),
            area: 2500.0f64.to_bits(),
            iscrowd: 0,
            segmentation: Some(CocoSegmentation::Polygon(vec![polygon])),
            score: None,
        }],
        ..Default::default()
    };
    let index = CocoIndex::from_dataset(&dataset);
    // With masks enabled
    let with_mask = image_rows(&image, &index, true, None);
    assert!(matches!(with_mask[0].segmentation, Some(CocoSegmentation::Polygon(_))));
    // With masks disabled
    let no_mask = image_rows(&image, &index, false, None);
    assert!(no_mask[0].segmentation.is_none());
}

#[test]
fn test_convert_image_annotations_no_annotations() {
    let image = CocoImage {
        id: 1,
        width: 640,
        height: 480,
        file_name: "empty.jpg".to_string(),
        ..Default::default()
    };
    let dataset = CocoDataset { images: vec![image.clone()], ..Default::default() };
    let index = CocoIndex::from_dataset(&dataset);
    assert!(image_rows(&image, &index, true, None).is_empty());
}

#[test]
fn test_convert_image_annotations_neg_only_no_annotations() {
    let image = CocoImage {
        id: 1,
        width: 640,
        height: 480,
        file_name: "neg_only.jpg".to_string(),
        neg_category_ids: Some(vec![1, 2]),
        ..Default::default()
    };
    let dataset = CocoDataset {
        images: vec![image.clone()],
        categories: vec![
            CocoCategory { id: 1, name: "cat".to_string(), supercategory: Some("animal".to_string()), ..Default::default() },
            CocoCategory { id: 2, name: "dog".to_string(), supercategory: Some("animal".to_string()), ..Default::default() },
        ],
        ..Default::default()
    };
    let index = CocoIndex::from_dataset(&dataset);
    let rows = image_rows(&image, &index, true, None);
    // One placeholder row: no annotation, but the negative labels.
    assert_eq!(rows.len(), 1, "sentinel row should be emitted for neg-only image");
    assert_eq!(rows[0].name, "neg_only");
    assert!(rows[0].label.is_empty(), "sentinel should have no annotations");
    assert!(rows[0].neg_label_indices.is_some(), "sentinel should preserve neg_label_indices");
    assert_eq!(rows[0].neg_label_indices.as_ref().unwrap().len(), 2);
}

#[test]
fn unconverted_geometry_scores_the_box() {
    let mut r = row("a", "", "cat", Some(1));
    r.segmentation = Some(CocoSegmentation::Polygon(vec![vec![1, 2]]));
    r.polygon_score = Some(0.4f64.to_bits());
    drop_row_geometry(&mut r);
    assert!(r.segmentation.is_none());
    assert_eq!(r.polygon_score, None);
    assert_eq!(r.box2d_score, Some(0.4f64.to_bits()));
    assert_eq!(r.label, "cat");
}

#[test]
fn one_image_round_trip_keeps_annotations_and_categories() {
    let image = CocoImage {
        id: 7,
        width: 640,
        height: 480,
        file_name: "dir/test.jpg".to_string(),
        ..Default::default()
    };
    let dataset = CocoDataset {
        images: vec![image.clone()],
        categories: vec![
            CocoCategory { id: 3, name: "person".to_string(), ..Default::default() },
            CocoCategory { id: 9, name: "dog".to_string(), ..Default::default() },
        ],
        annotations: vec![
            CocoAnnotation {
                id: 11,
                image_id: 7,
                category_id: 9,
                bbox: bits4([100.0, 50.0, 200.0, 150.0]),
                area: 30000.0f64.to_bits(),
                iscrowd: 0,
                segmentation: None,
                score: None,
            },
            CocoAnnotation {
                id: 12,
                image_id: 7,
                category_id: 3,
                bbox: bits4([1.0, 2.0, 3.0, 4.0]),
                area: 12.0f64.to_bits(),
                iscrowd: 1,
                segmentation: None,
                score: None,
            },
        ],
        ..Default::default()
    };
    let index = CocoIndex::from_dataset(&dataset);
    let rows = image_rows(&image, &index, false, None);
    let back = coco_from_rows(&rows, &vec![], &vec![], &ArrowToCocoOptions::default());
    assert_eq!(back.images.len(), 1);
    assert_eq!(back.images[0].id, 1);
    assert_eq!(back.images[0].file_name, "test");
    assert_eq!((back.images[0].width, back.images[0].height), (640, 480));
    assert_eq!(back.annotations.len(), 2);
    for (m, orig) in dataset.annotations.iter().enumerate() {
        let a = &back.annotations[m];
        assert_eq!(a.id, m as u64 + 1);
        assert_eq!(a.image_id, 1);
        assert_eq!(a.bbox, orig.bbox);
        assert_eq!(a.area, orig.area);
        assert_eq!(a.iscrowd, orig.iscrowd);
        assert_eq!(a.category_id, orig.category_id);
        let name = &dataset.categories.iter().find(|c| c.id == orig.category_id).unwrap().name;
        assert!(back.categories.iter().any(|c| c.id == a.category_id && &c.name == name));
    }
}

#[test]
fn category_metadata_keeps_the_last_of_each_name() {
    let cats = vec![
        CocoCategory { id: 4, name: "cat".to_string(), supercategory: Some("animal".to_string()), ..Default::default() },
        CocoCategory { id: 2, name: "car".to_string(), synset: Some("car.n.01".to_string()), ..Default::default() },
        CocoCategory { id: 9, name: "cat".to_string(), frequency: Some("r".to_string()), ..Default::default() },
    ];
    let mut metas = category_metadata(&cats);
    metas.sort_by(|a, b| a.name.cmp(&b.name));
    assert_eq!(metas.len(), 2);
    assert_eq!(metas[0].name, "car");
    assert_eq!(metas[0].id, Some(2));
    assert_eq!(metas[0].synset, Some("car.n.01".to_string()));
    assert_eq!(metas[1].name, "cat");
    assert_eq!(metas[1].id, Some(9));
    assert_eq!(metas[1].supercategory, None);
    assert_eq!(metas[1].frequency, Some("r".to_string()));
    assert!(category_metadata(&vec![]).is_empty());
}

#[test]
fn category_labels_sorted_by_id() {
    let cats = vec![
        CocoCategory { id: 4, name: "d".to_string(), ..Default::default() },
        CocoCategory { id: 2, name: "b".to_string(), ..Default::default() },
        CocoCategory { id: 4, name: "e".to_string(), ..Default::default() },
        CocoCategory { id: 1, name: "a".to_string(), ..Default::default() },
    ];
    assert_eq!(category_labels(&cats), vec!["a", "b", "d", "e"]);
    assert!(category_labels(&vec![]).is_empty());
}

#[test]
fn round_trip_with_stored_metadata_keeps_supercategory() {
    let image = CocoImage { id: 1, width: 640, height: 480, file_name: "test.jpg".to_string(), ..Default::default() };
    let dataset = CocoDataset {
        images: vec![image.clone()],
        categories: vec![CocoCategory {
            id: 1,
            name: "person".to_string(),
            supercategory: Some("human".to_string()),
            ..Default::default()
        }],
        annotations: vec![CocoAnnotation {
            id: 1,
            image_id: 1,
            category_id: 1,
            bbox: bits4([100.0, 50.0, 200.0, 150.0]),
            area: 30000.0f64.to_bits(),
            iscrowd: 0,
            segmentation: Some(CocoSegmentation::Polygon(vec![vec![
                100.0f64.to_bits(),
                50.0f64.to_bits(),
                300.0f64.to_bits(),
                50.0f64.to_bits(),
                300.0f64.to_bits(),
                200.0f64.to_bits(),
            ]])),
            score: None,
        }],
        ..Default::default()
    };
    let index = CocoIndex::from_dataset(&dataset);
    let rows = image_rows(&image, &index, true, None);
    let metas = category_metadata(&dataset.categories);
    let labels = category_labels(&dataset.categories);
    let back = coco_from_rows(&rows, &metas, &labels, &ArrowToCocoOptions::default());
    assert_eq!(back.images.len(), 1);
    assert_eq!(back.annotations.len(), 1);
    assert_eq!(back.categories.len(), 1);
    assert_eq!(back.categories[0].name, "person");
    assert_eq!(back.categories[0].supercategory, Some("human".to_string()));
    assert_eq!(back.categories[0].id, 1);
}
