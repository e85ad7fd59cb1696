use edgefirst_client::coco::contour::{mask_to_contours, trace_contour};
use edgefirst_client::coco::convert::{coco_polygon_to_mask, coco_segmentation_to_mask};
use edgefirst_client::coco::polygon::unflatten_polygon_coords;
use edgefirst_client::coco::rle::{
    count_foreground, decode_compressed_rle, decode_leb128, decode_rle, rle_area,
};
use edgefirst_client::coco::studio::{
    annotation_types, group_folder_file_name, infer_group_from_filename, merge_coco_datasets,
    missing_label_names, names_missing_from, sample_file_name, CocoUpdateOptions,
    CocoVerifyOptions,
};
use edgefirst_client::coco::types::{
    CocoCategory, CocoCompressedRle, CocoDataset, CocoImage, CocoInfo, CocoRle, CocoSegmentation,
};
use edgefirst_client::dataset::PixelMask;
use edgefirst_client::error::Error;
use edgefirst_client::path::sample_name_from_filename;

fn bits(v: &[f32]) -> Vec<u32> {
    v.iter().map(|x| x.to_bits()).collect()
}

fn pt(x: f32, y: f32) -> (u32, u32) {
    (x.to_bits(), y.to_bits())
}

#[test]
fn test_unflatten_polygon_coords_empty() {
    let coords: Vec<u32> = vec![];
    let result = unflatten_polygon_coords(&coords);
    assert!(result.is_empty());
}

#[test]
fn test_unflatten_polygon_coords_single_polygon() {
    let coords = bits(&[0.1, 0.2, 0.3, 0.2, 0.3, 0.4, 0.1, 0.4]);
    let result = unflatten_polygon_coords(&coords);
    assert_eq!(result.len(), 1);
    assert_eq!(result[0].len(), 4);
    assert_eq!(result[0][0], pt(0.1, 0.2));
    assert_eq!(result[0][3], pt(0.1, 0.4));
}

#[test]
fn test_unflatten_polygon_coords_multiple_polygons() {
    let coords = bits(&[
        0.1,
        0.1,
        0.2,
        0.1,
        0.15,
        0.2,
        f32::NAN,
        0.5,
        0.5,
        0.6,
        0.5,
        0.55,
        0.6,
    ]);
    let result = unflatten_polygon_coords(&coords);
    assert_eq!(result.len(), 2);
    assert_eq!(result[0].len(), 3);
    assert_eq!(result[1].len(), 3);
    assert_eq!(result[0][0], pt(0.1, 0.1));
    assert_eq!(result[1][0], pt(0.5, 0.5));
}

#[test]
fn test_unflatten_polygon_coords_leading_nan() {
    let coords = bits(&[f32::NAN, 0.1, 0.2, 0.3, 0.4, 0.5, 0.6]);
    let result = unflatten_polygon_coords(&coords);
    assert_eq!(result.len(), 1);
    assert_eq!(result[0].len(), 3);
}

#[test]
fn test_unflatten_polygon_coords_trailing_nan() {
    let coords = bits(&[0.1, 0.2, 0.3, 0.4, f32::NAN]);
    let result = unflatten_polygon_coords(&coords);
    assert_eq!(result.len(), 1);
    assert_eq!(result[0].len(), 2);
}

#[test]
fn test_unflatten_polygon_coords_consecutive_nans() {
    let coords = bits(&[0.1, 0.2, f32::NAN, f32::NAN, 0.3, 0.4]);
    let result = unflatten_polygon_coords(&coords);
    assert_eq!(result.len(), 2);
    assert_eq!(result[0].len(), 1);
    assert_eq!(result[1].len(), 1);
}

#[test]
fn test_unflatten_polygon_coords_odd_values() {
    let coords = bits(&[0.1, 0.2, 0.3, 0.4, 0.5]);
    let result = unflatten_polygon_coords(&coords);
    assert_eq!(result.len(), 1);
    assert_eq!(result[0].len(), 2);
}

#[test]
fn test_sample_name_from_filename() {
    assert_eq!(sample_name_from_filename("000000397133.jpg"), "000000397133");
    assert_eq!(sample_name_from_filename("train2017/image.jpg"), "image");
    assert_eq!(sample_name_from_filename("test"), "test");
}

#[test]
fn test_sample_name_from_filename_nested_path() {
    assert_eq!(sample_name_from_filename("a/b/c/deep_image.png"), "deep_image");
}

#[test]
fn test_sample_name_from_filename_no_extension() {
    assert_eq!(sample_name_from_filename("no_extension"), "no_extension");
}

#[test]
fn sample_name_edge_cases() {
    assert_eq!(sample_name_from_filename(".hidden"), ".hidden");
    assert_eq!(sample_name_from_filename("archive.tar.gz"), "archive.tar");
    assert_eq!(sample_name_from_filename("dir/sub/"), "sub");
    assert_eq!(sample_name_from_filename("a/.."), "a/..");
    assert_eq!(sample_name_from_filename(""), "");
    assert_eq!(sample_name_from_filename("name."), "name");
}

#[test]
fn infer_group_from_annotation_file_names() {
    assert_eq!(infer_group_from_filename("instances_train2017.json"), Some("train".to_string()));
    assert_eq!(infer_group_from_filename("annotations/instances_val2017.json"), Some("val".to_string()));
    assert_eq!(infer_group_from_filename("instances_test2017.json"), Some("test".to_string()));
    assert_eq!(infer_group_from_filename("train_instances.json"), Some("train".to_string()));
    assert_eq!(infer_group_from_filename("validation.json"), Some("val".to_string()));
    assert_eq!(infer_group_from_filename("instances_2017.json"), None);
    assert_eq!(infer_group_from_filename("custom.json"), None);
}

#[test]
fn other_option_defaults() {
    let v = CocoVerifyOptions::default();
    assert!(v.verify_masks);
    assert!(v.group.is_none());
    let u = CocoUpdateOptions::default();
    assert!(u.include_masks);
    assert!(u.group.is_none());
    assert_eq!(u.batch_size, 100);
    assert_eq!(u.concurrency, 64);
}

#[test]
fn merge_coco_skips_only_ids_the_target_has() {
    let mut target = CocoDataset {
        images: vec![CocoImage { id: 1, ..Default::default() }],
        ..Default::default()
    };
    let source = CocoDataset {
        images: vec![
            CocoImage { id: 2, file_name: "a.jpg".to_string(), ..Default::default() },
            CocoImage { id: 2, file_name: "b.jpg".to_string(), ..Default::default() },
            CocoImage { id: 1, ..Default::default() },
        ],
        ..Default::default()
    };
    merge_coco_datasets(&mut target, source);
    assert_eq!(target.images.iter().map(|i| i.id).collect::<Vec<_>>(), vec![1, 2, 2]);
    assert_eq!(target.images[1].file_name, "a.jpg");
    assert_eq!(target.images[2].file_name, "b.jpg");
}

#[test]
fn merge_coco_takes_info_only_when_missing() {
    let mut target = CocoDataset {
        images: vec![CocoImage { id: 1, ..Default::default() }],
        categories: vec![CocoCategory { id: 1, name: "a".to_string(), supercategory: None, ..Default::default() }],
        ..Default::default()
    };
    let source = CocoDataset {
        info: CocoInfo { description: Some("src".to_string()), ..Default::default() },
        images: vec![CocoImage { id: 1, ..Default::default() }, CocoImage { id: 3, ..Default::default() }],
        categories: vec![CocoCategory { id: 1, name: "dup".to_string(), supercategory: None, ..Default::default() }],
        ..Default::default()
    };
    merge_coco_datasets(&mut target, source.clone());
    assert_eq!(target.images.iter().map(|i| i.id).collect::<Vec<_>>(), vec![1, 3]);
    assert_eq!(target.categories.len(), 1);
    assert_eq!(target.categories[0].name, "a");
    assert_eq!(target.info.description, Some("src".to_string()));
    let mut other = CocoDataset {
        info: CocoInfo { description: Some("mine".to_string()), ..Default::default() },
        ..Default::default()
    };
    merge_coco_datasets(&mut other, source);
    assert_eq!(other.info.description, Some("mine".to_string()));
}

#[test]
fn decode_rle_transposes_to_row_major() {
    // height 3, width 2: column 0 is [0, 1, 1], column 1 is [0, 1, 1].
    let rle = CocoRle { counts: vec![1, 2, 1, 2], size: [3, 2] };
    let (mask, h, w) = decode_rle(&rle).unwrap();
    assert_eq!((h, w), (3, 2));
    assert_eq!(mask, vec![0, 0, 1, 1, 1, 1]);
    // An asymmetric pattern: column 0 is [1, 0, 0], column 1 is [0, 0, 1].
    let rle = CocoRle { counts: vec![0, 1, 4, 1], size: [3, 2] };
    let (mask, _, _) = decode_rle(&rle).unwrap();
    assert_eq!(mask, vec![1, 0, 0, 0, 0, 1]);
}

#[test]
fn decode_rle_error_message() {
    let rle = CocoRle { counts: vec![50], size: [10, 10] };
    match decode_rle(&rle) {
        Err(Error::CocoError(m)) => assert_eq!(m, "RLE counts sum 50 does not match image size 10x10 = 100"),
        other => panic!("unexpected {other:?}"),
    }
}

#[test]
fn decode_leb128_values() {
    // The first three values are counts themselves.
    assert_eq!(decode_leb128("12").unwrap(), vec![1, 2]);
    // From the fourth value on, a value adds to the count two places back.
    assert_eq!(decode_leb128("1210").unwrap(), vec![1, 2, 1, 2]);
    assert_eq!(decode_leb128("12113").unwrap(), vec![1, 2, 1, 3, 4]);
    // '?' (63 - 48 = 15) stays positive in a one-character group.
    assert_eq!(decode_leb128("?").unwrap(), vec![15]);
    // '@' (16) has the sign bit of a one-character group: -16, clamped at 0.
    assert_eq!(decode_leb128("@").unwrap(), vec![0]);
    // 'P' (80 - 48 = 32) continues into '1': 0 + 1 * 32 = 32.
    assert_eq!(decode_leb128("P1").unwrap(), vec![32]);
    assert_eq!(decode_leb128("").unwrap(), Vec::<u32>::new());
}

#[test]
fn decode_leb128_rejects_low_characters() {
    match decode_leb128("1 2") {
        Err(Error::CocoError(m)) => assert_eq!(m, "Invalid LEB128 character:  "),
        other => panic!("unexpected {other:?}"),
    }
    match decode_leb128("/") {
        Err(Error::CocoError(m)) => assert_eq!(m, "Invalid LEB128 character: /"),
        other => panic!("unexpected {other:?}"),
    }
}

#[test]
fn decode_compressed_rle_matches_uncompressed() {
    // pycocotools writes counts 1, 2, 1, 2 as "1210": the fourth value
    // is the difference from the count two places back (2 - 2 = 0).
    let c = CocoCompressedRle { counts: "1210".to_string(), size: [3, 2] };
    let (mask, h, w) = decode_compressed_rle(&c).unwrap();
    assert_eq!((h, w), (3, 2));
    assert_eq!(mask, vec![0, 0, 1, 1, 1, 1]);
}

#[test]
fn contours_of_a_square() {
    // 4x4 image with a 2x2 foreground block in the middle.
    let mask: Vec<u8> = vec![0, 0, 0, 0, 0, 1, 1, 0, 0, 1, 1, 0, 0, 0, 0, 0];
    let contours = mask_to_contours(&mask, 4, 4);
    assert_eq!(contours.len(), 1);
    assert_eq!(contours[0], vec![(1, 1), (2, 1), (2, 2), (1, 2)]);
}

#[test]
fn contours_skip_tiny_shapes() {
    // A single pixel yields a contour of one point, which is dropped.
    let mask: Vec<u8> = vec![0, 0, 0, 0, 1, 0, 0, 0, 0];
    assert!(mask_to_contours(&mask, 3, 3).is_empty());
    let mut visited = vec![false; 9];
    assert!(trace_contour(&mask, 3, 3, 1, 1, &mut visited).is_none());
    assert!(visited[4]);
}

#[test]
fn segmentation_masks() {
    let polys = vec![vec![1u64, 2, 3, 4, 5, 6, 7], vec![1, 2, 3, 4]];
    match coco_polygon_to_mask(&polys, 10, 20) {
        PixelMask::Polygons { rings, image_width, image_height } => {
            assert_eq!((image_width, image_height), (10, 20));
            assert_eq!(rings, vec![vec![(1, 2), (3, 4), (5, 6)]]);
        }
        other => panic!("unexpected {other:?}"),
    }
    let seg = CocoSegmentation::Rle(CocoRle { counts: vec![5, 4, 7], size: [4, 4] });
    match coco_segmentation_to_mask(&seg, 8, 8).unwrap() {
        PixelMask::Contours { rings, image_width, image_height } => {
            assert_eq!((image_width, image_height), (8, 8));
            assert_eq!(rings.len(), 1);
        }
        other => panic!("unexpected {other:?}"),
    }
    let bad = CocoSegmentation::Rle(CocoRle { counts: vec![5], size: [4, 4] });
    assert!(coco_segmentation_to_mask(&bad, 8, 8).is_err());
}

#[test]
fn rle_area_counts_foreground() {
    let rle = CocoRle { counts: vec![1, 2, 1, 2], size: [3, 2] };
    assert_eq!(rle_area(&rle).unwrap(), 4);
    assert_eq!(count_foreground(&vec![0, 1, 2, 1]), 2);
    assert!(rle_area(&CocoRle { counts: vec![1], size: [3, 2] }).is_err());
}

#[test]
fn studio_names_and_labels() {
    assert_eq!(group_folder_file_name("000001.jpg", "train"), "train2017/000001.jpg");
    assert_eq!(group_folder_file_name("val2017/000001.jpg", "train"), "val2017/000001.jpg");
    assert_eq!(sample_file_name(Some("img")), "img.jpg");
    assert_eq!(sample_file_name(Some("img.png")), "img.png");
    assert_eq!(sample_file_name(None), "unknown.jpg");
    let a = vec!["x".to_string(), "y".to_string(), "x".to_string(), "z".to_string()];
    let b = vec!["y".to_string()];
    assert_eq!(names_missing_from(&a, &b), vec!["x".to_string(), "z".to_string()]);
    let cats = vec![
        CocoCategory { id: 1, name: "cat".to_string(), supercategory: None, ..Default::default() },
        CocoCategory { id: 2, name: "dog".to_string(), supercategory: None, ..Default::default() },
    ];
    assert_eq!(missing_label_names(&cats, &vec!["dog".to_string()]), vec!["cat".to_string()]);
    assert_eq!(annotation_types(true), vec!["box".to_string(), "seg".to_string()]);
    assert_eq!(annotation_types(false), vec!["box".to_string()]);
}

#[test]
fn decoded_pixels_follow_odd_runs() {
    // counts 1, 2, 1, 2 on a 3 x 2 image: column-major 0 1 1 0 1 1.
    let rle = CocoRle { counts: vec![1, 2, 1, 2], size: [3, 2] };
    let (mask, h, w) = decode_rle(&rle).unwrap();
    let starts = [0u32, 1, 3, 4, 6];
    for r in 0..h {
        for c in 0..w {
            let j = c * h + r;
            let odd = (0..4).any(|k| k % 2 == 1 && starts[k] <= j && j < starts[k + 1]);
            assert_eq!(mask[(r * w + c) as usize] == 1, odd);
        }
    }
}

#[test]
fn trace_marks_only_its_contour_pixels() {
    let mask = vec![0u8, 0, 0, 0, 0, 1, 1, 0, 0, 1, 1, 0, 0, 0, 0, 0];
    let mut visited = vec![false; 16];
    let before = visited.clone();
    let contour = trace_contour(&mask, 4, 4, 1, 1, &mut visited).unwrap();
    assert_eq!(contour[0], (1, 1));
    let changed: Vec<usize> = (0..16).filter(|&i| visited[i] != before[i]).collect();
    assert_eq!(changed.len(), contour.len());
    for (x, y) in &contour {
        let i = (*y as usize) * 4 + (*x as usize);
        assert!(changed.contains(&i) && mask[i] == 1);
    }
    assert!(contour.len() <= 17);
}

#[test]
fn contours_are_rings_without_repeats() {
    // An L shape and a separate bar in a 5x5 image.
    let mask: Vec<u8> = vec![
        1, 0, 0, 0, 0, //
        1, 0, 0, 1, 1, //
        1, 1, 0, 0, 0, //
        0, 0, 0, 0, 0, //
        0, 1, 1, 1, 0, //
    ];
    let contours = mask_to_contours(&mask, 5, 5);
    assert!(!contours.is_empty());
    for ring in &contours {
        assert!(ring.len() >= 3);
        for i in 0..ring.len() {
            for j in (i + 1)..ring.len() {
                assert_ne!(ring[i], ring[j]);
            }
            let (x, y) = ring[i];
            assert_eq!(mask[(y * 5 + x) as usize], 1);
        }
    }
}
