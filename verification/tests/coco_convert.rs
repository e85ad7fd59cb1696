use edgefirst_client::coco::convert::coco_polygon_to_mask;
use edgefirst_client::coco::rle::decode_rle;
use edgefirst_client::dataset::PixelMask;
use edgefirst_client::coco::types::CocoRle;

#[test]
fn test_decode_rle_simple() {
    // 3x2 image (height 3, width 2); column-major runs bg=1, fg=2, bg=1, fg=2.
    let rle = CocoRle {
        counts: vec![1, 2, 1, 2],
        size: [3, 2], // height=3, width=2
    };

    let result = decode_rle(&rle);
    assert!(result.is_ok());

    let (mask, height, width) = result.unwrap();
    assert_eq!(height, 3);
    assert_eq!(width, 2);
    assert_eq!(mask.len(), 6);
}

#[test]
fn test_decode_rle_all_background() {
    let rle = CocoRle {
        counts: vec![100], // All background
        size: [10, 10],
    };

    let (mask, _, _) = decode_rle(&rle).unwrap();
    assert!(mask.iter().all(|&v| v == 0));
}

#[test]
fn test_decode_rle_all_foreground() {
    let rle = CocoRle {
        counts: vec![0, 100], // No background, all foreground
        size: [10, 10],
    };

    let (mask, _, _) = decode_rle(&rle).unwrap();
    assert!(mask.iter().all(|&v| v == 1));
}

#[test]
fn test_decode_rle_invalid_counts() {
    let rle = CocoRle {
        counts: vec![50], // Only 50 pixels, but image is 100
        size: [10, 10],
    };

    let result = decode_rle(&rle);
    assert!(result.is_err());
}

fn polygon_bits(polygons: &[Vec<f64>]) -> Vec<Vec<u64>> {
    polygons.iter().map(|p| p.iter().map(|v| v.to_bits()).collect()).collect()
}

fn polygon_rings(m: &PixelMask) -> Vec<Vec<(f64, f64)>> {
    match m {
        PixelMask::Polygons { rings, .. } => rings
            .iter()
            .map(|r| r.iter().map(|&(x, y)| (f64::from_bits(x), f64::from_bits(y))).collect())
            .collect(),
        other => panic!("unexpected {other:?}"),
    }
}

#[test]
fn test_coco_polygon_to_mask() {
    let polygons = vec![vec![100.0, 100.0, 200.0, 100.0, 200.0, 200.0, 100.0, 200.0]];
    let mask = coco_polygon_to_mask(&polygon_bits(&polygons), 400, 400);
    let polygon = polygon_rings(&mask);

    assert_eq!(polygon.len(), 1);
    assert_eq!(polygon[0].len(), 4);

    // Normalized coordinates
    assert!((polygon[0][0].0 / 400.0 - 0.25).abs() < 1e-6);
    assert!((polygon[0][0].1 / 400.0 - 0.25).abs() < 1e-6);
}

#[test]
fn test_polygon_multiple_regions() {
    let polygons = vec![
        vec![10.0, 10.0, 50.0, 10.0, 50.0, 50.0, 10.0, 50.0],
        vec![60.0, 60.0, 90.0, 60.0, 90.0, 90.0, 60.0, 90.0],
    ];

    let mask = coco_polygon_to_mask(&polygon_bits(&polygons), 100, 100);
    let polygon = polygon_rings(&mask);

    assert_eq!(polygon.len(), 2);
    assert_eq!(polygon[0].len(), 4);
    assert_eq!(polygon[1].len(), 4);
}

#[test]
fn test_polygon_filters_too_small() {
    let polygons = vec![
        vec![10.0, 10.0],                         // Only 1 point - should be filtered
        vec![10.0, 10.0, 50.0, 50.0],             // Only 2 points - should be filtered
        vec![10.0, 10.0, 50.0, 10.0, 50.0, 50.0], // 3 points - should be kept
    ];

    let mask = coco_polygon_to_mask(&polygon_bits(&polygons), 100, 100);

    assert_eq!(polygon_rings(&mask).len(), 1);
}
