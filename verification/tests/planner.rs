use phototex::im_handling::{low_resolution, orientation_from_exif, path_contains_space, plan_image};
use phototex::{LayoutReq, Orientation, PhotoError, SourceImageInfo};

#[test]
fn compute_good_dimensions() {
    let (page_width, page_height) = (210f32, 297f32);
    let dpm = 12f32;
    let target = ((page_width * dpm) as u32, (page_height * dpm) as u32);
    let (ideal_w, ideal_h) = planned_dims((5184, 3456), target);
    assert!(ideal_w % 4 == 0);
    assert!(ideal_h % 4 == 0);
    assert!(ideal_w < 5184);
    assert!(ideal_h < 3456);
}

fn planned_dims(native: (u32, u32), target: (u32, u32)) -> (u32, u32) {
    phototex::im_handling::compute_good_dimensions(native, target).unwrap()
}

#[test]
fn planner_exact_a4_values() {
    // A4 at 12 dots per mm: 2520 x 3564 target pixels.
    let dims = planned_dims((5184, 3456), (2520, 3564));
    // width factor is the minimum: 2520 exactly, height 3456*2520/5184 = 1680.
    assert_eq!(dims, (2520, 1680));
}

#[test]
fn planner_rounds_up_to_blocks() {
    // factor 1 on both axes; 10 is not a multiple of 4 and rounds to 12.
    let dims = planned_dims((1000, 1000), (10, 10));
    assert_eq!(dims, (12, 12));
}

#[test]
fn planner_keeps_low_resolution_native() {
    assert!(low_resolution((100, 100), (200, 300)));
    let dims = planned_dims((100, 100), (200, 300));
    assert_eq!(dims, (100, 100));
}

#[test]
fn planner_rejects_zero_dimensions() {
    assert_eq!(
        phototex::im_handling::compute_good_dimensions((0, 100), (10, 10)),
        Err(PhotoError::InvalidImageDimensions)
    );
    assert_eq!(
        phototex::im_handling::compute_good_dimensions((100, 0), (10, 10)),
        Err(PhotoError::InvalidImageDimensions)
    );
}

#[test]
fn plan_image_swaps_rotated_dims() {
    let source = SourceImageInfo {
        path: String::from("in/a.jpg"),
        dimensions: (5184, 3456),
        orientation: Orientation::Rotate90,
        user_req: LayoutReq::OnePortrait,
    };
    let planned = plan_image(&source, (2520, 3564), String::from("out/a.jpg")).unwrap();
    assert_eq!(planned.path, "out/a.jpg");
    assert_eq!(planned.resize_dims, (2520, 1680));
    assert_eq!(planned.rotated_dims, (1680, 2520));
    assert_eq!(planned.user_req, LayoutReq::OnePortrait);
}

#[test]
fn plan_image_keeps_dims_without_rotation() {
    let source = SourceImageInfo {
        path: String::from("in/b.jpg"),
        dimensions: (5184, 3456),
        orientation: Orientation::Keep,
        user_req: LayoutReq::Nothing,
    };
    let planned = plan_image(&source, (2520, 3564), String::from("out/b.jpg")).unwrap();
    assert_eq!(planned.resize_dims, (2520, 1680));
    assert_eq!(planned.rotated_dims, (2520, 1680));
}

#[test]
fn exif_orientation_mapping() {
    assert_eq!(orientation_from_exif(None), Orientation::Unknown);
    assert_eq!(orientation_from_exif(Some(&vec![1])), Orientation::Keep);
    assert_eq!(orientation_from_exif(Some(&vec![3])), Orientation::Rotate180);
    assert_eq!(orientation_from_exif(Some(&vec![6])), Orientation::Rotate90);
    assert_eq!(orientation_from_exif(Some(&vec![8])), Orientation::Rotate270);
    assert_eq!(orientation_from_exif(Some(&vec![2])), Orientation::Flipped);
    assert_eq!(orientation_from_exif(Some(&vec![])), Orientation::Unknown);
    assert_eq!(orientation_from_exif(Some(&vec![1, 1])), Orientation::Unknown);
}

#[test]
fn spaces_in_paths_are_detected() {
    assert!(path_contains_space("holiday photos/a.jpg"));
    assert!(!path_contains_space("holiday/a.jpg"));
    assert!(!path_contains_space(""));
}
