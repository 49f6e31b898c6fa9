use phototex::book_structure::write_pages;
use phototex::packing::pack_section;
use phototex::specs::FolderSpec;
use phototex::{FolderInfo, ImageInfo, LayoutReq, PageKind};

fn landscape() -> ImageInfo {
    ImageInfo {
        path: String::new(),
        resize_dims: (400, 300),
        rotated_dims: (400, 300),
        user_req: LayoutReq::Nothing,
    }
}

fn portrait() -> ImageInfo {
    ImageInfo {
        path: String::new(),
        resize_dims: (300, 400),
        rotated_dims: (300, 400),
        user_req: LayoutReq::Nothing,
    }
}

fn solo_portrait() -> ImageInfo {
    ImageInfo {
        path: String::new(),
        resize_dims: (300, 400),
        rotated_dims: (300, 400),
        user_req: LayoutReq::OnePortrait,
    }
}

#[test]
fn four_landscapes_make_two_pages_in_order() {
    let images = vec![landscape(), landscape(), landscape(), landscape()];
    let pages = pack_section(&images, 0, 0, &None);
    assert_eq!(pages.len(), 2);
    assert_eq!(pages[0].kind, PageKind::TwoLandscapes);
    assert_eq!(pages[0].images, vec![0, 1]);
    assert_eq!(pages[0].sequence_index, 0);
    assert_eq!(pages[1].kind, PageKind::TwoLandscapes);
    assert_eq!(pages[1].images, vec![2, 3]);
    assert_eq!(pages[1].sequence_index, 1);
}

#[test]
fn three_portraits_flush_to_one_composite_page() {
    let images = vec![portrait(), portrait(), portrait()];
    let pages = pack_section(&images, 0, 0, &None);
    assert_eq!(pages.len(), 1);
    assert_eq!(pages[0].kind, PageKind::TwoPortraitsOneLandscape);
    // no image is lost, duplicated or reordered: none of the three is
    // landscape, so the plain order stands
    assert_eq!(pages[0].images, vec![0, 1, 2]);
}

#[test]
fn two_portraits_one_landscape_fills_the_landscape_slot() {
    // the landscape is first in the run; it moves to the dedicated
    // (last) slot and the portraits keep their relative order
    let images = vec![landscape(), portrait(), portrait()];
    let pages = pack_section(&images, 0, 0, &None);
    assert_eq!(pages.len(), 1);
    assert_eq!(pages[0].kind, PageKind::TwoPortraitsOneLandscape);
    assert_eq!(pages[0].images, vec![1, 2, 0]);
}

#[test]
fn single_solo_portrait_gets_its_own_page() {
    let images = vec![solo_portrait()];
    let pages = pack_section(&images, 0, 0, &None);
    assert_eq!(pages.len(), 1);
    assert_eq!(pages[0].kind, PageKind::OnePortrait);
    assert_eq!(pages[0].images, vec![0]);
}

#[test]
fn packing_twice_gives_identical_pages() {
    let images = vec![
        landscape(),
        portrait(),
        solo_portrait(),
        landscape(),
        portrait(),
        portrait(),
        landscape(),
    ];
    let first = pack_section(&images, 3, 17, &Some(String::from("Summer")));
    let second = pack_section(&images, 3, 17, &Some(String::from("Summer")));
    assert_eq!(first, second);
}

#[test]
fn every_image_lands_on_exactly_one_page() {
    let images = vec![
        landscape(),
        portrait(),
        solo_portrait(),
        landscape(),
        portrait(),
        portrait(),
        landscape(),
        portrait(),
    ];
    let pages = pack_section(&images, 0, 0, &None);
    let mut counts = vec![0usize; images.len()];
    for page in &pages {
        for &i in &page.images {
            counts[i] += 1;
        }
    }
    assert_eq!(counts, vec![1; images.len()]);
}

#[test]
fn mixed_run_matches_rule_precedence() {
    // L L P P P L: the two leading landscapes pair up; the trailing
    // landscape is unpaired and joins the run.  At run length 3 the
    // landscape count is 0, so the three-with-one-landscape rule cannot
    // fire; at run length 4 the four-slot rule fires whatever the mix.
    let images = vec![
        landscape(),
        landscape(),
        portrait(),
        portrait(),
        portrait(),
        landscape(),
    ];
    let pages = pack_section(&images, 0, 0, &None);
    assert_eq!(pages.len(), 2);
    assert_eq!(pages[0].kind, PageKind::TwoLandscapes);
    assert_eq!(pages[0].images, vec![0, 1]);
    assert_eq!(pages[1].kind, PageKind::FourPortraits);
    assert_eq!(pages[1].images, vec![2, 3, 4, 5]);
}

#[test]
fn empty_section_has_no_pages() {
    let pages = pack_section(&Vec::new(), 0, 0, &Some(String::from("t")));
    assert!(pages.is_empty());
}

#[test]
fn single_landscape_reuses_the_one_image_template() {
    let images = vec![landscape()];
    let pages = pack_section(&images, 0, 0, &None);
    assert_eq!(pages.len(), 1);
    assert_eq!(pages[0].kind, PageKind::OnePortrait);
    assert_eq!(pages[0].images, vec![0]);
}

#[test]
fn two_remaining_images_reuse_the_two_slot_template() {
    let images = vec![portrait(), portrait()];
    let pages = pack_section(&images, 0, 0, &None);
    assert_eq!(pages.len(), 1);
    assert_eq!(pages[0].kind, PageKind::TwoLandscapes);
    assert_eq!(pages[0].images, vec![0, 1]);
}

#[test]
fn solo_page_sorts_before_later_pair() {
    // the solo portrait at position 0 must come first in the final order,
    // though the pair page was constructed before it
    let images = vec![solo_portrait(), landscape(), landscape()];
    let pages = pack_section(&images, 0, 0, &None);
    assert_eq!(pages.len(), 2);
    assert_eq!(pages[0].kind, PageKind::OnePortrait);
    assert_eq!(pages[0].images, vec![0]);
    assert_eq!(pages[0].sequence_index, 1);
    assert_eq!(pages[1].kind, PageKind::TwoLandscapes);
    assert_eq!(pages[1].images, vec![1, 2]);
    assert_eq!(pages[1].sequence_index, 0);
}

#[test]
fn title_goes_to_first_page_only() {
    let images = vec![portrait(), portrait(), landscape(), landscape()];
    let pages = pack_section(&images, 0, 0, &Some(String::from("Alps")));
    assert_eq!(pages.len(), 2);
    assert_eq!(pages[0].title, Some(String::from("Alps")));
    assert_eq!(pages[1].title, None);
}

#[test]
fn untitled_section_has_no_page_titles() {
    let images = vec![portrait()];
    let pages = pack_section(&images, 0, 0, &None);
    assert_eq!(pages[0].title, None);
}

#[test]
fn write_pages_numbers_sections_and_pages() {
    let first = FolderInfo {
        folder_spec: FolderSpec::empty(),
        image_infos: vec![landscape(), landscape()],
    };
    let second = FolderInfo {
        folder_spec: FolderSpec::new(Some(String::from("Sea")), Vec::new()),
        image_infos: vec![portrait()],
    };
    let pages = write_pages(&vec![first, second]);
    assert_eq!(pages.len(), 2);
    assert_eq!(pages[0].section, 0);
    assert_eq!(pages[0].sequence_index, 0);
    assert_eq!(pages[0].kind, PageKind::TwoLandscapes);
    assert_eq!(pages[0].title, None);
    assert_eq!(pages[1].section, 1);
    assert_eq!(pages[1].sequence_index, 1);
    assert_eq!(pages[1].kind, PageKind::OnePortrait);
    assert_eq!(pages[1].title, Some(String::from("Sea")));
}
