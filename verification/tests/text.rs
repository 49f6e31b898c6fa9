use phototex::book_structure::{build_toplevel_text, handle_title_image};
use phototex::pages::{set_section_title, Page};
use phototex::pdf_handling::{covers_to_remove, pdf_file_name};
use phototex::specs::FolderSpec;
use phototex::{replace, BookInfo, PageOrientation, PhotoError};

#[test]
fn replace_substitutes_first_occurrence() {
    let mut text = String::from("hello PAT world PAT");
    assert_eq!(replace(&mut text, "PAT", "X"), Ok(()));
    assert_eq!(text, "hello X world PAT");
}

#[test]
fn replace_reports_missing_pattern() {
    let mut text = String::from("hello world");
    assert_eq!(replace(&mut text, "PAT", "X"), Err(()));
    assert_eq!(text, "hello world");
}

#[test]
fn replace_with_longer_replacement() {
    let mut text = String::from("a-b");
    assert_eq!(replace(&mut text, "-", " to "), Ok(()));
    assert_eq!(text, "a to b");
}

#[test]
fn title_image_command_is_filled_in() {
    let mut text = String::from("before PHOTOTEX_TITLE_IMAGE_COMMAND after");
    assert_eq!(handle_title_image(&mut text, Some("/tmp/a.jpg")), Ok(()));
    assert_eq!(
        text,
        "before \\includegraphics[width=0.90\\textwidth,height=0.70\\textheight,\
         keepaspectratio]{/tmp/a.jpg} after"
    );
}

#[test]
fn missing_title_image_clears_the_placeholder() {
    let mut text = String::from("before PHOTOTEX_TITLE_IMAGE_COMMAND after");
    assert_eq!(handle_title_image(&mut text, None), Ok(()));
    assert_eq!(text, "before  after");
}

#[test]
fn toplevel_text_is_assembled() {
    let template = "\\title{PHOTOTEX_TITLE_STRING}[PHOTOTEX_TITLE_FONT_SIZE/\
                    PHOTOTEX_TITLE_LEADING_SIZE]PHOTOTEX_TITLE_IMAGE_COMMAND\n\
                    PHOTOTEX_PAGES_INCLUDE_PLACEHOLDER PHOTOTEX_FOURTH_COVER";
    let book_info = BookInfo {
        title: "Holidays",
        title_font_size: "42pt",
        title_leading_size: "46.2pt",
        title_im_path: None,
    };
    let pages = vec![String::from("/out/page000"), String::from("/out/page001")];
    let text = build_toplevel_text(template, &book_info, &pages).unwrap();
    assert_eq!(
        text,
        "\\title{Holidays}[42pt/46.2pt]\n\
         \\input{/out/page000}\n\\input{/out/page001}\n "
    );
}

#[test]
fn toplevel_text_fails_without_placeholders() {
    let book_info = BookInfo {
        title: "T",
        title_font_size: "42pt",
        title_leading_size: "46.2pt",
        title_im_path: None,
    };
    assert_eq!(
        build_toplevel_text("no placeholders here", &book_info, &Vec::new()),
        Err(())
    );
}

#[test]
fn section_title_is_substituted() {
    let mut text = String::from("x PHOTOTEX_PAGE_TITLE y");
    assert_eq!(set_section_title(&mut text, Some("Alps")), Ok(()));
    assert_eq!(text, "x Alps y");
}

#[test]
fn absent_section_title_becomes_a_comment() {
    let mut text = String::from("x PHOTOTEX_PAGE_TITLE y");
    assert_eq!(set_section_title(&mut text, None), Ok(()));
    assert_eq!(text, "x % page title y");
}

#[test]
fn page_ids_count_up() {
    let mut page_id = 5;
    let page = Page::new(&mut page_id);
    assert_eq!(page.id, 5);
    assert_eq!(page_id, 6);
    let next = Page::new(&mut page_id);
    assert_eq!(next.id, 6);
    assert_eq!(page_id, 7);
}

#[test]
fn page_dir_names_are_zero_padded() {
    assert_eq!(Page { id: 0 }.dir_name(), "page000");
    assert_eq!(Page { id: 5 }.dir_name(), "page005");
    assert_eq!(Page { id: 42 }.dir_name(), "page042");
    assert_eq!(Page { id: 123 }.dir_name(), "page123");
    assert_eq!(Page { id: 1234 }.dir_name(), "page1234");
}

#[test]
fn pdf_name_swaps_the_extension() {
    assert_eq!(pdf_file_name("photobook.tex"), "photobook.pdf");
}

#[test]
fn pdf_name_appends_without_tex_extension() {
    assert_eq!(pdf_file_name("photobook"), "photobook.pdf");
}

#[test]
fn pdf_name_replaces_every_tex_occurrence() {
    assert_eq!(pdf_file_name("a.tex.tex"), "a.pdf.pdf");
}

#[test]
fn cover_stripping_picks_second_and_second_to_last() {
    let pages = vec![1, 2, 3, 4, 5, 6, 7];
    assert_eq!(covers_to_remove(&pages), Ok((2, 6)));
}

#[test]
fn cover_stripping_rejects_short_books() {
    let pages = vec![1, 2, 3, 4, 5, 6];
    assert_eq!(covers_to_remove(&pages), Err(PhotoError::PdfTooShort));
}

#[test]
fn folder_spec_empty_has_nothing() {
    let spec = FolderSpec::empty();
    assert!(spec.one_portraits().is_empty());
    assert_eq!(spec.section_title(), None);
}

#[test]
fn folder_spec_carries_title_and_overrides() {
    let spec = FolderSpec::new(
        Some(String::from("Alps")),
        vec![String::from("a.jpg"), String::from("b.jpg")],
    );
    assert_eq!(spec.section_title(), Some("Alps"));
    assert_eq!(spec.one_portraits(), ["a.jpg", "b.jpg"]);
    assert!(spec.requests_one_portrait("a.jpg"));
    assert!(spec.requests_one_portrait("b.jpg"));
    assert!(!spec.requests_one_portrait("c.jpg"));
}

#[test]
fn orientation_labels() {
    assert_eq!(PageOrientation::Portrait.as_str(), "portrait");
    assert_eq!(PageOrientation::Landscape.as_str(), "landscape");
    assert_eq!(PageOrientation::Square.as_str(), "square");
}
