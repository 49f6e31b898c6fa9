//! Book assembly: packing every section into pages, and the text
//! substitutions that produce the top-level document source.

use vstd::prelude::*;
use vstd::string::*;
use crate::packing::{pack_section, pages_view, spec_pack};
use crate::{
    replace, spec_find, spec_replaced, BookInfo, FolderInfo, PageInfo, PageModel,
};

verus! {

/// Total number of images over all sections.
pub open spec fn spec_total_images(folders: Seq<FolderInfo>) -> int
    decreases folders.len(),
{
    if folders.len() == 0 {
        0
    } else {
        folders[0].image_infos@.len() + spec_total_images(folders.skip(1))
    }
}

/// The pages of all sections from `sec` on, numbered from `id` onwards in
/// construction order.
pub open spec fn spec_write_pages_from(folders: Seq<FolderInfo>, sec: int, id: int) -> Seq<
    PageModel,
>
    decreases folders.len(),
{
    if folders.len() == 0 {
        Seq::empty()
    } else {
        let pages = spec_pack(
            folders[0].image_infos@,
            sec,
            id,
            folders[0].folder_spec.spec_title(),
        );
        pages + spec_write_pages_from(folders.skip(1), sec + 1, id + pages.len())
    }
}

/// The pages of the whole book: every section packed independently, in
/// order, with a single page numbering running over all of them.
pub open spec fn spec_write_pages(folders: Seq<FolderInfo>) -> Seq<PageModel> {
    spec_write_pages_from(folders, 0, 0)
}

/// Packs every section of the book into pages.
pub fn write_pages(folders: &Vec<FolderInfo>) -> (r: Vec<PageInfo>)
    requires
        spec_total_images(folders@) <= usize::MAX,
    ensures
        pages_view(r@) == spec_write_pages(folders@),
        r@.len() <= spec_total_images(folders@),
{
    let ghost fs = folders@;
    let mut r: Vec<PageInfo> = Vec::new();
    let mut f: usize = 0;
    let ghost mut images_seen: int = 0;
    proof {
        assert(fs.skip(0) =~= fs);
        assert(pages_view(r@) + spec_write_pages_from(fs, 0, 0) =~= spec_write_pages_from(
            fs,
            0,
            0,
        ));
    }
    while f < folders.len()
        invariant
            fs == folders@,
            f <= fs.len(),
            spec_total_images(fs) <= usize::MAX,
            images_seen + spec_total_images(fs.skip(f as int)) == spec_total_images(fs),
            0 <= images_seen,
            r@.len() <= images_seen,
            spec_write_pages(fs) == pages_view(r@) + spec_write_pages_from(
                fs.skip(f as int),
                f as int,
                r@.len() as int,
            ),
        decreases fs.len() - f,
    {
        let ghost rest = fs.skip(f as int);
        let ghost r_old = r@;
        let folder = &folders[f];
        proof {
            assert(rest[0] == fs[f as int]);
            assert(spec_total_images(rest) == folder.image_infos@.len() + spec_total_images(
                fs.skip(f + 1),
            )) by {
                assert(rest.skip(1) =~= fs.skip(f + 1));
            }
            assert(spec_total_images_nonneg(fs.skip(f + 1))) by {
                lemma_total_images_nonneg(fs.skip(f + 1));
            }
        }
        let mut pages = pack_section(&folder.image_infos, f, r.len(), folder.folder_spec.title_ref());
        let ghost new_pages = pages@;
        r.append(&mut pages);
        proof {
            assert(pages_view(r@) =~= pages_view(r_old) + pages_view(new_pages));
        }
        proof {
            images_seen = images_seen + folder.image_infos@.len() as int;
        }
        f = f + 1;
        proof {
            assert(fs.skip(f - 1).skip(1) =~= fs.skip(f as int));
        }
    }
    proof {
        assert(spec_write_pages_from(fs.skip(f as int), f as int, r@.len() as int)
            == Seq::<PageModel>::empty());
        assert(pages_view(r@) + Seq::<PageModel>::empty() =~= pages_view(r@));
    }
    r
}

/// The view of an optional borrowed string.
pub open spec fn opt_str_view(t: Option<&str>) -> Option<Seq<char>> {
    match t {
        Some(t) => Some(t@),
        None => None,
    }
}

/// The text substituted for the title-image placeholder: an image include
/// command for the given path, or nothing when the book has no title image.
pub open spec fn spec_title_image_command(im_path: Option<Seq<char>>) -> Seq<char> {
    match im_path {
        Some(p) => "\\includegraphics[width=0.90\\textwidth,height=0.70\\textheight,keepaspectratio]{"@
            + p + "}"@,
        None => Seq::<char>::empty(),
    }
}

/// One substitution step of the top-level pipeline: replaces the first
/// occurrence of `pat`, or fails when a step before failed or `pat` does
/// not occur.
pub open spec fn spec_replace_step(
    text: Option<Seq<char>>,
    pat: Seq<char>,
    rep: Seq<char>,
) -> Option<Seq<char>> {
    match text {
        None => None,
        Some(t) => match spec_find(t, pat) {
            Some(i) => Some(spec_replaced(t, pat, rep, i)),
            None => None,
        },
    }
}

/// The page-include block of the top-level document: one input command
/// per page path, in order.
pub open spec fn spec_includes(paths: Seq<Seq<char>>) -> Seq<char>
    decreases paths.len(),
{
    if paths.len() == 0 {
        Seq::<char>::empty()
    } else {
        "\\input{"@ + paths[0] + "}\n"@ + spec_includes(paths.skip(1))
    }
}

/// The top-level document text: the template with the title image, title
/// string, title sizes, page includes and fourth cover filled in, or
/// nothing when a placeholder is missing from the template.
pub open spec fn spec_toplevel_text(
    template: Seq<char>,
    im_path: Option<Seq<char>>,
    title: Seq<char>,
    font_size: Seq<char>,
    leading_size: Seq<char>,
    page_paths: Seq<Seq<char>>,
) -> Option<Seq<char>> {
    let t1 = spec_replace_step(
        Some(template),
        "PHOTOTEX_TITLE_IMAGE_COMMAND"@,
        spec_title_image_command(im_path),
    );
    let t2 = spec_replace_step(t1, "PHOTOTEX_TITLE_STRING"@, title);
    let t3 = spec_replace_step(t2, "PHOTOTEX_TITLE_FONT_SIZE"@, font_size);
    let t4 = spec_replace_step(t3, "PHOTOTEX_TITLE_LEADING_SIZE"@, leading_size);
    let t5 = spec_replace_step(t4, "PHOTOTEX_PAGES_INCLUDE_PLACEHOLDER"@, spec_includes(page_paths));
    spec_replace_step(t5, "PHOTOTEX_FOURTH_COVER"@, Seq::<char>::empty())
}

/// Substitutes the title-image placeholder of the top-level template:
/// an include command for `im_path` (already resolved to a plain string by
/// the caller), or nothing when the book has no title image.  Fails, with
/// the text unchanged, when the placeholder is missing.
pub fn handle_title_image(toplevel_text: &mut String, im_path: Option<&str>) -> (r: Result<
    (),
    (),
>)
    ensures
        match r {
            Ok(_) => spec_replace_step(
                Some(old(toplevel_text)@),
                "PHOTOTEX_TITLE_IMAGE_COMMAND"@,
                spec_title_image_command(opt_str_view(im_path)),
            ) == Some(final(toplevel_text)@),
            Err(_) => spec_replace_step(
                Some(old(toplevel_text)@),
                "PHOTOTEX_TITLE_IMAGE_COMMAND"@,
                spec_title_image_command(opt_str_view(im_path)),
            ) is None && final(toplevel_text)@ == old(toplevel_text)@,
        },
{
    let cmd: String = match im_path {
        Some(p) => {
            let mut c = String::from_str(
                "\\includegraphics[width=0.90\\textwidth,height=0.70\\textheight,keepaspectratio]{",
            );
            c.append(p);
            c.append("}");
            c
        },
        None => String::new(),
    };
    proof {
        assert(cmd@ == spec_title_image_command(opt_str_view(im_path)));
    }
    replace(toplevel_text, "PHOTOTEX_TITLE_IMAGE_COMMAND", cmd.as_str())
}

/// Builds the top-level document text from the template: fills in the
/// title image, the title and its font sizes, the page-include block and
/// an empty fourth cover.  Fails when any placeholder is missing from the
/// template.
pub fn build_toplevel_text(
    template: &str,
    book_info: &BookInfo,
    page_paths: &Vec<String>,
) -> (r: Result<String, ()>)
    ensures
        match r {
            Ok(out) => spec_toplevel_text(
                template@,
                opt_str_view(book_info.title_im_path),
                book_info.title@,
                book_info.title_font_size@,
                book_info.title_leading_size@,
                page_paths@.map_values(|p: String| p@),
            ) == Some(out@),
            Err(_) => spec_toplevel_text(
                template@,
                opt_str_view(book_info.title_im_path),
                book_info.title@,
                book_info.title_font_size@,
                book_info.title_leading_size@,
                page_paths@.map_values(|p: String| p@),
            ) is None,
        },
{
    let mut text = String::from_str(template);
    if handle_title_image(&mut text, book_info.title_im_path).is_err() {
        return Err(());
    }
    if replace(&mut text, "PHOTOTEX_TITLE_STRING", book_info.title).is_err() {
        return Err(());
    }
    if replace(&mut text, "PHOTOTEX_TITLE_FONT_SIZE", book_info.title_font_size).is_err() {
        return Err(());
    }
    if replace(&mut text, "PHOTOTEX_TITLE_LEADING_SIZE", book_info.title_leading_size).is_err() {
        return Err(());
    }
    let ghost paths_view = page_paths@.map_values(|p: String| p@);
    let mut includes = String::new();
    let mut i: usize = 0;
    proof {
        assert(paths_view.skip(0) =~= paths_view);
        assert(includes@ + spec_includes(paths_view) =~= spec_includes(paths_view));
    }
    while i < page_paths.len()
        invariant
            paths_view == page_paths@.map_values(|p: String| p@),
            i <= page_paths@.len(),
            spec_includes(paths_view) == includes@ + spec_includes(paths_view.skip(i as int)),
        decreases page_paths@.len() - i,
    {
        let ghost inc_old = includes@;
        let ghost rest = paths_view.skip(i as int);
        includes.append("\\input{");
        includes.append(page_paths[i].as_str());
        includes.append("}\n");
        proof {
            assert(rest[0] == paths_view[i as int]);
            assert(rest.skip(1) =~= paths_view.skip(i + 1));
            assert(includes@ =~= inc_old + ("\\input{"@ + paths_view[i as int] + "}\n"@));
            assert(inc_old + ("\\input{"@ + rest[0] + "}\n"@ + spec_includes(rest.skip(1)))
                =~= (inc_old + ("\\input{"@ + rest[0] + "}\n"@)) + spec_includes(rest.skip(1)));
        }
        i = i + 1;
    }
    proof {
        assert(spec_includes(paths_view.skip(i as int)) =~= Seq::<char>::empty());
        assert(includes@ + Seq::<char>::empty() =~= includes@);
    }
    if replace(&mut text, "PHOTOTEX_PAGES_INCLUDE_PLACEHOLDER", includes.as_str()).is_err() {
        return Err(());
    }
    proof {
        reveal_strlit("");
        assert(""@ =~= Seq::<char>::empty());
    }
    if replace(&mut text, "PHOTOTEX_FOURTH_COVER", "").is_err() {
        return Err(());
    }
    Ok(text)
}

/// Non-negativity of the image count, stated as a predicate for use in
/// assertions.
pub open spec fn spec_total_images_nonneg(folders: Seq<FolderInfo>) -> bool {
    spec_total_images(folders) >= 0
}

/// The total image count is never negative.
pub proof fn lemma_total_images_nonneg(folders: Seq<FolderInfo>)
    ensures
        spec_total_images(folders) >= 0,
    decreases folders.len(),
{
    if folders.len() > 0 {
        lemma_total_images_nonneg(folders.skip(1));
    }
}

} // verus!
