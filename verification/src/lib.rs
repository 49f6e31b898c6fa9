//! Verified core of a photo-book layout generator.
//!
//! A run of the tool turns folders of photographs into print-ready page
//! layouts.  The algorithmic heart is verified here: the dimension planner
//! (choosing output pixel sizes that satisfy a print-density requirement
//! without upscaling, aligned to codec blocks) and the layout packer
//! (grouping an ordered sequence of oriented images into fixed page
//! templates).  File enumeration, pixel decoding and resizing, EXIF reading,
//! JSON sidecar loading, LaTeX compilation and PDF post-processing are left
//! to an unverified front end that calls into this crate with plain values.

use vstd::prelude::*;
use vstd::string::*;

pub mod book_structure;
pub mod im_handling;
pub mod packing;
pub mod pages;
pub mod pdf_handling;
pub mod specs;

verus! {

/// Per-image layout override requested by the user for one image.
#[derive(Copy, Clone, PartialEq, Eq, Structural, Debug)]
pub enum LayoutReq {
    /// The image must appear alone on a one-portrait page.
    OnePortrait,
    /// No explicit request; the packer decides.
    Nothing,
}

/// EXIF orientation of a photograph.  Rotations are clockwise.
#[derive(Copy, Clone, PartialEq, Eq, Structural, Debug)]
pub enum Orientation {
    Rotate90,
    Rotate270,
    Rotate180,
    Keep,
    Unknown,
    Flipped,
}

/// Coarse orientation class of an image or page.
#[derive(Copy, Clone, PartialEq, Eq, Structural, Debug)]
pub enum PageOrientation {
    Portrait,
    Landscape,
    Square,
}

impl PageOrientation {
    /// Text name of the orientation class.
    pub fn as_str(&self) -> (r: &'static str)
        ensures
            *self is Portrait ==> r@ == "portrait"@,
            *self is Landscape ==> r@ == "landscape"@,
            *self is Square ==> r@ == "square"@,
    {
        match self {
            PageOrientation::Portrait => "portrait",
            PageOrientation::Landscape => "landscape",
            PageOrientation::Square => "square",
        }
    }
}

/// The fixed page templates a packed page can use.
#[derive(Copy, Clone, PartialEq, Eq, Structural, Debug)]
pub enum PageKind {
    TwoLandscapes,
    OnePortrait,
    TwoPortraitsOneLandscape,
    FourPortraits,
}

/// Errors surfaced by the verified core.
#[derive(Copy, Clone, PartialEq, Eq, Structural, Debug)]
pub enum PhotoError {
    /// A native image dimension was zero.
    InvalidImageDimensions,
    /// A compiled book had too few pages for cover stripping.
    PdfTooShort,
}

/// One image as scanned from a source folder, before dimension planning.
#[derive(Debug)]
pub struct SourceImageInfo {
    /// Path of the source file.
    pub path: String,
    /// Native pixel dimensions (width, height), pre-rotation.
    pub dimensions: (u32, u32),
    /// EXIF orientation.
    pub orientation: Orientation,
    /// User layout override for this image.
    pub user_req: LayoutReq,
}

/// A source folder (one book section) before dimension planning.
#[derive(Debug)]
pub struct SourceFolderInfo {
    pub folder_spec: specs::FolderSpec,
    pub image_infos: Vec<SourceImageInfo>,
}

/// One image after dimension planning.
#[derive(Debug)]
pub struct ImageInfo {
    /// Path of the resized output file.
    pub path: String,
    /// Output pixel dimensions chosen by the planner, pre-rotation.
    pub resize_dims: (u32, u32),
    /// `resize_dims`, swapped when the orientation is a quarter turn.
    /// All layout classification uses this field.
    pub rotated_dims: (u32, u32),
    /// User layout override for this image.
    pub user_req: LayoutReq,
}

/// A planned folder (one book section): its sidecar spec and its images.
#[derive(Debug)]
pub struct FolderInfo {
    pub folder_spec: specs::FolderSpec,
    pub image_infos: Vec<ImageInfo>,
}

/// Book-level metadata for the top-level document.
#[derive(Copy, Clone)]
pub struct BookInfo<'a> {
    pub title: &'a str,
    pub title_font_size: &'a str,
    pub title_leading_size: &'a str,
    /// Resolved path of the optional title image.
    pub title_im_path: Option<&'a str>,
}

/// One packed page: which template it uses and which images fill its slots.
#[derive(Clone, Debug, PartialEq)]
pub struct PageInfo {
    /// Construction order of the page over the whole book.
    pub sequence_index: usize,
    /// Index of the section the page belongs to.
    pub section: usize,
    /// The template of the page.
    pub kind: PageKind,
    /// Positions (within the section's image list) of the images on the
    /// page, in template slot order.
    pub images: Vec<usize>,
    /// Section title, carried by the first page of a section only.
    pub title: Option<String>,
}

/// Mathematical model of a [`PageInfo`].
#[verifier::ext_equal]
pub ghost struct PageModel {
    pub sequence_index: int,
    pub section: int,
    pub kind: PageKind,
    pub images: Seq<int>,
    pub title: Option<Seq<char>>,
}

impl View for PageInfo {
    type V = PageModel;

    open spec fn view(&self) -> PageModel {
        PageModel {
            sequence_index: self.sequence_index as int,
            section: self.section as int,
            kind: self.kind,
            images: self.images@.map_values(|u: usize| u as int),
            title: match self.title {
                Some(t) => Some(t@),
                None => None,
            },
        }
    }
}

/// The view of an optional owned string.
pub open spec fn opt_string_view(t: Option<String>) -> Option<Seq<char>> {
    match t {
        Some(t) => Some(t@),
        None => None,
    }
}

/// Whether `pat` occurs in `s` starting at position `i`.
pub open spec fn matches_at(s: Seq<char>, pat: Seq<char>, i: int) -> bool {
    0 <= i && i + pat.len() <= s.len() && s.subrange(i, i + pat.len() as int) =~= pat
}

/// The first position `>= i` at which `pat` occurs in `s`, if any.
pub open spec fn first_match_from(s: Seq<char>, pat: Seq<char>, i: int) -> Option<int>
    decreases s.len() - i,
{
    if i < 0 || i + pat.len() > s.len() {
        None
    } else if matches_at(s, pat, i) {
        Some(i)
    } else {
        first_match_from(s, pat, i + 1)
    }
}

/// The first position at which `pat` occurs in `s`, if any.
pub open spec fn spec_find(s: Seq<char>, pat: Seq<char>) -> Option<int> {
    first_match_from(s, pat, 0)
}

/// `s` with the occurrence of `pat` at position `i` replaced by `rep`.
pub open spec fn spec_replaced(s: Seq<char>, pat: Seq<char>, rep: Seq<char>, i: int) -> Seq<char> {
    s.subrange(0, i) + rep + s.subrange(i + pat.len(), s.len() as int)
}

/// A found first match is a match, and nothing before it matches.
pub proof fn lemma_first_match_from(s: Seq<char>, pat: Seq<char>, i: int)
    requires
        first_match_from(s, pat, i) is Some,
    ensures
        i <= first_match_from(s, pat, i)->Some_0,
        matches_at(s, pat, first_match_from(s, pat, i)->Some_0),
        forall|j: int|
            i <= j < first_match_from(s, pat, i)->Some_0 ==> !matches_at(s, pat, j),
    decreases s.len() - i,
{
    if !(i < 0 || i + pat.len() > s.len()) && !matches_at(s, pat, i) {
        lemma_first_match_from(s, pat, i + 1);
    }
}

pub(crate) fn find_str(s: &str, pat: &str) -> (r: Option<usize>)
    ensures
        match r {
            Some(i) => spec_find(s@, pat@) == Some(i as int),
            None => spec_find(s@, pat@) is None,
        },
{
    let n = s.unicode_len();
    let m = pat.unicode_len();
    if m == 0 {
        proof {
            assert(s@.subrange(0, 0) =~= pat@);
        }
        return Some(0);
    }
    if m > n {
        return None;
    }
    let mut i: usize = 0;
    loop
        invariant
            n == s@.len(),
            m == pat@.len(),
            0 < m <= n,
            i <= n - m + 1,
            first_match_from(s@, pat@, 0) == first_match_from(s@, pat@, i as int),
        decreases n - i,
    {
        if i > n - m {
            return None;
        }
        let mut j: usize = 0;
        let mut mismatch = false;
        while j < m
            invariant
                n == s@.len(),
                m == pat@.len(),
                0 < m <= n,
                i <= n - m,
                j <= m,
                !mismatch ==> forall|k: int| 0 <= k < j ==> s@[i + k] == pat@[k],
                mismatch ==> !matches_at(s@, pat@, i as int),
            decreases m - j,
        {
            if s.get_char(i + j) != pat.get_char(j) {
                proof {
                    assert(s@.subrange(i as int, i + m) != pat@) by {
                        assert(s@.subrange(i as int, i + m)[j as int] == s@[i + j]);
                    }
                }
                mismatch = true;
                j = m;
            } else {
                j = j + 1;
            }
        }
        if !mismatch {
            proof {
                assert(s@.subrange(i as int, i + m) =~= pat@);
            }
            return Some(i);
        }
        i = i + 1;
    }
}

/// Replaces the first occurrence of `pat` in `io_string` with
/// `replace_with`; reports `Err` and leaves the string unchanged when `pat`
/// does not occur.
pub fn replace(io_string: &mut String, pat: &str, replace_with: &str) -> (r: Result<(), ()>)
    ensures
        match r {
            Ok(_) => spec_find(old(io_string)@, pat@) is Some && final(io_string)@ == spec_replaced(
                old(io_string)@,
                pat@,
                replace_with@,
                spec_find(old(io_string)@, pat@)->Some_0,
            ),
            Err(_) => spec_find(old(io_string)@, pat@) is None && final(io_string)@ == old(
                io_string,
            )@,
        },
{
    let found = find_str(io_string.as_str(), pat);
    match found {
        None => Err(()),
        Some(pos) => {
            proof {
                lemma_first_match_from(io_string@, pat@, 0);
            }
            let n = io_string.as_str().unicode_len();
            let m = pat.unicode_len();
            let pre = io_string.as_str().substring_char(0, pos);
            let post = io_string.as_str().substring_char(pos + m, n);
            let mut out = String::from_str(pre);
            out.append(replace_with);
            out.append(post);
            *io_string = out;
            Ok(())
        },
    }
}

} // verus!
