//! Decisions around the compiled book: the output file name of the
//! document compiler, and which page positions cover stripping removes.
//! Running the compiler and rewriting the file are left to the unverified
//! front end.

use vstd::prelude::*;
use vstd::string::*;
use crate::{find_str, lemma_first_match_from, spec_find, PhotoError};

verus! {

/// Every occurrence of `pat` in `s` replaced by `rep`, scanning left to
/// right over non-overlapping occurrences.  An empty pattern replaces
/// nothing.
pub open spec fn spec_replace_all(s: Seq<char>, pat: Seq<char>, rep: Seq<char>) -> Seq<char>
    decreases s.len(),
{
    if pat.len() == 0 {
        s
    } else {
        match spec_find(s, pat) {
            None => s,
            Some(i) => if 0 <= i && i + pat.len() <= s.len() {
                s.subrange(0, i) + rep + spec_replace_all(
                    s.subrange(i + pat.len(), s.len() as int),
                    pat,
                    rep,
                )
            } else {
                s
            },
        }
    }
}

/// Whether `s` ends with the suffix `suffix`.
pub open spec fn spec_ends_with(s: Seq<char>, suffix: Seq<char>) -> bool {
    s.len() >= suffix.len() && s.subrange(s.len() - suffix.len(), s.len() as int) =~= suffix
}

/// The name of the compiled document: a `.tex` name with every `.tex`
/// replaced by `.pdf`, any other name with `.pdf` appended.
pub open spec fn spec_pdf_file_name(tex: Seq<char>) -> Seq<char> {
    if spec_ends_with(tex, ".tex"@) {
        spec_replace_all(tex, ".tex"@, ".pdf"@)
    } else {
        tex + ".pdf"@
    }
}

/// Derives the compiled document's file name from the source name.
pub fn pdf_file_name(tex_file_name: &str) -> (r: String)
    ensures
        r@ == spec_pdf_file_name(tex_file_name@),
{
    proof {
        reveal_strlit(".tex");
        reveal_strlit(".pdf");
    }
    let n = tex_file_name.unicode_len();
    let ends_with_tex = n >= 4 && tex_file_name.get_char(n - 4) == '.' && tex_file_name.get_char(
        n - 3,
    ) == 't' && tex_file_name.get_char(n - 2) == 'e' && tex_file_name.get_char(n - 1) == 'x';
    proof {
        assert(ends_with_tex == spec_ends_with(tex_file_name@, ".tex"@)) by {
            if n >= 4 {
                let tail = tex_file_name@.subrange(n - 4, n as int);
                assert(tail[0] == tex_file_name@[n - 4] && tail[1] == tex_file_name@[n - 3]
                    && tail[2] == tex_file_name@[n - 2] && tail[3] == tex_file_name@[n - 1]);
                if tex_file_name@[n - 4] == '.' && tex_file_name@[n - 3] == 't'
                    && tex_file_name@[n - 2] == 'e' && tex_file_name@[n - 1] == 'x' {
                    assert(tail =~= ".tex"@);
                }
            }
        }
    }
    if !ends_with_tex {
        let mut out = String::from_str(tex_file_name);
        out.append(".pdf");
        return out;
    }
    let mut out = String::new();
    let mut rest = String::from_str(tex_file_name);
    proof {
        assert(out@ + spec_replace_all(rest@, ".tex"@, ".pdf"@) =~= spec_replace_all(
            tex_file_name@,
            ".tex"@,
            ".pdf"@,
        ));
    }
    loop
        invariant
            spec_ends_with(tex_file_name@, ".tex"@),
            spec_replace_all(tex_file_name@, ".tex"@, ".pdf"@) == out@ + spec_replace_all(
                rest@,
                ".tex"@,
                ".pdf"@,
            ),
            ".tex"@.len() == 4,
        decreases rest@.len(),
    {
        let found = find_str(rest.as_str(), ".tex");
        match found {
            None => {
                out.append(rest.as_str());
                proof {
                    assert(spec_replace_all(rest@, ".tex"@, ".pdf"@) == rest@);
                }
                return out;
            },
            Some(pos) => {
                proof {
                    lemma_first_match_from(rest@, ".tex"@, 0);
                }
                let ghost rest_old = rest@;
                let ghost out_old = out@;
                let m = rest.as_str().unicode_len();
                let pre = rest.as_str().substring_char(0, pos);
                out.append(pre);
                out.append(".pdf");
                let tail = String::from_str(rest.as_str().substring_char(pos + 4, m));
                rest = tail;
                proof {
                    assert(spec_replace_all(rest_old, ".tex"@, ".pdf"@) == rest_old.subrange(
                        0,
                        pos as int,
                    ) + ".pdf"@ + spec_replace_all(rest@, ".tex"@, ".pdf"@));
                    assert(out_old + (rest_old.subrange(0, pos as int) + ".pdf"@
                        + spec_replace_all(rest@, ".tex"@, ".pdf"@)) =~= (out_old
                        + rest_old.subrange(0, pos as int) + ".pdf"@) + spec_replace_all(
                        rest@,
                        ".tex"@,
                        ".pdf"@,
                    ));
                    assert(out@ =~= out_old + rest_old.subrange(0, pos as int) + ".pdf"@);
                }
            },
        }
    }
}

/// Which page positions cover stripping removes from a compiled book: the
/// second page and the second-to-last page.  A book of six or fewer pages
/// is too short to strip.
pub fn covers_to_remove(page_numbers: &Vec<u32>) -> (r: Result<(u32, u32), PhotoError>)
    ensures
        match r {
            Ok(pair) => page_numbers@.len() > 6 && pair.0 == page_numbers@[1] && pair.1
                == page_numbers@[page_numbers@.len() - 2],
            Err(e) => page_numbers@.len() <= 6 && e == PhotoError::PdfTooShort,
        },
{
    if page_numbers.len() <= 6 {
        Err(PhotoError::PdfTooShort)
    } else {
        Ok((page_numbers[1], page_numbers[page_numbers.len() - 2]))
    }
}

} // verus!
