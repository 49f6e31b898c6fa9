//! Page identity and per-page text substitutions.  Writing the page files
//! themselves is left to the unverified front end.

use vstd::prelude::*;
use crate::{replace, spec_find, spec_replaced};

verus! {

/// One page under construction, identified by its number in the book.
#[derive(Copy, Clone, PartialEq, Eq, Structural, Debug)]
pub struct Page {
    /// Number of the page in construction order over the whole book.
    pub id: usize,
}

impl Page {
    /// Claims the next page number.
    pub fn new(page_id: &mut usize) -> (r: Page)
        requires
            *old(page_id) < usize::MAX,
        ensures
            r.id == *old(page_id),
            *final(page_id) == *old(page_id) + 1,
    {
        let page = Page { id: *page_id };
        *page_id = *page_id + 1;
        page
    }

    /// Name of the directory holding this page's source file.
    pub fn dir_name(&self) -> (r: String)
        ensures
            r@ == spec_page_dir_name(self.id as int),
    {
        let mut out = String::from_str("page");
        if self.id < 10 {
            out.append("00");
        } else if self.id < 100 {
            out.append("0");
        }
        append_decimal(&mut out, self.id);
        out
    }
}

/// The character for one decimal digit.
pub open spec fn spec_digit(d: int) -> char {
    if d == 0 {
        '0'
    } else if d == 1 {
        '1'
    } else if d == 2 {
        '2'
    } else if d == 3 {
        '3'
    } else if d == 4 {
        '4'
    } else if d == 5 {
        '5'
    } else if d == 6 {
        '6'
    } else if d == 7 {
        '7'
    } else if d == 8 {
        '8'
    } else {
        '9'
    }
}

/// The decimal digits of `n`, most significant first.
pub open spec fn spec_decimal(n: int) -> Seq<char>
    decreases n,
{
    if n < 10 {
        seq![spec_digit(n)]
    } else {
        spec_decimal(n / 10) + seq![spec_digit(n % 10)]
    }
}

/// The name of the directory holding a page's source file: `page` and the
/// page number, zero-padded to at least three digits.
pub open spec fn spec_page_dir_name(id: int) -> Seq<char> {
    "page"@ + (if id < 10 {
        "00"@ + spec_decimal(id)
    } else if id < 100 {
        "0"@ + spec_decimal(id)
    } else {
        spec_decimal(id)
    })
}

fn digit_str(d: usize) -> (r: &'static str)
    requires
        d < 10,
    ensures
        r@ == seq![spec_digit(d as int)],
{
    if d == 0 {
        proof {
            reveal_strlit("0");
            assert("0"@ =~= seq![spec_digit(0)]);
        }
        "0"
    } else if d == 1 {
        proof {
            reveal_strlit("1");
            assert("1"@ =~= seq![spec_digit(1)]);
        }
        "1"
    } else if d == 2 {
        proof {
            reveal_strlit("2");
            assert("2"@ =~= seq![spec_digit(2)]);
        }
        "2"
    } else if d == 3 {
        proof {
            reveal_strlit("3");
            assert("3"@ =~= seq![spec_digit(3)]);
        }
        "3"
    } else if d == 4 {
        proof {
            reveal_strlit("4");
            assert("4"@ =~= seq![spec_digit(4)]);
        }
        "4"
    } else if d == 5 {
        proof {
            reveal_strlit("5");
            assert("5"@ =~= seq![spec_digit(5)]);
        }
        "5"
    } else if d == 6 {
        proof {
            reveal_strlit("6");
            assert("6"@ =~= seq![spec_digit(6)]);
        }
        "6"
    } else if d == 7 {
        proof {
            reveal_strlit("7");
            assert("7"@ =~= seq![spec_digit(7)]);
        }
        "7"
    } else if d == 8 {
        proof {
            reveal_strlit("8");
            assert("8"@ =~= seq![spec_digit(8)]);
        }
        "8"
    } else {
        proof {
            reveal_strlit("9");
            assert("9"@ =~= seq![spec_digit(9)]);
        }
        "9"
    }
}

fn append_decimal(out: &mut String, n: usize)
    ensures
        final(out)@ == old(out)@ + spec_decimal(n as int),
    decreases n,
{
    if n < 10 {
        out.append(digit_str(n));
    } else {
        append_decimal(out, n / 10);
        out.append(digit_str(n % 10));
        proof {
            assert(old(out)@ + spec_decimal(n as int) =~= old(out)@ + spec_decimal(n as int / 10)
                + seq![spec_digit(n as int % 10)]);
        }
    }
}

/// The text put in place of the page-title placeholder: the section title
/// when there is one, else a comment line that keeps the slot empty.
pub open spec fn spec_page_title_text(title: Option<Seq<char>>) -> Seq<char> {
    match title {
        Some(t) => t,
        None => "% page title"@,
    }
}

/// Substitutes the page-title placeholder of a page's text with the
/// section title, or with a comment when the page carries none.  Fails,
/// with the text unchanged, when the placeholder is missing.
pub fn set_section_title(page_text: &mut String, title: Option<&str>) -> (r: Result<(), ()>)
    ensures
        match r {
            Ok(_) => spec_find(old(page_text)@, "PHOTOTEX_PAGE_TITLE"@) is Some
                && final(page_text)@ == spec_replaced(
                old(page_text)@,
                "PHOTOTEX_PAGE_TITLE"@,
                spec_page_title_text(
                    match title {
                        Some(t) => Some(t@),
                        None => None,
                    },
                ),
                spec_find(old(page_text)@, "PHOTOTEX_PAGE_TITLE"@)->Some_0,
            ),
            Err(_) => spec_find(old(page_text)@, "PHOTOTEX_PAGE_TITLE"@) is None
                && final(page_text)@ == old(page_text)@,
        },
{
    match title {
        Some(t) => replace(page_text, "PHOTOTEX_PAGE_TITLE", t),
        None => replace(page_text, "PHOTOTEX_PAGE_TITLE", "% page title"),
    }
}

} // verus!
