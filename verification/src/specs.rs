//! Sidecar metadata of a source folder: an optional section title and the
//! filenames that must get a page of their own.  Loading the sidecar file
//! is left to the unverified front end; a missing or unreadable sidecar
//! degrades to the empty specification.

use vstd::prelude::*;
use vstd::string::*;
use crate::opt_string_view;

verus! {

/// Sidecar metadata of one source folder.
#[derive(Debug, Clone)]
pub struct FolderSpec {
    title: Option<String>,
    one_portraits: Vec<String>,
}

impl FolderSpec {
    /// The section title, if any.
    pub closed spec fn spec_title(&self) -> Option<Seq<char>> {
        opt_string_view(self.title)
    }

    /// The filenames requiring solo-portrait treatment.
    pub closed spec fn spec_one_portraits(&self) -> Seq<Seq<char>> {
        self.one_portraits@.map_values(|s: String| s@)
    }

    /// Builds a folder specification from its two parts.
    pub fn new(title: Option<String>, one_portraits: Vec<String>) -> (r: Self)
        ensures
            r.spec_title() == opt_string_view(title),
            r.spec_one_portraits() == one_portraits@.map_values(|s: String| s@),
    {
        FolderSpec { title, one_portraits }
    }

    /// The empty specification: no title, no overrides.
    pub fn empty() -> (r: Self)
        ensures
            r.spec_title() is None,
            r.spec_one_portraits() == Seq::<Seq<char>>::empty(),
    {
        let r = FolderSpec { title: None, one_portraits: Vec::new() };
        proof {
            assert(r.spec_one_portraits() =~= Seq::<Seq<char>>::empty());
        }
        r
    }

    /// The filenames requiring solo-portrait treatment.
    pub fn one_portraits(&self) -> (r: &[String])
        ensures
            r@.map_values(|s: String| s@) == self.spec_one_portraits(),
    {
        self.one_portraits.as_slice()
    }

    /// The section title, if any.
    pub fn section_title(&self) -> (r: Option<&str>)
        ensures
            match r {
                Some(t) => self.spec_title() == Some(t@),
                None => self.spec_title() is None,
            },
    {
        match &self.title {
            Some(t) => Some(t.as_str()),
            None => None,
        }
    }

    /// The section title as an optional owned-string reference.
    pub fn title_ref(&self) -> (r: &Option<String>)
        ensures
            opt_string_view(*r) == self.spec_title(),
    {
        &self.title
    }

    /// Whether `name` is listed as requiring a solo-portrait page.
    pub fn requests_one_portrait(&self, name: &str) -> (r: bool)
        ensures
            r == exists|i: int|
                0 <= i < self.spec_one_portraits().len() && #[trigger] self.spec_one_portraits()[i]
                    == name@,
    {
        let name_owned = name.to_owned();
        let mut i: usize = 0;
        while i < self.one_portraits.len()
            invariant
                i <= self.one_portraits@.len(),
                name_owned@ == name@,
                forall|j: int|
                    0 <= j < i ==> #[trigger] self.spec_one_portraits()[j] != name@,
            decreases self.one_portraits@.len() - i,
        {
            if self.one_portraits[i] == name_owned {
                proof {
                    assert(self.spec_one_portraits()[i as int] == name@);
                }
                return true;
            }
            proof {
                assert(self.spec_one_portraits()[i as int] != name@);
            }
            i = i + 1;
        }
        false
    }
}

} // verus!
