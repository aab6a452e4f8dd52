//! Settings remembered between sessions. Reading and writing them is left to
//! the caller; this keeps their values and tells when they changed.
use vstd::prelude::*;

verus! {

#[derive(Debug, Clone, PartialEq, Eq)]
pub struct Config {
    tabs_folder: Option<String>,
}

impl Config {
    pub closed spec fn spec_tabs_folder(&self) -> Option<Seq<char>> {
        match self.tabs_folder {
            Some(f) => Some(f@),
            None => None,
        }
    }

    /// A configuration with no folder remembered.
    pub fn new() -> (r: Config)
        ensures
            r.spec_tabs_folder() is None,
    {
        Config { tabs_folder: None }
    }

    /// The folder the file picker last opened.
    pub fn get_tabs_folder(&self) -> (r: Option<String>)
        ensures
            match r {
                Some(f) => self.spec_tabs_folder() == Some(f@),
                None => self.spec_tabs_folder() is None,
            },
    {
        match &self.tabs_folder {
            Some(f) => Some(f.clone()),
            None => None,
        }
    }

    /// Remembers a folder. Returns whether it differs from the one kept, in
    /// which case the configuration needs saving.
    pub fn set_tabs_folder(&mut self, new_tabs_folder: Option<String>) -> (changed: bool)
        ensures
            changed == (old(self).spec_tabs_folder() != match new_tabs_folder {
                Some(f) => Some(f@),
                None => None::<Seq<char>>,
            }),
            final(self).spec_tabs_folder() == match new_tabs_folder {
                Some(f) => Some(f@),
                None => None::<Seq<char>>,
            },
    {
        let same = match (&self.tabs_folder, &new_tabs_folder) {
            (Some(a), Some(b)) => a.eq(b),
            (None, None) => true,
            _ => false,
        };
        if same {
            proof {
                if self.tabs_folder is Some {
                    assert(self.spec_tabs_folder() == Some(new_tabs_folder->0@));
                }
            }
            false
        } else {
            self.tabs_folder = new_tabs_folder;
            true
        }
    }
}

} // verus!
