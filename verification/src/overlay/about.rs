//! About screen state: just an open flag. The screen is read-only build
//! metadata and the project URL, so there is nothing to navigate; B backs
//! out to Settings.

use vstd::prelude::*;

verus! {

pub struct AboutView {
    pub open: bool,
}

impl AboutView {
    pub fn new() -> (r: Self)
        ensures
            !r.open,
    {
        AboutView { open: false }
    }

    pub fn open(&mut self)
        ensures
            final(self).open,
    {
        self.open = true;
    }

    pub fn close(&mut self)
        ensures
            !final(self).open,
    {
        self.open = false;
    }
}

} // verus!
