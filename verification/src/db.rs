//! The scheduler's view of the installed crontab: one complete
//! snapshot, replaced wholesale on reload so a cycle never sees a mix
//! of two document generations.

use crate::crontab::Crontab;
use crate::crontab::Entry;
use vstd::prelude::*;

verus! {

/// The installed document. Reading the crontab text from disk is the
/// caller's concern; this holds what was parsed.
#[derive(Debug)]
pub struct Db {
    pub entries: Vec<Entry>,
}

impl Db {
    /// An empty database: no entries installed yet.
    pub fn new() -> (d: Db)
        ensures
            d.entries@.len() == 0,
    {
        Db { entries: Vec::new() }
    }

    /// Replaces the whole snapshot with a freshly parsed document.
    pub fn install(&mut self, tab: Crontab)
        ensures
            final(self).entries == tab.entries,
    {
        self.entries = tab.entries;
    }
}

} // verus!
