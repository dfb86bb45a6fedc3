//! Desktop shell: file open/save/close lifecycle and recent files.
use vstd::prelude::*;
use vstd::string::*;

use crate::text::{contains_str, strs, vec_contains_str};

verus! {

/// How many recent files are kept.
pub const MAX_RECENT_FILES: usize = 10;

/// The recent-file list after opening `path`: unchanged when listed,
/// otherwise `path` goes first and the list is cut to the limit.
pub open spec fn recent_after_open(recent: Seq<Seq<char>>, path: Seq<char>) -> Seq<Seq<char>> {
    if recent.contains(path) {
        recent
    } else {
        let r = seq![path] + recent;
        if r.len() > MAX_RECENT_FILES {
            r.take(MAX_RECENT_FILES as int)
        } else {
            r
        }
    }
}

/// Application state of the desktop shell.
#[derive(Debug)]
pub struct DesktopApp {
    pub title: String,
    pub recent_files: Vec<String>,
    pub current_file: Option<String>,
    pub modified: bool,
}

impl Default for DesktopApp {
    fn default() -> (a: Self)
        ensures
            a.title@ == Seq::<char>::empty(),
            a.recent_files@ == Seq::<String>::empty(),
            a.current_file is None,
            !a.modified,
    {
        DesktopApp { title: String::new(), recent_files: Vec::new(), current_file: None, modified: false }
    }
}

impl DesktopApp {
    /// A shell with the given title and no file open.
    pub fn new(title: &str) -> (a: Self)
        ensures
            a.title@ == title@,
            a.recent_files@ == Seq::<String>::empty(),
            a.current_file is None,
            !a.modified,
    {
        DesktopApp {
            title: String::from_str(title),
            recent_files: Vec::new(),
            current_file: None,
            modified: false,
        }
    }

    /// Open a file: it becomes current and unmodified, and is remembered
    /// first among the recent files unless already listed.
    pub fn open_file(&mut self, path: &str)
        ensures
            final(self).title == old(self).title,
            final(self).current_file matches Some(f) && f@ == path@,
            !final(self).modified,
            strs(final(self).recent_files@) == recent_after_open(strs(old(self).recent_files@), path@),
    {
        self.current_file = Some(String::from_str(path));
        self.modified = false;
        let listed = vec_contains_str(&self.recent_files, path);
        proof {
            let rs = strs(old(self).recent_files@);
            if listed {
                let i = choose|i: int| 0 <= i < old(self).recent_files@.len() && (#[trigger] old(self).recent_files@[i])@ == path@;
                assert(rs[i] == path@);
            } else {
                if rs.contains(path@) {
                    let i = choose|i: int| 0 <= i < rs.len() && rs[i] == path@;
                    assert(old(self).recent_files@[i]@ == path@);
                }
            }
        }
        if !listed {
            self.recent_files.insert(0, String::from_str(path));
            if self.recent_files.len() > MAX_RECENT_FILES {
                self.recent_files.truncate(MAX_RECENT_FILES);
            }
            assert(strs(self.recent_files@) =~= recent_after_open(strs(old(self).recent_files@), path@));
        }
    }

    /// Save the current file.
    pub fn save(&mut self)
        ensures
            !final(self).modified,
            final(self).title == old(self).title,
            final(self).recent_files == old(self).recent_files,
            final(self).current_file == old(self).current_file,
    {
        self.modified = false;
    }

    /// Mark the document as modified.
    pub fn mark_dirty(&mut self)
        ensures
            final(self).modified,
            final(self).title == old(self).title,
            final(self).recent_files == old(self).recent_files,
            final(self).current_file == old(self).current_file,
    {
        self.modified = true;
    }

    /// Whether there are unsaved changes.
    pub fn has_unsaved_changes(&self) -> (b: bool)
        ensures
            b == self.modified,
    {
        self.modified
    }

    /// Close the current file.
    pub fn close_file(&mut self)
        ensures
            final(self).current_file is None,
            !final(self).modified,
            final(self).title == old(self).title,
            final(self).recent_files == old(self).recent_files,
    {
        self.current_file = None;
        self.modified = false;
    }

    /// The recent files, most recent first.
    pub fn recent_files(&self) -> (s: &[String])
        ensures
            s@ == self.recent_files@,
    {
        self.recent_files.as_slice()
    }
}

/// Opening a file keeps the recent list within its limit and lists the
/// file.
pub proof fn lemma_recent_bounded(recent: Seq<Seq<char>>, path: Seq<char>)
    requires
        recent.len() <= MAX_RECENT_FILES,
    ensures
        recent_after_open(recent, path).len() <= MAX_RECENT_FILES,
        recent_after_open(recent, path).contains(path),
{
    if !recent.contains(path) {
        let r = seq![path] + recent;
        assert(r[0] == path);
        if r.len() > MAX_RECENT_FILES {
            assert(r.take(MAX_RECENT_FILES as int)[0] == path);
        }
    }
}

} // verus!
