//! What the viewer remembers between commands: the files it was asked to
//! open before its page was ready, whether the page is ready, and the file
//! of the displayed document, from which an exported PDF takes its name.
use vstd::prelude::*;

use crate::text::owned;

verus! {

/// The viewer's state; `P` is how the platform names a file.
#[derive(Debug)]
pub struct Session<P> {
    /// The files to open once the page is ready, as URLs.
    pub urls: Vec<String>,
    /// The file of the displayed document, if one is displayed.
    pub file_path: Option<P>,
    /// Whether the page has said it is ready.
    pub ready: bool,
}

pub const DEFAULT_STEM: &'static str = "document";

/// Copies of the strings.
fn copy_all(items: &Vec<String>) -> (copies: Vec<String>)
    ensures
        copies.deep_view() == items.deep_view(),
{
    let mut copies: Vec<String> = Vec::new();
    let mut i: usize = 0;
    while i < items.len()
        invariant
            i <= items@.len(),
            copies.deep_view() == items.deep_view().take(i as int),
        decreases items@.len() - i,
    {
        let ghost before = copies.deep_view();
        let copy = owned(items[i].as_str());
        copies.push(copy);
        assert(items.deep_view()[i as int] == items@[i as int]@);
        assert(copies.deep_view() =~= before.push(copy@));
        assert(copies.deep_view() =~= items.deep_view().take(i + 1));
        i += 1;
    }
    assert(items.deep_view().take(items@.len() as int) =~= items.deep_view());
    copies
}

impl<P> Session<P> {
    /// A session with nothing to open, nothing displayed, and the page not
    /// yet ready.
    pub fn new() -> (s: Self)
        ensures
            s.urls@.len() == 0,
            s.file_path is None,
            !s.ready,
    {
        Session { urls: Vec::new(), file_path: None, ready: false }
    }

    /// Records the files that the platform asks to open; the page, if it is
    /// ready, should then open them (the result says whether).
    pub fn files_requested(&mut self, urls: Vec<String>) -> (open_now: bool)
        ensures
            final(self).urls.deep_view() == urls.deep_view(),
            final(self).file_path == old(self).file_path,
            final(self).ready == old(self).ready,
            open_now == old(self).ready,
    {
        self.urls = urls;
        self.ready
    }

    /// The page is ready: it is marked so, and the files to open are
    /// handed back, in order. They stay recorded until the page reloads.
    pub fn page_ready(&mut self) -> (to_open: Vec<String>)
        ensures
            final(self).ready,
            to_open.deep_view() == old(self).urls.deep_view(),
            final(self).urls.deep_view() == old(self).urls.deep_view(),
            final(self).file_path == old(self).file_path,
    {
        self.ready = true;
        copy_all(&self.urls)
    }

    /// The page has loaded again: a page that had been ready starts over
    /// with nothing to open and nothing displayed; otherwise nothing
    /// changes.
    pub fn page_loaded(&mut self)
        ensures
            old(self).ready ==> final(self).urls@.len() == 0 && final(self).file_path is None && !final(self).ready,
            !old(self).ready ==> final(self).urls.deep_view() == old(self).urls.deep_view()
                && final(self).file_path == old(self).file_path && !final(self).ready,
    {
        if self.ready {
            self.urls = Vec::new();
            self.file_path = None;
            self.ready = false;
        }
    }

    /// A document was opened from this file, or opening one failed.
    pub fn document_opened(&mut self, file_path: Option<P>)
        ensures
            final(self).file_path == file_path,
            final(self).urls.deep_view() == old(self).urls.deep_view(),
            final(self).ready == old(self).ready,
    {
        self.file_path = file_path;
    }
}

/// The name of an exported PDF without its extension: that of the
/// displayed document's file, or `document` where there is none.
pub fn export_stem(file_stem: Option<String>) -> (stem: String)
    ensures
        stem@ == (match file_stem {
            Some(s) => s@,
            None => DEFAULT_STEM@,
        }),
{
    match file_stem {
        Some(s) => s,
        None => owned(DEFAULT_STEM),
    }
}

} // verus!
