//! The book's configuration: plain values handed in by the caller.

use vstd::prelude::*;

verus! {

/// One page of the book: a display title and a markdown source path.
pub struct Page {
    pub title: String,
    pub path: String,
}

/// The book's configuration fields.
pub struct Config {
    pub bookname: String,
    pub author: String,
    pub root_dir: String,
    pub dist_dir: String,
    pub pages: Vec<Page>,
}

impl Config {
    /// Sets the author, leaving every other field as it was.
    pub fn update_author(&mut self, author: String)
        ensures
            final(self).author == author,
            final(self).bookname == old(self).bookname,
            final(self).root_dir == old(self).root_dir,
            final(self).dist_dir == old(self).dist_dir,
            final(self).pages == old(self).pages,
    {
        self.author = author;
    }

    /// Sets the book name, leaving every other field as it was.
    pub fn update_bookname(&mut self, name: String)
        ensures
            final(self).bookname == name,
            final(self).author == old(self).author,
            final(self).root_dir == old(self).root_dir,
            final(self).dist_dir == old(self).dist_dir,
            final(self).pages == old(self).pages,
    {
        self.bookname = name;
    }
}

} // verus!
