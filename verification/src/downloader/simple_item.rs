//! Links that are fetched as they are.
use crate::downloader::{has_outlived, DownloadItem, DownloadItemExpired, CACHE_DURATION};
use crate::hashing::{cache_file, cache_path, text_writes};
use vstd::prelude::*;

verus! {

/// A link, and the file that keeps what it leads to.
#[derive(Debug, PartialEq, Eq)]
pub struct SimpleDownloaderLink {
    /// What is fetched.
    pub url: String,
    /// Where it is kept.
    pub path: String,
}

impl SimpleDownloaderLink {
    /// The links to `urls`, with their files below `root_path`.
    pub fn from_list_urls(urls: &[String], root_path: &str) -> (res: Vec<SimpleDownloaderLink>)
        ensures
            res@.len() == urls@.len(),
            forall|i: int|
                0 <= i < urls@.len() ==> {
                    &&& (#[trigger] res@[i]).url == urls@[i]
                    &&& res@[i].path@ == cache_file(root_path@, text_writes(urls@[i]@))
                },
    {
        let mut res: Vec<SimpleDownloaderLink> = Vec::new();
        let mut i: usize = 0;
        while i < urls.len()
            invariant
                i <= urls.len(),
                res@.len() == i,
                forall|k: int|
                    0 <= k < i ==> {
                        &&& (#[trigger] res@[k]).url == urls@[k]
                        &&& res@[k].path@ == cache_file(root_path@, text_writes(urls@[k]@))
                    },
            decreases urls.len() - i,
        {
            let path = cache_path(root_path, &urls[i]);
            res.push(SimpleDownloaderLink { url: urls[i].clone(), path });
            i += 1;
        }
        res
    }
}

impl DownloadItem for SimpleDownloaderLink {
    open spec fn url_view(&self) -> Seq<char> {
        self.url@
    }

    open spec fn path_view(&self) -> Seq<char> {
        self.path@
    }

    fn url_as_str(&self) -> (res: &str) {
        self.url.as_str()
    }

    fn path(&self) -> (res: &str) {
        self.path.as_str()
    }
}

impl DownloadItemExpired for SimpleDownloaderLink {
    /// Thirty times as long as a page.
    open spec fn lifetime(&self) -> int {
        CACHE_DURATION * 30
    }

    fn is_expired(&self, age: Option<u128>) -> (res: bool) {
        has_outlived(age, CACHE_DURATION * 30)
    }
}

} // verus!
