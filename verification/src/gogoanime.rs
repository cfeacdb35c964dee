//! The catalogue walk: episode after episode of a show, from the page of the
//! episode over the page of its downloads to the link of the video.
//!
//! Nothing here touches the network or the disk. [`walk::EpisodeWalk`] names
//! the next thing to do, the caller does it and reports what came back.

use vstd::prelude::*;
use crate::text::{before_last, contains, cut_at_last, decimal, occurs, padded, to_decimal, to_padded};

pub mod links;
pub mod walk;

verus! {

/// How many characters the number in an episode's file name has at least.
pub const EPISODE_WIDTH: usize = 3;

/// How often the download of one episode is tried.
pub const DOWNLOAD_ATTEMPTS: usize = 3;

/// The text that the page of an episode holds when there is no such episode:
/// `Page not found`.
pub open spec fn missing_page_mark() -> Seq<char> {
    seq!['P', 'a', 'g', 'e', ' ', 'n', 'o', 't', ' ', 'f', 'o', 'u', 'n', 'd']
}

/// The URL of episode `episode` under `base`: the two with a hyphen between.
pub open spec fn episode_url_of(base: Seq<char>, episode: nat) -> Seq<char> {
    base + seq!['-'] + decimal(episode)
}

/// The name of the file that episode `episode` is saved under: the number,
/// filled up with zeros to three characters, and `.mp4`.
pub open spec fn episode_file_of(episode: nat) -> Seq<char> {
    padded(episode, EPISODE_WIDTH as nat) + seq!['.', 'm', 'p', '4']
}

/// The URL of a show's episodes without the number of the episode.
pub struct URLBase(pub String);

impl View for URLBase {
    type V = Seq<char>;

    open spec fn view(&self) -> Seq<char> {
        self.0@
    }
}

impl URLBase {
    /// The base of the URL of one episode: what stands before its last
    /// hyphen, and nothing where it has no hyphen. It never fails.
    pub fn try_from(url: &str) -> (base: Result<URLBase, String>)
        ensures
            base matches Ok(b) && b@ == before_last(url@, '-'),
    {
        Ok(URLBase(cut_at_last(url, '-')))
    }

    /// The URL of episode `ep`.
    pub fn episode(&self, ep: usize) -> (url: String)
        ensures
            url@ == episode_url_of(self@, ep as nat),
    {
        proof {
            reveal_strlit("-");
        }
        let mut url = String::from_str(self.0.as_str());
        url.append("-");
        assert(url@ =~= self@ + seq!['-']);
        let number = to_decimal(ep);
        url.append(number.as_str());
        url
    }
}

/// The name of the file that episode `ep` is saved under.
pub fn episode_file_name(ep: usize) -> (name: String)
    ensures
        name@ == episode_file_of(ep as nat),
{
    proof {
        reveal_strlit(".mp4");
    }
    let mut name = to_padded(ep, EPISODE_WIDTH);
    let ghost number = name@;
    name.append(".mp4");
    assert(name@ =~= number + seq!['.', 'm', 'p', '4']);
    name
}

/// Whether `page` says that there is no such episode.
pub fn is_missing_page(page: &str) -> (missing: bool)
    ensures
        missing == occurs(page@, missing_page_mark()),
{
    proof {
        reveal_strlit("Page not found");
    }
    assert("Page not found"@ =~= missing_page_mark());
    contains(page, "Page not found")
}

/// Whether the download of an episode is tried once more after `failures`
/// failed tries.
pub fn may_try_again(failures: usize) -> (again: bool)
    ensures
        again == (failures < DOWNLOAD_ATTEMPTS),
{
    failures < DOWNLOAD_ATTEMPTS
}

} // verus!
