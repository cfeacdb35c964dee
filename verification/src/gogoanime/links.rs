//! The links that the pages of an episode hold, found with the regex crate.

use vstd::prelude::*;

verus! {

/// The pattern of the link to the page of an episode's downloads. Its second
/// group is the id of the episode.
pub const STREAM_PATTERN: &'static str =
    r"https://embtaku.(pro|com)/download\?id=(.*)\&typesub=Gogoanime-SUB\&title=.*\+Episode\+\d+";

/// The pattern of the link to the video in the wanted resolution. Its first
/// group is the link.
pub const DOWNLOAD_PATTERN: &'static str =
    r##"(https://gredirect.info/download.php\?url=.*)" download.*Download.*[\W]*720P"##;

/// Why a link was not found.
#[derive(Clone, Copy, Debug, PartialEq, Eq)]
pub enum LinkError {
    /// The pattern is no regular expression, or one that is too big.
    BadPattern,
    /// The page of the episode holds no link to the page of its downloads.
    NoStreamLink,
    /// The page of the downloads holds no link in the wanted resolution.
    NoDownloadLink,
}

/// The link to the page of an episode's downloads, as character sequences.
pub struct StreamLinkModel {
    pub url: Seq<char>,
    pub id: Seq<char>,
}

/// The link to the page of an episode's downloads.
#[derive(Clone, Debug, PartialEq, Eq)]
pub struct StreamLink {
    /// The whole link.
    pub url: String,
    /// The id of the episode, which the link carries.
    pub id: String,
}

impl View for StreamLink {
    type V = StreamLinkModel;

    open spec fn view(&self) -> StreamLinkModel {
        StreamLinkModel { url: self.url@, id: self.id@ }
    }
}

/// `regex::Error`, of which nothing is read but that there is one.
#[verifier::external_type_specification]
#[verifier::external_body]
pub struct ExRegexError(regex::Error);

/// What the first match of the regular expression `pattern` in `text`
/// captured, group by group, a group that took no part in the match being
/// `None`. The inner `None` stands for no match at all, the outer one for a
/// `pattern` that the regex crate does not compile.
pub uninterp spec fn regex_groups(pattern: Seq<char>, text: Seq<char>) -> Option<
    Option<Seq<Option<Seq<char>>>>,
>;

/// One captured group as a character sequence.
pub open spec fn group_model(group: Option<String>) -> Option<Seq<char>> {
    match group {
        Some(text) => Some(text@),
        None => None,
    }
}

/// The captured groups as character sequences.
pub open spec fn groups_model(groups: Option<Vec<Option<String>>>) -> Option<
    Seq<Option<Seq<char>>>,
> {
    match groups {
        Some(groups) => Some(groups@.map_values(|group: Option<String>| group_model(group))),
        None => None,
    }
}

/// Compiles `pattern` with `regex::Regex::new` and searches `text` with
/// `Regex::captures`. Trusted: that the outcome depends on the two strings
/// alone. It is the error of `new` where the pattern does not compile, `None`
/// where `captures` finds no match, and else the text of every group of the
/// first match in the order of the groups, group 0 being the whole match.
#[verifier::external_body]
fn capture_groups(pattern: &str, text: &str) -> (found: Result<
    Option<Vec<Option<String>>>,
    regex::Error,
>)
    ensures
        match found {
            Ok(groups) => regex_groups(pattern@, text@) == Some(groups_model(groups)),
            Err(_) => regex_groups(pattern@, text@) is None,
        },
{
    let compiled = regex::Regex::new(pattern)?;
    Ok(
        compiled.captures(text).map(
            |found| found.iter().map(|group| group.map(|m| m.as_str().to_string())).collect(),
        ),
    )
}

/// What the first match of the regular expression `pattern` in `text`
/// captured, group by group; `None` where there is no match.
pub fn first_match(pattern: &str, text: &str) -> (found: Result<
    Option<Vec<Option<String>>>,
    LinkError,
>)
    ensures
        match found {
            Ok(groups) => regex_groups(pattern@, text@) == Some(groups_model(groups)),
            Err(error) => error == LinkError::BadPattern && regex_groups(pattern@, text@) is None,
        },
{
    match capture_groups(pattern, text) {
        Ok(groups) => Ok(groups),
        Err(_) => Err(LinkError::BadPattern),
    }
}

/// The link that the groups of a match of [`STREAM_PATTERN`] hold: the
/// whole match is the link, the second group the id.
pub open spec fn stream_link_of(groups: Option<Seq<Option<Seq<char>>>>) -> Result<
    StreamLinkModel,
    LinkError,
> {
    match groups {
        Some(groups) => if groups.len() > 2 && groups[0] is Some && groups[2] is Some {
            Ok(StreamLinkModel { url: groups[0]->0, id: groups[2]->0 })
        } else {
            Err(LinkError::NoStreamLink)
        },
        None => Err(LinkError::NoStreamLink),
    }
}

/// The link that the groups of a match of [`DOWNLOAD_PATTERN`] hold: the
/// first group.
pub open spec fn download_link_of(groups: Option<Seq<Option<Seq<char>>>>) -> Result<
    Seq<char>,
    LinkError,
> {
    match groups {
        Some(groups) => if groups.len() > 1 && groups[1] is Some {
            Ok(groups[1]->0)
        } else {
            Err(LinkError::NoDownloadLink)
        },
        None => Err(LinkError::NoDownloadLink),
    }
}

/// The link to the page of its downloads that the page `page` of an episode
/// holds.
pub open spec fn stream_link_in(page: Seq<char>) -> Result<StreamLinkModel, LinkError> {
    match regex_groups(STREAM_PATTERN@, page) {
        Some(groups) => stream_link_of(groups),
        None => Err(LinkError::BadPattern),
    }
}

/// The link to the video that the page `page` of an episode's downloads
/// holds.
pub open spec fn download_link_in(page: Seq<char>) -> Result<Seq<char>, LinkError> {
    match regex_groups(DOWNLOAD_PATTERN@, page) {
        Some(groups) => download_link_of(groups),
        None => Err(LinkError::BadPattern),
    }
}

/// A link to the page of the downloads, or why there is none, as its model.
pub open spec fn stream_link_model(link: Result<StreamLink, LinkError>) -> Result<
    StreamLinkModel,
    LinkError,
> {
    match link {
        Ok(link) => Ok(link@),
        Err(error) => Err(error),
    }
}

/// A link to the video, or why there is none, as its model.
pub open spec fn download_link_model(link: Result<String, LinkError>) -> Result<
    Seq<char>,
    LinkError,
> {
    match link {
        Ok(link) => Ok(link@),
        Err(error) => Err(error),
    }
}

/// Picks the link to the page of the downloads out of the groups of a match
/// of [`STREAM_PATTERN`].
pub fn stream_link_from(groups: &Option<Vec<Option<String>>>) -> (link: Result<
    StreamLink,
    LinkError,
>)
    ensures
        stream_link_model(link) == stream_link_of(groups_model(*groups)),
{
    match groups {
        Some(groups) => {
            if groups.len() <= 2 {
                return Err(LinkError::NoStreamLink);
            }
            match (&groups[0], &groups[2]) {
                (Some(url), Some(id)) => Ok(StreamLink { url: url.clone(), id: id.clone() }),
                _ => Err(LinkError::NoStreamLink),
            }
        },
        None => Err(LinkError::NoStreamLink),
    }
}

/// Picks the link to the video out of the groups of a match of
/// [`DOWNLOAD_PATTERN`].
pub fn download_link_from(groups: &Option<Vec<Option<String>>>) -> (link: Result<String, LinkError>)
    ensures
        download_link_model(link) == download_link_of(groups_model(*groups)),
{
    match groups {
        Some(groups) => {
            if groups.len() <= 1 {
                return Err(LinkError::NoDownloadLink);
            }
            match &groups[1] {
                Some(url) => Ok(url.clone()),
                None => Err(LinkError::NoDownloadLink),
            }
        },
        None => Err(LinkError::NoDownloadLink),
    }
}

/// Finds the link to the page of its downloads in the page of an episode.
pub fn find_stream_link(page: &str) -> (link: Result<StreamLink, LinkError>)
    ensures
        stream_link_model(link) == stream_link_in(page@),
{
    match first_match(STREAM_PATTERN, page) {
        Ok(groups) => stream_link_from(&groups),
        Err(error) => Err(error),
    }
}

/// Finds the link to the video in the page of an episode's downloads.
pub fn find_download_link(page: &str) -> (link: Result<String, LinkError>)
    ensures
        download_link_model(link) == download_link_in(page@),
{
    match first_match(DOWNLOAD_PATTERN, page) {
        Ok(groups) => download_link_from(&groups),
        Err(error) => Err(error),
    }
}

} // verus!
