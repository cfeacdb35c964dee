//! The walk itself: from episode to episode, and for each episode from its
//! page over the page of its downloads to the download.
//!
//! The walk does no I/O. It names the next thing to do ([`WalkAction`]), the
//! caller does it and reports what came back ([`WalkEvent`]).

use vstd::prelude::*;
use crate::gogoanime::links::{
    download_link_in, find_download_link, find_stream_link, stream_link_in, LinkError, StreamLink,
    StreamLinkModel,
};
use crate::gogoanime::{
    episode_file_name, episode_file_of, episode_url_of, is_missing_page, missing_page_mark, URLBase,
};
use crate::text::occurs;

verus! {

/// The name of the form field that carries the captcha.
pub const CAPTCHA_FIELD: &'static str = "captcha_v3";

/// The name of the form field that carries the id of the episode.
pub const ID_FIELD: &'static str = "id";

/// Where the walk stands with the episode at hand, over character sequences.
pub enum WalkPhaseModel {
    /// Waiting to hear whether the episode's file is there already.
    Checking,
    /// Waiting for the page of the episode.
    Paging,
    /// Waiting for the page of the downloads, asked for through `link`.
    Posting { link: StreamLinkModel },
    /// Waiting to hear that the download from `url` is queued.
    Queueing { url: Seq<char> },
    /// The show has no further episode.
    Ended,
    /// A page did not hold the link that was looked for.
    Failed { error: LinkError },
}

/// The state of the walk, over character sequences and unbounded numbers.
pub struct WalkModel {
    pub base: Seq<char>,
    pub captcha: Seq<char>,
    pub episode: nat,
    pub phase: WalkPhaseModel,
}

/// What the caller reports back, over character sequences.
pub enum WalkEventModel {
    FileFound,
    FileMissing,
    Page { text: Seq<char> },
    Response { text: Seq<char> },
    Queued,
}

/// What the walk asks its caller to do next, over character sequences.
pub enum WalkActionModel {
    CheckFile { name: Seq<char> },
    GetPage { url: Seq<char> },
    PostForm { url: Seq<char>, captcha: Seq<char>, id: Seq<char> },
    Download { episode: nat, url: Seq<char>, file_name: Seq<char> },
    Finish,
    Abort { error: LinkError },
}

impl WalkModel {
    /// The walk before its first episode, which is episode 1.
    pub open spec fn start(base: Seq<char>, captcha: Seq<char>) -> WalkModel {
        WalkModel { base, captcha, episode: 1, phase: WalkPhaseModel::Checking }
    }

    /// What the caller is to do next.
    pub open spec fn action(self) -> WalkActionModel {
        match self.phase {
            WalkPhaseModel::Checking => WalkActionModel::CheckFile {
                name: episode_file_of(self.episode),
            },
            WalkPhaseModel::Paging => WalkActionModel::GetPage {
                url: episode_url_of(self.base, self.episode),
            },
            WalkPhaseModel::Posting { link } => WalkActionModel::PostForm {
                url: link.url,
                captcha: self.captcha,
                id: link.id,
            },
            WalkPhaseModel::Queueing { url } => WalkActionModel::Download {
                episode: self.episode,
                url,
                file_name: episode_file_of(self.episode),
            },
            WalkPhaseModel::Ended => WalkActionModel::Finish,
            WalkPhaseModel::Failed { error } => WalkActionModel::Abort { error },
        }
    }

    /// `event` answers what the walk is waiting for.
    pub open spec fn accepts(self, event: WalkEventModel) -> bool {
        match self.phase {
            WalkPhaseModel::Checking => event is FileFound || event is FileMissing,
            WalkPhaseModel::Paging => event is Page,
            WalkPhaseModel::Posting { .. } => event is Response,
            WalkPhaseModel::Queueing { .. } => event is Queued,
            WalkPhaseModel::Ended => false,
            WalkPhaseModel::Failed { .. } => false,
        }
    }

    /// On to the next episode, as long as its number can be written as
    /// `usize`.
    pub open spec fn next_episode(self) -> WalkModel {
        if self.episode < usize::MAX {
            WalkModel { episode: self.episode + 1, phase: WalkPhaseModel::Checking, ..self }
        } else {
            WalkModel { phase: WalkPhaseModel::Ended, ..self }
        }
    }

    /// The state after an accepted `event`.
    pub open spec fn step(self, event: WalkEventModel) -> WalkModel {
        match event {
            WalkEventModel::FileFound => self.next_episode(),
            WalkEventModel::FileMissing => WalkModel { phase: WalkPhaseModel::Paging, ..self },
            WalkEventModel::Page { text } => if occurs(text, missing_page_mark()) {
                WalkModel { phase: WalkPhaseModel::Ended, ..self }
            } else {
                match stream_link_in(text) {
                    Ok(link) => WalkModel { phase: WalkPhaseModel::Posting { link }, ..self },
                    Err(error) => WalkModel { phase: WalkPhaseModel::Failed { error }, ..self },
                }
            },
            WalkEventModel::Response { text } => match download_link_in(text) {
                Ok(url) => WalkModel { phase: WalkPhaseModel::Queueing { url }, ..self },
                Err(error) => WalkModel { phase: WalkPhaseModel::Failed { error }, ..self },
            },
            WalkEventModel::Queued => self.next_episode(),
        }
    }

    /// The state after `event`, which is ignored unless it is accepted.
    pub open spec fn deliver(self, event: WalkEventModel) -> WalkModel {
        if self.accepts(event) {
            self.step(event)
        } else {
            self
        }
    }
}

/// What the caller reports back.
#[derive(Clone, Debug, PartialEq, Eq)]
pub enum WalkEvent {
    /// The file that was asked about is there.
    FileFound,
    /// The file that was asked about is not there.
    FileMissing,
    /// The text of the page that was asked for with `GetPage`.
    Page { text: String },
    /// The text that came back for the form sent with `PostForm`.
    Response { text: String },
    /// The download has been queued.
    Queued,
}

impl View for WalkEvent {
    type V = WalkEventModel;

    open spec fn view(&self) -> WalkEventModel {
        match self {
            WalkEvent::FileFound => WalkEventModel::FileFound,
            WalkEvent::FileMissing => WalkEventModel::FileMissing,
            WalkEvent::Page { text } => WalkEventModel::Page { text: text@ },
            WalkEvent::Response { text } => WalkEventModel::Response { text: text@ },
            WalkEvent::Queued => WalkEventModel::Queued,
        }
    }
}

/// What the walk asks its caller to do next.
#[derive(Clone, Debug, PartialEq, Eq)]
pub enum WalkAction {
    /// Find out whether the file `name` is in the output directory, and
    /// report `FileFound` or `FileMissing`.
    CheckFile { name: String },
    /// Get the page at `url` and report its text as `Page`.
    GetPage { url: String },
    /// Send the form with the fields [`CAPTCHA_FIELD`] and [`ID_FIELD`] to
    /// `url` and report the text that comes back as `Response`.
    PostForm { url: String, captcha: String, id: String },
    /// Queue the download of `url` into the file `file_name`, and report
    /// `Queued`.
    Download { episode: usize, url: String, file_name: String },
    /// Nothing: the show has no further episode.
    Finish,
    /// Nothing: a page did not hold the link that was looked for.
    Abort { error: LinkError },
}

impl View for WalkAction {
    type V = WalkActionModel;

    open spec fn view(&self) -> WalkActionModel {
        match self {
            WalkAction::CheckFile { name } => WalkActionModel::CheckFile { name: name@ },
            WalkAction::GetPage { url } => WalkActionModel::GetPage { url: url@ },
            WalkAction::PostForm { url, captcha, id } => WalkActionModel::PostForm {
                url: url@,
                captcha: captcha@,
                id: id@,
            },
            WalkAction::Download { episode, url, file_name } => WalkActionModel::Download {
                episode: *episode as nat,
                url: url@,
                file_name: file_name@,
            },
            WalkAction::Finish => WalkActionModel::Finish,
            WalkAction::Abort { error } => WalkActionModel::Abort { error: *error },
        }
    }
}

enum WalkPhase {
    Checking,
    Paging,
    Posting { link: StreamLink },
    Queueing { url: String },
    Ended,
    Failed { error: LinkError },
}

impl View for WalkPhase {
    type V = WalkPhaseModel;

    closed spec fn view(&self) -> WalkPhaseModel {
        match self {
            WalkPhase::Checking => WalkPhaseModel::Checking,
            WalkPhase::Paging => WalkPhaseModel::Paging,
            WalkPhase::Posting { link } => WalkPhaseModel::Posting { link: link@ },
            WalkPhase::Queueing { url } => WalkPhaseModel::Queueing { url: url@ },
            WalkPhase::Ended => WalkPhaseModel::Ended,
            WalkPhase::Failed { error } => WalkPhaseModel::Failed { error: *error },
        }
    }
}

/// The walk through the episodes of one show.
pub struct EpisodeWalk {
    base: URLBase,
    captcha: String,
    episode: usize,
    phase: WalkPhase,
}

impl View for EpisodeWalk {
    type V = WalkModel;

    closed spec fn view(&self) -> WalkModel {
        WalkModel {
            base: self.base@,
            captcha: self.captcha@,
            episode: self.episode as nat,
            phase: self.phase@,
        }
    }
}

impl EpisodeWalk {
    /// The walk through the show at `base`, before its first episode.
    pub fn new(base: URLBase, captcha: String) -> (walk: EpisodeWalk)
        ensures
            walk@ == WalkModel::start(base@, captcha@),
    {
        EpisodeWalk { base, captcha, episode: 1, phase: WalkPhase::Checking }
    }

    /// The episode at hand.
    pub fn episode(&self) -> (episode: usize)
        ensures
            episode == self@.episode,
    {
        self.episode
    }

    /// What the caller is to do next.
    pub fn action(&self) -> (action: WalkAction)
        ensures
            action@ == self@.action(),
    {
        match &self.phase {
            WalkPhase::Checking => WalkAction::CheckFile { name: episode_file_name(self.episode) },
            WalkPhase::Paging => WalkAction::GetPage { url: self.base.episode(self.episode) },
            WalkPhase::Posting { link } => WalkAction::PostForm {
                url: link.url.clone(),
                captcha: self.captcha.clone(),
                id: link.id.clone(),
            },
            WalkPhase::Queueing { url } => WalkAction::Download {
                episode: self.episode,
                url: url.clone(),
                file_name: episode_file_name(self.episode),
            },
            WalkPhase::Ended => WalkAction::Finish,
            WalkPhase::Failed { error } => WalkAction::Abort { error: *error },
        }
    }

    /// Moves on to the next episode.
    fn move_on(&mut self)
        ensures
            final(self)@ == old(self)@.next_episode(),
    {
        if self.episode < usize::MAX {
            self.episode = self.episode + 1;
            self.phase = WalkPhase::Checking;
        } else {
            self.phase = WalkPhase::Ended;
        }
    }

    /// Takes in what the caller reports. An event that does not answer the
    /// pending action is ignored.
    pub fn deliver(&mut self, event: &WalkEvent) -> (accepted: bool)
        ensures
            accepted == old(self)@.accepts(event@),
            final(self)@ == old(self)@.deliver(event@),
    {
        match event {
            WalkEvent::FileFound => {
                if let WalkPhase::Checking = &self.phase {
                    self.move_on();
                    return true;
                }
            },
            WalkEvent::FileMissing => {
                if let WalkPhase::Checking = &self.phase {
                    self.phase = WalkPhase::Paging;
                    return true;
                }
            },
            WalkEvent::Page { text } => {
                if let WalkPhase::Paging = &self.phase {
                    if is_missing_page(text.as_str()) {
                        self.phase = WalkPhase::Ended;
                    } else {
                        match find_stream_link(text.as_str()) {
                            Ok(link) => {
                                self.phase = WalkPhase::Posting { link };
                            },
                            Err(error) => {
                                self.phase = WalkPhase::Failed { error };
                            },
                        }
                    }
                    return true;
                }
            },
            WalkEvent::Response { text } => {
                if let WalkPhase::Posting { .. } = &self.phase {
                    match find_download_link(text.as_str()) {
                        Ok(url) => {
                            self.phase = WalkPhase::Queueing { url };
                        },
                        Err(error) => {
                            self.phase = WalkPhase::Failed { error };
                        },
                    }
                    return true;
                }
            },
            WalkEvent::Queued => {
                if let WalkPhase::Queueing { .. } = &self.phase {
                    self.move_on();
                    return true;
                }
            },
        }
        false
    }
}

} // verus!
