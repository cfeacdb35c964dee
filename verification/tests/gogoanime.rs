use datt::gogoanime::links::{
    download_link_from, find_download_link, find_stream_link, first_match, stream_link_from,
    LinkError, StreamLink, DOWNLOAD_PATTERN, STREAM_PATTERN,
};
use datt::gogoanime::walk::{EpisodeWalk, WalkAction, WalkEvent, CAPTCHA_FIELD, ID_FIELD};
use datt::gogoanime::{
    episode_file_name, is_missing_page, may_try_again, URLBase, DOWNLOAD_ATTEMPTS,
};

const EPISODE_PAGE: &str = r#"<html><body>
<li class="dowloads"><a href="https://embtaku.pro/download?id=MjE4NzY5&typesub=Gogoanime-SUB&title=Gekai+Elise+Episode+2" target="_blank">Download</a></li>
</body></html>"#;

const DOWNLOADS_PAGE: &str = r#"<div class="mirror_link">
<div class="dowload"><a href="https://gredirect.info/download.php?url=aHR0cHM6LyURASDGHUSRFSJGYfdsffsderFStewthsfSFtrftesdf360" download>Download
            (360P - mp4)</a></div>
<div class="dowload"><a href="https://gredirect.info/download.php?url=aHR0cHM6LyAawehyfcghysfdsDGDYdgdsfsdfwstdgdsgtert720" download>Download
            (720P - mp4)</a></div>
</div>"#;

#[test]
fn url_base_drops_the_episode_number() {
    let base = URLBase::try_from("https://gogoanime3.co/gekai-elise-episode-2").unwrap();
    assert_eq!(base.0, "https://gogoanime3.co/gekai-elise-episode");
    assert_eq!(URLBase::try_from("https://host/show-12").unwrap().0, "https://host/show");
}

#[test]
fn url_base_of_a_url_without_hyphen_is_empty() {
    assert_eq!(URLBase::try_from("https://host/show").unwrap().0, "");
    assert_eq!(URLBase::try_from("").unwrap().0, "");
    assert_eq!(URLBase::try_from("-").unwrap().0, "");
    assert_eq!(URLBase::try_from("show-").unwrap().0, "show");
}

#[test]
fn episode_url_appends_the_number() {
    let base = URLBase("https://gogoanime3.co/gekai-elise-episode".to_string());
    assert_eq!(base.episode(1), "https://gogoanime3.co/gekai-elise-episode-1");
    assert_eq!(base.episode(24), "https://gogoanime3.co/gekai-elise-episode-24");
    assert_eq!(URLBase(String::new()).episode(0), "-0");
}

#[test]
fn episode_file_name_is_padded_to_three() {
    assert_eq!(episode_file_name(1), "001.mp4");
    assert_eq!(episode_file_name(24), "024.mp4");
    assert_eq!(episode_file_name(999), "999.mp4");
    assert_eq!(episode_file_name(1000), "1000.mp4");
}

#[test]
fn missing_page_is_told_by_its_text() {
    assert!(is_missing_page("<h1 class=\"entry-title\">Page not found</h1>"));
    assert!(!is_missing_page(EPISODE_PAGE));
    assert!(!is_missing_page("page not found"));
    assert!(!is_missing_page(""));
}

#[test]
fn stream_link_is_found_in_the_episode_page() {
    assert_eq!(
        find_stream_link(EPISODE_PAGE),
        Ok(StreamLink {
            url: "https://embtaku.pro/download?id=MjE4NzY5&typesub=Gogoanime-SUB&title=Gekai+Elise+Episode+2".to_string(),
            id: "MjE4NzY5".to_string(),
        })
    );
    assert_eq!(
        find_stream_link("x https://embtaku.com/download?id=7&typesub=Gogoanime-SUB&title=A+Episode+12.5 y"),
        Ok(StreamLink {
            url: "https://embtaku.com/download?id=7&typesub=Gogoanime-SUB&title=A+Episode+12".to_string(),
            id: "7".to_string(),
        })
    );
}

#[test]
fn stream_link_agrees_with_the_regex_crate() {
    let compiled = regex::Regex::new(STREAM_PATTERN).unwrap();
    let found = compiled.captures(EPISODE_PAGE).unwrap();
    let link = find_stream_link(EPISODE_PAGE).unwrap();
    assert_eq!(link.url, &found[0]);
    assert_eq!(link.id, &found[2]);
    assert_ne!(link.url, EPISODE_PAGE);
}

#[test]
fn page_without_stream_link_gives_an_error() {
    assert_eq!(find_stream_link(""), Err(LinkError::NoStreamLink));
    assert_eq!(find_stream_link(DOWNLOADS_PAGE), Err(LinkError::NoStreamLink));
    assert_eq!(
        find_stream_link("https://embtaku.net/download?id=7&typesub=Gogoanime-SUB&title=A+Episode+1"),
        Err(LinkError::NoStreamLink)
    );
}

#[test]
fn download_link_is_the_one_before_the_wanted_resolution() {
    let compiled = regex::Regex::new(DOWNLOAD_PATTERN).unwrap();
    let expected = compiled.captures(DOWNLOADS_PAGE).unwrap()[1].to_string();
    assert_eq!(find_download_link(DOWNLOADS_PAGE), Ok(expected));
    assert_eq!(
        find_download_link(
            "<a href=\"https://gredirect.info/download.php?url=abc\" download>Download (720P - mp4)</a>"
        ),
        Ok("https://gredirect.info/download.php?url=abc".to_string())
    );
}

#[test]
fn page_without_download_link_gives_an_error() {
    assert_eq!(find_download_link(""), Err(LinkError::NoDownloadLink));
    assert_eq!(find_download_link(EPISODE_PAGE), Err(LinkError::NoDownloadLink));
    assert_eq!(
        find_download_link(
            "<a href=\"https://gredirect.info/download.php?url=abc\" download>Download (360P - mp4)</a>"
        ),
        Err(LinkError::NoDownloadLink)
    );
}

#[test]
fn links_are_picked_from_the_groups_of_a_match() {
    let groups = Some(vec![
        Some("whole".to_string()),
        Some("pro".to_string()),
        Some("id".to_string()),
    ]);
    assert_eq!(
        stream_link_from(&groups),
        Ok(StreamLink { url: "whole".to_string(), id: "id".to_string() })
    );
    assert_eq!(download_link_from(&groups), Ok("pro".to_string()));
    let short = Some(vec![Some("whole".to_string()), None]);
    assert_eq!(stream_link_from(&short), Err(LinkError::NoStreamLink));
    assert_eq!(download_link_from(&short), Err(LinkError::NoDownloadLink));
    let gap = Some(vec![Some("whole".to_string()), Some("pro".to_string()), None]);
    assert_eq!(stream_link_from(&gap), Err(LinkError::NoStreamLink));
    assert_eq!(stream_link_from(&None), Err(LinkError::NoStreamLink));
    assert_eq!(download_link_from(&None), Err(LinkError::NoDownloadLink));
    assert_eq!(download_link_from(&Some(Vec::new())), Err(LinkError::NoDownloadLink));
}

#[test]
fn download_is_tried_three_times() {
    assert_eq!(DOWNLOAD_ATTEMPTS, 3);
    assert!(may_try_again(0));
    assert!(may_try_again(2));
    assert!(!may_try_again(3));
    assert!(!may_try_again(usize::MAX));
}

#[test]
fn walk_goes_from_page_to_download() {
    let base = URLBase::try_from("https://gogoanime3.co/gekai-elise-episode-2").unwrap();
    let mut walk = EpisodeWalk::new(base, "token".to_string());
    assert_eq!(walk.episode(), 1);
    assert_eq!(walk.action(), WalkAction::CheckFile { name: "001.mp4".to_string() });
    assert!(walk.deliver(&WalkEvent::FileMissing));
    assert_eq!(
        walk.action(),
        WalkAction::GetPage { url: "https://gogoanime3.co/gekai-elise-episode-1".to_string() }
    );
    assert!(walk.deliver(&WalkEvent::Page { text: EPISODE_PAGE.to_string() }));
    assert_eq!(
        walk.action(),
        WalkAction::PostForm {
            url: "https://embtaku.pro/download?id=MjE4NzY5&typesub=Gogoanime-SUB&title=Gekai+Elise+Episode+2".to_string(),
            captcha: "token".to_string(),
            id: "MjE4NzY5".to_string(),
        }
    );
    assert!(walk.deliver(&WalkEvent::Response { text: DOWNLOADS_PAGE.to_string() }));
    assert_eq!(
        walk.action(),
        WalkAction::Download {
            episode: 1,
            url: find_download_link(DOWNLOADS_PAGE).unwrap(),
            file_name: "001.mp4".to_string(),
        }
    );
    assert!(walk.deliver(&WalkEvent::Queued));
    assert_eq!(walk.episode(), 2);
    assert_eq!(walk.action(), WalkAction::CheckFile { name: "002.mp4".to_string() });
}

#[test]
fn walk_skips_episodes_that_are_saved() {
    let mut walk = EpisodeWalk::new(URLBase("b".to_string()), String::new());
    assert!(walk.deliver(&WalkEvent::FileFound));
    assert!(walk.deliver(&WalkEvent::FileFound));
    assert_eq!(walk.episode(), 3);
    assert_eq!(walk.action(), WalkAction::CheckFile { name: "003.mp4".to_string() });
    assert!(walk.deliver(&WalkEvent::FileMissing));
    assert_eq!(walk.action(), WalkAction::GetPage { url: "b-3".to_string() });
}

#[test]
fn walk_ends_at_the_missing_page() {
    let mut walk = EpisodeWalk::new(URLBase("b".to_string()), String::new());
    assert!(walk.deliver(&WalkEvent::FileMissing));
    assert!(walk.deliver(&WalkEvent::Page { text: "<h1>Page not found</h1>".to_string() }));
    assert_eq!(walk.action(), WalkAction::Finish);
    assert!(!walk.deliver(&WalkEvent::FileMissing));
    assert!(!walk.deliver(&WalkEvent::Queued));
    assert_eq!(walk.action(), WalkAction::Finish);
}

#[test]
fn walk_aborts_on_a_page_without_link() {
    let mut walk = EpisodeWalk::new(URLBase("b".to_string()), String::new());
    assert!(walk.deliver(&WalkEvent::FileMissing));
    assert!(walk.deliver(&WalkEvent::Page { text: "<html></html>".to_string() }));
    assert_eq!(walk.action(), WalkAction::Abort { error: LinkError::NoStreamLink });

    let mut walk = EpisodeWalk::new(URLBase("b".to_string()), String::new());
    assert!(walk.deliver(&WalkEvent::FileMissing));
    assert!(walk.deliver(&WalkEvent::Page { text: EPISODE_PAGE.to_string() }));
    assert!(walk.deliver(&WalkEvent::Response { text: "<html></html>".to_string() }));
    assert_eq!(walk.action(), WalkAction::Abort { error: LinkError::NoDownloadLink });
    assert!(!walk.deliver(&WalkEvent::Queued));
}

#[test]
fn walk_ignores_events_that_answer_nothing() {
    let mut walk = EpisodeWalk::new(URLBase("b".to_string()), String::new());
    assert!(!walk.deliver(&WalkEvent::Queued));
    assert!(!walk.deliver(&WalkEvent::Page { text: EPISODE_PAGE.to_string() }));
    assert!(!walk.deliver(&WalkEvent::Response { text: DOWNLOADS_PAGE.to_string() }));
    assert_eq!(walk.action(), WalkAction::CheckFile { name: "001.mp4".to_string() });
    assert!(walk.deliver(&WalkEvent::FileMissing));
    assert!(!walk.deliver(&WalkEvent::FileFound));
    assert!(!walk.deliver(&WalkEvent::Response { text: DOWNLOADS_PAGE.to_string() }));
    assert_eq!(walk.action(), WalkAction::GetPage { url: "b-1".to_string() });
}

#[test]
fn form_fields_are_named() {
    assert_eq!(CAPTCHA_FIELD, "captcha_v3");
    assert_eq!(ID_FIELD, "id");
}

#[test]
fn first_match_gives_every_group() {
    assert_eq!(
        first_match("a(b)?(c)", "xxacx"),
        Ok(Some(vec![Some("ac".to_string()), None, Some("c".to_string())]))
    );
    assert_eq!(
        first_match(r"(\d+)-(\d+)", "from 10-12 to 13-15"),
        Ok(Some(vec![
            Some("10-12".to_string()),
            Some("10".to_string()),
            Some("12".to_string()),
        ]))
    );
    assert_eq!(first_match("", "abc"), Ok(Some(vec![Some(String::new())])));
}

#[test]
fn first_match_of_a_pattern_that_is_not_there_is_none() {
    assert_eq!(first_match("abc", "ab"), Ok(None));
    assert_eq!(first_match("a.c", "a\nc"), Ok(None));
}

#[test]
fn first_match_refuses_a_bad_pattern() {
    assert_eq!(first_match("(", "x"), Err(LinkError::BadPattern));
    assert_eq!(first_match(r"\w{1000}", "x"), Err(LinkError::BadPattern));
}
