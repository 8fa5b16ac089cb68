//! The data shapes exchanged with the caller's shell: search and episode
//! listings, preview items, download requests, requirement checks, and the
//! completion notification. The lookup of an episode's session token is the
//! one piece of logic here.

use vstd::prelude::*;
use crate::candidate::Candidate;

verus! {

/// One search hit.
pub struct SearchItem {
    pub session: String,
    pub title: String,
}

/// The search answer.
pub struct SearchResponse {
    pub data: Vec<SearchItem>,
}

/// One episode entry: its number and its session token.
pub struct EpisodeInfo {
    pub number: u32,
    pub session: String,
}

/// The episode listing handed back for one title.
pub struct FetchEpisodesResponse {
    pub episodes: Vec<EpisodeInfo>,
    pub display_name: String,
}

/// The source candidates found for one episode.
pub struct PreviewItem {
    pub episode: u32,
    pub sources: Vec<Candidate>,
}

/// What a finished or failed download reports.
pub struct DownloadCompleteNotification {
    pub anime_name: String,
    pub episode: u32,
    pub file_path: String,
    pub file_size: i64,
    pub success: bool,
}

/// A search request.
pub struct SearchRequest {
    pub name: String,
    pub host: String,
}

/// A request for one title's episode listing.
pub struct FetchEpisodesRequest {
    pub slug: String,
    pub host: String,
    pub name_hint: String,
}

/// A request to preview the sources of chosen episodes.
pub struct PreviewRequest {
    pub slug: String,
    pub host: String,
    pub episodes: Vec<u32>,
    pub cached: Vec<EpisodeInfo>,
}

/// A request to download chosen episodes.
pub struct StartDownloadRequest {
    pub anime_name: String,
    pub anime_slug: String,
    pub episodes: Vec<u32>,
    pub audio_type: Option<String>,
    pub resolution: Option<String>,
    pub download_dir: Option<String>,
    pub host: String,
    pub resume_download_id: Option<String>,
    pub threads: Option<usize>,
}

/// Whether one external requirement is available.
pub struct RequirementStatus {
    pub name: String,
    pub available: bool,
    pub path: Option<String>,
    pub error: Option<String>,
}

/// The outcome of the requirements check.
pub struct RequirementsCheckResponse {
    pub all_available: bool,
    pub requirements: Vec<RequirementStatus>,
}

/// The session token of the first listed entry for episode `n`, if any.
pub open spec fn session_for_spec(eps: Seq<EpisodeInfo>, n: u32) -> Option<Seq<char>>
    decreases eps.len(),
{
    if eps.len() == 0 {
        None
    } else if eps[0].number == n {
        Some(eps[0].session@)
    } else {
        session_for_spec(eps.drop_first(), n)
    }
}

/// Finds the session token for one episode number, as `session_for_spec`
/// describes: the first listed entry with that number wins, and the lookup
/// fails exactly when no entry carries the number.
#[verifier::loop_isolation(false)]
pub fn find_session_for_episode(episodes: &Vec<EpisodeInfo>, episode: u32) -> (r: Option<&String>)
    ensures
        match r {
            Some(s) => session_for_spec(episodes@, episode) == Some(s@),
            None => session_for_spec(episodes@, episode) is None,
        },
{
    let ghost eps = episodes@;
    let mut i: usize = 0;
    proof {
        assert(eps.skip(0) =~= eps);
    }
    while i < episodes.len()
        invariant
            0 <= i <= eps.len(),
            session_for_spec(eps, episode) == session_for_spec(eps.skip(i as int), episode),
        decreases eps.len() - i,
    {
        proof {
            assert(eps.skip(i as int)[0] == eps[i as int]);
            assert(eps.skip(i as int).drop_first() =~= eps.skip(i + 1));
        }
        if episodes[i].number == episode {
            return Some(&episodes[i].session);
        }
        i += 1;
    }
    proof {
        assert(eps.skip(i as int).len() == 0);
    }
    None
}

/// Builds the requirements report from what the caller could resolve: the
/// external media tool is the one requirement, available exactly when a
/// path to it was found.
pub fn check_requirements(ffmpeg_path: Option<String>) -> (r: RequirementsCheckResponse)
    ensures
        r.all_available == ffmpeg_path is Some,
        r.requirements@.len() == 1,
        r.requirements@[0].name@ == "ffmpeg"@,
        r.requirements@[0].available == ffmpeg_path is Some,
        r.requirements@[0].path == ffmpeg_path,
        ffmpeg_path is Some ==> r.requirements@[0].error is None,
        ffmpeg_path is None ==> (r.requirements@[0].error matches Some(e) && e@
            == "ffmpeg not found"@),
{
    let available = ffmpeg_path.is_some();
    let error = if available {
        None
    } else {
        Some(String::from_str("ffmpeg not found"))
    };
    let status = RequirementStatus {
        name: String::from_str("ffmpeg"),
        available,
        path: ffmpeg_path,
        error,
    };
    let mut requirements: Vec<RequirementStatus> = Vec::new();
    requirements.push(status);
    RequirementsCheckResponse { all_available: available, requirements }
}

} // verus!
