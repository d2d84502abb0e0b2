//! Playlist resolution decisions: reading the playback parameters out of
//! a redirect target, and the playlist URL out of the sub-info document.
//!
//! The fetches between these steps (landing page, embedded frame,
//! redirect, sub-info endpoint) belong to the embedding application; the
//! JSON navigation runs behind trusted wrappers over `serde_json`.

use vstd::prelude::*;

verus! {

use crate::qs::{query_pairs_of, spec_get, Query};
use crate::text::str_eq;

/// Why playlist resolution failed for a video.
#[derive(Clone, Copy, Debug, PartialEq, Eq, Structural)]
pub enum ResolveError {
    /// The redirect target carries no `course_id` parameter.
    MissingCourseId,
    /// The redirect target carries no `sub_id` parameter.
    MissingSubId,
    /// The redirect target carries no `app_id` parameter.
    MissingAppId,
    /// The redirect target carries no `auth_data` parameter.
    MissingAuthData,
    /// The sub-info document does not hold the expected fields.
    MalformedSubInfo,
    /// The playback entry is not an HLS playlist.
    NotM3u8,
}

/// The four values the sub-info endpoint is called with.
#[derive(Debug, Clone)]
pub struct PlaybackParams {
    pub course_id: String,
    pub sub_id: String,
    pub app_id: String,
    pub auth_data: String,
}

/// Read the playback parameters out of a redirect target's query string.
/// A target carrying all four parameters always yields them; otherwise
/// the first missing one (in the order `course_id`, `sub_id`, `app_id`,
/// `auth_data`) decides the error.
pub fn playback_params_from_location(loc: &str) -> (r: Result<PlaybackParams, ResolveError>)
    ensures
        ({
            let pairs = query_pairs_of(loc@);
            match r {
                Result::Ok(p) => {
                    &&& spec_get(pairs, "course_id"@) == Option::Some(p.course_id@)
                    &&& spec_get(pairs, "sub_id"@) == Option::Some(p.sub_id@)
                    &&& spec_get(pairs, "app_id"@) == Option::Some(p.app_id@)
                    &&& spec_get(pairs, "auth_data"@) == Option::Some(p.auth_data@)
                },
                Result::Err(e) => {
                    &&& (spec_get(pairs, "course_id"@) is None || spec_get(pairs, "sub_id"@)
                        is None || spec_get(pairs, "app_id"@) is None || spec_get(
                        pairs,
                        "auth_data"@,
                    ) is None)
                    &&& e == ResolveError::MissingCourseId <==> spec_get(
                        pairs,
                        "course_id"@,
                    ) is None
                    &&& e == ResolveError::MissingSubId <==> spec_get(pairs, "course_id"@)
                        is Some && spec_get(pairs, "sub_id"@) is None
                    &&& e == ResolveError::MissingAppId <==> spec_get(pairs, "course_id"@)
                        is Some && spec_get(pairs, "sub_id"@) is Some && spec_get(
                        pairs,
                        "app_id"@,
                    ) is None
                    &&& e == ResolveError::MissingAuthData <==> spec_get(pairs, "course_id"@)
                        is Some && spec_get(pairs, "sub_id"@) is Some && spec_get(
                        pairs,
                        "app_id"@,
                    ) is Some && spec_get(pairs, "auth_data"@) is None
                },
            }
        }),
{
    let q = Query::from_str(loc);
    let course_id = match q.get("course_id") {
        Some(v) => v,
        None => {
            return Err(ResolveError::MissingCourseId);
        },
    };
    let sub_id = match q.get("sub_id") {
        Some(v) => v,
        None => {
            return Err(ResolveError::MissingSubId);
        },
    };
    let app_id = match q.get("app_id") {
        Some(v) => v,
        None => {
            return Err(ResolveError::MissingAppId);
        },
    };
    let auth_data = match q.get("auth_data") {
        Some(v) => v,
        None => {
            return Err(ResolveError::MissingAuthData);
        },
    };
    Ok(PlaybackParams { course_id, sub_id, app_id, auth_data })
}

/// The `list[0].sub_content` string of a sub-info JSON document, or
/// `None` when the document does not parse or the path is absent: a
/// function of the text alone.
pub uninterp spec fn spec_sub_info_sub_content(body: Seq<char>) -> Option<Seq<char>>;

/// Relies on `serde_json::from_str` and `serde_json::Value::get`: parses
/// the sub-info response and walks `list[0].sub_content`.
#[verifier::external_body]
fn json_sub_content(body: &str) -> (r: Option<String>)
    ensures
        match r {
            Option::Some(s) => spec_sub_info_sub_content(body@) == Option::Some(s@),
            Option::None => spec_sub_info_sub_content(body@) is None,
        },
{
    let v: serde_json::Value = match serde_json::from_str(body) {
        Ok(v) => v,
        Err(_) => return None,
    };
    let s = v.get("list")?.get(0)?.get("sub_content")?.as_str()?;
    Some(s.to_owned())
}

/// The `save_playback.is_m3u8` string of a sub-content JSON document,
/// paired with its `save_playback.contents` string if present, or `None`
/// when the document does not parse or lacks the playback entry: a
/// function of the text alone.
pub uninterp spec fn spec_sub_content_playback(s: Seq<char>) -> Option<
    (Seq<char>, Option<Seq<char>>),
>;

/// Relies on `serde_json::from_str` and `serde_json::Value::get`: parses
/// the embedded sub-content document and reads its playback fields.
#[verifier::external_body]
fn json_save_playback(s: &str) -> (r: Option<(String, Option<String>)>)
    ensures
        match r {
            Option::Some(p) => spec_sub_content_playback(s@) == Option::Some(
                (p.0@, crate::playlist::opt_view(p.1)),
            ),
            Option::None => spec_sub_content_playback(s@) is None,
        },
{
    let v: serde_json::Value = match serde_json::from_str(s) {
        Ok(v) => v,
        Err(_) => return None,
    };
    let sp = v.get("save_playback")?;
    let is_m3u8 = sp.get("is_m3u8")?.as_str()?.to_owned();
    let contents = match sp.get("contents") {
        Some(c) => c.as_str().map(|x| x.to_owned()),
        None => None,
    };
    Some((is_m3u8, contents))
}

/// Read the playlist URL out of a sub-info response body: navigate to the
/// embedded sub-content document, require `is_m3u8` to be `yes`, and
/// return the playback contents.  Any missing field is a malformed
/// document; a playback entry that is not an HLS playlist is its own
/// fatal error.
pub fn playback_url_from_sub_info(body: &str) -> (r: Result<String, ResolveError>)
    ensures
        match spec_sub_info_sub_content(body@) {
            Option::None => r == Result::<String, ResolveError>::Err(
                ResolveError::MalformedSubInfo,
            ),
            Option::Some(sc) => match spec_sub_content_playback(sc) {
                Option::None => r == Result::<String, ResolveError>::Err(
                    ResolveError::MalformedSubInfo,
                ),
                Option::Some(p) => if p.0 != "yes"@ {
                    r == Result::<String, ResolveError>::Err(ResolveError::NotM3u8)
                } else {
                    match p.1 {
                        Option::None => r == Result::<String, ResolveError>::Err(
                            ResolveError::MalformedSubInfo,
                        ),
                        Option::Some(u) => r matches Result::Ok(s) && s@ == u,
                    }
                },
            },
        },
{
    let sc = match json_sub_content(body) {
        Some(s) => s,
        None => {
            return Err(ResolveError::MalformedSubInfo);
        },
    };
    let playback = match json_save_playback(sc.as_str()) {
        Some(p) => p,
        None => {
            return Err(ResolveError::MalformedSubInfo);
        },
    };
    if !str_eq(playback.0.as_str(), "yes") {
        return Err(ResolveError::NotM3u8);
    }
    match playback.1 {
        Some(u) => Ok(u),
        None => Err(ResolveError::MalformedSubInfo),
    }
}

} // verus!
