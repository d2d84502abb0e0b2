//! Course videos: their metadata, the parsed media playlist, the
//! key-rotation call and the per-segment decryption pipeline.
//!
//! Fetching stays with the embedding application: it resolves a segment's
//! URL here, fetches the bytes (and the key material named by the active
//! key declaration), and hands both back for decryption.

use vstd::prelude::*;

verus! {

use vstd::string::StrSliceExecFns;
use crate::course::CourseMeta;
use crate::crypto::{decrypt_segment_data, spec_decrypt_outcome, MediaError};
use crate::handles::{legacy_id, spec_hex_string, spec_legacy_hash};
use crate::playlist::{
    key_opt_view, key_ref_opt_view, opt_view, parse_media_playlist, spec_parse_playlist,
    spec_refresh_key, Key, MediaPlaylist, MediaSegment, PlaylistError, PlaylistView,
};
use crate::qs::{query_pairs_of, spec_get, Query};
use crate::text::concat3;

/// Metadata of one recorded lecture: its title, its time label and the
/// landing-page URL.
#[derive(Debug, Clone)]
pub struct CourseVideoMeta {
    pub title: String,
    pub time: String,
    pub url: String,
}

impl CourseVideoMeta {
    /// The video title.
    pub fn title(&self) -> (r: &String)
        ensures
            r == self.title,
    {
        &self.title
    }

    /// The video's time label.
    pub fn time(&self) -> (r: &String)
        ensures
            r == self.time,
    {
        &self.time
    }

    /// The landing-page URL.
    pub fn url(&self) -> (r: &String)
        ensures
            r == self.url,
    {
        &self.url
    }
}

/// The `sub_id` query parameter of a video landing-page URL, or the empty
/// sequence when it has none.
pub open spec fn spec_video_sub_id(url: Seq<char>) -> Seq<char> {
    match spec_get(query_pairs_of(url), "sub_id"@) {
        Option::Some(v) => v,
        Option::None => Seq::empty(),
    }
}

/// A reference to one video, before its playlist is resolved.
#[derive(Debug, Clone)]
pub struct CourseVideoHandle {
    pub meta: CourseVideoMeta,
    pub course: CourseMeta,
}

impl CourseVideoHandle {
    /// The stable id: course id and the URL's `sub_id` parameter joined
    /// by `::` (an absent parameter contributes nothing after the `::`).
    pub fn id(&self) -> (r: String)
        ensures
            r@ == self.course.id@ + "::"@ + spec_video_sub_id(self.meta.url@),
    {
        let q = Query::from_str(self.meta.url.as_str());
        let sub_id = match q.get("sub_id") {
            Some(v) => v,
            None => String::new(),
        };
        concat3(self.course.id.as_str(), "::", sub_id.as_str())
    }

    /// The legacy hash id kept for older callers.
    pub fn id_legacy(&self) -> (r: String)
        ensures
            r@ == spec_hex_string(spec_legacy_hash(self.course.id@, self.meta.title@) as int),
    {
        legacy_id(&self.course.id, &self.meta.title)
    }

    /// The video title.
    pub fn title(&self) -> (r: &String)
        ensures
            r == self.meta.title,
    {
        self.meta.title()
    }

    /// The video's time label.
    pub fn time(&self) -> (r: &String)
        ensures
            r == self.meta.time,
    {
        self.meta.time()
    }

    /// The video metadata.
    pub fn meta(&self) -> (r: &CourseVideoMeta)
        ensures
            r == self.meta,
    {
        &self.meta
    }
}

/// The absolute URL `rel` resolves to against base URL `base`, or `None`
/// when the base does not parse or the reference cannot be resolved.
pub uninterp spec fn spec_joined_url(base: Seq<char>, rel: Seq<char>) -> Option<Seq<char>>;

/// Relies on `url::Url::parse` and `url::Url::join`: reference resolution
/// is a function of the two strings alone.
#[verifier::external_body]
fn resolve_url(base: &str, rel: &str) -> (r: Option<String>)
    ensures
        match r {
            Option::Some(u) => spec_joined_url(base@, rel@) == Option::Some(u@),
            Option::None => spec_joined_url(base@, rel@) is None,
        },
{
    match url::Url::parse(base) {
        Ok(b) => match b.join(rel) {
            Ok(u) => Some(String::from(u)),
            Err(_) => None,
        },
        Err(_) => None,
    }
}

/// One resolved video: its playlist URL, the raw playlist bytes and the
/// parsed playlist.
#[derive(Debug)]
pub struct CourseVideo {
    pub course: CourseMeta,
    pub meta: CourseVideoMeta,
    pub pl_url: String,
    pub pl_raw: Vec<u8>,
    pub pl: MediaPlaylist,
}

impl CourseVideo {
    /// Build a video from a fetched playlist: `pl_text` is the playlist
    /// body as text and `pl_raw` the same body as raw bytes.  A master
    /// playlist or a malformed source is rejected with the parser's
    /// error, never kept partially.
    pub fn from_fetched(
        course: CourseMeta,
        meta: CourseVideoMeta,
        pl_url: String,
        pl_raw: Vec<u8>,
        pl_text: &str,
    ) -> (r: Result<CourseVideo, PlaylistError>)
        ensures
            match r {
                Result::Ok(v) => spec_parse_playlist(pl_text@) == Result::<
                    PlaylistView,
                    PlaylistError,
                >::Ok(v.pl@) && v.course == course && v.meta == meta && v.pl_url == pl_url
                    && v.pl_raw@ == pl_raw@,
                Result::Err(e) => spec_parse_playlist(pl_text@) == Result::<
                    PlaylistView,
                    PlaylistError,
                >::Err(e),
            },
    {
        match parse_media_playlist(pl_text) {
            Ok(pl) => Ok(CourseVideo { course, meta, pl_url, pl_raw, pl }),
            Err(e) => Err(e),
        }
    }

    /// The name of the course the video belongs to.
    pub fn course_name(&self) -> (r: String)
        requires
            crate::text::spec_find_char(self.course.long_title@, ':') is Some,
            crate::text::spec_rfind_char(
                crate::course::spec_course_title(self.course.long_title@),
                '(',
            ) is Some,
        ensures
            r@ == crate::course::spec_course_name(self.course.long_title@),
    {
        self.course.name()
    }

    /// The video metadata.
    pub fn meta(&self) -> (r: &CourseVideoMeta)
        ensures
            r == self.meta,
    {
        &self.meta
    }

    /// The raw playlist bytes, as fetched.
    pub fn m3u8_raw(&self) -> (r: Vec<u8>)
        ensures
            r@ == self.pl_raw@,
    {
        vstd::slice::slice_to_vec(self.pl_raw.as_slice())
    }

    /// The number of segments.
    pub fn len_segments(&self) -> (r: usize)
        ensures
            r == self.pl@.segments.len(),
    {
        self.pl.len_segments()
    }

    /// The segment at `index`.
    pub fn segment(&self, index: usize) -> (r: &MediaSegment)
        requires
            index < self.pl@.segments.len(),
        ensures
            r@ == self.pl@.segments[index as int],
    {
        &self.pl.segments[index]
    }

    /// The key to use for segment `index`; see
    /// [`MediaPlaylist::refresh_key`].
    pub fn refresh_key(&self, index: usize, key: Option<&Key>) -> (r: Option<Key>)
        requires
            index < self.pl@.segments.len(),
        ensures
            key_opt_view(r) == spec_refresh_key(
                self.pl@.segments[index as int].key,
                key_ref_opt_view(key),
            ),
    {
        self.pl.refresh_key(index, key)
    }

    /// The absolute fetch URL of segment `index`: its URI resolved
    /// against the playlist URL.
    pub fn segment_url(&self, index: usize) -> (r: Result<String, MediaError>)
        requires
            index < self.pl@.segments.len(),
        ensures
            match r {
                Result::Ok(u) => spec_joined_url(
                    self.pl_url@,
                    self.pl@.segments[index as int].uri,
                ) == Option::Some(u@),
                Result::Err(e) => spec_joined_url(
                    self.pl_url@,
                    self.pl@.segments[index as int].uri,
                ) is None && e == MediaError::BadSegmentUrl,
            },
    {
        match resolve_url(self.pl_url.as_str(), self.pl.segments[index].uri.as_str()) {
            Some(u) => Ok(u),
            None => Err(MediaError::BadSegmentUrl),
        }
    }

    /// The decrypted bytes of segment `index`: `data` are the fetched
    /// segment bytes and `material` the fetched key bytes (ignored when
    /// no key is active).  A missing key leaves the bytes unchanged; see
    /// [`spec_decrypt_outcome`] for every outcome.
    pub fn get_segment_data(
        &self,
        index: usize,
        key: Option<&Key>,
        material: &Vec<u8>,
        data: Vec<u8>,
    ) -> (r: Result<Vec<u8>, MediaError>)
        requires
            index < self.pl@.segments.len(),
        ensures
            match r {
                Result::Ok(pt) => spec_decrypt_outcome(
                    key_ref_opt_view(key),
                    material@,
                    data@,
                    self.pl@.media_sequence + index,
                ) == Result::<Seq<u8>, MediaError>::Ok(pt@),
                Result::Err(e) => spec_decrypt_outcome(
                    key_ref_opt_view(key),
                    material@,
                    data@,
                    self.pl@.media_sequence + index,
                ) == Result::<Seq<u8>, MediaError>::Err(e),
            },
    {
        let seq: u128 = (self.pl.media_sequence as u128) + (index as u128);
        decrypt_segment_data(key, material, data, seq)
    }
}

} // verus!
