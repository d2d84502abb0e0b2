//! The HLS media playlist format, as far as segment retrieval needs it:
//! segment URIs, the starting media sequence number, and per-segment
//! `EXT-X-KEY` declarations, with the key-rotation rule that threads the
//! active key across segments.
//!
//! Only single-rendition media playlists are accepted; a master playlist
//! (one that carries a stream-variant tag) is rejected outright, never
//! partially parsed.

use vstd::prelude::*;

verus! {

use vstd::string::StrSliceExecFns;
use crate::text::{
    find_char, parse_u64, spec_all_digits, spec_dec_val, spec_find_char, spec_starts_with,
    spec_trim, str_eq, str_starts_with, to_string, trim,
};
use crate::qs::spec_get;
use crate::content::clone_opt_string;

/// How one `EXT-X-KEY` declaration says its segments are encrypted.
#[derive(Clone, Copy, Debug, PartialEq, Eq, Structural)]
pub enum KeyMethod {
    /// `METHOD=NONE`: segments are not encrypted.
    NoEncryption,
    /// `METHOD=AES-128`: whole-segment AES-128-CBC with PKCS7 padding.
    Aes128,
    /// `METHOD=SAMPLE-AES`: per-sample encryption (not implemented here).
    SampleAes,
    /// Any other method string.
    Other,
}

/// One `EXT-X-KEY` declaration.
#[derive(Debug)]
pub struct Key {
    pub method: KeyMethod,
    pub uri: Option<String>,
    pub iv: Option<String>,
    pub keyformat: Option<String>,
}

/// The mathematical content of a [`Key`].
pub ghost struct KeyView {
    pub method: KeyMethod,
    pub uri: Option<Seq<char>>,
    pub iv: Option<Seq<char>>,
    pub keyformat: Option<Seq<char>>,
}

/// The view of an optional string.
pub open spec fn opt_view(o: Option<String>) -> Option<Seq<char>> {
    match o {
        Option::Some(s) => Option::Some(s@),
        Option::None => Option::None,
    }
}

impl Key {
    /// The key as plain sequences.
    pub open spec fn view(&self) -> KeyView {
        KeyView {
            method: self.method,
            uri: opt_view(self.uri),
            iv: opt_view(self.iv),
            keyformat: opt_view(self.keyformat),
        }
    }
}

impl Clone for Key {
    /// An equal copy of the key.
    fn clone(&self) -> (r: Self)
        ensures
            r@ == self@,
    {
        Key {
            method: self.method,
            uri: clone_opt_string(&self.uri),
            iv: clone_opt_string(&self.iv),
            keyformat: clone_opt_string(&self.keyformat),
        }
    }
}

/// One media segment: its (usually relative) URI and the key declaration
/// standing immediately before it, if any.
#[derive(Debug)]
pub struct MediaSegment {
    pub uri: String,
    pub key: Option<Key>,
}

/// The mathematical content of a [`MediaSegment`].
pub ghost struct SegmentView {
    pub uri: Seq<char>,
    pub key: Option<KeyView>,
}

/// The view of an optional key.
pub open spec fn key_opt_view(o: Option<Key>) -> Option<KeyView> {
    match o {
        Option::Some(k) => Option::Some(k@),
        Option::None => Option::None,
    }
}

/// The view of an optional borrowed key.
pub open spec fn key_ref_opt_view(o: Option<&Key>) -> Option<KeyView> {
    match o {
        Option::Some(k) => Option::Some(k@),
        Option::None => Option::None,
    }
}

impl MediaSegment {
    /// The segment as plain sequences.
    pub open spec fn view(&self) -> SegmentView {
        SegmentView { uri: self.uri@, key: key_opt_view(self.key) }
    }
}

/// A parsed media playlist.
#[derive(Debug)]
pub struct MediaPlaylist {
    pub media_sequence: u64,
    pub segments: Vec<MediaSegment>,
}

/// The mathematical content of a [`MediaPlaylist`].
pub ghost struct PlaylistView {
    pub media_sequence: u64,
    pub segments: Seq<SegmentView>,
}

impl MediaPlaylist {
    /// The playlist as plain sequences.
    pub open spec fn view(&self) -> PlaylistView {
        PlaylistView {
            media_sequence: self.media_sequence,
            segments: self.segments@.map_values(|s: MediaSegment| s@),
        }
    }

    /// The number of segments.
    pub fn len_segments(&self) -> (r: usize)
        ensures
            r == self@.segments.len(),
    {
        self.segments.len()
    }
}

/// Why a playlist source was rejected.
#[derive(Clone, Copy, Debug, PartialEq, Eq, Structural)]
pub enum PlaylistError {
    /// The source does not begin with the playlist header line.
    NotAPlaylist,
    /// The source is a master (multi-rendition) playlist.
    UnsupportedPlaylist,
    /// A tag this parser reads is malformed (a bad sequence number or a
    /// key declaration without a method).
    InvalidTag,
}

/// The lines of `s`, split on newline characters (not yet trimmed).
pub open spec fn split_lines(s: Seq<char>) -> Seq<Seq<char>>
    decreases s.len(),
{
    match spec_find_char(s, '\n') {
        Option::None => seq![s],
        Option::Some(i) => if 0 <= i < s.len() {
            seq![s.take(i)] + split_lines(s.skip(i + 1))
        } else {
            seq![s]
        },
    }
}

/// The `NAME=VALUE` attribute list of a tag, in order.  A quoted value
/// runs to its closing quote, so it may contain commas; an unquoted value
/// runs to the next comma.
pub open spec fn parse_attrs(s: Seq<char>) -> Seq<(Seq<char>, Seq<char>)>
    decreases s.len(),
{
    if s.len() == 0 {
        Seq::empty()
    } else {
        match spec_find_char(s, '=') {
            Option::None => seq![(s, Seq::<char>::empty())],
            Option::Some(e) => if 0 <= e < s.len() {
                let name = s.take(e);
                let rest = s.skip(e + 1);
                if rest.len() > 0 && rest[0] == '"' {
                    match spec_find_char(rest.skip(1), '"') {
                        Option::None => seq![(name, rest.skip(1))],
                        Option::Some(q) => if 0 <= q < rest.skip(1).len() {
                            let value = rest.skip(1).take(q);
                            let after = rest.skip(1).skip(q + 1);
                            let next = if after.len() > 0 && after[0] == ',' {
                                after.skip(1)
                            } else {
                                after
                            };
                            seq![(name, value)] + parse_attrs(next)
                        } else {
                            seq![(name, rest.skip(1))]
                        },
                    }
                } else {
                    match spec_find_char(rest, ',') {
                        Option::None => seq![(name, rest)],
                        Option::Some(c) => if 0 <= c < rest.len() {
                            seq![(name, rest.take(c))] + parse_attrs(rest.skip(c + 1))
                        } else {
                            seq![(name, rest)]
                        },
                    }
                }
            } else {
                seq![(s, Seq::<char>::empty())]
            },
        }
    }
}

/// The key method named by a `METHOD` attribute value.
pub open spec fn spec_method_of(v: Seq<char>) -> KeyMethod {
    if v == "NONE"@ {
        KeyMethod::NoEncryption
    } else if v == "AES-128"@ {
        KeyMethod::Aes128
    } else if v == "SAMPLE-AES"@ {
        KeyMethod::SampleAes
    } else {
        KeyMethod::Other
    }
}

/// The key declared by an `EXT-X-KEY` attribute list, or `None` when the
/// required `METHOD` attribute is missing.
pub open spec fn spec_key_of_attrs(attrs: Seq<(Seq<char>, Seq<char>)>) -> Option<KeyView> {
    match spec_get(attrs, "METHOD"@) {
        Option::None => Option::None,
        Option::Some(m) => Option::Some(
            KeyView {
                method: spec_method_of(m),
                uri: spec_get(attrs, "URI"@),
                iv: spec_get(attrs, "IV"@),
                keyformat: spec_get(attrs, "KEYFORMAT"@),
            },
        ),
    }
}

/// The parser's running state: whether the header line was seen, the
/// media sequence number, the pending key declaration and the segments
/// collected so far.
pub ghost struct ParseState {
    pub started: bool,
    pub media_sequence: u64,
    pub pending: Option<KeyView>,
    pub segments: Seq<SegmentView>,
}

/// The state a fresh parse starts from.
pub open spec fn initial_parse_state() -> ParseState {
    ParseState {
        started: false,
        media_sequence: 0,
        pending: Option::None,
        segments: Seq::empty(),
    }
}

/// Absorb one (untrimmed) playlist line into the parse state.
pub open spec fn spec_parse_line(st: ParseState, line: Seq<char>) -> Result<
    ParseState,
    PlaylistError,
> {
    let t = spec_trim(line);
    if t.len() == 0 {
        Result::Ok(st)
    } else if !st.started {
        if t == "#EXTM3U"@ {
            Result::Ok(ParseState { started: true, ..st })
        } else {
            Result::Err(PlaylistError::NotAPlaylist)
        }
    } else if spec_starts_with(t, "#EXT-X-STREAM-INF"@) {
        Result::Err(PlaylistError::UnsupportedPlaylist)
    } else if spec_starts_with(t, "#EXT-X-MEDIA-SEQUENCE:"@) {
        let num = t.skip("#EXT-X-MEDIA-SEQUENCE:"@.len() as int);
        if spec_all_digits(num) && spec_dec_val(num) <= u64::MAX {
            Result::Ok(ParseState { media_sequence: spec_dec_val(num) as u64, ..st })
        } else {
            Result::Err(PlaylistError::InvalidTag)
        }
    } else if spec_starts_with(t, "#EXT-X-KEY:"@) {
        match spec_key_of_attrs(parse_attrs(t.skip("#EXT-X-KEY:"@.len() as int))) {
            Option::Some(k) => Result::Ok(ParseState { pending: Option::Some(k), ..st }),
            Option::None => Result::Err(PlaylistError::InvalidTag),
        }
    } else if t[0] == '#' {
        Result::Ok(st)
    } else {
        Result::Ok(
            ParseState {
                pending: Option::None,
                segments: st.segments.push(SegmentView { uri: t, key: st.pending }),
                ..st
            },
        )
    }
}

/// Absorb a sequence of lines, stopping at the first error.
pub open spec fn spec_parse_lines(st: ParseState, lines: Seq<Seq<char>>) -> Result<
    ParseState,
    PlaylistError,
>
    decreases lines.len(),
{
    if lines.len() == 0 {
        Result::Ok(st)
    } else {
        match spec_parse_line(st, lines[0]) {
            Result::Err(e) => Result::Err(e),
            Result::Ok(st2) => spec_parse_lines(st2, lines.skip(1)),
        }
    }
}

/// The outcome of parsing a playlist source: its view, or the error.
pub open spec fn spec_parse_playlist(s: Seq<char>) -> Result<PlaylistView, PlaylistError> {
    match spec_parse_lines(initial_parse_state(), split_lines(s)) {
        Result::Err(e) => Result::Err(e),
        Result::Ok(st) => if st.started {
            Result::Ok(PlaylistView { media_sequence: st.media_sequence, segments: st.segments })
        } else {
            Result::Err(PlaylistError::NotAPlaylist)
        },
    }
}

/// A source with a stream-variant line anywhere is never accepted: the
/// parse ends in an error, with no partial playlist.
pub proof fn lemma_master_rejected_lines(st: ParseState, lines: Seq<Seq<char>>)
    requires
        exists|i: int|
            0 <= i < lines.len() && spec_starts_with(
                spec_trim(#[trigger] lines[i]),
                "#EXT-X-STREAM-INF"@,
            ),
    ensures
        spec_parse_lines(st, lines) is Err,
    decreases lines.len(),
{
    let i = choose|i: int|
        0 <= i < lines.len() && spec_starts_with(spec_trim(lines[i]), "#EXT-X-STREAM-INF"@);
    match spec_parse_line(st, lines[0]) {
        Result::Err(e) => {},
        Result::Ok(st2) => {
            if i == 0 {
                let t = spec_trim(lines[0]);
                assert(t.len() >= "#EXT-X-STREAM-INF"@.len());
                proof_strlit_facts();
                assert(t.len() > 0);
                assert(spec_parse_line(st, lines[0]) is Err);
            } else {
                assert(lines.skip(1)[i - 1] == lines[i]);
                lemma_master_rejected_lines(st2, lines.skip(1));
            }
        },
    }
}

/// A master playlist source is never accepted, whatever else it holds.
pub proof fn lemma_master_rejected(s: Seq<char>)
    requires
        exists|i: int|
            0 <= i < split_lines(s).len() && spec_starts_with(
                spec_trim(#[trigger] split_lines(s)[i]),
                "#EXT-X-STREAM-INF"@,
            ),
    ensures
        spec_parse_playlist(s) is Err,
{
    lemma_master_rejected_lines(initial_parse_state(), split_lines(s));
}

/// The key format a declaration compares under: its `KEYFORMAT`
/// attribute, or `identity` when it carries none.
pub open spec fn spec_fallback_keyformat(k: KeyView) -> Seq<char> {
    match k.keyformat {
        Option::Some(f) => f,
        Option::None => "identity"@,
    }
}

/// The key-rotation rule for one segment: if the segment declares a key
/// and the previous key is absent or carries a different key format, the
/// declared key becomes active; otherwise the previous key stays active.
pub open spec fn spec_refresh_key(
    seg_key: Option<KeyView>,
    prev: Option<KeyView>,
) -> Option<KeyView> {
    match seg_key {
        Option::Some(nk) => match prev {
            Option::None => Option::Some(nk),
            Option::Some(p) => if spec_fallback_keyformat(p) != spec_fallback_keyformat(nk) {
                Option::Some(nk)
            } else {
                Option::Some(p)
            },
        },
        Option::None => prev,
    }
}

/// The key active at segment `i` when [`spec_refresh_key`] is threaded
/// from the first segment on, starting with no key.
pub open spec fn active_key(segs: Seq<SegmentView>, i: int) -> Option<KeyView>
    decreases i + 1,
{
    if i < 0 {
        Option::None
    } else {
        spec_refresh_key(segs[i].key, active_key(segs, i - 1))
    }
}

/// A key persists across segments that declare none: if none of the
/// segments after `lo` up to `hi` declares a key, the key active at `hi`
/// is the key active at `lo`.
pub proof fn lemma_key_persists(segs: Seq<SegmentView>, lo: int, hi: int)
    requires
        0 <= lo <= hi < segs.len(),
        forall|i: int| lo < i <= hi ==> (#[trigger] segs[i].key) is None,
    ensures
        active_key(segs, hi) == active_key(segs, lo),
    decreases hi - lo,
{
    if hi > lo {
        lemma_key_persists(segs, lo, hi - 1);
    }
}

impl MediaPlaylist {
    /// The key to use for segment `index`, given the key returned for the
    /// previous segment (or `None` at the first segment).  Must be called
    /// once per segment in ascending index order from zero, threading each
    /// result into the next call; any other calling order voids the rule.
    pub fn refresh_key(&self, index: usize, key: Option<&Key>) -> (r: Option<Key>)
        requires
            index < self@.segments.len(),
        ensures
            key_opt_view(r) == spec_refresh_key(self@.segments[index as int].key, key_ref_opt_view(key)),
    {
        let seg = &self.segments[index];
        match &seg.key {
            Some(newkey) => {
                let rotate = match key {
                    None => true,
                    Some(k) => {
                        let kf = fallback_keyformat(k);
                        let nf = fallback_keyformat(newkey);
                        !str_eq(kf.as_str(), nf.as_str())
                    },
                };
                if rotate {
                    Some(newkey.clone())
                } else {
                    match key {
                        Some(k) => Some(k.clone()),
                        None => None,
                    }
                }
            },
            None => match key {
                Some(k) => Some(k.clone()),
                None => None,
            },
        }
    }
}

/// The key format a key compares under, per [`spec_fallback_keyformat`].
pub fn fallback_keyformat(key: &Key) -> (r: String)
    ensures
        r@ == spec_fallback_keyformat(key@),
{
    match &key.keyformat {
        Some(f) => f.clone(),
        None => to_string("identity"),
    }
}

/// The views of a vector of string pairs.
pub open spec fn attrs_view(v: Seq<(String, String)>) -> Seq<(Seq<char>, Seq<char>)> {
    v.map_values(|p: (String, String)| (p.0@, p.1@))
}

/// The value of the first attribute named `key`, if any.
fn attr_get(attrs: &Vec<(String, String)>, key: &str) -> (r: Option<String>)
    ensures
        opt_view(r) == spec_get(attrs_view(attrs@), key@),
{
    let mut i: usize = 0;
    proof {
        assert(attrs_view(attrs@).skip(0) =~= attrs_view(attrs@));
    }
    while i < attrs.len()
        invariant
            0 <= i <= attrs@.len(),
            spec_get(attrs_view(attrs@), key@) == spec_get(
                attrs_view(attrs@).skip(i as int),
                key@,
            ),
        decreases attrs@.len() - i,
    {
        proof {
            assert(attrs_view(attrs@).skip(i as int)[0] == attrs_view(attrs@)[i as int]);
            assert(attrs_view(attrs@).skip(i as int).skip(1) =~= attrs_view(attrs@).skip(i + 1));
        }
        if str_eq(attrs[i].0.as_str(), key) {
            return Some(attrs[i].1.clone());
        }
        i += 1;
    }
    proof {
        assert(attrs_view(attrs@).skip(attrs@.len() as int).len() == 0);
    }
    None
}

/// Parse a tag's attribute list, per [`parse_attrs`].
fn parse_attrs_exec(s: &str) -> (r: Vec<(String, String)>)
    ensures
        attrs_view(r@) == parse_attrs(s@),
{
    let mut acc: Vec<(String, String)> = Vec::new();
    let mut rest: String = to_string(s);
    let ghost s0 = s@;
    proof {
        assert(attrs_view(acc@) =~= Seq::<(Seq<char>, Seq<char>)>::empty());
    }
    loop
        invariant
            attrs_view(acc@) + parse_attrs(rest@) =~= parse_attrs(s0),
        ensures
            rest@.len() == 0,
            attrs_view(acc@) + parse_attrs(rest@) =~= parse_attrs(s0),
        decreases rest@.len() + 1,
    {
        let rlen = rest.as_str().unicode_len();
        if rlen == 0 {
            break ;
        }
        let ghost pre = attrs_view(acc@);
        let ghost cur = rest@;
        match find_char(rest.as_str(), '=') {
            None => {
                acc.push((rest, String::new()));
                proof {
                    assert(attrs_view(acc@) =~= pre + seq![(cur, Seq::<char>::empty())]);
                }
                rest = String::new();
            },
            Some(e) => {
                proof {
                    crate::text::lemma_find_char(cur, '=');
                }
                let name = to_string(rest.as_str().substring_char(0, e));
                let r2 = to_string(rest.as_str().substring_char(e + 1, rlen));
                proof {
                    assert(name@ =~= cur.take(e as int));
                    assert(r2@ =~= cur.skip(e + 1));
                }
                let r2len = rlen - (e + 1);
                proof {
                    assert(r2len == r2@.len());
                }
                if r2len > 0 && r2.as_str().get_char(0) == '"' {
                    let body = to_string(r2.as_str().substring_char(1, r2len));
                    proof {
                        assert(body@ =~= r2@.skip(1));
                    }
                    match find_char(body.as_str(), '"') {
                        None => {
                            acc.push((name, body));
                            proof {
                                assert(attrs_view(acc@) =~= pre + seq![(
                                    cur.take(e as int),
                                    cur.skip(e + 1).skip(1),
                                )]);
                            }
                            rest = String::new();
                        },
                        Some(q) => {
                            proof {
                                crate::text::lemma_find_char(body@, '"');
                            }
                            let blen = r2len - 1;
                            let value = to_string(body.as_str().substring_char(0, q));
                            let after = to_string(body.as_str().substring_char(q + 1, blen));
                            proof {
                                assert(value@ =~= body@.take(q as int));
                                assert(after@ =~= body@.skip(q + 1));
                            }
                            let alen = blen - (q + 1);
                            let next = if alen > 0 && after.as_str().get_char(0) == ',' {
                                let n = to_string(after.as_str().substring_char(1, alen));
                                proof {
                                    assert(n@ =~= after@.skip(1));
                                }
                                n
                            } else {
                                after
                            };
                            acc.push((name, value));
                            proof {
                                assert(attrs_view(acc@) =~= pre + seq![(
                                    cur.take(e as int),
                                    cur.skip(e + 1).skip(1).take(q as int),
                                )]);
                            }
                            rest = next;
                        },
                    }
                } else {
                    match find_char(r2.as_str(), ',') {
                        None => {
                            acc.push((name, r2));
                            proof {
                                assert(attrs_view(acc@) =~= pre + seq![(
                                    cur.take(e as int),
                                    cur.skip(e + 1),
                                )]);
                            }
                            rest = String::new();
                        },
                        Some(c) => {
                            proof {
                                crate::text::lemma_find_char(r2@, ',');
                            }
                            let value = to_string(r2.as_str().substring_char(0, c));
                            let next = to_string(r2.as_str().substring_char(c + 1, r2len));
                            proof {
                                assert(value@ =~= r2@.take(c as int));
                                assert(next@ =~= r2@.skip(c + 1));
                            }
                            acc.push((name, value));
                            proof {
                                assert(attrs_view(acc@) =~= pre + seq![(
                                    cur.take(e as int),
                                    cur.skip(e + 1).take(c as int),
                                )]);
                            }
                            rest = next;
                        },
                    }
                }
            },
        }
    }
    proof {
        assert(parse_attrs(rest@) =~= Seq::<(Seq<char>, Seq<char>)>::empty());
        assert(attrs_view(acc@) =~= parse_attrs(s0));
    }
    acc
}

/// Build the key of an `EXT-X-KEY` attribute list, per
/// [`spec_key_of_attrs`].
fn key_of_attrs(attrs: &Vec<(String, String)>) -> (r: Option<Key>)
    ensures
        key_opt_view(r) == spec_key_of_attrs(attrs_view(attrs@)),
{
    match attr_get(attrs, "METHOD") {
        None => None,
        Some(m) => {
            let method = if str_eq(m.as_str(), "NONE") {
                KeyMethod::NoEncryption
            } else if str_eq(m.as_str(), "AES-128") {
                KeyMethod::Aes128
            } else if str_eq(m.as_str(), "SAMPLE-AES") {
                KeyMethod::SampleAes
            } else {
                KeyMethod::Other
            };
            Some(
                Key {
                    method,
                    uri: attr_get(attrs, "URI"),
                    iv: attr_get(attrs, "IV"),
                    keyformat: attr_get(attrs, "KEYFORMAT"),
                },
            )
        },
    }
}

/// Parse a media playlist source, per [`spec_parse_playlist`]: the
/// header line must come first, a stream-variant tag rejects the whole
/// source as a master playlist, `EXT-X-MEDIA-SEQUENCE` and `EXT-X-KEY`
/// tags are read, other tags are ignored, and every remaining non-empty
/// line is a segment URI that picks up the pending key declaration.
pub fn parse_media_playlist(src: &str) -> (r: Result<MediaPlaylist, PlaylistError>)
    ensures
        match r {
            Result::Ok(pl) => spec_parse_playlist(src@) == Result::<
                PlaylistView,
                PlaylistError,
            >::Ok(pl@),
            Result::Err(e) => spec_parse_playlist(src@) == Result::<
                PlaylistView,
                PlaylistError,
            >::Err(e),
        },
{
    let ghost s0 = src@;
    let mut started = false;
    let mut media_sequence: u64 = 0;
    let mut pending: Option<Key> = None;
    let mut segments: Vec<MediaSegment> = Vec::new();
    let mut rest: String = to_string(src);
    proof {
        assert(segments@.map_values(|s: MediaSegment| s@) =~= Seq::<SegmentView>::empty());
    }
    loop
        invariant
            spec_parse_lines(
                ParseState {
                    started: started,
                    media_sequence: media_sequence,
                    pending: key_opt_view(pending),
                    segments: segments@.map_values(|s: MediaSegment| s@),
                },
                split_lines(rest@),
            ) == spec_parse_lines(initial_parse_state(), split_lines(src@)),
        ensures
            rest@.len() == 0,
            spec_parse_lines(
                ParseState {
                    started: started,
                    media_sequence: media_sequence,
                    pending: key_opt_view(pending),
                    segments: segments@.map_values(|s: MediaSegment| s@),
                },
                split_lines(rest@),
            ) == spec_parse_lines(initial_parse_state(), split_lines(src@)),
        decreases rest@.len() + 1,
    {
        let rlen = rest.as_str().unicode_len();
        if rlen == 0 {
            break ;
        }
        let ghost st_in = ParseState {
            started: started,
            media_sequence: media_sequence,
            pending: key_opt_view(pending),
            segments: segments@.map_values(|s: MediaSegment| s@),
        };
        let ghost cur = rest@;
        let ghost had_newline: bool;
        let (line, rest2): (String, String) = match find_char(rest.as_str(), '\n') {
            Some(i) => {
                proof {
                    crate::text::lemma_find_char(cur, '\n');
                    had_newline = true;
                }
                let l = to_string(rest.as_str().substring_char(0, i));
                let r = to_string(rest.as_str().substring_char(i + 1, rlen));
                proof {
                    assert(l@ =~= cur.take(i as int));
                    assert(r@ =~= cur.skip(i + 1));
                }
                (l, r)
            },
            None => {
                proof {
                    had_newline = false;
                }
                (rest, String::new())
            },
        };
        proof {
            if had_newline {
                assert(split_lines(cur) == seq![line@] + split_lines(rest2@));
                assert((seq![line@] + split_lines(rest2@))[0] == line@);
                assert((seq![line@] + split_lines(rest2@)).skip(1) =~= split_lines(rest2@));
            } else {
                assert(split_lines(cur) == seq![cur]);
                assert(seq![cur][0] == line@);
                assert(seq![cur].skip(1) =~= Seq::<Seq<char>>::empty());
            }
        }
        let t = trim(line.as_str());
        let tlen = t.as_str().unicode_len();
        proof {
            proof_strlit_facts();
        }
        let ghost step = spec_parse_line(st_in, line@);
        if tlen == 0 {
            proof {
                assert(step == Result::<ParseState, PlaylistError>::Ok(st_in));
            }
        } else if !started {
            if str_eq(t.as_str(), "#EXTM3U") {
                started = true;
                proof {
                    assert(step == Result::<ParseState, PlaylistError>::Ok(
                        ParseState { started: true, ..st_in },
                    ));
                }
            } else {
                proof {
                    assert(step == Result::<ParseState, PlaylistError>::Err(
                        PlaylistError::NotAPlaylist,
                    ));
                    lemma_lines_err(st_in, split_lines(cur), PlaylistError::NotAPlaylist);
                }
                return Err(PlaylistError::NotAPlaylist);
            }
        } else if str_starts_with(t.as_str(), "#EXT-X-STREAM-INF") {
            proof {
                assert(step == Result::<ParseState, PlaylistError>::Err(
                    PlaylistError::UnsupportedPlaylist,
                ));
                lemma_lines_err(st_in, split_lines(cur), PlaylistError::UnsupportedPlaylist);
            }
            return Err(PlaylistError::UnsupportedPlaylist);
        } else if str_starts_with(t.as_str(), "#EXT-X-MEDIA-SEQUENCE:") {
            let plen = "#EXT-X-MEDIA-SEQUENCE:".unicode_len();
            let num = t.as_str().substring_char(plen, tlen);
            proof {
                assert(num@ =~= t@.skip("#EXT-X-MEDIA-SEQUENCE:"@.len() as int));
            }
            match parse_u64(num) {
                Some(v) => {
                    media_sequence = v;
                    proof {
                        assert(step == Result::<ParseState, PlaylistError>::Ok(
                            ParseState { media_sequence: v, ..st_in },
                        ));
                    }
                },
                None => {
                    proof {
                        assert(step == Result::<ParseState, PlaylistError>::Err(
                            PlaylistError::InvalidTag,
                        ));
                        lemma_lines_err(st_in, split_lines(cur), PlaylistError::InvalidTag);
                    }
                    return Err(PlaylistError::InvalidTag);
                },
            }
        } else if str_starts_with(t.as_str(), "#EXT-X-KEY:") {
            let plen = "#EXT-X-KEY:".unicode_len();
            let body = t.as_str().substring_char(plen, tlen);
            proof {
                assert(body@ =~= t@.skip("#EXT-X-KEY:"@.len() as int));
            }
            let attrs = parse_attrs_exec(body);
            match key_of_attrs(&attrs) {
                Some(k) => {
                    proof {
                        assert(step == Result::<ParseState, PlaylistError>::Ok(
                            ParseState { pending: Option::Some(k@), ..st_in },
                        ));
                    }
                    pending = Some(k);
                },
                None => {
                    proof {
                        assert(step == Result::<ParseState, PlaylistError>::Err(
                            PlaylistError::InvalidTag,
                        ));
                        lemma_lines_err(st_in, split_lines(cur), PlaylistError::InvalidTag);
                    }
                    return Err(PlaylistError::InvalidTag);
                },
            }
        } else if t.as_str().get_char(0) == '#' {
            proof {
                assert(step == Result::<ParseState, PlaylistError>::Ok(st_in));
            }
        } else {
            let key = match pending {
                Some(k) => {
                    pending = None;
                    Some(k)
                },
                None => None,
            };
            let ghost segs_pre = segments@.map_values(|s: MediaSegment| s@);
            segments.push(MediaSegment { uri: t, key });
            proof {
                assert(segments@.map_values(|s: MediaSegment| s@) =~= segs_pre.push(
                    SegmentView { uri: spec_trim(line@), key: st_in.pending },
                ));
                assert(step == Result::<ParseState, PlaylistError>::Ok(
                    ParseState {
                        pending: Option::None,
                        segments: segs_pre.push(
                            SegmentView { uri: spec_trim(line@), key: st_in.pending },
                        ),
                        ..st_in
                    },
                ));
            }
        }
        proof {
            let st_out = ParseState {
                started: started,
                media_sequence: media_sequence,
                pending: key_opt_view(pending),
                segments: segments@.map_values(|s: MediaSegment| s@),
            };
            assert(step == Result::<ParseState, PlaylistError>::Ok(st_out));
            let lines = split_lines(cur);
            assert(lines[0] == line@);
            assert(spec_parse_lines(st_in, lines) == spec_parse_lines(st_out, lines.skip(1)));
            if had_newline {
                assert(lines.skip(1) =~= split_lines(rest2@));
            } else {
                reveal_with_fuel(spec_parse_lines, 3);
                assert(spec_parse_lines(st_out, lines.skip(1)) == Result::<
                    ParseState,
                    PlaylistError,
                >::Ok(st_out));
                assert(rest2@ =~= Seq::<char>::empty());
                assert(split_lines(rest2@) == seq![rest2@]);
                assert(spec_trim(rest2@).len() == 0);
                assert(spec_parse_line(st_out, rest2@) == Result::<
                    ParseState,
                    PlaylistError,
                >::Ok(st_out));
                assert(split_lines(rest2@).skip(1) =~= Seq::<Seq<char>>::empty());
                assert(spec_parse_lines(st_out, split_lines(rest2@)) == Result::<
                    ParseState,
                    PlaylistError,
                >::Ok(st_out));
            }
        }
        rest = rest2;
    }
    proof {
        reveal_with_fuel(spec_parse_lines, 3);
        assert(rest@ =~= Seq::<char>::empty());
        let st_final = ParseState {
            started: started,
            media_sequence: media_sequence,
            pending: key_opt_view(pending),
            segments: segments@.map_values(|s: MediaSegment| s@),
        };
        assert(split_lines(rest@) == seq![rest@]);
        assert(spec_trim(rest@).len() == 0);
        assert(spec_parse_line(st_final, rest@) == Result::<ParseState, PlaylistError>::Ok(
            st_final,
        ));
        assert(split_lines(rest@).skip(1) =~= Seq::<Seq<char>>::empty());
        assert(spec_parse_lines(st_final, split_lines(rest@)) == Result::<
            ParseState,
            PlaylistError,
        >::Ok(st_final));
    }
    if !started {
        return Err(PlaylistError::NotAPlaylist);
    }
    let pl = MediaPlaylist { media_sequence, segments };
    Ok(pl)
}

/// If the first line errs, the whole line fold errs with that error.
proof fn lemma_lines_err(st: ParseState, lines: Seq<Seq<char>>, e: PlaylistError)
    requires
        lines.len() > 0,
        spec_parse_line(st, lines[0]) == Result::<ParseState, PlaylistError>::Err(e),
    ensures
        spec_parse_lines(st, lines) == Result::<ParseState, PlaylistError>::Err(e),
{
}

/// Reveal the literals that [`spec_parse_line`] compares against, so their
/// lengths and characters are known.
pub proof fn proof_strlit_facts()
    ensures
        "#EXTM3U"@.len() == 7,
        "#EXT-X-STREAM-INF"@.len() == 17,
        "#EXT-X-MEDIA-SEQUENCE:"@.len() == 22,
        "#EXT-X-KEY:"@.len() == 11,
        "#EXT-X-STREAM-INF"@[0] == '#',
{
    reveal_strlit("#EXTM3U");
    reveal_strlit("#EXT-X-STREAM-INF");
    reveal_strlit("#EXT-X-MEDIA-SEQUENCE:");
    reveal_strlit("#EXT-X-KEY:");
}

} // verus!
