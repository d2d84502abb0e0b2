//! Typed views over discovered content: assignments, documents and
//! announcements, each a plain record plus its course id.  The embedding
//! application adds transport; everything here is data and derived ids.

use vstd::prelude::*;

verus! {

use vstd::string::StrSliceExecFns;
use vstd::string::StringExecFns;
use vstd::wrapping::u64_specs;
use crate::content::{clone_opt_string, CourseContentData, CourseContentKind};
use crate::text::{concat3, find_char, find_str, parse_u64, spec_find_str, to_string};

/// One discovered record bound to its course.
#[derive(Debug, Clone)]
pub struct CourseContent {
    pub course_id: String,
    pub data: CourseContentData,
}

impl CourseContent {
    /// The record as an assignment handle, when it is an assignment.
    pub fn into_assignment_opt(self) -> (r: Option<CourseAssignmentHandle>)
        ensures
            match r {
                Option::Some(h) => self.data.kind == CourseContentKind::Assignment && h.course_id
                    == self.course_id && h.content == self.data,
                Option::None => self.data.kind != CourseContentKind::Assignment,
            },
    {
        if self.data.kind == CourseContentKind::Assignment {
            Some(CourseAssignmentHandle { course_id: self.course_id, content: self.data })
        } else {
            None
        }
    }
}

/// One step of the 64-bit FNV-1a fold over a character's scalar value.
pub open spec fn spec_fnv_step(h: u64, c: char) -> u64 {
    u64_specs::wrapping_mul(h ^ ((c as u32) as u64), 0x100000001b3)
}

/// The 64-bit FNV-1a fold of a character sequence, left to right,
/// starting from `h0`.
pub open spec fn spec_fnv_chars(s: Seq<char>, h0: u64) -> u64
    decreases s.len(),
{
    if s.len() == 0 {
        h0
    } else {
        spec_fnv_step(spec_fnv_chars(s.drop_last(), h0), s.last())
    }
}

/// The stable 64-bit digest behind the legacy ids: the FNV-1a fold of the
/// course id followed by the content id.
pub open spec fn spec_legacy_hash(course_id: Seq<char>, content_id: Seq<char>) -> u64 {
    spec_fnv_chars(content_id, spec_fnv_chars(course_id, 0xcbf29ce484222325))
}

/// The character for one lowercase hexadecimal digit.
pub open spec fn spec_hex_digit_char(d: int) -> char {
    if d == 0 {
        '0'
    } else if d == 1 {
        '1'
    } else if d == 2 {
        '2'
    } else if d == 3 {
        '3'
    } else if d == 4 {
        '4'
    } else if d == 5 {
        '5'
    } else if d == 6 {
        '6'
    } else if d == 7 {
        '7'
    } else if d == 8 {
        '8'
    } else if d == 9 {
        '9'
    } else if d == 10 {
        'a'
    } else if d == 11 {
        'b'
    } else if d == 12 {
        'c'
    } else if d == 13 {
        'd'
    } else if d == 14 {
        'e'
    } else {
        'f'
    }
}

/// The lowercase hexadecimal digits of a nonnegative value, without
/// leading zeroes (`0` alone for zero).
pub open spec fn spec_hex_string(x: int) -> Seq<char>
    decreases x,
{
    if x < 16 {
        seq![spec_hex_digit_char(if x < 0 {
            0
        } else {
            x % 16
        })]
    } else {
        spec_hex_string(x / 16).push(spec_hex_digit_char(x % 16))
    }
}

/// The string for one hexadecimal digit value.
fn hex_digit_str(d: u64) -> (r: &'static str)
    requires
        d < 16,
    ensures
        r@ == seq![spec_hex_digit_char(d as int)],
{
    proof {
        reveal_strlit("0");
        reveal_strlit("1");
        reveal_strlit("2");
        reveal_strlit("3");
        reveal_strlit("4");
        reveal_strlit("5");
        reveal_strlit("6");
        reveal_strlit("7");
        reveal_strlit("8");
        reveal_strlit("9");
        reveal_strlit("a");
        reveal_strlit("b");
        reveal_strlit("c");
        reveal_strlit("d");
        reveal_strlit("e");
        reveal_strlit("f");
    }
    let r = if d == 0 {
        "0"
    } else if d == 1 {
        "1"
    } else if d == 2 {
        "2"
    } else if d == 3 {
        "3"
    } else if d == 4 {
        "4"
    } else if d == 5 {
        "5"
    } else if d == 6 {
        "6"
    } else if d == 7 {
        "7"
    } else if d == 8 {
        "8"
    } else if d == 9 {
        "9"
    } else if d == 10 {
        "a"
    } else if d == 11 {
        "b"
    } else if d == 12 {
        "c"
    } else if d == 13 {
        "d"
    } else if d == 14 {
        "e"
    } else {
        "f"
    };
    proof {
        assert(r@ =~= seq![spec_hex_digit_char(d as int)]);
    }
    r
}

/// The lowercase hexadecimal form of a 64-bit value.
pub fn hex_u64(x: u64) -> (r: String)
    ensures
        r@ == spec_hex_string(x as int),
    decreases x,
{
    if x < 16 {
        to_string(hex_digit_str(x))
    } else {
        let mut r = hex_u64(x / 16);
        r.append(hex_digit_str(x % 16));
        proof {
            assert(r@ =~= spec_hex_string(x as int));
        }
        r
    }
}

/// The 64-bit FNV-1a fold of a string's characters, per
/// [`spec_fnv_chars`].
pub fn fnv_chars(s: &str, h0: u64) -> (r: u64)
    ensures
        r == spec_fnv_chars(s@, h0),
{
    let n = s.unicode_len();
    let mut h = h0;
    let mut i: usize = 0;
    proof {
        assert(s@.take(0) =~= Seq::<char>::empty());
    }
    while i < n
        invariant
            0 <= i <= n,
            n == s@.len(),
            h == spec_fnv_chars(s@.take(i as int), h0),
        decreases n - i,
    {
        let c = s.get_char(i);
        proof {
            assert(s@.take(i + 1).drop_last() =~= s@.take(i as int));
            assert(s@.take(i + 1).last() == s@[i as int]);
        }
        h = (h ^ ((c as u32) as u64)).wrapping_mul(0x100000001b3);
        i += 1;
    }
    proof {
        assert(s@.take(n as int) =~= s@);
    }
    h
}

/// The legacy id: the lowercase hexadecimal form of the stable digest of
/// course id and content id.
pub fn legacy_id(course_id: &String, content_id: &String) -> (r: String)
    ensures
        r@ == spec_hex_string(spec_legacy_hash(course_id@, content_id@) as int),
{
    let h = fnv_chars(course_id.as_str(), 0xcbf29ce484222325);
    let h = fnv_chars(content_id.as_str(), h);
    hex_u64(h)
}

/// A reference to one assignment, before its details are fetched.
#[derive(Debug, Clone)]
pub struct CourseAssignmentHandle {
    pub course_id: String,
    pub content: CourseContentData,
}

impl CourseAssignmentHandle {
    /// The record's depth in the content tree.
    pub fn depth(&self) -> (r: usize)
        ensures
            r == self.content.depth,
    {
        self.content.depth
    }

    /// The id of the record's recorded parent, if any.
    pub fn parent_id(&self) -> (r: Option<String>)
        ensures
            r == self.content.parent_id,
    {
        clone_opt_string(&self.content.parent_id)
    }

    /// The stable id: course id and content id joined by `::`.
    pub fn id(&self) -> (r: String)
        ensures
            r@ == self.course_id@ + "::"@ + self.content.id@,
    {
        concat3(self.course_id.as_str(), "::", self.content.id.as_str())
    }

    /// The legacy hash id kept for older callers.
    pub fn id_legacy(&self) -> (r: String)
        ensures
            r@ == spec_hex_string(spec_legacy_hash(self.course_id@, self.content.id@) as int),
    {
        legacy_id(&self.course_id, &self.content.id)
    }

    /// The assignment title.
    pub fn title(&self) -> (r: &String)
        ensures
            r == self.content.title,
    {
        &self.content.title
    }
}

/// The fetched details of one assignment.
#[derive(Debug, Clone)]
pub struct CourseAssignmentData {
    pub deadline: Option<String>,
    pub attempt: Option<String>,
}

/// One assignment with its fetched details.
#[derive(Debug, Clone)]
pub struct CourseAssignment {
    pub course_id: String,
    pub content: CourseContentData,
    pub data: CourseAssignmentData,
}

impl CourseAssignment {
    /// The assignment title.
    pub fn title(&self) -> (r: &String)
        ensures
            r == self.content.title,
    {
        &self.content.title
    }

    /// The description paragraphs, in page order.
    pub fn descriptions(&self) -> (r: &Vec<String>)
        ensures
            r == self.content.descriptions,
    {
        &self.content.descriptions
    }

    /// The attachments, as `(name, URI)` pairs in page order.
    pub fn attachments(&self) -> (r: &Vec<(String, String)>)
        ensures
            r == self.content.attachments,
    {
        &self.content.attachments
    }

    /// The label of the last submission attempt, if any.
    pub fn last_attempt(&self) -> (r: Option<&String>)
        ensures
            match self.data.attempt {
                Option::Some(_) => r matches Option::Some(s) && *s == self.data.attempt->0,
                Option::None => r is None,
            },
    {
        match &self.data.attempt {
            Some(s) => Some(s),
            None => None,
        }
    }

    /// The raw deadline text, if any.
    pub fn deadline_raw(&self) -> (r: Option<&String>)
        ensures
            match self.data.deadline {
                Option::Some(_) => r matches Option::Some(s) && *s == self.data.deadline->0,
                Option::None => r is None,
            },
    {
        match &self.data.deadline {
            Some(s) => Some(s),
            None => None,
        }
    }

    /// The legacy hash id kept for older callers.
    pub fn id_legacy(&self) -> (r: String)
        ensures
            r@ == spec_hex_string(spec_legacy_hash(self.course_id@, self.content.id@) as int),
    {
        legacy_id(&self.course_id, &self.content.id)
    }
}

/// The parts of a parsed deadline: year, month, day, hour (24-hour,
/// after the meridiem adjustment) and minute.  Ranges are not validated
/// here; the calendar library of the embedding application rejects
/// impossible dates.
#[derive(Debug, Clone, Copy, PartialEq, Eq, Structural)]
pub struct DeadlineParts {
    pub year: u64,
    pub month: u64,
    pub day: u64,
    pub hour: u64,
    pub minute: u64,
}

/// The deadline parts of a portal deadline text: four digits before the
/// year marker, one or two digits before each of the month and day
/// markers, then a meridiem marker followed by `hour:minute`; an
/// afternoon hour below twelve gains twelve.  The weekday label between
/// the day and the meridiem is not inspected.
pub open spec fn spec_deadline_parts(s: Seq<char>) -> Option<(int, int, int, int, int)> {
    match crate::text::spec_find_char(s, '\u{5e74}') {
        Option::None => Option::None,
        Option::Some(iy) => if 4 <= iy < s.len() && spec_all_digits_4(s.subrange(iy - 4, iy)) {
            let year = crate::text::spec_dec_val(s.subrange(iy - 4, iy));
            let r1 = s.skip(iy + 1);
            match spec_marked_number(r1, '\u{6708}') {
                Option::None => Option::None,
                Option::Some((month, r2)) => match spec_marked_number(r2, '\u{65e5}') {
                    Option::None => Option::None,
                    Option::Some((day, r3)) => match spec_meridiem(r3) {
                        Option::None => Option::None,
                        Option::Some((pm, r4)) => match spec_marked_number(r4, ':') {
                            Option::None => Option::None,
                            Option::Some((hour, r5)) => match spec_leading_minutes(r5) {
                                Option::None => Option::None,
                                Option::Some(minute) => Option::Some(
                                    (
                                        year,
                                        month,
                                        day,
                                        if pm && hour < 12 {
                                            hour + 12
                                        } else {
                                            hour
                                        },
                                        minute,
                                    ),
                                ),
                            },
                        },
                    },
                },
            }
        } else {
            Option::None
        },
    }
}

/// Whether a four-character window is all decimal digits.
pub open spec fn spec_all_digits_4(s: Seq<char>) -> bool {
    s.len() == 4 && crate::text::spec_all_digits(s)
}

/// One or two digits directly before the marker character, and the text
/// after the marker.
pub open spec fn spec_marked_number(s: Seq<char>, marker: char) -> Option<(int, Seq<char>)> {
    match crate::text::spec_find_char(s, marker) {
        Option::None => Option::None,
        Option::Some(i) => if 0 <= i < s.len() && 1 <= i <= 2 && crate::text::spec_all_digits(
            s.take(i),
        ) {
            Option::Some((crate::text::spec_dec_val(s.take(i)), s.skip(i + 1)))
        } else {
            Option::None
        },
    }
}

/// The first meridiem marker in the text: whether it is the afternoon
/// one, and the text after it.  With both markers present the earlier
/// one decides.
pub open spec fn spec_meridiem(s: Seq<char>) -> Option<(bool, Seq<char>)> {
    let am = crate::text::spec_find_str(s, "\u{4e0a}\u{5348}"@);
    let pm = crate::text::spec_find_str(s, "\u{4e0b}\u{5348}"@);
    match am {
        Option::Some(a) => match pm {
            Option::Some(p) => if p < a {
                spec_after_marker(s, p, true)
            } else {
                spec_after_marker(s, a, false)
            },
            Option::None => spec_after_marker(s, a, false),
        },
        Option::None => match pm {
            Option::Some(p) => spec_after_marker(s, p, true),
            Option::None => Option::None,
        },
    }
}

/// The text after a two-character marker at position `i`.
pub open spec fn spec_after_marker(s: Seq<char>, i: int, pm: bool) -> Option<(bool, Seq<char>)> {
    if 0 <= i && i + 2 <= s.len() {
        Option::Some((pm, s.skip(i + 2)))
    } else {
        Option::None
    }
}

/// The one or two leading digits of the text, as minutes.
pub open spec fn spec_leading_minutes(s: Seq<char>) -> Option<int> {
    if s.len() >= 1 && crate::text::spec_is_digit(s[0]) {
        if s.len() >= 2 && crate::text::spec_is_digit(s[1]) {
            Option::Some(crate::text::spec_dec_val(s.take(2)))
        } else {
            Option::Some(crate::text::spec_dec_val(s.take(1)))
        }
    } else {
        Option::None
    }
}

/// A digit string of at most four digits is at most 9999.
pub proof fn lemma_dec_val_le4(d: Seq<char>)
    requires
        forall|j: int| 0 <= j < d.len() ==> crate::text::spec_is_digit(#[trigger] d[j]),
        d.len() <= 4,
    ensures
        crate::text::spec_dec_val(d) <= if d.len() == 0 {
            0int
        } else if d.len() == 1 {
            9int
        } else if d.len() == 2 {
            99int
        } else if d.len() == 3 {
            999int
        } else {
            9999int
        },
    decreases d.len(),
{
    if d.len() > 0 {
        assert forall|j: int| 0 <= j < d.drop_last().len() implies crate::text::spec_is_digit(
            #[trigger] d.drop_last()[j],
        ) by {
            assert(d.drop_last()[j] == d[j]);
        }
        lemma_dec_val_le4(d.drop_last());
        crate::text::lemma_dec_val_nonneg(d.drop_last());
    }
}

/// Parse a deadline text, per [`spec_deadline_parts`].
pub fn deadline_parts(s: &str) -> (r: Option<DeadlineParts>)
    ensures
        match spec_deadline_parts(s@) {
            Option::Some(p) => r matches Option::Some(d) && d.year == p.0 && d.month == p.1
                && d.day == p.2 && d.hour == p.3 && d.minute == p.4,
            Option::None => r is None,
        },
{
    let n = s.unicode_len();
    let iy = match find_char(s, '\u{5e74}') {
        Some(i) => i,
        None => {
            return None;
        },
    };
    proof {
        crate::text::lemma_find_char(s@, '\u{5e74}');
    }
    if iy < 4 {
        return None;
    }
    let ydigits = s.substring_char(iy - 4, iy);
    proof {
        assert(s@.subrange(iy - 4, iy as int) == ydigits@);
    }
    let year = match parse_u64(ydigits) {
        Some(v) => v,
        None => {
            proof {
                if crate::text::spec_all_digits(ydigits@) {
                    lemma_dec_val_le4(ydigits@);
                }
            }
            return None;
        },
    };
    let r1 = s.substring_char(iy + 1, n);
    proof {
        assert(r1@ =~= s@.skip(iy + 1));
    }
    let (month, r2) = match marked_number(r1, '\u{6708}') {
        Some(p) => p,
        None => {
            return None;
        },
    };
    let (day, r3) = match marked_number(r2.as_str(), '\u{65e5}') {
        Some(p) => p,
        None => {
            return None;
        },
    };
    let (pm, r4) = match meridiem(r3.as_str()) {
        Some(p) => p,
        None => {
            return None;
        },
    };
    let (hour, r5) = match marked_number(r4.as_str(), ':') {
        Some(p) => p,
        None => {
            return None;
        },
    };
    let minute = match leading_minutes(r5.as_str()) {
        Some(m) => m,
        None => {
            return None;
        },
    };
    let hour = if pm && hour < 12 {
        hour + 12
    } else {
        hour
    };
    Some(DeadlineParts { year, month, day, hour, minute })
}

/// One or two digits before `marker`, per [`spec_marked_number`].
fn marked_number(s: &str, marker: char) -> (r: Option<(u64, String)>)
    ensures
        match spec_marked_number(s@, marker) {
            Option::Some(p) => r matches Option::Some(q) && q.0 == p.0 && q.1@ == p.1,
            Option::None => r is None,
        },
{
    let n = s.unicode_len();
    let i = match find_char(s, marker) {
        Some(i) => i,
        None => {
            return None;
        },
    };
    proof {
        crate::text::lemma_find_char(s@, marker);
    }
    if i < 1 || i > 2 {
        return None;
    }
    let digits = s.substring_char(0, i);
    proof {
        assert(digits@ =~= s@.take(i as int));
    }
    let v = match parse_u64(digits) {
        Some(v) => v,
        None => {
            proof {
                if crate::text::spec_all_digits(digits@) {
                    lemma_dec_val_le4(digits@);
                }
            }
            return None;
        },
    };
    let rest = to_string(s.substring_char(i + 1, n));
    proof {
        assert(rest@ =~= s@.skip(i + 1));
    }
    Some((v, rest))
}

/// The first meridiem marker, per [`spec_meridiem`].
fn meridiem(s: &str) -> (r: Option<(bool, String)>)
    ensures
        match spec_meridiem(s@) {
            Option::Some(p) => r matches Option::Some(q) && q.0 == p.0 && q.1@ == p.1,
            Option::None => r is None,
        },
{
    let n = s.unicode_len();
    let am = find_str(s, "\u{4e0a}\u{5348}");
    let pm = find_str(s, "\u{4e0b}\u{5348}");
    proof {
        crate::text::lemma_find_str(s@, "\u{4e0a}\u{5348}"@);
        crate::text::lemma_find_str(s@, "\u{4e0b}\u{5348}"@);
        reveal_strlit("\u{4e0a}\u{5348}");
        reveal_strlit("\u{4e0b}\u{5348}");
    }
    let (pos, is_pm): (usize, bool) = match am {
        Some(a) => match pm {
            Some(p) => if p < a {
                (p, true)
            } else {
                (a, false)
            },
            None => (a, false),
        },
        None => match pm {
            Some(p) => (p, true),
            None => {
                return None;
            },
        },
    };
    let rest = to_string(s.substring_char(pos + 2, n));
    proof {
        assert(rest@ =~= s@.skip(pos + 2));
    }
    Some((is_pm, rest))
}

/// The one or two leading digits, per [`spec_leading_minutes`].
fn leading_minutes(s: &str) -> (r: Option<u64>)
    ensures
        match spec_leading_minutes(s@) {
            Option::Some(m) => r matches Option::Some(v) && v == m,
            Option::None => r is None,
        },
{
    let n = s.unicode_len();
    if n == 0 {
        return None;
    }
    let c0 = s.get_char(0);
    if !(c0 >= '0' && c0 <= '9') {
        return None;
    }
    let take2 = if n >= 2 {
        let c1 = s.get_char(1);
        c1 >= '0' && c1 <= '9'
    } else {
        false
    };
    let m = if take2 {
         2
    } else {
        1
    };
    let digits = s.substring_char(0, m);
    proof {
        assert(digits@ =~= s@.take(m as int));
    }
    match parse_u64(digits) {
        Some(v) => Some(v),
        None => {
            proof {
                assert(crate::text::spec_all_digits(digits@));
                lemma_dec_val_le4(digits@);
                assert(false);
            }
            None
        },
    }
}

/// A reference to one document.
#[derive(Debug, Clone)]
pub struct CourseDocumentHandle {
    pub course_id: String,
    pub content: CourseContentData,
}

impl CourseDocumentHandle {
    /// The record's depth in the content tree.
    pub fn depth(&self) -> (r: usize)
        ensures
            r == self.content.depth,
    {
        self.content.depth
    }

    /// The id of the record's recorded parent, if any.
    pub fn parent_id(&self) -> (r: Option<String>)
        ensures
            r == self.content.parent_id,
    {
        clone_opt_string(&self.content.parent_id)
    }

    /// The stable hash id of the document.
    pub fn id(&self) -> (r: String)
        ensures
            r@ == spec_hex_string(spec_legacy_hash(self.course_id@, self.content.id@) as int),
    {
        legacy_id(&self.course_id, &self.content.id)
    }

    /// The document title.
    pub fn title(&self) -> (r: &String)
        ensures
            r == self.content.title,
    {
        &self.content.title
    }
}

/// One document with its record.
#[derive(Debug, Clone)]
pub struct CourseDocument {
    pub course_id: String,
    pub content: CourseContentData,
}

impl CourseDocument {
    /// The id of the course the document belongs to.
    pub fn id(&self) -> (r: String)
        ensures
            r@ == self.course_id@,
    {
        self.course_id.clone()
    }

    /// The document title.
    pub fn title(&self) -> (r: &String)
        ensures
            r == self.content.title,
    {
        &self.content.title
    }

    /// The description paragraphs, in page order.
    pub fn descriptions(&self) -> (r: &Vec<String>)
        ensures
            r == self.content.descriptions,
    {
        &self.content.descriptions
    }

    /// The attachments, as `(name, URI)` pairs in page order.
    pub fn attachments(&self) -> (r: &Vec<(String, String)>)
        ensures
            r == self.content.attachments,
    {
        &self.content.attachments
    }
}

/// The announcement id within an announcement link: everything after the
/// first `annId=`, or the whole link when it carries none.
pub open spec fn spec_announcement_id(href: Seq<char>) -> Seq<char> {
    match spec_find_str(href, "annId="@) {
        Option::Some(i) => if 0 <= i && i + "annId="@.len() <= href.len() {
            href.skip(i + "annId="@.len())
        } else {
            href
        },
        Option::None => href,
    }
}

/// The announcement id within an announcement link, per
/// [`spec_announcement_id`].
pub fn announcement_id_from_href(href: &str) -> (r: String)
    ensures
        r@ == spec_announcement_id(href@),
{
    let n = href.unicode_len();
    let pat = "annId=";
    let plen = pat.unicode_len();
    match find_str(href, pat) {
        Some(i) => {
            proof {
                crate::text::lemma_find_str(href@, "annId="@);
                assert(href@.subrange(i + "annId="@.len(), n as int) =~= href@.skip(
                    i + "annId="@.len(),
                ));
            }
            to_string(href.substring_char(i + plen, n))
        },
        None => to_string(href),
    }
}

/// Metadata of one announcement: a stable id, its time label, its title
/// and the link to its body page.
#[derive(Debug, Clone)]
pub struct CourseAnnouncementMeta {
    pub id: String,
    pub time: String,
    pub title: String,
    pub href: String,
}

/// A reference to one announcement, before its body is fetched.
#[derive(Debug, Clone)]
pub struct CourseAnnouncementHandle {
    pub course_id: String,
    pub meta: CourseAnnouncementMeta,
}

impl CourseAnnouncementHandle {
    /// The announcement id.
    pub fn id(&self) -> (r: &String)
        ensures
            r == self.meta.id,
    {
        &self.meta.id
    }

    /// The announcement title.
    pub fn title(&self) -> (r: &String)
        ensures
            r == self.meta.title,
    {
        &self.meta.title
    }

    /// The announcement's time label.
    pub fn time(&self) -> (r: &String)
        ensures
            r == self.meta.time,
    {
        &self.meta.time
    }
}

/// One announcement with its fetched body page.
#[derive(Debug, Clone)]
pub struct CourseAnnouncement {
    pub course_id: String,
    pub meta: CourseAnnouncementMeta,
    pub html: String,
}

impl CourseAnnouncement {
    /// The raw body page.
    pub fn html_raw(&self) -> (r: &String)
        ensures
            r == self.html,
    {
        &self.html
    }

    /// The announcement title.
    pub fn title(&self) -> (r: &String)
        ensures
            r == self.meta.title,
    {
        &self.meta.title
    }
}

} // verus!
