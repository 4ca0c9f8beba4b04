//! Parsing of user input: the playlist reference, the sort kind and the
//! sort direction.
//!
//! A playlist reference is either a raw 22-character alphanumeric identifier
//! or a playlist URL; the engine keeps only the bare identifier, stripping
//! the URL prefix and any query suffix.

use vstd::prelude::*;
use vstd::string::StrSliceExecFns;

verus! {

/// Errors of parsing user input.
#[derive(Clone, Copy, Debug, PartialEq, Eq, Structural)]
pub enum ParseError {
    UnknownSortKind,
    UnknownDirection,
    InvalidPlaylistId,
}

/// The code point of `u`, with an ASCII capital letter lowered.
pub open spec fn lower_code(u: u32) -> u32 {
    if 65 <= u <= 90 {
        (u + 32) as u32
    } else {
        u
    }
}

/// `s` matches the keyword `kw` when both have the same length and each
/// character of `s`, with ASCII capitals lowered, is the character of `kw`.
pub open spec fn matches_keyword(s: Seq<char>, kw: Seq<char>) -> bool {
    s.len() == kw.len() && forall|i: int|
        0 <= i < s.len() ==> lower_code(s[i] as u32) == kw[i] as u32
}

fn eq_keyword(s: &str, kw: &str) -> (r: bool)
    ensures
        r == matches_keyword(s@, kw@),
{
    let n = s.unicode_len();
    if n != kw.unicode_len() {
        return false;
    }
    let mut i: usize = 0;
    while i < n
        invariant
            n == s@.len(),
            n == kw@.len(),
            i <= n,
            forall|j: int| 0 <= j < i ==> lower_code(s@[j] as u32) == kw@[j] as u32,
        decreases n - i,
    {
        let c = s.get_char(i) as u32;
        let k = kw.get_char(i) as u32;
        let lc = if 65 <= c && c <= 90 {
            c + 32
        } else {
            c
        };
        if lc != k {
            return false;
        }
        i = i + 1;
    }
    true
}

/// Which ordering strategy the user asked for.
#[derive(Clone, Copy, Debug, PartialEq, Eq, Structural)]
pub enum Sort {
    Random,
    Energy,
}

/// What `Sort::from_str` returns for a given input.
pub open spec fn spec_parse_sort(s: Seq<char>) -> Result<Sort, ParseError> {
    if matches_keyword(s, "random"@) {
        Ok(Sort::Random)
    } else if matches_keyword(s, "energy"@) {
        Ok(Sort::Energy)
    } else {
        Err(ParseError::UnknownSortKind)
    }
}

impl Sort {
    /// Parses the sort kind, matching `random` or `energy` without regard
    /// to ASCII case.
    pub fn from_str(s: &str) -> (r: Result<Sort, ParseError>)
        ensures
            r == spec_parse_sort(s@),
    {
        if eq_keyword(s, "random") {
            Ok(Sort::Random)
        } else if eq_keyword(s, "energy") {
            Ok(Sort::Energy)
        } else {
            Err(ParseError::UnknownSortKind)
        }
    }
}

/// The comparison direction of the feature sort.
#[derive(Clone, Copy, Debug, PartialEq, Eq, Structural)]
pub enum Direction {
    Ascending,
    Descending,
}

/// What `Direction::from_str` returns for a given input.
pub open spec fn spec_parse_direction(s: Seq<char>) -> Result<Direction, ParseError> {
    if matches_keyword(s, "ascending"@) {
        Ok(Direction::Ascending)
    } else if matches_keyword(s, "descending"@) {
        Ok(Direction::Descending)
    } else {
        Err(ParseError::UnknownDirection)
    }
}

impl Direction {
    /// Parses the sort direction, matching `ascending` or `descending`
    /// without regard to ASCII case.
    pub fn from_str(s: &str) -> (r: Result<Direction, ParseError>)
        ensures
            r == spec_parse_direction(s@),
    {
        if eq_keyword(s, "ascending") {
            Ok(Direction::Ascending)
        } else if eq_keyword(s, "descending") {
            Ok(Direction::Descending)
        } else {
            Err(ParseError::UnknownDirection)
        }
    }
}

/// The direction used when none is given.
impl Default for Direction {
    fn default() -> (r: Self)
        ensures
            r == Direction::Ascending,
    {
        Direction::Ascending
    }
}

/// A validated playlist identifier: 22 alphanumeric ASCII characters.
#[derive(Clone, Debug)]
pub struct ListId {
    pub id: String,
}

/// An ASCII digit or letter.
pub open spec fn is_id_char(c: char) -> bool {
    (48 <= c as u32 <= 57) || (65 <= c as u32 <= 90) || (97 <= c as u32 <= 122)
}

/// A bare playlist identifier: exactly 22 alphanumeric ASCII characters.
pub open spec fn valid_id(s: Seq<char>) -> bool {
    s.len() == 22 && forall|i: int| 0 <= i < s.len() ==> is_id_char(#[trigger] s[i])
}

/// The URL prefix under which the service publishes a playlist.
pub open spec fn url_prefix() -> Seq<char> {
    "https://open.spotify.com/playlist/"@
}

pub open spec fn has_url_prefix(s: Seq<char>) -> bool {
    s.len() >= url_prefix().len() && s.take(url_prefix().len() as int) == url_prefix()
}

/// The position of the first `?` at or after `from`, or the length of `s`
/// when there is none.
pub open spec fn first_question(s: Seq<char>, from: int) -> int
    decreases s.len() - from,
    when 0 <= from <= s.len()
{
    if from >= s.len() {
        s.len() as int
    } else if s[from] == '?' {
        from
    } else {
        first_question(s, from + 1)
    }
}

/// The part of the input that must be the bare identifier: with the URL
/// prefix present, what stands between the prefix and the first `?` of the
/// remainder; otherwise the whole input.
pub open spec fn stripped(s: Seq<char>) -> Seq<char> {
    if has_url_prefix(s) {
        s.subrange(url_prefix().len() as int, first_question(s, url_prefix().len() as int))
    } else {
        s
    }
}

fn str_has_prefix(s: &str, p: &str) -> (r: bool)
    ensures
        r == (s@.len() >= p@.len() && s@.take(p@.len() as int) == p@),
{
    let n = s.unicode_len();
    let plen = p.unicode_len();
    if n < plen {
        return false;
    }
    let mut i: usize = 0;
    while i < plen
        invariant
            plen == p@.len(),
            n == s@.len(),
            plen <= n,
            i <= plen,
            forall|j: int| 0 <= j < i ==> s@[j] == p@[j],
        decreases plen - i,
    {
        if s.get_char(i) != p.get_char(i) {
            proof {
                assert(s@.take(plen as int)[i as int] == s@[i as int]);
            }
            return false;
        }
        i = i + 1;
    }
    proof {
        assert(s@.take(plen as int) =~= p@);
    }
    true
}

fn find_question(s: &str, from: usize) -> (q: usize)
    requires
        from <= s@.len(),
    ensures
        from <= q <= s@.len(),
        q == first_question(s@, from as int),
{
    let n = s.unicode_len();
    let mut q = from;
    while q < n
        invariant
            n == s@.len(),
            from <= q <= n,
            first_question(s@, from as int) == first_question(s@, q as int),
        decreases n - q,
    {
        if s.get_char(q) == '?' {
            return q;
        }
        q = q + 1;
    }
    q
}

fn all_id_chars(s: &str) -> (r: bool)
    ensures
        r == forall|i: int| 0 <= i < s@.len() ==> is_id_char(#[trigger] s@[i]),
{
    let n = s.unicode_len();
    let mut i: usize = 0;
    while i < n
        invariant
            n == s@.len(),
            i <= n,
            forall|j: int| 0 <= j < i ==> is_id_char(#[trigger] s@[j]),
        decreases n - i,
    {
        let c = s.get_char(i) as u32;
        if !((48 <= c && c <= 57) || (65 <= c && c <= 90) || (97 <= c && c <= 122)) {
            return false;
        }
        i = i + 1;
    }
    true
}

impl ListId {
    /// Parses a playlist reference.  A playlist URL is reduced to the part
    /// between the prefix and any query suffix; the result must be exactly
    /// 22 alphanumeric ASCII characters, else the input is rejected.
    pub fn from_str(s: &str) -> (r: Result<ListId, ParseError>)
        ensures
            r matches Ok(lid) ==> valid_id(stripped(s@)) && lid.id@ == stripped(s@),
            r matches Err(e) ==> !valid_id(stripped(s@)) && e == ParseError::InvalidPlaylistId,
    {
        let prefix = "https://open.spotify.com/playlist/";
        let n = s.unicode_len();
        let mut start: usize = 0;
        let mut end = n;
        if str_has_prefix(s, prefix) {
            start = prefix.unicode_len();
            end = find_question(s, start);
        }
        assert(s@.subrange(start as int, end as int) == stripped(s@));
        let sub = s.substring_char(start, end);
        assert(sub@ == stripped(s@));
        if end - start == 22 && all_id_chars(sub) {
            Ok(ListId { id: sub.to_owned() })
        } else {
            Err(ParseError::InvalidPlaylistId)
        }
    }
}

} // verus!
