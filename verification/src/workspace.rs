//! Ranking workspace suggestions for the manual harness launcher.
//!
//! The launcher offers recent, configured and filesystem-derived directories
//! as the operator types. What reaches this module is already known to exist;
//! here they are scored against the query, ordered best first, de-duplicated
//! and capped.

use vstd::prelude::*;
use vstd::string::StringSliceAdditionalSpecFns;
use vstd::utf8::{encode_scalar, encode_utf8};

use crate::declarations::strs;
use crate::login::strip_trailing_slashes;
use crate::sort::{stable_sort, stably_sorted, Comparator};
use crate::text::{
    chars_lex_le, lemma_lex_total, lemma_lex_trans, lex_le,
    ascii_lower, bytes_at, char_utf8, chars_eq, chars_of, chars_starts_with, lemma_ascii_lower_bytes,
    string_from_chars, to_ascii_lowercase, trimmed, trimmed_chars, to_string, trimmed_is_empty,
};

verus! {

/// The first offset at or after `pos` where `needle` occurs in `hay`.
pub open spec fn find_from(hay: Seq<u8>, needle: Seq<u8>, pos: int) -> Option<int>
    decreases hay.len() + 1 - pos,
{
    if pos < 0 || pos + needle.len() > hay.len() {
        None
    } else if hay.subrange(pos, pos + needle.len()) == needle {
        Some(pos)
    } else {
        find_from(hay, needle, pos + 1)
    }
}

/// Walk the query's characters through `c` in order from byte `pos`, each one
/// found at the first place it occurs after the previous; every character
/// costs one plus the bytes skipped to reach it. `None` when one is missing.
pub open spec fn subsequence_walk(c: Seq<u8>, q: Seq<char>, pos: int, score: int) -> Option<int>
    decreases q.len(),
{
    if q.len() == 0 {
        Some(score)
    } else {
        let needle = encode_scalar(q[0] as u32);
        match find_from(c, needle, pos) {
            None => None,
            Some(at) => subsequence_walk(c, q.drop_first(), at + needle.len(), score + (at - pos) + 1),
        }
    }
}

/// The fuzzy score of `candidate` (UTF-8 bytes `c`) against a query with
/// characters `q` and UTF-8 bytes `qb`; lower is better.
///
/// An empty query scores 0. A prefix scores the number of bytes the candidate
/// has beyond it. Otherwise the query must appear as a subsequence: the walk's
/// cost plus those extra bytes.
pub open spec fn spec_fuzzy_score(c: Seq<u8>, qb: Seq<u8>, q: Seq<char>) -> Option<int> {
    let extra = if c.len() >= qb.len() {
        c.len() - qb.len()
    } else {
        0
    };
    if q.len() == 0 {
        Some(0)
    } else if qb.len() <= c.len() && c.take(qb.len() as int) == qb {
        Some(extra)
    } else {
        match subsequence_walk(c, q, 0, 0) {
            Some(s) => Some(s + extra),
            None => None,
        }
    }
}

/// A match starts no earlier than the search and fits in the haystack.
pub proof fn lemma_find_from_range(hay: Seq<u8>, needle: Seq<u8>, pos: int)
    ensures
        find_from(hay, needle, pos) matches Some(i) ==> pos <= i && i + needle.len() <= hay.len(),
    decreases hay.len() + 1 - pos,
{
    if pos < 0 || pos + needle.len() > hay.len() {
    } else if hay.subrange(pos, pos + needle.len()) == needle {
    } else {
        lemma_find_from_range(hay, needle, pos + 1);
    }
}

/// The query's characters occur in `c` in order from byte `pos`: each one's
/// UTF-8 bytes stand somewhere after the previous one's, without overlap.
pub open spec fn occurs_in_order(c: Seq<u8>, q: Seq<char>, pos: int) -> bool
    decreases q.len(),
{
    if q.len() == 0 {
        true
    } else {
        let needle = encode_scalar(q[0] as u32);
        exists|at: int|
            pos <= at && at + needle.len() <= c.len() && #[trigger] c.subrange(at, at + needle.len())
                == needle && occurs_in_order(c, q.drop_first(), at + needle.len())
    }
}

/// The first match found is a match, and no match comes before it.
proof fn lemma_find_from_first(hay: Seq<u8>, needle: Seq<u8>, pos: int, at: int)
    requires
        0 <= pos <= at,
        at + needle.len() <= hay.len(),
        hay.subrange(at, at + needle.len()) == needle,
    ensures
        find_from(hay, needle, pos) matches Some(i) && i <= at && hay.subrange(i, i + needle.len())
            == needle && i + needle.len() <= hay.len() && pos <= i,
    decreases at - pos,
{
    if hay.subrange(pos, pos + needle.len()) != needle {
        lemma_find_from_first(hay, needle, pos + 1, at);
    }
}

/// What the search finds is a match.
proof fn lemma_find_from_matches(hay: Seq<u8>, needle: Seq<u8>, pos: int)
    ensures
        find_from(hay, needle, pos) matches Some(i) ==> hay.subrange(i, i + needle.len()) == needle,
    decreases hay.len() + 1 - pos,
{
    if pos < 0 || pos + needle.len() > hay.len() {
    } else if hay.subrange(pos, pos + needle.len()) == needle {
    } else {
        lemma_find_from_matches(hay, needle, pos + 1);
    }
}

/// Starting earlier never loses a placement.
proof fn lemma_occurs_earlier(c: Seq<u8>, q: Seq<char>, p1: int, p2: int)
    requires
        p1 <= p2,
        occurs_in_order(c, q, p2),
    ensures
        occurs_in_order(c, q, p1),
{
    if q.len() > 0 {
        let needle = encode_scalar(q[0] as u32);
        let at = choose|at: int|
            p2 <= at && at + needle.len() <= c.len() && #[trigger] c.subrange(at, at + needle.len())
                == needle && occurs_in_order(c, q.drop_first(), at + needle.len());
        assert(c.subrange(at, at + needle.len()) == needle);
    }
}

/// The greedy walk succeeds exactly when the characters occur in order, and
/// never lowers the score it was given.
proof fn lemma_walk_finds_placements(c: Seq<u8>, q: Seq<char>, pos: int, score: int)
    requires
        0 <= pos,
    ensures
        subsequence_walk(c, q, pos, score) is Some <==> occurs_in_order(c, q, pos),
        subsequence_walk(c, q, pos, score) matches Some(s) ==> s >= score,
    decreases q.len(),
{
    if q.len() > 0 {
        let needle = encode_scalar(q[0] as u32);
        lemma_find_from_range(c, needle, pos);
        lemma_find_from_matches(c, needle, pos);
        match find_from(c, needle, pos) {
            Some(i) => {
                lemma_walk_finds_placements(c, q.drop_first(), i + needle.len(), score + (i - pos) + 1);
                if occurs_in_order(c, q, pos) {
                    let at = choose|at: int|
                        pos <= at && at + needle.len() <= c.len() && #[trigger] c.subrange(at, at + needle.len())
                            == needle && occurs_in_order(c, q.drop_first(), at + needle.len());
                    lemma_find_from_first(c, needle, pos, at);
                    lemma_occurs_earlier(c, q.drop_first(), i + needle.len(), at + needle.len());
                }
                if occurs_in_order(c, q.drop_first(), i + needle.len()) {
                    assert(c.subrange(i, i + needle.len()) == needle);
                }
            },
            None => {
                if occurs_in_order(c, q, pos) {
                    let at = choose|at: int|
                        pos <= at && at + needle.len() <= c.len() && #[trigger] c.subrange(at, at + needle.len())
                            == needle && occurs_in_order(c, q.drop_first(), at + needle.len());
                    lemma_find_from_first(c, needle, pos, at);
                }
            },
        }
    }
}

/// The bytes of `q`, standing whole in `c` at `p`, place every character.
proof fn lemma_whole_run_places(c: Seq<u8>, q: Seq<char>, p: int)
    requires
        0 <= p,
        p + encode_utf8(q).len() <= c.len(),
        c.subrange(p, p + encode_utf8(q).len()) == encode_utf8(q),
    ensures
        occurs_in_order(c, q, p),
    decreases q.len(),
{
    if q.len() > 0 {
        let needle = encode_scalar(q[0] as u32);
        let rest = encode_utf8(q.drop_first());
        assert(encode_utf8(q) == needle + rest);
        assert(c.subrange(p, p + needle.len()) =~= encode_utf8(q).subrange(0, needle.len() as int));
        assert(c.subrange(p + needle.len(), p + needle.len() + rest.len()) =~= encode_utf8(q).subrange(
            needle.len() as int,
            encode_utf8(q).len() as int,
        ));
        assert(encode_utf8(q).subrange(needle.len() as int, encode_utf8(q).len() as int) =~= rest);
        lemma_whole_run_places(c, q.drop_first(), p + needle.len());
        assert(c.subrange(p, p + needle.len()) == needle);
    }
}

/// Fuzzy matching accepts exactly the queries whose characters occur in the
/// candidate in order: a blank query scores 0, a prefix scores the bytes the
/// candidate has beyond it, and no match of a non-blank query scores below
/// that.
pub proof fn lemma_fuzzy_matches_subsequences(c: Seq<u8>, q: Seq<char>)
    ensures
        spec_fuzzy_score(c, encode_utf8(q), q) is Some <==> occurs_in_order(c, q, 0),
        q.len() == 0 ==> spec_fuzzy_score(c, encode_utf8(q), q) == Some(0int),
        q.len() > 0 && encode_utf8(q).len() <= c.len() && c.take(encode_utf8(q).len() as int)
            == encode_utf8(q) ==> spec_fuzzy_score(c, encode_utf8(q), q) == Some(
            c.len() - encode_utf8(q).len(),
        ),
        spec_fuzzy_score(c, encode_utf8(q), q) matches Some(s) ==> s >= 0 && (q.len() > 0 ==> s
            >= c.len() - encode_utf8(q).len()),
{
    let qb = encode_utf8(q);
    lemma_walk_finds_placements(c, q, 0, 0);
    if qb.len() <= c.len() && c.take(qb.len() as int) == qb {
        assert(c.subrange(0, qb.len() as int) =~= c.take(qb.len() as int));
        lemma_whole_run_places(c, q, 0);
    }
}

/// The first offset at or after `pos` where `needle` occurs in `hay`.
fn find_bytes(hay: &[u8], needle: &[u8], pos: usize) -> (r: Option<usize>)
    requires
        pos <= hay@.len(),
    ensures
        r is None <==> find_from(hay@, needle@, pos as int) is None,
        r is Some ==> find_from(hay@, needle@, pos as int) == Some(r->0 as int),
        r is Some ==> pos <= r->0 && r->0 + needle@.len() <= hay@.len(),
{
    if needle.len() > hay.len() {
        proof { lemma_find_from_range(hay@, needle@, pos as int); }
        return None;
    }
    let last = hay.len() - needle.len();
    let mut j = pos;
    while j <= last
        invariant
            pos <= j,
            last == hay@.len() - needle@.len(),
            find_from(hay@, needle@, pos as int) == find_from(hay@, needle@, j as int),
        decreases last + 1 - j,
    {
        if bytes_at(hay, j, needle) {
            return Some(j);
        }
        if j == last {
            assert(find_from(hay@, needle@, j + 1) == None::<int>);
            return None;
        }
        assert(find_from(hay@, needle@, j as int) == find_from(hay@, needle@, j + 1));
        j += 1;
    }
    None
}

/// Subsequence matcher that rewards prefixes and tightly grouped characters;
/// lower scores are better, `None` when a query character is missing.
pub fn fuzzy_subsequence_score(candidate: &str, query: &str) -> (r: Option<usize>)
    requires
        candidate.spec_bytes().len() <= isize::MAX,
    ensures
        r is None <==> spec_fuzzy_score(candidate.spec_bytes(), query.spec_bytes(), query@) is None,
        r is Some ==> spec_fuzzy_score(candidate.spec_bytes(), query.spec_bytes(), query@) == Some(
            r->0 as int,
        ),
        r is Some ==> r->0 <= 2 * candidate.spec_bytes().len(),
{
    let c = candidate.as_bytes();
    let qb = query.as_bytes();
    if query.is_empty() {
        return Some(0);
    }
    let extra = if c.len() >= qb.len() {
        c.len() - qb.len()
    } else {
        0
    };
    if qb.len() <= c.len() && bytes_at(c, 0, qb) {
        assert(c@.take(qb@.len() as int) =~= c@.subrange(0, qb@.len() as int));
        return Some(extra);
    }
    assert(qb@.len() <= c@.len() ==> c@.take(qb@.len() as int) =~= c@.subrange(0, qb@.len() as int));
    let q = chars_of(query);
    assert(q@.skip(0) =~= q@);
    let mut score: usize = 0;
    let mut position: usize = 0;
    let mut k: usize = 0;
    while k < q.len()
        invariant
            c@ == candidate.spec_bytes(),
            qb@ == query.spec_bytes(),
            q@ == query@,
            query@.len() > 0,
            !(qb@.len() <= c@.len() && c@.take(qb@.len() as int) == qb@),
            c@.len() <= isize::MAX,
            0 <= k <= q@.len(),
            position <= c@.len(),
            score <= position,
            subsequence_walk(c@, q@, 0, 0) == subsequence_walk(
                c@,
                q@.skip(k as int),
                position as int,
                score as int,
            ),
        decreases q@.len() - k,
    {
        let needle = char_utf8(q[k]);
        proof {
            let rest = q@.skip(k as int);
            assert(rest[0] == q@[k as int]);
            assert(rest.drop_first() =~= q@.skip(k + 1));
            assert(needle@.len() >= 1);
        }
        match find_bytes(c, needle.as_slice(), position) {
            None => {
                assert(subsequence_walk(c@, q@.skip(k as int), position as int, score as int) == None::<int>);
                return None;
            },
            Some(relative_at) => {
                assert(subsequence_walk(c@, q@.skip(k as int), position as int, score as int)
                    == subsequence_walk(c@, q@.skip(k + 1), relative_at + needle@.len(), score + (relative_at - position) + 1));
                score = score + (relative_at - position) + 1;
                position = relative_at + needle.len();
            },
        }
        k += 1;
    }
    assert(q@.skip(q@.len() as int) =~= Seq::<char>::empty());
    Some(score + extra)
}

} // verus!

verus! {

/// How a workspace path ranks against the query; lower is better, `None` when
/// the query does not match at all.
///
/// A blank query matches everything equally. An exact (case-insensitive) match
/// scores 0 and a prefix 1. Otherwise the query is fuzzy-matched against the
/// path's final component `name`, then against the whole path, and the score
/// is offset by 10 so that every fuzzy match ranks after every prefix.
pub open spec fn spec_match_score(path: Seq<char>, query: Seq<char>, name: Option<Seq<char>>) -> Option<int> {
    let q = trimmed(query);
    let pl = ascii_lower(path);
    let ql = ascii_lower(q);
    let nm = ascii_lower(
        match name {
            Some(n) => n,
            None => Seq::empty(),
        },
    );
    if q.len() == 0 {
        Some(0)
    } else if pl == ql {
        Some(0)
    } else if ql.len() <= pl.len() && pl.take(ql.len() as int) == ql {
        Some(1)
    } else {
        match spec_fuzzy_score(encode_utf8(nm), encode_utf8(ql), ql) {
            Some(s) => Some(s + 10),
            None => match spec_fuzzy_score(encode_utf8(pl), encode_utf8(ql), ql) {
                Some(s) => Some(s + 10),
                None => None,
            },
        }
    }
}

/// The view of an optional string slice.
pub open spec fn opt_view(s: Option<&str>) -> Option<Seq<char>> {
    match s {
        Some(s) => Some(s@),
        None => None,
    }
}

/// Rank an existing path against the query, given the path's final
/// component; lower scores are better.
pub fn match_score_with_name(path: &str, query: &str, name: Option<&str>) -> (r: Option<usize>)
    requires
        path.spec_bytes().len() <= isize::MAX - 5,
        name is Some ==> name->0.spec_bytes().len() <= isize::MAX - 5,
    ensures
        r is None <==> spec_match_score(path@, query@, opt_view(name)) is None,
        r is Some ==> spec_match_score(path@, query@, opt_view(name)) == Some(r->0 as int),
{
    let qv = trimmed_chars(query);
    if qv.len() == 0 {
        return Some(0);
    }
    let q = string_from_chars(qv.as_slice(), 0, qv.len());
    assert(q@ =~= trimmed(query@));
    let path_lower = to_ascii_lowercase(path);
    let query_lower = to_ascii_lowercase(q.as_str());
    let pv = chars_of(path_lower.as_str());
    let lv = chars_of(query_lower.as_str());
    if chars_eq(pv.as_slice(), lv.as_slice()) {
        return Some(0);
    }
    if chars_starts_with(pv.as_slice(), lv.as_slice()) {
        return Some(1);
    }
    let name_lower = match name {
        Some(n) => to_ascii_lowercase(n),
        None => String::new(),
    };
    proof {
        lemma_ascii_lower_bytes(path@);
        match name {
            Some(n) => lemma_ascii_lower_bytes(n@),
            None => {
                assert(ascii_lower(Seq::<char>::empty()) =~= Seq::<char>::empty());
            },
        }
    }
    match fuzzy_subsequence_score(name_lower.as_str(), query_lower.as_str()) {
        Some(score) => Some(score + 10),
        None => match fuzzy_subsequence_score(path_lower.as_str(), query_lower.as_str()) {
            Some(score) => Some(score + 10),
            None => None,
        },
    }
}

} // verus!

verus! {

/// The score of a child directory named `name` against the typed `needle`,
/// both compared lower-cased.
pub open spec fn folder_score(name: Seq<char>, needle: Seq<char>) -> Option<int> {
    let nl = ascii_lower(needle);
    spec_fuzzy_score(encode_utf8(ascii_lower(name)), encode_utf8(nl), nl)
}

/// The child directories `dirs` (name and path) that match `needle`, with
/// their scores, in listing order.
pub open spec fn spec_folder_matches(needle: Seq<char>, dirs: Seq<(String, String)>) -> Seq<(int, Seq<char>)>
    decreases dirs.len(),
{
    if dirs.len() == 0 {
        Seq::empty()
    } else {
        let rest = spec_folder_matches(needle, dirs.drop_last());
        match folder_score(dirs.last().0@, needle) {
            Some(s) => rest.push((s, dirs.last().1@)),
            None => rest,
        }
    }
}

/// The views of scored paths.
pub open spec fn scored_views(v: Seq<(usize, String)>) -> Seq<(int, Seq<char>)> {
    v.map_values(|p: (usize, String)| (p.0 as int, p.1@))
}

/// Score the immediate child directories of the folder being completed: each
/// directory whose name fuzzily matches what was typed after the last
/// separator, with its score.
pub fn folder_matches(needle: &str, dirs: &[(String, String)]) -> (r: Vec<(usize, String)>)
    requires
        forall|i: int| 0 <= i < dirs@.len() ==> encode_utf8((#[trigger] dirs@[i]).0@).len() <= isize::MAX,
    ensures
        scored_views(r@) == spec_folder_matches(needle@, dirs@),
{
    let needle_lower = to_ascii_lowercase(needle);
    let mut out: Vec<(usize, String)> = Vec::new();
    let mut i: usize = 0;
    while i < dirs.len()
        invariant
            i <= dirs@.len(),
            needle_lower@ == ascii_lower(needle@),
            forall|j: int| 0 <= j < dirs@.len() ==> encode_utf8((#[trigger] dirs@[j]).0@).len() <= isize::MAX,
            scored_views(out@) == spec_folder_matches(needle@, dirs@.take(i as int)),
        decreases dirs@.len() - i,
    {
        proof {
            assert(dirs@.take(i + 1).drop_last() =~= dirs@.take(i as int));
            assert(dirs@.take(i + 1).last() == dirs@[i as int]);
        }
        let name_lower = to_ascii_lowercase(dirs[i].0.as_str());
        proof {
            lemma_ascii_lower_bytes(dirs@[i as int].0@);
        }
        match fuzzy_subsequence_score(name_lower.as_str(), needle_lower.as_str()) {
            Some(score) => {
                out.push((score, dirs[i].1.clone()));
                assert(scored_views(out@) =~= spec_folder_matches(needle@, dirs@.take(i + 1)));
            },
            None => {},
        }
        i += 1;
    }
    assert(dirs@.take(dirs@.len() as int) =~= dirs@);
    out
}

} // verus!

verus! {

/// What follows the last `/` of `p` (all of `p` when it has none).
pub open spec fn after_last_slash(p: Seq<char>) -> Seq<char>
    decreases p.len(),
{
    if p.len() == 0 {
        p
    } else if p.last() == '/' {
        Seq::empty()
    } else {
        after_last_slash(p.drop_last()).push(p.last())
    }
}

/// The last `/`-separated piece of `p`, trailing separators aside.
pub open spec fn final_piece(p: Seq<char>) -> Seq<char> {
    after_last_slash(without_current_dirs(p))
}

/// Stripping separators never lengthens a path.
pub proof fn lemma_strip_shortens(p: Seq<char>)
    ensures
        strip_trailing_slashes(p).len() <= p.len(),
    decreases p.len(),
{
    if p.len() > 0 && p.last() == '/' {
        lemma_strip_shortens(p.drop_last());
    }
}

/// `p` without trailing separators and without trailing `.` pieces after the
/// first, which name the directory before them.
pub open spec fn without_current_dirs(p: Seq<char>) -> Seq<char>
    decreases p.len(),
{
    let q = strip_trailing_slashes(p);
    if q.len() > 1 && after_last_slash(q) == "."@ {
        proof {
            lemma_strip_shortens(p);
        }
        without_current_dirs(q.take(q.len() - 1))
    } else {
        q
    }
}

/// A path that every platform splits at `/` alone: no backslash, no drive or
/// prefix colon, and no leading `//` of a network share.
pub open spec fn plain_path(p: Seq<char>) -> bool {
    &&& !p.contains('\\')
    &&& !p.contains(':')
    &&& !(p.len() >= 2 && p[0] == '/' && p[1] == '/')
}

/// `n` stands in `p` as one contiguous run.
pub open spec fn is_piece_of(n: Seq<char>, p: Seq<char>) -> bool {
    exists|i: int| 0 <= i && i + n.len() <= p.len() && #[trigger] p.subrange(i, i + n.len()) == n
}

/// What is known of the final component of `path` on every platform: it is a
/// non-empty run of the path; on a plain path whose last piece is a name it
/// is that piece; a plain path ending in `..`, or made of separators alone,
/// has none.
pub open spec fn known_file_name(path: Seq<char>, name: Option<Seq<char>>) -> bool {
    &&& name is Some ==> name->0.len() > 0 && is_piece_of(name->0, path)
    &&& plain_path(path) ==> {
        let last = final_piece(path);
        &&& (last.len() > 0 && last != "."@ && last != ".."@) ==> name == Some(last)
        &&& (last == ".."@ || last.len() == 0) ==> name is None
    }
}

/// The final component the platform's path rules find in `path`, if any.
pub uninterp spec fn platform_file_name(path: Seq<char>) -> Option<Seq<char>>;

/// The view of an optional owned string.
pub open spec fn opt_owned_view(s: Option<String>) -> Option<Seq<char>> {
    match s {
        Some(n) => Some(n@),
        None => None,
    }
}

/// The final component of `path`, if it has one.
///
/// Wraps `Path::file_name` (with `to_string_lossy`, lossless on a path made
/// from a `str`), which gives the last component when it is a name and none
/// when the path ends in `..` or has no name in it. Which characters besides
/// `/` separate components is the platform's choice, so on a path that is not
/// plain only the first clause of [`known_file_name`] is claimed.
#[verifier::external_body]
fn path_file_name(path: &str) -> (r: Option<String>)
    ensures
        r is Some ==> encode_utf8(r->0@).len() <= path.spec_bytes().len(),
        opt_owned_view(r) == platform_file_name(path@),
        known_file_name(path@, opt_owned_view(r)),
{
    std::path::Path::new(path).file_name().map(|name| name.to_string_lossy().into_owned())
}

/// Rank an existing path against the query; lower scores are better.
///
/// The score is [`spec_match_score`] for the path's final component as the
/// platform finds it, of which [`known_file_name`] says what holds everywhere.
pub fn match_score(path: &str, query: &str) -> (r: Option<usize>)
    requires
        path.spec_bytes().len() <= isize::MAX - 5,
    ensures
        known_file_name(path@, platform_file_name(path@)),
        r is None <==> spec_match_score(path@, query@, platform_file_name(path@)) is None,
        r is Some ==> spec_match_score(path@, query@, platform_file_name(path@)) == Some(
            r->0 as int,
        ),
{
    let name = path_file_name(path);
    match &name {
        Some(n) => {
            let s = n.as_str();
            let r = match_score_with_name(path, query, Some(s));
            assert(opt_view(Some(s)) == Some(n@));
            r
        },
        None => match_score_with_name(path, query, None),
    }
}

} // verus!

verus! {

/// How many suggestions the launcher lists.
pub const MAX_WORKSPACE_CHOICES: usize = 10;

/// One workspace suggestion and where it came from.
#[derive(Debug, Clone, PartialEq, Eq)]
pub struct WorkspaceChoice {
    /// The directory.
    pub path: String,
    /// Why it is offered: `recent`, `default`, `registered` or `folder`.
    pub source: &'static str,
}

impl WorkspaceChoice {
    /// A copy of this choice.
    pub fn cloned(&self) -> (r: Self)
        ensures
            r == *self,
    {
        WorkspaceChoice { path: self.path.clone(), source: self.source }
    }
}

/// Scored suggestions ordered best score first, then by path.
pub struct ByScoreThenPath;

/// `a` ranks no later than `b`.
pub open spec fn score_path_le(a: (usize, WorkspaceChoice), b: (usize, WorkspaceChoice)) -> bool {
    a.0 < b.0 || (a.0 == b.0 && lex_le(a.1.path@, b.1.path@))
}

impl Comparator<(usize, WorkspaceChoice)> for ByScoreThenPath {
    open spec fn spec_le(&self, a: &(usize, WorkspaceChoice), b: &(usize, WorkspaceChoice)) -> bool {
        score_path_le(*a, *b)
    }

    proof fn lemma_total(&self, a: &(usize, WorkspaceChoice), b: &(usize, WorkspaceChoice)) {
        lemma_lex_total(a.1.path@, b.1.path@);
    }

    proof fn lemma_trans(
        &self,
        a: &(usize, WorkspaceChoice),
        b: &(usize, WorkspaceChoice),
        c: &(usize, WorkspaceChoice),
    ) {
        if a.0 == b.0 && b.0 == c.0 {
            lemma_lex_trans(a.1.path@, b.1.path@, c.1.path@);
        }
    }

    fn le(&self, a: &(usize, WorkspaceChoice), b: &(usize, WorkspaceChoice)) -> (r: bool) {
        if a.0 != b.0 {
            return a.0 < b.0;
        }
        let pa = chars_of(a.1.path.as_str());
        let pb = chars_of(b.1.path.as_str());
        chars_lex_le(pa.as_slice(), pb.as_slice())
    }
}

/// The choices of `s`, keeping only the first of each path.
pub open spec fn first_of_each_path(s: Seq<(usize, WorkspaceChoice)>) -> Seq<WorkspaceChoice>
    decreases s.len(),
{
    if s.len() == 0 {
        Seq::empty()
    } else {
        let d = first_of_each_path(s.drop_last());
        if exists|j: int| 0 <= j < s.len() - 1 && #[trigger] s[j].1.path@ == s.last().1.path@ {
            d
        } else {
            d.push(s.last().1)
        }
    }
}

/// At most the first `n` elements of `s`.
pub open spec fn capped<A>(s: Seq<A>, n: int) -> Seq<A> {
    if s.len() <= n {
        s
    } else {
        s.take(n)
    }
}

/// Some choice in `out` has path `p`.
pub open spec fn has_path(out: Seq<WorkspaceChoice>, p: Seq<char>) -> bool {
    exists|k: int| 0 <= k < out.len() && #[trigger] out[k].path@ == p
}

/// One of the first `i` scored choices of `s` has path `p`.
pub open spec fn seen_path(s: Seq<(usize, WorkspaceChoice)>, i: int, p: Seq<char>) -> bool {
    exists|j: int| 0 <= j < i && #[trigger] s[j].1.path@ == p
}

/// Order scored suggestions best first (ties by path), keep the first of each
/// path, and list at most [`MAX_WORKSPACE_CHOICES`].
pub fn rank_workspace_choices(ranked: Vec<(usize, WorkspaceChoice)>) -> (r: Vec<WorkspaceChoice>)
    ensures
        exists|sorted: Seq<(usize, WorkspaceChoice)>|
            stably_sorted(ByScoreThenPath, ranked@, sorted) && r@ == capped(
                first_of_each_path(sorted),
                MAX_WORKSPACE_CHOICES as int,
            ),
{
    let sorted = stable_sort(ranked, &ByScoreThenPath);
    let mut out: Vec<WorkspaceChoice> = Vec::new();
    let mut i: usize = 0;
    while i < sorted.len()
        invariant
            0 <= i <= sorted@.len(),
            out@ == first_of_each_path(sorted@.take(i as int)),
            forall|j: int| 0 <= j < i ==> has_path(out@, (#[trigger] sorted@[j]).1.path@),
            forall|k: int| 0 <= k < out@.len() ==> seen_path(sorted@, i as int, (#[trigger] out@[k]).path@),
        decreases sorted@.len() - i,
    {
        let ghost s = sorted@.take(i + 1);
        proof {
            assert(s.drop_last() =~= sorted@.take(i as int));
            assert(s.last() == sorted@[i as int]);
        }
        let candidate = &sorted[i].1;
        let mut seen = false;
        let mut k: usize = 0;
        while k < out.len()
            invariant
                0 <= k <= out@.len(),
                seen == has_path(out@.take(k as int), candidate.path@),
            decreases out@.len() - k,
        {
            proof {
                assert(out@.take(k + 1).drop_last() =~= out@.take(k as int));
                if has_path(out@.take(k as int), candidate.path@) {
                    let m = choose|m: int| 0 <= m < k && #[trigger] out@.take(k as int)[m].path@ == candidate.path@;
                    assert(out@.take(k + 1)[m].path@ == candidate.path@);
                }
                if has_path(out@.take(k + 1), candidate.path@) && !has_path(out@.take(k as int), candidate.path@) {
                    let m = choose|m: int| 0 <= m < k + 1 && #[trigger] out@.take(k + 1)[m].path@ == candidate.path@;
                    if m < k {
                        assert(out@.take(k as int)[m].path@ == candidate.path@);
                    }
                }
            }
            if crate::text::str_eq(out[k].path.as_str(), candidate.path.as_str()) {
                seen = true;
                assert(out@.take(k + 1)[k as int].path@ == candidate.path@);
            }
            k += 1;
        }
        assert(out@.take(out@.len() as int) =~= out@);
        proof {
            if seen {
                let m = choose|m: int| 0 <= m < out@.len() && #[trigger] out@[m].path@ == candidate.path@;
                assert(seen_path(sorted@, i as int, out@[m].path@));
                let j = choose|j: int| 0 <= j < i && #[trigger] sorted@[j].1.path@ == out@[m].path@;
                assert(s[j].1.path@ == s.last().1.path@);
            } else {
                assert forall|j: int| 0 <= j < s.len() - 1 implies #[trigger] s[j].1.path@ != s.last().1.path@ by {
                    assert(has_path(out@, sorted@[j].1.path@));
                }
            }
        }
        if !seen {
            let ghost before = out@;
            out.push(candidate.cloned());
            proof {
                assert(out@.drop_last() =~= before);
                assert forall|k: int| 0 <= k < out@.len() implies seen_path(sorted@, i + 1, (#[trigger] out@[k]).path@) by {
                    if k == out@.len() - 1 {
                        assert(sorted@[i as int].1.path@ == out@[k].path@);
                    } else {
                        assert(out@[k] == out@.drop_last()[k]);
                        assert(seen_path(sorted@, i as int, out@.drop_last()[k].path@));
                    }
                }
                assert forall|j: int| 0 <= j < i + 1 implies has_path(out@, (#[trigger] sorted@[j]).1.path@) by {
                    if j == i {
                        assert(out@[out@.len() - 1].path@ == sorted@[j].1.path@);
                    } else {
                        assert(has_path(out@.drop_last(), sorted@[j].1.path@));
                        let k = choose|k: int| 0 <= k < out@.len() - 1 && #[trigger] out@.drop_last()[k].path@ == sorted@[j].1.path@;
                        assert(out@[k] == out@.drop_last()[k]);
                    }
                }
            }
        } else {
            proof {
                assert forall|k: int| 0 <= k < out@.len() implies seen_path(sorted@, i + 1, (#[trigger] out@[k]).path@) by {
                    assert(seen_path(sorted@, i as int, out@[k].path@));
                }
            }
        }
        i += 1;
    }
    assert(sorted@.take(sorted@.len() as int) =~= sorted@);
    let ghost deduped = out@;
    out.truncate(MAX_WORKSPACE_CHOICES);
    assert(out@ =~= capped(deduped, MAX_WORKSPACE_CHOICES as int));
    out
}

} // verus!

verus! {

/// How many recent workspaces are remembered.
pub const MAX_RECENT_WORKSPACES: usize = 12;

/// The recent list after a launch in `workspace`: it moves to the front, any
/// earlier mention of it is dropped, and the list keeps at most
/// [`MAX_RECENT_WORKSPACES`] entries.
pub open spec fn spec_remember(recent: Seq<String>, workspace: Seq<char>) -> Seq<Seq<char>> {
    capped(seq![workspace] + recent_others(recent, workspace), MAX_RECENT_WORKSPACES as int)
}

/// The remembered workspaces other than `workspace`, in their order.
pub open spec fn recent_others(recent: Seq<String>, workspace: Seq<char>) -> Seq<Seq<char>> {
    strs(recent).filter(other_than(workspace))
}

/// Holds of every text but `w`.
pub open spec fn other_than(w: Seq<char>) -> spec_fn(Seq<char>) -> bool {
    |s: Seq<char>| s != w
}

/// Remember a successful launch newest-first.
pub fn remember_recent(recent: &mut Vec<String>, workspace: &str)
    ensures
        strs(final(recent)@) == spec_remember(old(recent)@, workspace@),
{
    let ghost views = strs(old(recent)@);
    let ghost pred = other_than(workspace@);
    let mut kept: Vec<String> = Vec::new();
    kept.push(crate::text::to_string(workspace));
    let mut i: usize = 0;
    while i < recent.len()
        invariant
            0 <= i <= recent@.len(),
            recent@ == old(recent)@,
            views == strs(old(recent)@),
            pred == other_than(workspace@),
            strs(kept@) == seq![workspace@] + views.take(i as int).filter(pred),
        decreases recent@.len() - i,
    {
        proof {
            reveal(Seq::filter);
            assert(views.take(i + 1).drop_last() =~= views.take(i as int));
            assert(views.take(i + 1).last() == recent@[i as int]@);
        }
        let ghost before = kept@;
        if !crate::text::str_eq(recent[i].as_str(), workspace) {
            kept.push(recent[i].clone());
            assert(strs(kept@) =~= strs(before).push(recent@[i as int]@));
        }
        i += 1;
    }
    assert(views.take(views.len() as int) =~= views);
    let ghost full = kept@;
    kept.truncate(MAX_RECENT_WORKSPACES);
    assert(strs(kept@) =~= capped(strs(full), MAX_RECENT_WORKSPACES as int));
    *recent = kept;
}

/// Which step the harness launcher is on.
#[derive(Debug, Clone, Copy, PartialEq, Eq, Structural)]
pub enum HarnessPickerStep {
    /// Choosing which harness CLI to start.
    Harness,
    /// Choosing the directory to start it in.
    Workspace,
}

/// The manual harness launcher.
#[derive(Debug)]
pub struct HarnessPicker {
    /// The default directory.
    pub cwd: String,
    /// Which step it is on.
    pub step: HarnessPickerStep,
    /// What the operator has typed on the workspace step.
    pub workspace_query: String,
    /// The suggestions for that query.
    pub workspace_choices: Vec<WorkspaceChoice>,
    /// The highlighted suggestion.
    pub workspace_index: usize,
}

impl HarnessPicker {
    /// Advance to the workspace step, starting the query from the default
    /// directory when it is to be edited and empty otherwise. The caller then
    /// recomputes the suggestions for the query.
    pub fn open_workspace_step(&mut self, edit_default: bool)
        ensures
            final(self).step == HarnessPickerStep::Workspace,
            final(self).workspace_query@ == if edit_default {
                old(self).cwd@
            } else {
                Seq::<char>::empty()
            },
            final(self).workspace_index == 0,
            final(self).cwd == old(self).cwd,
            final(self).workspace_choices@ == old(self).workspace_choices@,
    {
        self.step = HarnessPickerStep::Workspace;
        self.workspace_query = if edit_default {
            self.cwd.clone()
        } else {
            String::new()
        };
        self.workspace_index = 0;
    }

    /// Install freshly computed suggestions, keeping the highlight in range.
    pub fn set_workspace_choices(&mut self, choices: Vec<WorkspaceChoice>)
        ensures
            final(self).workspace_choices@ == choices@,
            final(self).workspace_index == if choices@.len() == 0 {
                0
            } else if old(self).workspace_index < choices@.len() - 1 {
                old(self).workspace_index as int
            } else {
                choices@.len() - 1
            },
            final(self).workspace_query == old(self).workspace_query,
            final(self).step == old(self).step,
            final(self).cwd == old(self).cwd,
    {
        let len = choices.len();
        self.workspace_choices = choices;
        self.workspace_index = if len == 0 {
            0
        } else if self.workspace_index < len - 1 {
            self.workspace_index
        } else {
            len - 1
        };
    }

    /// The highlighted suggestion's path, if the highlight is on one.
    pub fn selected_choice(&self) -> (r: Option<String>)
        ensures
            self.workspace_index < self.workspace_choices@.len() ==> r is Some && r->0@
                == self.workspace_choices@[self.workspace_index as int].path@,
            self.workspace_index >= self.workspace_choices@.len() ==> r is None,
    {
        if self.workspace_index < self.workspace_choices.len() {
            Some(self.workspace_choices[self.workspace_index].path.clone())
        } else {
            None
        }
    }

    /// Make the highlighted suggestion the editable query; answers whether it
    /// did, so the caller can recompute the suggestions.
    pub fn complete_workspace(&mut self) -> (changed: bool)
        ensures
            changed == (old(self).workspace_index < old(self).workspace_choices@.len()),
            changed ==> final(self).workspace_query@ == old(self).workspace_choices@[old(
                self,
            ).workspace_index as int].path@ && final(self).workspace_index == 0,
            !changed ==> final(self).workspace_query == old(self).workspace_query
                && final(self).workspace_index == old(self).workspace_index,
            final(self).workspace_choices@ == old(self).workspace_choices@,
            final(self).step == old(self).step,
            final(self).cwd == old(self).cwd,
    {
        match self.selected_choice() {
            Some(path) => {
                self.workspace_query = path;
                self.workspace_index = 0;
                true
            },
            None => false,
        }
    }
}


/// Remembering a workspace puts it first, lists it once, keeps at most
/// [`MAX_RECENT_WORKSPACES`] entries, and never lists a workspace twice when
/// the history did not.
pub proof fn lemma_remembered_first_and_once(recent: Seq<String>, workspace: Seq<char>)
    ensures
        ({
            let r = spec_remember(recent, workspace);
            &&& r.len() >= 1 && r[0] == workspace
            &&& r.len() <= MAX_RECENT_WORKSPACES
            &&& forall|i: int| 1 <= i < r.len() ==> r[i] != workspace
            &&& strs(recent).no_duplicates() ==> r.no_duplicates()
        }),
{
    let views = strs(recent);
    let pred = other_than(workspace);
    let kept = views.filter(pred);
    let all = seq![workspace] + kept;
    let r = spec_remember(recent, workspace);
    if all.len() > MAX_RECENT_WORKSPACES {
        assert(r =~= all.take(MAX_RECENT_WORKSPACES as int));
    }
    assert(r.len() <= all.len());
    assert forall|i: int| 0 <= i < r.len() implies r[i] == all[i] by {
        if all.len() > MAX_RECENT_WORKSPACES {
            assert(r[i] == all.take(MAX_RECENT_WORKSPACES as int)[i]);
        }
    }
    assert forall|i: int| 0 <= i < kept.len() implies kept[i] != workspace by {
        views.lemma_filter_pred(pred, i);
    }
    assert forall|i: int| 1 <= i < r.len() implies r[i] != workspace by {
        assert(r[i] == all[i]);
        assert(all[i] == kept[i - 1]);
    }
    if views.no_duplicates() {
        lemma_filter_keeps_distinct(views, pred);
        assert forall|i: int, j: int| 0 <= i < r.len() && 0 <= j < r.len() && i != j implies r[i]
            != r[j] by {
            assert(r[i] == all[i] && r[j] == all[j]);
            if i > 0 && j > 0 {
                assert(all[i] == kept[i - 1] && all[j] == kept[j - 1]);
            }
        }
    }
}

/// Filtering a list with no duplicates leaves none.
proof fn lemma_filter_keeps_distinct(s: Seq<Seq<char>>, pred: spec_fn(Seq<char>) -> bool)
    requires
        s.no_duplicates(),
    ensures
        s.filter(pred).no_duplicates(),
    decreases s.len(),
{
    reveal(Seq::filter);
    if s.len() > 0 {
        let init = s.drop_last();
        assert(init.no_duplicates()) by {
            assert forall|i: int, j: int| 0 <= i < init.len() && 0 <= j < init.len() && i != j implies init[i]
                != init[j] by {
                assert(init[i] == s[i] && init[j] == s[j]);
            }
        }
        lemma_filter_keeps_distinct(init, pred);
        let f = init.filter(pred);
        if pred(s.last()) {
            assert forall|i: int| 0 <= i < f.len() implies f[i] != s.last() by {
                assert(f.contains(f[i]));
                init.lemma_filter_contains_rev(pred, f[i]);
                let k = choose|k: int| 0 <= k < init.len() && init[k] == f[i];
                assert(s[k] == init[k]);
                assert(s[s.len() - 1] == s.last());
            }
        }
    }
}

} // verus!

verus! {

/// Whether the target platform's path rules count `path` as absolute.
pub uninterp spec fn platform_is_absolute(path: Seq<char>) -> bool;

/// `path` joined onto `base` by the target platform's path rules.
pub uninterp spec fn platform_join(base: Seq<char>, path: Seq<char>) -> Seq<char>;

/// Whether the platform counts `path` as absolute.
///
/// Wraps `Path::is_absolute`. Which paths are absolute is the platform's
/// rule (a drive is needed on some); what holds everywhere is that a plain
/// path that does not start at `/` is relative.
#[verifier::external_body]
fn path_is_absolute(path: &str) -> (r: bool)
    ensures
        r == platform_is_absolute(path@),
        plain_relative(path@) ==> !r,
{
    std::path::Path::new(path).is_absolute()
}

/// `path` joined onto `base` the way every platform joins two plain paths:
/// as they are when `base` is empty or ends in `/`, else with one separator
/// between them, `/` or the platform's own `\\`.
pub open spec fn plain_join(base: Seq<char>, path: Seq<char>, r: Seq<char>) -> bool {
    if base.len() == 0 || base.last() == '/' {
        r == base + path
    } else {
        r == base.push('/') + path || r == base.push('\\') + path
    }
}

/// `path` names a place relative to wherever it is joined: plain, and not
/// starting at `/`.
pub open spec fn plain_relative(path: Seq<char>) -> bool {
    plain_path(path) && (path.len() == 0 || path[0] != '/')
}

/// `path` joined onto `base`.
///
/// Wraps `Path::join` (with `to_string_lossy`, lossless on paths made from
/// `str`). On a plain `base` (no drive, verbatim or network prefix) and a
/// plain relative `path`, `PathBuf::push` appends `path` after one
/// separator, added only when `base` is non-empty and does not end in one;
/// which separator it adds is the platform's. Nothing is claimed of other
/// paths, which some platforms normalise.
#[verifier::external_body]
fn path_join(base: &str, path: &str) -> (r: String)
    ensures
        r@ == platform_join(base@, path@),
        plain_path(base@) && plain_relative(path@) ==> plain_join(base@, path@, r@),
{
    std::path::Path::new(base).join(path).to_string_lossy().into_owned()
}

/// `r` is `path` made absolute against `base`: `path` itself when the
/// platform counts it absolute, else the platform's join of the two. A plain
/// relative path is always joined, and onto a plain `base` the join is the
/// one every platform makes (see [`plain_join`]).
pub open spec fn made_absolute(path: Seq<char>, base: Seq<char>, r: Seq<char>) -> bool {
    &&& platform_is_absolute(path) ==> r == path
    &&& !platform_is_absolute(path) ==> r == platform_join(base, path)
    &&& plain_relative(path) ==> !platform_is_absolute(path)
    &&& plain_path(base) && plain_relative(path) ==> plain_join(base, path, r)
}

/// Make a configured path absolute against the local host workspace.
pub fn absolute(path: &str, base: &str) -> (r: String)
    ensures
        made_absolute(path@, base@, r@),
{
    if path_is_absolute(path) {
        to_string(path)
    } else {
        path_join(base, path)
    }
}

} // verus!

verus! {

/// Another host's workspaces, as the configuration lists them.
pub struct HostWorkspaces {
    /// Its main workspace; blank when it has none.
    pub workspace: String,
    /// Its other workspaces.
    pub workspaces: Vec<String>,
}

/// A configured path, where it came from, and whether it is made absolute
/// against the host workspace before use.
pub type KnownEntry = (Seq<char>, Seq<char>, bool);

/// Each of `paths` as an entry from `source`, made absolute.
pub open spec fn resolved_entries(paths: Seq<String>, source: Seq<char>) -> Seq<KnownEntry> {
    strs(paths).map_values(|p: Seq<char>| (p, source, true))
}

/// A workspace when it is not blank, as an entry from `source`.
pub open spec fn unless_blank(path: Seq<char>, source: Seq<char>) -> Seq<KnownEntry> {
    if trimmed(path).len() > 0 {
        seq![(path, source, true)]
    } else {
        Seq::empty()
    }
}

/// The entries other hosts register: each one's main workspace unless it is
/// blank, then its others, host by host.
pub open spec fn host_entries(hosts: Seq<HostWorkspaces>) -> Seq<KnownEntry>
    decreases hosts.len(),
{
    if hosts.len() == 0 {
        Seq::empty()
    } else {
        host_entries(hosts.drop_last()) + unless_blank(hosts.last().workspace@, "registered"@)
            + resolved_entries(hosts.last().workspaces@, "registered"@)
    }
}

/// The workspaces the launcher knows of, in order: the recent ones, the
/// default (used as it is), this host's main workspace unless it is blank,
/// this host's others, then every other host's.
pub open spec fn known_entries(
    recent: Seq<String>,
    default: Seq<char>,
    host_workspace: Seq<char>,
    host_workspaces: Seq<String>,
    hosts: Seq<HostWorkspaces>,
) -> Seq<KnownEntry> {
    resolved_entries(recent, "recent"@) + seq![(default, "default"@, false)] + unless_blank(
        host_workspace,
        "registered"@,
    ) + resolved_entries(host_workspaces, "registered"@) + host_entries(hosts)
}

/// `out` lists `entries`: the same sources, and each path as it is or made
/// absolute against `base`.
pub open spec fn lists_entries(out: Seq<(String, &'static str)>, entries: Seq<KnownEntry>, base: Seq<char>) -> bool {
    &&& out.len() == entries.len()
    &&& forall|i: int|
        0 <= i < out.len() ==> {
            &&& (#[trigger] out[i]).1@ == entries[i].1
            &&& if entries[i].2 {
                made_absolute(entries[i].0, base, out[i].0@)
            } else {
                out[i].0@ == entries[i].0
            }
        }
}

/// Append `path` from `source`, made absolute against `base`.
fn push_resolved(out: &mut Vec<(String, &'static str)>, path: &str, source: &'static str, base: &str)
    ensures
        final(out)@.len() == old(out)@.len() + 1,
        final(out)@.take(old(out)@.len() as int) == old(out)@,
        final(out)@.last().1 == source,
        made_absolute(path@, base@, final(out)@.last().0@),
{
    out.push((absolute(path, base), source));
    assert(out@.take(out@.len() - 1) =~= old(out)@);
}

/// Appending listed entries keeps the earlier ones listed.
proof fn lemma_lists_push(
    out: Seq<(String, &'static str)>,
    entries: Seq<KnownEntry>,
    base: Seq<char>,
    item: (String, &'static str),
    entry: KnownEntry,
)
    requires
        lists_entries(out, entries, base),
        item.1@ == entry.1,
        if entry.2 {
            made_absolute(entry.0, base, item.0@)
        } else {
            item.0@ == entry.0
        },
    ensures
        lists_entries(out.push(item), entries.push(entry), base),
{
    assert forall|i: int| 0 <= i < out.len() + 1 implies {
        &&& (#[trigger] out.push(item)[i]).1@ == entries.push(entry)[i].1
        &&& if entries.push(entry)[i].2 {
            made_absolute(entries.push(entry)[i].0, base, out.push(item)[i].0@)
        } else {
            out.push(item)[i].0@ == entries.push(entry)[i].0
        }
    } by {
        if i < out.len() {
            assert(out.push(item)[i] == out[i]);
            assert(entries.push(entry)[i] == entries[i]);
        }
    }
}

/// Append every one of `paths` from `source`, made absolute against `base`.
fn push_all_resolved(
    out: &mut Vec<(String, &'static str)>,
    paths: &Vec<String>,
    source: &'static str,
    base: &str,
    Ghost(entries): Ghost<Seq<KnownEntry>>,
)
    requires
        lists_entries(old(out)@, entries, base@),
    ensures
        lists_entries(final(out)@, entries + resolved_entries(paths@, source@), base@),
{
    let mut i: usize = 0;
    while i < paths.len()
        invariant
            i <= paths@.len(),
            lists_entries(out@, entries + resolved_entries(paths@.take(i as int), source@), base@),
        decreases paths@.len() - i,
    {
        let ghost before = out@;
        push_resolved(out, paths[i].as_str(), source, base);
        proof {
            assert(out@ == before.push(out@.last())) by {
                assert(out@ =~= out@.take(before.len() as int).push(out@.last()));
            }
            lemma_lists_push(
                before,
                entries + resolved_entries(paths@.take(i as int), source@),
                base@,
                out@.last(),
                (paths@[i as int]@, source@, true),
            );
            assert(resolved_entries(paths@.take(i + 1), source@) =~= resolved_entries(
                paths@.take(i as int),
                source@,
            ).push((paths@[i as int]@, source@, true)));
            assert(entries + resolved_entries(paths@.take(i + 1), source@) =~= (entries
                + resolved_entries(paths@.take(i as int), source@)).push((paths@[i as int]@, source@, true)));
        }
        i += 1;
    }
    assert(paths@.take(paths@.len() as int) =~= paths@);
}

/// Append `path` from `source` made absolute, unless it is blank.
fn push_unless_blank(
    out: &mut Vec<(String, &'static str)>,
    path: &str,
    source: &'static str,
    base: &str,
    Ghost(entries): Ghost<Seq<KnownEntry>>,
)
    requires
        lists_entries(old(out)@, entries, base@),
    ensures
        lists_entries(final(out)@, entries + unless_blank(path@, source@), base@),
{
    if trimmed_is_empty(path) {
        assert(entries + unless_blank(path@, source@) =~= entries);
    } else {
        let ghost before = out@;
        push_resolved(out, path, source, base);
        proof {
            assert(out@ =~= before.push(out@.last()));
            lemma_lists_push(before, entries, base@, out@.last(), (path@, source@, true));
            assert(entries + unless_blank(path@, source@) =~= entries.push((path@, source@, true)));
        }
    }
}

/// The workspaces the launcher knows of, each made absolute against the
/// host workspace `base` except the default, which is used as it is.
pub fn known_workspaces(
    recent: &Vec<String>,
    default: &str,
    host_workspace: &str,
    host_workspaces: &Vec<String>,
    hosts: &Vec<HostWorkspaces>,
    base: &str,
) -> (r: Vec<(String, &'static str)>)
    ensures
        lists_entries(
            r@,
            known_entries(recent@, default@, host_workspace@, host_workspaces@, hosts@),
            base@,
        ),
{
    let mut out: Vec<(String, &'static str)> = Vec::new();
    push_all_resolved(&mut out, recent, "recent", base, Ghost(Seq::empty()));
    let ghost e1 = Seq::<KnownEntry>::empty() + resolved_entries(recent@, "recent"@);
    let ghost before = out@;
    out.push((to_string(default), "default"));
    proof {
        lemma_lists_push(before, e1, base@, out@.last(), (default@, "default"@, false));
        assert(out@ =~= before.push(out@.last()));
    }
    let ghost e2 = e1.push((default@, "default"@, false));
    push_unless_blank(&mut out, host_workspace, "registered", base, Ghost(e2));
    let ghost e3 = e2 + unless_blank(host_workspace@, "registered"@);
    push_all_resolved(&mut out, host_workspaces, "registered", base, Ghost(e3));
    let ghost e4 = e3 + resolved_entries(host_workspaces@, "registered"@);
    let mut h: usize = 0;
    while h < hosts.len()
        invariant
            h <= hosts@.len(),
            lists_entries(out@, e4 + host_entries(hosts@.take(h as int)), base@),
        decreases hosts@.len() - h,
    {
        let ghost p = e4 + host_entries(hosts@.take(h as int));
        push_unless_blank(&mut out, hosts[h].workspace.as_str(), "registered", base, Ghost(p));
        let ghost q = p + unless_blank(hosts@[h as int].workspace@, "registered"@);
        push_all_resolved(&mut out, &hosts[h].workspaces, "registered", base, Ghost(q));
        proof {
            assert(hosts@.take(h + 1).drop_last() =~= hosts@.take(h as int));
            assert(hosts@.take(h + 1).last() == hosts@[h as int]);
            assert(q + resolved_entries(hosts@[h as int].workspaces@, "registered"@) =~= e4
                + host_entries(hosts@.take(h + 1)));
        }
        h += 1;
    }
    proof {
        assert(hosts@.take(hosts@.len() as int) =~= hosts@);
        assert(e4 + host_entries(hosts@) =~= known_entries(
            recent@,
            default@,
            host_workspace@,
            host_workspaces@,
            hosts@,
        ));
    }
    out
}

/// Whether the launcher also offers child folders of the typed path: only
/// once something other than whitespace is typed.
pub fn offers_folders(query: &str) -> (r: bool)
    ensures
        r == (trimmed(query@).len() > 0),
{
    !trimmed_is_empty(query)
}

} // verus!

verus! {

/// The path without its final component, as the platform's path rules find
/// it.
pub uninterp spec fn platform_parent(path: Seq<char>) -> Option<Seq<char>>;

/// `path` without its final component, if it has one.
///
/// Wraps `Path::parent` (with `to_string_lossy`, lossless on a path made
/// from a `str`), which gives a leading part of the path, or none when the
/// path ends in a root or prefix or is empty.
#[verifier::external_body]
fn path_parent(path: &str) -> (r: Option<String>)
    ensures
        opt_owned_view(r) == platform_parent(path@),
        r is Some ==> r->0@.is_prefix_of(path@),
{
    std::path::Path::new(path).parent().map(|parent| parent.to_string_lossy().into_owned())
}

/// The platform's main path separator.
///
/// Wraps `std::path::MAIN_SEPARATOR`: `/`, or `\\` on platforms that write
/// paths with backslashes.
#[verifier::external_body]
fn main_separator() -> (r: char)
    ensures
        r == '/' || r == '\\',
{
    std::path::MAIN_SEPARATOR
}

/// Which folder a typed path completes in, and the name typed so far, when
/// the platform separates paths with `sep`: a query ending in `sep` lists
/// that folder itself with nothing typed; otherwise the query's parent (the
/// current folder when it has none) and its final component (nothing when
/// it has none).
pub open spec fn completion_for(query: Seq<char>, sep: char, r: (Seq<char>, Seq<char>)) -> bool {
    if query.len() > 0 && query.last() == sep {
        r == (query, Seq::<char>::empty())
    } else {
        &&& r.0 == match platform_parent(query) {
            Some(p) => p,
            None => "."@,
        }
        &&& r.1 == match platform_file_name(query) {
            Some(n) => n,
            None => Seq::<char>::empty(),
        }
    }
}

/// The folder a typed path completes in, and the child name typed so far.
pub fn completion_target(query: &str) -> (r: (String, String))
    ensures
        exists|sep: char| (sep == '/' || sep == '\\') && completion_for(query@, sep, (r.0@, r.1@)),
{
    let sep = main_separator();
    let v = chars_of(query);
    if v.len() > 0 && v[v.len() - 1] == sep {
        let r = (to_string(query), String::new());
        assert(r.1@ =~= Seq::<char>::empty());
        assert(completion_for(query@, sep, (r.0@, r.1@)));
        return r;
    }
    let parent = match path_parent(query) {
        Some(p) => p,
        None => to_string("."),
    };
    let name = match path_file_name(query) {
        Some(n) => n,
        None => String::new(),
    };
    let r = (parent, name);
    assert(completion_for(query@, sep, (r.0@, r.1@)));
    r
}

} // verus!
