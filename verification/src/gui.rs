//! The reading application's library: series bookkeeping, statistics, search,
//! and the page images it hands to the user interface.
use vstd::prelude::*;
use crate::text::{
    decimal, push_decimal, chars_of, concat3, contains_chars, contains_seq, owned, push_str, starts_with_chars, str_eq,
    string_from_chars, to_lowercase, unicode_lower,
};
use crate::archive::{chars_less, chars_lt, eq_ignore_ascii_case, lemma_chars_lt_asym_total, lemma_chars_lt_trans, path_extension};
use base64::Engine;

verus! {

/// A manga series in the library.
#[derive(Debug)]
pub struct MangaSeries {
    pub id: String,
    pub title: String,
    pub author: String,
    pub cover_path: String,
    pub total_chapters: u32,
    pub genre: Vec<String>,
    /// "Reading", "Completed", "Plan to Read" or "Dropped".
    pub status: String,
}

/// A page of a chapter.
#[derive(Debug)]
pub struct PageInfo {
    pub index: u32,
    pub path: String,
    pub width: u32,
    pub height: u32,
}

/// Counts over the library.
#[derive(Debug, Clone, Copy, PartialEq, Eq, Structural)]
pub struct LibraryStats {
    pub total_series: u32,
    pub total_chapters: u32,
    pub total_pages: u32,
    pub reading_count: u32,
    pub completed_count: u32,
    pub plan_to_read_count: u32,
}

// ─── Statistics ────────────────────────────────────────────────────

/// The number of series in `lib` whose status is `status`.
pub open spec fn count_status(lib: Seq<MangaSeries>, status: Seq<char>) -> nat
    decreases lib.len(),
{
    if lib.len() == 0 {
        0
    } else {
        count_status(lib.drop_last(), status) + if lib.last().status@ == status { 1nat } else { 0nat }
    }
}

/// The chapters of all series in `lib`.
pub open spec fn chapters_total(lib: Seq<MangaSeries>) -> nat
    decreases lib.len(),
{
    if lib.len() == 0 {
        0
    } else {
        (chapters_total(lib.drop_last()) + lib.last().total_chapters) as nat
    }
}

proof fn lemma_count_status_le(lib: Seq<MangaSeries>, status: Seq<char>)
    ensures
        count_status(lib, status) <= lib.len(),
    decreases lib.len(),
{
    if lib.len() > 0 {
        lemma_count_status_le(lib.drop_last(), status);
    }
}

proof fn lemma_chapters_prefix(lib: Seq<MangaSeries>, i: int)
    requires
        0 <= i <= lib.len(),
    ensures
        chapters_total(lib.take(i)) <= chapters_total(lib),
    decreases lib.len(),
{
    if i < lib.len() {
        assert(lib.take(i) =~= lib.drop_last().take(i));
        lemma_chapters_prefix(lib.drop_last(), i);
    } else {
        assert(lib.take(i) =~= lib);
    }
}

/// The number of series in `lib` whose status is `status`.
fn status_count(lib: &Vec<MangaSeries>, status: &str) -> (n: u32)
    ensures
        n == count_status(lib@, status@) as u32,
{
    let mut n: usize = 0;
    let mut i: usize = 0;
    while i < lib.len()
        invariant
            i <= lib.len(),
            n == count_status(lib@.take(i as int), status@),
            n <= i,
        decreases lib.len() - i,
    {
        assert(lib@.take(i + 1).drop_last() =~= lib@.take(i as int));
        if str_eq(lib[i].status.as_str(), status) {
            n = n + 1;
        }
        i = i + 1;
    }
    assert(lib@.take(lib.len() as int) =~= lib@);
    #[verifier::truncate] (n as u32)
}

/// Library statistics: the number of series, the chapters they hold, and how many
/// are being read, completed and planned. Pages are not counted (always 0).
pub fn library_stats(library: &Vec<MangaSeries>) -> (stats: LibraryStats)
    requires
        chapters_total(library@) <= u32::MAX,
    ensures
        stats.total_series == library@.len() as u32,
        stats.total_chapters == chapters_total(library@),
        stats.total_pages == 0,
        stats.reading_count == count_status(library@, "Reading"@) as u32,
        stats.completed_count == count_status(library@, "Completed"@) as u32,
        stats.plan_to_read_count == count_status(library@, "Plan to Read"@) as u32,
{
    let total_series = #[verifier::truncate] (library.len() as u32);
    let reading_count = status_count(library, "Reading");
    let completed_count = status_count(library, "Completed");
    let plan_to_read_count = status_count(library, "Plan to Read");
    let mut total_chapters: u32 = 0;
    let mut i: usize = 0;
    while i < library.len()
        invariant
            i <= library.len(),
            chapters_total(library@) <= u32::MAX,
            total_chapters == chapters_total(library@.take(i as int)),
        decreases library.len() - i,
    {
        assert(library@.take(i + 1).drop_last() =~= library@.take(i as int));
        proof {
            lemma_chapters_prefix(library@, i + 1);
        }
        total_chapters = total_chapters + library[i].total_chapters;
        i = i + 1;
    }
    assert(library@.take(library.len() as int) =~= library@);
    LibraryStats { total_series, total_chapters, total_pages: 0, reading_count, completed_count, plan_to_read_count }
}

// ─── Library edits ─────────────────────────────────────────────────

/// The position of the first series with the given id, if any.
pub fn find_series(library: &Vec<MangaSeries>, series_id: &str) -> (r: Option<usize>)
    ensures
        match r {
            Some(i) => i < library@.len() && library@[i as int].id@ == series_id@
                && forall|j: int| 0 <= j < i ==> library@[j].id@ != series_id@,
            None => forall|j: int| 0 <= j < library@.len() ==> library@[j].id@ != series_id@,
        },
{
    let mut i: usize = 0;
    while i < library.len()
        invariant
            i <= library.len(),
            forall|j: int| 0 <= j < i ==> library@[j].id@ != series_id@,
        decreases library.len() - i,
    {
        if str_eq(library[i].id.as_str(), series_id) {
            return Some(i);
        }
        i = i + 1;
    }
    None
}

/// Set the status of the first series with the given id; an error naming the id
/// when there is none.
pub fn update_series_status(library: &mut Vec<MangaSeries>, series_id: &str, status: String) -> (r: Result<(), String>)
    ensures
        match r {
            Ok(()) => exists|i: int| 0 <= i < old(library)@.len() && old(library)@[i].id@ == series_id@
                && (forall|j: int| 0 <= j < i ==> old(library)@[j].id@ != series_id@)
                && final(library)@.len() == old(library)@.len()
                && final(library)@[i].status@ == status@
                && final(library)@[i].id@ == old(library)@[i].id@
                && (forall|j: int| 0 <= j < old(library)@.len() && j != i ==> final(library)@[j] == old(library)@[j]),
            Err(msg) => (forall|j: int| 0 <= j < old(library)@.len() ==> old(library)@[j].id@ != series_id@)
                && final(library)@ == old(library)@
                && msg@ == "Series '"@ + series_id@ + "' not found"@,
        },
{
    match find_series(library, series_id) {
        Some(i) => {
            let mut series = library.remove(i);
            series.status = status;
            library.insert(i, series);
            Ok(())
        },
        None => Err(concat3("Series '", series_id, "' not found")),
    }
}

/// The series of `lib` whose id is not `id`, in order.
pub open spec fn without_series(lib: Seq<MangaSeries>, id: Seq<char>) -> Seq<MangaSeries>
    decreases lib.len(),
{
    if lib.len() == 0 {
        lib
    } else {
        let rest = without_series(lib.drop_first(), id);
        if lib[0].id@ != id { seq![lib[0]] + rest } else { rest }
    }
}

/// Remove every series with the given id, keeping the others in order.
pub fn delete_series(library: &mut Vec<MangaSeries>, series_id: &str)
    ensures
        final(library)@ == without_series(old(library)@, series_id@),
{
    let mut rest: Vec<MangaSeries> = Vec::new();
    core::mem::swap(&mut rest, library);
    let ghost orig = rest@;
    assert(library@ =~= Seq::<MangaSeries>::empty());
    while rest.len() > 0
        invariant
            without_series(orig, series_id@) == library@ + without_series(rest@, series_id@),
        decreases rest.len(),
    {
        let ghost before = rest@;
        let s = rest.remove(0);
        assert(rest@ =~= before.drop_first());
        if !str_eq(s.id.as_str(), series_id) {
            assert(library@.push(s) + without_series(rest@, series_id@) =~= library@ + (seq![s] + without_series(rest@, series_id@)));
            library.push(s);
        }
    }
    assert(without_series(rest@, series_id@) =~= Seq::<MangaSeries>::empty());
    assert(library@ + Seq::<MangaSeries>::empty() =~= library@);
}

/// After a deletion no series has the deleted id, and every other series is
/// still there: deleting is idempotent, and deleting an id that is not in the
/// library changes nothing.
pub proof fn law_deleted_series_is_gone(lib: Seq<MangaSeries>, id: Seq<char>)
    ensures
        forall|k: int| 0 <= k < without_series(lib, id).len() ==> (#[trigger] without_series(lib, id)[k]).id@ != id,
        without_series(without_series(lib, id), id) == without_series(lib, id),
        (forall|k: int| 0 <= k < lib.len() ==> (#[trigger] lib[k]).id@ != id) ==> without_series(lib, id) == lib,
    decreases lib.len(),
{
    if lib.len() > 0 {
        law_deleted_series_is_gone(lib.drop_first(), id);
        let rest = without_series(lib.drop_first(), id);
        if lib[0].id@ != id {
            let r = seq![lib[0]] + rest;
            assert forall|k: int| 0 <= k < r.len() implies (#[trigger] r[k]).id@ != id by {
                if k > 0 {
                    assert(r[k] == rest[k - 1]);
                }
            }
            assert(r.drop_first() =~= rest);
            if forall|k: int| 0 <= k < lib.len() ==> (#[trigger] lib[k]).id@ != id {
                assert forall|k: int| 0 <= k < lib.drop_first().len() implies (#[trigger] lib.drop_first()[k]).id@ != id by {
                    assert(lib.drop_first()[k] == lib[k + 1]);
                }
                assert(r =~= lib);
            }
        }
    } else {
    }
}

// ─── Search ────────────────────────────────────────────────────────

/// A series that a search matched, with what matched and how well
/// (`score_tenths`: 10 title prefix, 8 title, 6 author, 4 genre).
#[derive(Debug)]
pub struct SeriesMatch {
    pub series_id: String,
    pub title: String,
    pub author: String,
    /// "title", "author" or "genre".
    pub match_type: String,
    pub score_tenths: u8,
}

/// Some genre of the series contains `q` once lower-cased.
pub open spec fn genre_matches(genres: Seq<String>, q: Seq<char>) -> bool {
    exists|g: int| 0 <= g < genres.len() && contains_seq(unicode_lower(#[trigger] genres[g]@), q)
}

/// How a series matches the lower-cased query `q`: by title (10 when the title
/// starts with it, else 8), else by author (6), else by a genre (4); the type is
/// 0 title, 1 author, 2 genre.
pub open spec fn series_score(s: MangaSeries, q: Seq<char>) -> Option<(u8, u8)> {
    let t = unicode_lower(s.title@);
    if contains_seq(t, q) {
        Some((0u8, if q.is_prefix_of(t) { 10u8 } else { 8u8 }))
    } else if contains_seq(unicode_lower(s.author@), q) {
        Some((1u8, 6u8))
    } else if genre_matches(s.genre@, q) {
        Some((2u8, 4u8))
    } else {
        None
    }
}

/// The positions of the series in `lib[..n]` whose score is `score`, in order.
pub open spec fn scored_positions(lib: Seq<MangaSeries>, q: Seq<char>, score: u8, n: int) -> Seq<int>
    decreases n,
{
    if n <= 0 {
        Seq::empty()
    } else {
        let before = scored_positions(lib, q, score, n - 1);
        match series_score(lib[n - 1], q) {
            Some((_, sc)) => if sc == score { before.push(n - 1) } else { before },
            None => before,
        }
    }
}

/// The positions of the matching series, best score first, in library order within a score.
pub open spec fn ranked_positions(lib: Seq<MangaSeries>, q: Seq<char>) -> Seq<int> {
    scored_positions(lib, q, 10, lib.len() as int) + scored_positions(lib, q, 8, lib.len() as int)
        + scored_positions(lib, q, 6, lib.len() as int) + scored_positions(lib, q, 4, lib.len() as int)
}

/// The name of a match type.
pub open spec fn match_kind_name(t: u8) -> Seq<char> {
    if t == 0 { "title"@ } else if t == 1 { "author"@ } else { "genre"@ }
}

/// `m` reports series `s` as matching the query `q`.
pub open spec fn reports(m: SeriesMatch, s: MangaSeries, q: Seq<char>) -> bool {
    &&& series_score(s, q) is Some
    &&& m.series_id@ == s.id@
    &&& m.title@ == s.title@
    &&& m.author@ == s.author@
    &&& m.match_type@ == match_kind_name((series_score(s, q)->0).0)
    &&& m.score_tenths == (series_score(s, q)->0).1
}

/// Whether some genre contains the lower-cased query.
fn genre_match(genres: &Vec<String>, q: &Vec<char>) -> (r: bool)
    ensures
        r == genre_matches(genres@, q@),
{
    let mut g: usize = 0;
    while g < genres.len()
        invariant
            g <= genres.len(),
            forall|k: int| 0 <= k < g ==> !contains_seq(unicode_lower(#[trigger] genres@[k]@), q@),
        decreases genres.len() - g,
    {
        let lower = to_lowercase(genres[g].as_str());
        let lc = chars_of(lower.as_str());
        if contains_chars(&lc, q) {
            return true;
        }
        g = g + 1;
    }
    false
}

/// How a series matches the lower-cased query: (type, score), if it does.
fn score_series(s: &MangaSeries, q: &Vec<char>) -> (r: Option<(u8, u8)>)
    ensures
        r == series_score(*s, q@),
{
    let title = to_lowercase(s.title.as_str());
    let t = chars_of(title.as_str());
    if contains_chars(&t, q) {
        let score: u8 = if starts_with_chars(&t, q) { 10 } else { 8 };
        return Some((0, score));
    }
    let author = to_lowercase(s.author.as_str());
    let a = chars_of(author.as_str());
    if contains_chars(&a, q) {
        return Some((1, 6));
    }
    if genre_match(&s.genre, q) {
        return Some((2, 4));
    }
    None
}

/// The name of a match type.
fn kind_name(t: u8) -> (r: String)
    ensures
        r@ == match_kind_name(t),
{
    if t == 0 {
        owned("title")
    } else if t == 1 {
        owned("author")
    } else {
        owned("genre")
    }
}

/// Search the library: each series whose title, author or a genre contains the
/// query (compared in lower case) is reported once, by the first of these that
/// matches; results come best score first (title prefix, title, author, genre)
/// and in library order within a score.
pub fn search_series(library: &Vec<MangaSeries>, query: &str) -> (results: Vec<SeriesMatch>)
    ensures
        results@.len() == ranked_positions(library@, unicode_lower(query@)).len(),
        forall|k: int| 0 <= k < results@.len() ==> {
            let i = #[trigger] ranked_positions(library@, unicode_lower(query@))[k];
            0 <= i < library@.len() && reports(results@[k], library@[i], unicode_lower(query@))
        },
{
    let ql = to_lowercase(query);
    let q = chars_of(ql.as_str());
    let ghost qv = q@;
    let mut scores: Vec<Option<(u8, u8)>> = Vec::new();
    let mut i: usize = 0;
    while i < library.len()
        invariant
            q@ == qv,
            i <= library.len(),
            scores@.len() == i,
            forall|j: int| 0 <= j < i ==> #[trigger] scores@[j] == series_score(library@[j], qv),
        decreases library.len() - i,
    {
        let sc = score_series(&library[i], &q);
        scores.push(sc);
        i = i + 1;
    }
    let mut results: Vec<SeriesMatch> = Vec::new();
    let ghost mut ranked: Seq<int> = Seq::empty();
    let levels: [u8; 4] = [10, 8, 6, 4];
    let mut level: usize = 0;
    while level < 4
        invariant
            level <= 4,
            levels@ == seq![10u8, 8u8, 6u8, 4u8],
            scores@.len() == library@.len(),
            forall|j: int| 0 <= j < library@.len() ==> #[trigger] scores@[j] == series_score(library@[j], qv),
            ranked == levels_ranked(library@, qv, level as int),
            results@.len() == ranked.len(),
            forall|k: int| 0 <= k < results@.len() ==> {
                let i = #[trigger] ranked[k];
                0 <= i < library@.len() && reports(results@[k], library@[i], qv)
            },
        decreases 4 - level,
    {
        let target = levels[level];
        let ghost base = ranked;
        let mut j: usize = 0;
        while j < library.len()
            invariant
                j <= library.len(),
                level < 4,
                target == levels@[level as int],
                levels@ == seq![10u8, 8u8, 6u8, 4u8],
                scores@.len() == library@.len(),
                forall|j2: int| 0 <= j2 < library@.len() ==> #[trigger] scores@[j2] == series_score(library@[j2], qv),
                ranked == base + scored_positions(library@, qv, target, j as int),
                results@.len() == ranked.len(),
                forall|k: int| 0 <= k < results@.len() ==> {
                    let i = #[trigger] ranked[k];
                    0 <= i < library@.len() && reports(results@[k], library@[i], qv)
                },
            decreases library.len() - j,
        {
            match scores[j] {
                Some((t, sc)) => {
                    if sc == target {
                        let s = &library[j];
                        let m = SeriesMatch {
                            series_id: owned(s.id.as_str()),
                            title: owned(s.title.as_str()),
                            author: owned(s.author.as_str()),
                            match_type: kind_name(t),
                            score_tenths: sc,
                        };
                        proof {
                            ranked = ranked.push(j as int);
                        }
                        results.push(m);
                        assert forall|k: int| 0 <= k < results@.len() implies {
                            let i = #[trigger] ranked[k];
                            0 <= i < library@.len() && reports(results@[k], library@[i], qv)
                        } by {
                            if k < results@.len() - 1 {
                                assert(ranked[k] == ranked.drop_last()[k]);
                            }
                        }
                        assert(base + scored_positions(library@, qv, target, j + 1) =~= ranked);
                    } else {
                        assert(scored_positions(library@, qv, target, j + 1) == scored_positions(library@, qv, target, j as int));
                    }
                },
                None => {
                    assert(scored_positions(library@, qv, target, j + 1) == scored_positions(library@, qv, target, j as int));
                },
            }
            j = j + 1;
        }
        assert(levels_ranked(library@, qv, level + 1) == levels_ranked(library@, qv, level as int)
            + scored_positions(library@, qv, target, library@.len() as int));
        level = level + 1;
    }
    proof {
        let n = library@.len() as int;
        assert(levels_ranked(library@, qv, 0) =~= Seq::<int>::empty());
        assert(levels_ranked(library@, qv, 1) =~= scored_positions(library@, qv, 10, n));
        assert(levels_ranked(library@, qv, 2) =~= scored_positions(library@, qv, 10, n) + scored_positions(library@, qv, 8, n));
        assert(levels_ranked(library@, qv, 3) =~= scored_positions(library@, qv, 10, n) + scored_positions(library@, qv, 8, n)
            + scored_positions(library@, qv, 6, n));
    }
    assert(levels_ranked(library@, qv, 4) =~= ranked_positions(library@, qv));
    results
}

/// The positions ranked at the first `l` score levels (10, 8, 6, 4).
pub open spec fn levels_ranked(lib: Seq<MangaSeries>, q: Seq<char>, l: int) -> Seq<int>
    decreases l,
{
    if l <= 0 {
        Seq::empty()
    } else {
        let score: u8 = if l == 1 { 10 } else if l == 2 { 8 } else if l == 3 { 6 } else { 4 };
        levels_ranked(lib, q, l - 1) + scored_positions(lib, q, score, lib.len() as int)
    }
}

/// The score of a series that matches the lower-cased query `q`.
pub open spec fn match_score(s: MangaSeries, q: Seq<char>) -> u8 {
    (series_score(s, q)->0).1
}

proof fn lemma_scored_positions(lib: Seq<MangaSeries>, q: Seq<char>, score: u8, n: int)
    requires
        n <= lib.len(),
    ensures
        forall|k: int| 0 <= k < scored_positions(lib, q, score, n).len() ==> {
            let i = #[trigger] scored_positions(lib, q, score, n)[k];
            0 <= i < n && series_score(lib[i], q) is Some && match_score(lib[i], q) == score
        },
        forall|i: int| 0 <= i < n && series_score(lib[i], q) is Some && match_score(lib[i], q) == score
            ==> #[trigger] scored_positions(lib, q, score, n).contains(i),
    decreases n,
{
    if n > 0 {
        lemma_scored_positions(lib, q, score, n - 1);
        let before = scored_positions(lib, q, score, n - 1);
        let now = scored_positions(lib, q, score, n);
        assert forall|k: int| 0 <= k < now.len() implies {
            let i = #[trigger] now[k];
            0 <= i < n && series_score(lib[i], q) is Some && match_score(lib[i], q) == score
        } by {
            if k < before.len() {
                assert(now[k] == before[k]);
            }
        }
        assert forall|i: int| 0 <= i < n && series_score(lib[i], q) is Some && match_score(lib[i], q) == score
            implies #[trigger] now.contains(i) by {
            if i < n - 1 {
                assert(before.contains(i));
                let k = choose|k: int| 0 <= k < before.len() && before[k] == i;
                assert(now[k] == i);
            } else {
                assert(now[now.len() - 1] == i);
            }
        }
    }
}

/// How a reported match is classified: a series whose lower-cased title holds the
/// lower-cased query is a title match, scored 10 when the title starts with the
/// query and 8 otherwise, whatever its author and genres; a series whose title does
/// not hold it but whose author does is an author match (6); any other reported
/// series has a genre holding the query and is a genre match (4).
pub proof fn law_match_kind(m: SeriesMatch, s: MangaSeries, q: Seq<char>)
    requires
        reports(m, s, q),
    ensures
        contains_seq(unicode_lower(s.title@), q) ==> {
            &&& m.match_type@ == "title"@
            &&& m.score_tenths == if q.is_prefix_of(unicode_lower(s.title@)) { 10u8 } else { 8u8 }
        },
        !contains_seq(unicode_lower(s.title@), q) && contains_seq(unicode_lower(s.author@), q) ==> {
            &&& m.match_type@ == "author"@
            &&& m.score_tenths == 6
        },
        !contains_seq(unicode_lower(s.title@), q) && !contains_seq(unicode_lower(s.author@), q) ==> {
            &&& exists|g: int| 0 <= g < s.genre@.len() && contains_seq(unicode_lower(#[trigger] s.genre@[g]@), q)
            &&& m.match_type@ == "genre"@
            &&& m.score_tenths == 4
        },
{
}

/// A series is reported exactly when its title, its author or one of its genres
/// holds the lower-cased query.
pub proof fn law_reported_iff_some_field_matches(s: MangaSeries, q: Seq<char>)
    ensures
        series_score(s, q) is Some <==> (contains_seq(unicode_lower(s.title@), q)
            || contains_seq(unicode_lower(s.author@), q)
            || exists|g: int| 0 <= g < s.genre@.len() && contains_seq(unicode_lower(#[trigger] s.genre@[g]@), q)),
{
}

/// Search results come best first (title prefix, then title, author, genre),
/// and a series is reported exactly when it matches the query.
pub proof fn law_search_best_first(lib: Seq<MangaSeries>, q: Seq<char>)
    ensures
        forall|k: int, l: int| 0 <= k < l < ranked_positions(lib, q).len()
            ==> match_score(lib[#[trigger] ranked_positions(lib, q)[k]], q)
                >= match_score(lib[#[trigger] ranked_positions(lib, q)[l]], q),
        forall|i: int| 0 <= i < lib.len()
            ==> (#[trigger] ranked_positions(lib, q).contains(i) <==> series_score(lib[i], q) is Some),
{
    let n = lib.len() as int;
    lemma_scored_positions(lib, q, 10, n);
    lemma_scored_positions(lib, q, 8, n);
    lemma_scored_positions(lib, q, 6, n);
    lemma_scored_positions(lib, q, 4, n);
    let a = scored_positions(lib, q, 10, n);
    let b = scored_positions(lib, q, 8, n);
    let c = scored_positions(lib, q, 6, n);
    let d = scored_positions(lib, q, 4, n);
    let r = ranked_positions(lib, q);
    assert(r == a + b + c + d);
    let la = a.len() as int;
    let lb = b.len() as int;
    let lc = c.len() as int;
    assert forall|t: int| 0 <= t < r.len() implies {
        let i = #[trigger] r[t];
        &&& 0 <= i < n
        &&& series_score(lib[i], q) is Some
        &&& match_score(lib[i], q) == if t < la { 10u8 } else if t < la + lb { 8u8 } else if t < la + lb + lc { 6u8 } else { 4u8 }
    } by {
        if t < la {
            assert(r[t] == a[t]);
        } else if t < la + lb {
            assert(r[t] == b[t - la]);
        } else if t < la + lb + lc {
            assert(r[t] == c[t - la - lb]);
        } else {
            assert(r[t] == d[t - la - lb - lc]);
        }
    }
    assert forall|i: int| 0 <= i < lib.len() implies (#[trigger] r.contains(i) <==> series_score(lib[i], q) is Some) by {
        if series_score(lib[i], q) is Some {
            let sc = match_score(lib[i], q);
            if sc == 10 {
                assert(a.contains(i));
                let k = choose|k: int| 0 <= k < a.len() && a[k] == i;
                assert(r[k] == a[k]);
            } else if sc == 8 {
                assert(b.contains(i));
                let k = choose|k: int| 0 <= k < b.len() && b[k] == i;
                assert(r[la + k] == b[k]);
            } else if sc == 6 {
                assert(c.contains(i));
                let k = choose|k: int| 0 <= k < c.len() && c[k] == i;
                assert(r[la + lb + k] == c[k]);
            } else {
                assert(sc == 4);
                assert(d.contains(i));
                let k = choose|k: int| 0 <= k < d.len() && d[k] == i;
                assert(r[la + lb + lc + k] == d[k]);
            }
        }
        if r.contains(i) {
            let t = choose|t: int| 0 <= t < r.len() && r[t] == i;
            assert(series_score(lib[r[t]], q) is Some);
        }
    }
}

// ─── Page images ───────────────────────────────────────────────────

/// The character of the standard base64 alphabet for `n < 64`.
pub open spec fn b64_char(n: int) -> char {
    if n < 26 {
        ('A' as int + n) as char
    } else if n < 52 {
        ('a' as int + n - 26) as char
    } else if n < 62 {
        ('0' as int + n - 52) as char
    } else if n == 62 {
        '+'
    } else {
        '/'
    }
}

/// Standard base64 (RFC 4648 alphabet, `=` padding) of `b`.
pub open spec fn base64_standard(b: Seq<u8>) -> Seq<char>
    decreases b.len(),
{
    if b.len() == 0 {
        Seq::empty()
    } else if b.len() == 1 {
        seq![b64_char((b[0] / 4) as int), b64_char((b[0] % 4) * 16), '=', '=']
    } else if b.len() == 2 {
        seq![b64_char((b[0] / 4) as int), b64_char((b[0] % 4) * 16 + b[1] / 16), b64_char((b[1] % 16) * 4), '=']
    } else {
        seq![
            b64_char((b[0] / 4) as int),
            b64_char((b[0] % 4) * 16 + b[1] / 16),
            b64_char((b[1] % 16) * 4 + b[2] / 64),
            b64_char((b[2] % 64) as int),
        ] + base64_standard(b.skip(3))
    }
}

/// base64's `STANDARD` engine: standard alphabet with padding.
#[verifier::external_body]
fn base64_encode(data: &[u8]) -> (r: String)
    ensures
        r@ == base64_standard(data@),
{
    base64::engine::general_purpose::STANDARD.encode(data)
}

/// The MIME type of a page image, from the extension of its path (in any case):
/// `png`, `webp` and `gif` name theirs; anything else, or no extension, is JPEG.
pub open spec fn page_mime(path: Seq<char>) -> Seq<char> {
    match path_extension(path) {
        Some(ext) => if eq_ignore_ascii_case(ext, seq!['p', 'n', 'g']) {
            "image/png"@
        } else if eq_ignore_ascii_case(ext, seq!['w', 'e', 'b', 'p']) {
            "image/webp"@
        } else if eq_ignore_ascii_case(ext, seq!['g', 'i', 'f']) {
            "image/gif"@
        } else {
            "image/jpeg"@
        },
        None => "image/jpeg"@,
    }
}

/// The MIME type of a page image (see [`page_mime`]).
pub fn mime_for_path(path: &str) -> (r: &'static str)
    ensures
        r@ == page_mime(path@),
{
    if crate::archive::has_extension(path, &['p', 'n', 'g']) {
        "image/png"
    } else if crate::archive::has_extension(path, &['w', 'e', 'b', 'p']) {
        "image/webp"
    } else if crate::archive::has_extension(path, &['g', 'i', 'f']) {
        "image/gif"
    } else {
        "image/jpeg"
    }
}

/// The data URL of a page image read from `path`: `data:<mime>;base64,<data>`.
pub fn page_data_url(path: &str, data: &[u8]) -> (url: String)
    ensures
        url@ == "data:"@ + page_mime(path@) + ";base64,"@ + base64_standard(data@),
{
    let mime = mime_for_path(path);
    let b64 = base64_encode(data);
    let mut v: Vec<char> = Vec::new();
    push_str(&mut v, "data:");
    push_str(&mut v, mime);
    push_str(&mut v, ";base64,");
    push_str(&mut v, b64.as_str());
    string_from_chars(&v)
}

/// The position of the page with the given index, if any.
pub fn find_page(pages: &Vec<PageInfo>, page_index: u32) -> (r: Option<usize>)
    ensures
        match r {
            Some(i) => i < pages@.len() && pages@[i as int].index == page_index
                && forall|j: int| 0 <= j < i ==> pages@[j].index != page_index,
            None => forall|j: int| 0 <= j < pages@.len() ==> pages@[j].index != page_index,
        },
{
    let mut i: usize = 0;
    while i < pages.len()
        invariant
            i <= pages.len(),
            forall|j: int| 0 <= j < i ==> pages@[j].index != page_index,
        decreases pages.len() - i,
    {
        if pages[i].index == page_index {
            return Some(i);
        }
        i = i + 1;
    }
    None
}

// ─── Scanning a directory ──────────────────────────────────────────

/// The file names tried, in order, as a series' cover.
pub open spec fn cover_names() -> Seq<Seq<char>> {
    seq![
        "cover.jpg"@, "cover.png"@, "cover.webp"@,
        "Cover.jpg"@, "Cover.png"@, "Cover.webp"@,
        "folder.jpg"@, "folder.png"@,
        "Folder.jpg"@, "Folder.png"@,
        "thumbnail.jpg"@, "thumbnail.png"@,
        "Thumbnail.jpg"@, "Thumbnail.png"@,
    ]
}

/// A file that may serve as a cover when no cover name is present: its extension
/// is `jpg`, `jpeg`, `png` or `webp`, in any case.
pub open spec fn cover_like(name: Seq<char>) -> bool {
    match path_extension(name) {
        Some(ext) => eq_ignore_ascii_case(ext, seq!['j', 'p', 'g']) || eq_ignore_ascii_case(ext, seq!['j', 'p', 'e', 'g'])
            || eq_ignore_ascii_case(ext, seq!['p', 'n', 'g']) || eq_ignore_ascii_case(ext, seq!['w', 'e', 'b', 'p']),
        None => false,
    }
}

/// The first of the cover names from `k` on that `present` marks as present in the
/// directory (`present[k]` for the `k`-th cover name; a missing mark counts as
/// absent).
pub open spec fn first_cover_name(present: Seq<bool>, k: int) -> Option<Seq<char>>
    decreases cover_names().len() - k,
{
    if k < 0 || k >= cover_names().len() {
        None
    } else if k < present.len() && present[k] {
        Some(cover_names()[k])
    } else {
        first_cover_name(present, k + 1)
    }
}

/// The cover chosen for a directory: the first cover name present there (as
/// `present` marks them); else the first file among its entries (name, whether it
/// is a file), in directory order, that looks like an image; else none.
pub open spec fn chosen_cover(present: Seq<bool>, entries: Seq<(String, bool)>) -> Option<Seq<char>> {
    match first_cover_name(present, 0) {
        Some(n) => Some(n),
        None => if exists|i: int| 0 <= i < entries.len() && entries[i].1 && cover_like(#[trigger] entries[i].0@) {
            let i = choose|i: int| 0 <= i < entries.len() && entries[i].1 && cover_like(#[trigger] entries[i].0@)
                && forall|j: int| 0 <= j < i ==> !(entries[j].1 && cover_like(#[trigger] entries[j].0@));
            Some(entries[i].0@)
        } else {
            None
        },
    }
}

/// Whether a file name has an extension a cover may have.
fn is_cover_like(name: &str) -> (r: bool)
    ensures
        r == cover_like(name@),
{
    crate::archive::has_extension(name, &['j', 'p', 'g'])
        || crate::archive::has_extension(name, &['j', 'p', 'e', 'g'])
        || crate::archive::has_extension(name, &['p', 'n', 'g'])
        || crate::archive::has_extension(name, &['w', 'e', 'b', 'p'])
}

/// The file names tried, in order, as a series' cover (see [`cover_names`]).
pub fn cover_candidates() -> (r: Vec<String>)
    ensures
        Seq::new(r@.len(), |i: int| r@[i]@) == cover_names(),
{
    let names: [&str; 14] = [
        "cover.jpg", "cover.png", "cover.webp",
        "Cover.jpg", "Cover.png", "Cover.webp",
        "folder.jpg", "folder.png",
        "Folder.jpg", "Folder.png",
        "thumbnail.jpg", "thumbnail.png",
        "Thumbnail.jpg", "Thumbnail.png",
    ];
    assert(names@.len() == 14);
    let mut r: Vec<String> = Vec::new();
    let mut k: usize = 0;
    while k < 14
        invariant
            k <= 14,
            names@.len() == 14,
            r@.len() == k,
            forall|k2: int| 0 <= k2 < k ==> #[trigger] r@[k2]@ == names@[k2]@,
        decreases 14 - k,
    {
        r.push(owned(names[k]));
        k = k + 1;
    }
    assert forall|k2: int| 0 <= k2 < 14 implies #[trigger] r@[k2]@ == cover_names()[k2] by {
        assert(names@[k2] == names[k2]);
    }
    assert(Seq::new(r@.len(), |i: int| r@[i]@) =~= cover_names());
    r
}

/// Choose a series' cover: the first cover name that `present` marks as present in
/// its directory, else the first image file among the directory's entries (name,
/// whether it is a file), listed in directory order; see [`chosen_cover`].
pub fn find_cover_image(present: &Vec<bool>, entries: &Vec<(String, bool)>) -> (r: Option<String>)
    ensures
        match r {
            Some(n) => chosen_cover(present@, entries@) == Some(n@),
            None => chosen_cover(present@, entries@) is None,
        },
{
    let names: [&str; 14] = [
        "cover.jpg", "cover.png", "cover.webp",
        "Cover.jpg", "Cover.png", "Cover.webp",
        "folder.jpg", "folder.png",
        "Folder.jpg", "Folder.png",
        "thumbnail.jpg", "thumbnail.png",
        "Thumbnail.jpg", "Thumbnail.png",
    ];
    assert(names@.len() == 14);
    assert forall|k: int| 0 <= k < 14 implies #[trigger] names@[k]@ == cover_names()[k] by {
        assert(names@[k] == names[k]);
    }
    let mut k: usize = 0;
    while k < 14
        invariant
            k <= 14,
            names@.len() == 14,
            forall|k2: int| 0 <= k2 < 14 ==> #[trigger] names@[k2]@ == cover_names()[k2],
            first_cover_name(present@, 0) == first_cover_name(present@, k as int),
        decreases 14 - k,
    {
        if k < present.len() && present[k] {
            return Some(owned(names[k]));
        }
        k = k + 1;
    }
    let mut i: usize = 0;
    while i < entries.len()
        invariant
            i <= entries@.len(),
            first_cover_name(present@, 0) is None,
            forall|j: int| 0 <= j < i ==> !(entries@[j].1 && cover_like(#[trigger] entries@[j].0@)),
        decreases entries.len() - i,
    {
        if entries[i].1 && is_cover_like(entries[i].0.as_str()) {
            let ghost ii = i as int;
            assert(entries@[ii].1 && cover_like(entries@[ii].0@));
            let ghost c = choose|c: int| 0 <= c < entries@.len() && entries@[c].1 && cover_like(#[trigger] entries@[c].0@)
                && forall|j: int| 0 <= j < c ==> !(entries@[j].1 && cover_like(#[trigger] entries@[j].0@));
            assert(c == ii) by {
                if c < ii {
                    assert(!(entries@[c].1 && cover_like(entries@[c].0@)));
                } else if c > ii {
                    assert(!(entries@[ii].1 && cover_like(entries@[ii].0@)));
                }
            }
            return Some(owned(entries[i].0.as_str()));
        }
        i = i + 1;
    }
    None
}

/// A lower-case hexadecimal digit.
pub open spec fn is_lower_hex(c: char) -> bool {
    ('0' <= c && c <= '9') || ('a' <= c && c <= 'f')
}

/// The hyphenated text of a version-4 UUID: 36 characters, `-` at positions 8, 13,
/// 18 and 23, lower-case hexadecimal digits elsewhere, the version digit `4` at
/// position 14 and a variant digit `8`, `9`, `a` or `b` at position 19.
pub open spec fn is_v4_uuid_text(s: Seq<char>) -> bool {
    &&& s.len() == 36
    &&& forall|i: int| 0 <= i < 36 ==> if i == 8 || i == 13 || i == 18 || i == 23 {
        s[i] == '-'
    } else {
        is_lower_hex(#[trigger] s[i])
    }
    &&& s[14] == '4'
    &&& (s[19] == '8' || s[19] == '9' || s[19] == 'a' || s[19] == 'b')
}

/// A fresh, random series identifier: a version-4 UUID (`uuid::Uuid::new_v4`) in
/// the hyphenated lower-case form its `Display` writes. Which one is chance's.
#[verifier::external_body]
fn new_series_id() -> (id: String)
    ensures
        is_v4_uuid_text(id@),
{
    uuid::Uuid::new_v4().to_string()
}

/// The series found in a scanned directory, one per subdirectory given as (name,
/// cover path, number of chapter subdirectories): titled by the directory, by an
/// unknown author, with no genres, planned to read, each under a fresh random id.
pub fn scanned_series(dirs: Vec<(String, Option<String>, u32)>) -> (found: Vec<MangaSeries>)
    ensures
        found@.len() == dirs@.len(),
        forall|i: int| 0 <= i < found@.len() ==> {
            &&& (#[trigger] found@[i]).title@ == dirs@[i].0@
            &&& found@[i].author@ == "Unknown"@
            &&& found@[i].cover_path@ == match dirs@[i].1 {
                Some(c) => c@,
                None => Seq::empty(),
            }
            &&& found@[i].total_chapters == dirs@[i].2
            &&& found@[i].genre@.len() == 0
            &&& found@[i].status@ == "Plan to Read"@
            &&& is_v4_uuid_text(found@[i].id@)
        },
{
    let ghost input = dirs@;
    let mut dirs = dirs;
    let mut found: Vec<MangaSeries> = Vec::new();
    let n = dirs.len();
    while dirs.len() > 0
        invariant
            found@.len() + dirs@.len() == n,
            n == input.len(),
            dirs@ == input.skip(found@.len() as int),
            forall|i: int| 0 <= i < found@.len() ==> {
                &&& (#[trigger] found@[i]).title@ == input[i].0@
                &&& found@[i].author@ == "Unknown"@
                &&& found@[i].cover_path@ == match input[i].1 {
                    Some(c) => c@,
                    None => Seq::empty(),
                }
                &&& found@[i].total_chapters == input[i].2
                &&& found@[i].genre@.len() == 0
                &&& found@[i].status@ == "Plan to Read"@
                &&& is_v4_uuid_text(found@[i].id@)
            },
        decreases dirs@.len(),
    {
        let ghost m = found@.len() as int;
        let (title, cover, chapters) = dirs.remove(0);
        assert(input[m] == (title, cover, chapters));
        assert(dirs@ =~= input.skip(m + 1));
        let cover_path = match cover {
            Some(c) => c,
            None => string_from_chars(&Vec::new()),
        };
        found.push(MangaSeries {
            id: new_series_id(),
            title,
            author: owned("Unknown"),
            cover_path,
            total_chapters: chapters,
            genre: Vec::new(),
            status: owned("Plan to Read"),
        });
    }
    found
}


// ─── Listing directories ───────────────────────────────────────────

/// The characters of each name.
pub open spec fn names_view(v: Seq<String>) -> Seq<Seq<char>> {
    v.map_values(|s: String| s@)
}

/// Names in code-point order, the order of `String`.
pub open spec fn names_sorted(s: Seq<Seq<char>>) -> bool {
    forall|i: int, j: int| 0 <= i < j < s.len() ==> !chars_lt(#[trigger] s[j], #[trigger] s[i])
}

/// Sort directory names in code-point order (the order of `String`): the same
/// names, each as often, in order.
pub fn sort_names(names: Vec<String>) -> (sorted: Vec<String>)
    ensures
        names_sorted(names_view(sorted@)),
        names_view(sorted@).to_multiset() == names_view(names@).to_multiset(),
{
    broadcast use vstd::seq_lib::group_to_multiset_ensures;
    let ghost input = names_view(names@);
    let mut rest = names;
    let mut sorted: Vec<String> = Vec::new();
    let mut chars: Vec<Vec<char>> = Vec::new();
    let ghost mut taken: int = 0;
    assert(input.take(0) =~= Seq::<Seq<char>>::empty());
    while rest.len() > 0
        invariant
            0 <= taken <= input.len(),
            names_view(rest@) == input.skip(taken),
            names_sorted(names_view(sorted@)),
            names_view(sorted@).to_multiset() == input.take(taken).to_multiset(),
            chars@.len() == sorted@.len(),
            forall|k: int| 0 <= k < chars@.len() ==> (#[trigger] chars@[k])@ == sorted@[k]@,
        decreases rest@.len(),
    {
        let ghost before = rest@;
        let name = rest.remove(0);
        proof {
            assert(names_view(before)[0] == name@);
            assert(names_view(rest@) =~= names_view(before).drop_first());
            assert(input.skip(taken).drop_first() =~= input.skip(taken + 1));
            assert(input.take(taken + 1) =~= input.take(taken).push(name@));
        }
        let c = chars_of(name.as_str());
        let ghost s = names_view(sorted@);
        let mut j = sorted.len();
        while j > 0 && chars_less(&c, &chars[j - 1])
            invariant
                j <= sorted@.len(),
                chars@.len() == sorted@.len(),
                s == names_view(sorted@),
                c@ == name@,
                forall|k: int| 0 <= k < chars@.len() ==> (#[trigger] chars@[k])@ == sorted@[k]@,
                forall|k: int| j <= k < s.len() ==> chars_lt(name@, #[trigger] s[k]),
            decreases j,
        {
            assert(chars@[j - 1]@ == s[j - 1]);
            j = j - 1;
        }
        proof {
            if j > 0 {
                assert(chars@[j - 1]@ == s[j - 1]);
            }
        }
        let ghost old_chars = chars@;
        let ghost old_sorted = sorted@;
        sorted.insert(j, name);
        chars.insert(j, c);
        proof {
            let t = names_view(sorted@);
            assert(t =~= s.insert(j as int, name@));
            assert forall|a: int, b: int| 0 <= a < b < t.len() implies !chars_lt(#[trigger] t[b], #[trigger] t[a]) by {
                let e = name@;
                if a < j && b < j {
                    assert(t[a] == s[a] && t[b] == s[b]);
                } else if a < j && b == j {
                    assert(t[a] == s[a] && t[b] == e);
                    if a < j - 1 {
                        assert(!chars_lt(s[j - 1], s[a]));
                    }
                    lemma_chars_lt_asym_total(s[a], s[j - 1]);
                    lemma_chars_lt_asym_total(s[j - 1], e);
                    lemma_chars_lt_trans(e, s[j - 1], s[a]);
                    lemma_chars_lt_trans(e, s[a], s[j - 1]);
                    lemma_chars_lt_trans(s[j - 1], e, s[a]);
                    lemma_chars_lt_trans(s[a], e, s[j - 1]);
                    lemma_chars_lt_trans(s[a], s[j - 1], e);
                    lemma_chars_lt_trans(s[j - 1], s[a], e);
                } else if a < j && b > j {
                    assert(t[a] == s[a] && t[b] == s[b - 1]);
                } else if a == j {
                    assert(t[a] == e && t[b] == s[b - 1]);
                    lemma_chars_lt_asym_total(e, s[b - 1]);
                } else {
                    assert(t[a] == s[a - 1] && t[b] == s[b - 1]);
                }
            }
            assert forall|k: int| 0 <= k < chars@.len() implies (#[trigger] chars@[k])@ == sorted@[k]@ by {
                if k < j {
                    assert(chars@[k] == old_chars[k] && sorted@[k] == old_sorted[k]);
                } else if k > j {
                    assert(chars@[k] == old_chars[k - 1] && sorted@[k] == old_sorted[k - 1]);
                }
            }
            vstd::seq_lib::to_multiset_insert(s, j as int, t[j as int]);
            assert(t[j as int] == s.insert(j as int, t[j as int])[j as int]);
            assert(names_view(sorted@).to_multiset() == s.to_multiset().insert(t[j as int]));
            vstd::seq_lib::to_multiset_build(input.take(taken), t[j as int]);
            assert(input.take(taken + 1) =~= input.take(taken).push(t[j as int]));
            taken = taken + 1;
        }
    }
    assert(input.take(input.len() as int) =~= input);
    sorted
}


/// The message for a chapter that is not there.
pub open spec fn missing_chapter_message(chapter_id: Seq<char>) -> Seq<char> {
    "Chapter '"@ + chapter_id + "' not found"@
}

/// The message for a page that is not there.
pub open spec fn missing_page_message(page_index: u32) -> Seq<char> {
    "Page "@ + decimal(page_index as nat) + " not found in chapter"@
}

/// Find the page `page_index` of the chapter `chapter_id` among a series'
/// chapters, given as (id, pages): the positions of the first chapter with that id
/// and of its first page with that index; or the message naming what is missing.
pub fn locate_page(chapters: &Vec<(String, Vec<PageInfo>)>, chapter_id: &str, page_index: u32) -> (r: Result<(usize, usize), String>)
    ensures
        match r {
            Ok((c, p)) => {
                &&& c < chapters@.len()
                &&& chapters@[c as int].0@ == chapter_id@
                &&& forall|j: int| 0 <= j < c ==> chapters@[j].0@ != chapter_id@
                &&& p < chapters@[c as int].1@.len()
                &&& chapters@[c as int].1@[p as int].index == page_index
                &&& forall|j: int| 0 <= j < p ==> chapters@[c as int].1@[j].index != page_index
            },
            Err(e) => {
                ||| (forall|j: int| 0 <= j < chapters@.len() ==> chapters@[j].0@ != chapter_id@)
                    && e@ == missing_chapter_message(chapter_id@)
                ||| exists|c: int| {
                        &&& 0 <= c < chapters@.len()
                        &&& chapters@[c].0@ == chapter_id@
                        &&& (forall|j: int| 0 <= j < c ==> chapters@[j].0@ != chapter_id@)
                        &&& (forall|j: int| 0 <= j < chapters@[c].1@.len() ==> chapters@[c].1@[j].index != page_index)
                    } && e@ == missing_page_message(page_index)
            },
        },
{
    let mut c: usize = 0;
    while c < chapters.len()
        invariant
            c <= chapters@.len(),
            forall|j: int| 0 <= j < c ==> chapters@[j].0@ != chapter_id@,
        decreases chapters.len() - c,
    {
        if str_eq(chapters[c].0.as_str(), chapter_id) {
            return match find_page(&chapters[c].1, page_index) {
                Some(p) => Ok((c, p)),
                None => {
                    let mut v: Vec<char> = Vec::new();
                    push_str(&mut v, "Page ");
                    push_decimal(&mut v, page_index as u64);
                    push_str(&mut v, " not found in chapter");
                    let ghost ci = c as int;
                    assert(chapters@[ci].0@ == chapter_id@);
                    Err(string_from_chars(&v))
                },
            };
        }
        c = c + 1;
    }
    Err(concat3("Chapter '", chapter_id, "' not found"))
}

} // verus!
