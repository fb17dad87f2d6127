//! The search functions: every line of the contents that contains the query,
//! in original order, matched case-sensitively or case-insensitively.

use vstd::prelude::*;

use crate::casefold::lower_of;
use crate::casefold::lowercase;
use crate::config::Config;
use crate::lines::line_split;
use crate::lines::split_lines;
use crate::substring::contains_at;
use crate::substring::contains_substring;
use crate::substring::str_contains;

verus! {

/// The lines among `lines` that contain `query`, in order.
pub open spec fn filter_matching(lines: Seq<Seq<char>>, query: Seq<char>) -> Seq<Seq<char>> {
    lines.filter(|l: Seq<char>| contains_substring(l, query))
}

/// The lines among `lines` whose lowercase form contains the lowercase form
/// of `query`, in order.
pub open spec fn filter_matching_fold(lines: Seq<Seq<char>>, query: Seq<char>) -> Seq<Seq<char>> {
    lines.filter(|l: Seq<char>| contains_substring(lower_of(l), lower_of(query)))
}

/// What `search` returns: the lines of `contents` that contain `query`.
pub open spec fn search_spec(query: Seq<char>, contents: Seq<char>) -> Seq<Seq<char>> {
    filter_matching(line_split(contents), query)
}

/// What `search_case_insensitive` returns: the lines of `contents` that
/// contain `query` once both are case-folded; the lines themselves are
/// returned unfolded.
pub open spec fn search_insensitive_spec(query: Seq<char>, contents: Seq<char>) -> Seq<Seq<char>> {
    filter_matching_fold(line_split(contents), query)
}

proof fn lemma_filter_matching_push(s: Seq<Seq<char>>, query: Seq<char>, x: Seq<char>)
    ensures
        filter_matching(s.push(x), query) == if contains_substring(x, query) {
            filter_matching(s, query).push(x)
        } else {
            filter_matching(s, query)
        },
{
    reveal(Seq::filter);
    assert(s.push(x).drop_last() =~= s);
}

proof fn lemma_filter_matching_fold_push(s: Seq<Seq<char>>, query: Seq<char>, x: Seq<char>)
    ensures
        filter_matching_fold(s.push(x), query) == if contains_substring(
            lower_of(x),
            lower_of(query),
        ) {
            filter_matching_fold(s, query).push(x)
        } else {
            filter_matching_fold(s, query)
        },
{
    reveal(Seq::filter);
    assert(s.push(x).drop_last() =~= s);
}

proof fn lemma_filter_matching_props(lines: Seq<Seq<char>>, query: Seq<char>)
    ensures
        forall|i: int|
            0 <= i < filter_matching(lines, query).len() ==> lines.contains(
                #[trigger] filter_matching(lines, query)[i],
            ) && contains_substring(filter_matching(lines, query)[i], query),
        forall|i: int|
            0 <= i < lines.len() && contains_substring(#[trigger] lines[i], query)
                ==> filter_matching(lines, query).contains(lines[i]),
    decreases lines.len(),
{
    reveal(Seq::filter);
    if lines.len() == 0 {
    } else {
        let dl = lines.drop_last();
        let last = lines.last();
        lemma_filter_matching_props(dl, query);
        let f = filter_matching(lines, query);
        let fdl = filter_matching(dl, query);
        assert forall|i: int|
            0 <= i < f.len() implies lines.contains(f[i]) && contains_substring(f[i], query) by {
            if i < fdl.len() {
                assert(f[i] == fdl[i]);
                let k = choose|k: int| 0 <= k < dl.len() && dl[k] == fdl[i];
                assert(lines[k] == fdl[i]);
            } else {
                assert(f[i] == last);
                assert(lines[lines.len() - 1] == last);
            }
        }
        assert forall|i: int|
            0 <= i < lines.len() && contains_substring(#[trigger] lines[i], query) implies f
            .contains(lines[i]) by {
            if i < lines.len() - 1 {
                assert(dl[i] == lines[i]);
                let k = choose|k: int| 0 <= k < fdl.len() && fdl[k] == dl[i];
                assert(f[k] == fdl[k]);
            } else {
                assert(lines[i] == last);
                assert(f[f.len() - 1] == last);
            }
        }
    }
}

/// Searching is exact: every returned line is one of the contents' lines and
/// contains the query, and every line of the contents that contains the
/// query is returned.
pub proof fn lemma_search_exact(query: Seq<char>, contents: Seq<char>)
    ensures
        forall|i: int|
            0 <= i < search_spec(query, contents).len() ==> line_split(contents).contains(
                #[trigger] search_spec(query, contents)[i],
            ) && contains_substring(search_spec(query, contents)[i], query),
        forall|i: int|
            0 <= i < line_split(contents).len() && contains_substring(
                #[trigger] line_split(contents)[i],
                query,
            ) ==> search_spec(query, contents).contains(line_split(contents)[i]),
{
    lemma_filter_matching_props(line_split(contents), query);
}

/// Searching is deterministic: any two results that meet `search`'s contract
/// for the same query and contents are equal, element for element and in
/// order, so running the search twice yields identical results.
pub proof fn lemma_search_deterministic(
    query: Seq<char>,
    contents: Seq<char>,
    r1: Seq<Seq<char>>,
    r2: Seq<Seq<char>>,
)
    requires
        r1 == search_spec(query, contents),
        r2 == search_spec(query, contents),
    ensures
        r1 == r2,
{
}

/// Case folding loses no match among `lines`: on every line that contains
/// `query`, containment survives lowercasing both. `str::to_lowercase` does
/// not guarantee this for every Unicode text (folding a character can depend
/// on its neighbours), so the count comparison below assumes it.
pub open spec fn folding_preserves_matches(lines: Seq<Seq<char>>, query: Seq<char>) -> bool {
    forall|i: int|
        0 <= i < lines.len() && contains_substring(#[trigger] lines[i], query)
            ==> contains_substring(lower_of(lines[i]), lower_of(query))
}

proof fn lemma_filter_fold_no_fewer(lines: Seq<Seq<char>>, query: Seq<char>)
    requires
        folding_preserves_matches(lines, query),
    ensures
        filter_matching_fold(lines, query).len() >= filter_matching(lines, query).len(),
    decreases lines.len(),
{
    reveal(Seq::filter);
    if lines.len() == 0 {
    } else {
        let dl = lines.drop_last();
        assert(folding_preserves_matches(dl, query)) by {
            assert forall|i: int|
                0 <= i < dl.len() && contains_substring(#[trigger] dl[i], query) implies
                contains_substring(lower_of(dl[i]), lower_of(query)) by {
                assert(dl[i] == lines[i]);
            }
        }
        lemma_filter_fold_no_fewer(dl, query);
        if contains_substring(lines.last(), query) {
            assert(lines[lines.len() - 1] == lines.last());
            assert(contains_substring(lower_of(lines.last()), lower_of(query)));
        }
    }
}

/// Wherever case folding loses no match, the case-insensitive search returns
/// at least as many lines as the case-sensitive one.
pub proof fn lemma_insensitive_finds_no_fewer(query: Seq<char>, contents: Seq<char>)
    requires
        folding_preserves_matches(line_split(contents), query),
    ensures
        search_insensitive_spec(query, contents).len() >= search_spec(query, contents).len(),
{
    lemma_filter_fold_no_fewer(line_split(contents), query);
}

proof fn lemma_filter_matching_empty_query(lines: Seq<Seq<char>>)
    ensures
        filter_matching(lines, Seq::empty()) == lines,
    decreases lines.len(),
{
    reveal(Seq::filter);
    if lines.len() == 0 {
        assert(filter_matching(lines, Seq::empty()) =~= lines);
    } else {
        lemma_filter_matching_empty_query(lines.drop_last());
        assert(contains_at(lines.last(), Seq::empty(), 0)) by {
            assert(lines.last().subrange(0, 0) =~= Seq::<char>::empty());
        }
        assert(contains_substring(lines.last(), Seq::empty()));
        assert(filter_matching(lines, Seq::empty()) =~= lines);
    }
}

/// An empty query matches every line: searching for it returns all lines of
/// the contents, unchanged and in order.
pub proof fn lemma_empty_query_matches_all(contents: Seq<char>)
    ensures
        search_spec(Seq::empty(), contents) == line_split(contents),
{
    lemma_filter_matching_empty_query(line_split(contents));
}

/// Case-sensitive search: every line of `contents` that contains `query` as
/// a substring, in original order, as views into `contents`.
pub fn search<'a>(query: &str, contents: &'a str) -> (r: Vec<&'a str>)
    ensures
        r.deep_view() == search_spec(query@, contents@),
{
    let lines = split_lines(contents);
    let mut r: Vec<&'a str> = Vec::new();
    let mut idx: usize = 0;
    proof {
        assert(lines.deep_view().subrange(0, 0) =~= Seq::<Seq<char>>::empty());
        assert(filter_matching(Seq::empty(), query@) =~= Seq::<Seq<char>>::empty()) by {
            reveal(Seq::filter);
        }
        assert(r.deep_view() =~= Seq::<Seq<char>>::empty());
    }
    while idx < lines.len()
        invariant
            lines.deep_view() == line_split(contents@),
            lines@.len() == lines.deep_view().len(),
            idx <= lines@.len(),
            r.deep_view() == filter_matching(lines.deep_view().subrange(0, idx as int), query@),
        decreases lines@.len() - idx,
    {
        let line: &'a str = lines[idx];
        let ghost prefix = lines.deep_view().subrange(0, idx as int);
        proof {
            lemma_filter_matching_push(prefix, query@, line@);
            assert(prefix.push(line@) =~= lines.deep_view().subrange(0, idx + 1));
        }
        if str_contains(line, query) {
            let ghost old_dv = r.deep_view();
            r.push(line);
            proof {
                assert(r.deep_view() =~= old_dv.push(line@));
            }
        }
        idx += 1;
    }
    proof {
        assert(lines.deep_view().subrange(0, lines@.len() as int) =~= lines.deep_view());
    }
    r
}

/// Case-insensitive search: every line of `contents` whose lowercase form
/// contains the lowercase form of `query`, in original order; the returned
/// lines are the original, unfolded views into `contents`.
pub fn search_case_insensitive<'a>(query: &str, contents: &'a str) -> (r: Vec<&'a str>)
    ensures
        r.deep_view() == search_insensitive_spec(query@, contents@),
{
    let query_folded = lowercase(query);
    let lines = split_lines(contents);
    let mut r: Vec<&'a str> = Vec::new();
    let mut idx: usize = 0;
    proof {
        assert(lines.deep_view().subrange(0, 0) =~= Seq::<Seq<char>>::empty());
        assert(filter_matching_fold(Seq::empty(), query@) =~= Seq::<Seq<char>>::empty()) by {
            reveal(Seq::filter);
        }
        assert(r.deep_view() =~= Seq::<Seq<char>>::empty());
    }
    while idx < lines.len()
        invariant
            lines.deep_view() == line_split(contents@),
            lines@.len() == lines.deep_view().len(),
            idx <= lines@.len(),
            query_folded@ == lower_of(query@),
            r.deep_view() == filter_matching_fold(
                lines.deep_view().subrange(0, idx as int),
                query@,
            ),
        decreases lines@.len() - idx,
    {
        let line: &'a str = lines[idx];
        let line_folded = lowercase(line);
        let ghost prefix = lines.deep_view().subrange(0, idx as int);
        proof {
            lemma_filter_matching_fold_push(prefix, query@, line@);
            assert(prefix.push(line@) =~= lines.deep_view().subrange(0, idx + 1));
        }
        if str_contains(line_folded.as_str(), query_folded.as_str()) {
            let ghost old_dv = r.deep_view();
            r.push(line);
            proof {
                assert(r.deep_view() =~= old_dv.push(line@));
            }
        }
        idx += 1;
    }
    proof {
        assert(lines.deep_view().subrange(0, lines@.len() as int) =~= lines.deep_view());
    }
    r
}

/// The search that a configuration asks for: case-sensitive or
/// case-insensitive matching of the configuration's query against
/// `contents`, by its `case_sensitive` field.
pub fn search_with_config<'a>(config: &Config, contents: &'a str) -> (r: Vec<&'a str>)
    ensures
        config.case_sensitive ==> r.deep_view() == search_spec(config.query@, contents@),
        !config.case_sensitive ==> r.deep_view() == search_insensitive_spec(
            config.query@,
            contents@,
        ),
{
    if config.case_sensitive {
        search(config.query.as_str(), contents)
    } else {
        search_case_insensitive(config.query.as_str(), contents)
    }
}

} // verus!
