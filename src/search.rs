use vstd::prelude::*;
use vstd::string::StrSliceExecFns;

use crate::filter::{
    is_subsequence, lemma_filter_all, lemma_filter_exact, lemma_filter_push,
    lemma_filter_subsequence,
};
use crate::lines::{lemma_pieces_nonempty, lines_of, pieces, strip_cr};
use crate::text::{chars_of, contains_in, has_substring};

verus! {

/// What `str::to_lowercase` makes of a text.
pub uninterp spec fn lower_of(s: Seq<char>) -> Seq<char>;

/// Relies on `str::to_lowercase`: the result depends on the characters alone,
/// and an empty text stays empty.
#[verifier::external_body]
fn lowercase(s: &str) -> (r: String)
    ensures
        r@ == lower_of(s@),
        s@.len() == 0 ==> r@.len() == 0,
{
    s.to_lowercase()
}

/// Whether line `l` is kept for the query `q`: by plain containment, or, with
/// `fold`, by containment of `q` in the lowercase form of `l` (`q` is then
/// expected to be lowercase already).
pub open spec fn line_matches(l: Seq<char>, q: Seq<char>, fold: bool) -> bool {
    if fold {
        has_substring(lower_of(l), q)
    } else {
        has_substring(l, q)
    }
}

/// The lines of `lines` that `line_matches` keeps, in their order.
pub open spec fn kept(lines: Seq<Seq<char>>, q: Seq<char>, fold: bool) -> Seq<Seq<char>> {
    lines.filter(|l: Seq<char>| line_matches(l, q, fold))
}

/// The lines of `contents` that contain `query`, in file order.
pub open spec fn search_result(query: Seq<char>, contents: Seq<char>) -> Seq<Seq<char>> {
    lines_of(contents).filter(|l: Seq<char>| has_substring(l, query))
}

/// The lines of `contents` whose lowercase form contains the lowercase form of
/// `query`, in file order and as they stand in `contents`.
pub open spec fn search_ci_result(query: Seq<char>, contents: Seq<char>) -> Seq<Seq<char>> {
    lines_of(contents).filter(|l: Seq<char>| has_substring(lower_of(l), lower_of(query)))
}

/// The empty text occurs in every text.
pub proof fn lemma_empty_occurs(t: Seq<char>)
    ensures
        has_substring(t, Seq::empty()),
{
    let e = Seq::<char>::empty();
    assert(t.subrange(0, 0int + e.len()) =~= e);
}

/// The texts that a sequence of string slices stands for.
pub open spec fn views<'a>(v: Seq<&'a str>) -> Seq<Seq<char>> {
    v.map_values(|x: &'a str| x@)
}

/// Appends `contents@[a..b]` to `out` when `line_matches` keeps it.
fn push_if_matches<'a>(
    out: &mut Vec<&'a str>,
    contents: &'a str,
    cs: &Vec<char>,
    a: usize,
    b: usize,
    q: &Vec<char>,
    fold: bool,
)
    requires
        cs@ == contents@,
        a <= b <= cs@.len(),
    ensures
        views(final(out)@) == (if line_matches(contents@.subrange(a as int, b as int), q@, fold) {
            views(old(out)@).push(contents@.subrange(a as int, b as int))
        } else {
            views(old(out)@)
        }),
{
    let keep = if fold {
        let line = contents.substring_char(a, b);
        let lower = lowercase(line);
        let lc = chars_of(lower.as_str());
        proof {
            assert(lc@.subrange(0, lc@.len() as int) =~= lc@);
        }
        contains_in(&lc, 0, lc.len(), q)
    } else {
        contains_in(cs, a, b, q)
    };
    if keep {
        let line = contents.substring_char(a, b);
        let ghost before = out@;
        out.push(line);
        proof {
            assert(views(out@) =~= views(before).push(line@));
        }
    }
}

/// The pieces of a prefix one character longer.
proof fn lemma_pieces_step(s: Seq<char>, i: int)
    requires
        0 <= i < s.len(),
    ensures
        pieces(s.subrange(0, i + 1)) == (if s[i] == '\n' {
            pieces(s.subrange(0, i)).push(Seq::empty())
        } else {
            let p = pieces(s.subrange(0, i));
            p.update(p.len() - 1, p.last().push(s[i]))
        }),
{
    assert(s.subrange(0, i + 1).drop_last() =~= s.subrange(0, i));
}

/// The lines of `contents` that `line_matches` keeps for `q`, as slices of
/// `contents`, in file order.
fn select_lines<'a>(contents: &'a str, q: &Vec<char>, fold: bool) -> (r: Vec<&'a str>)
    ensures
        views(r@) == kept(lines_of(contents@), q@, fold),
{
    let cs = chars_of(contents);
    let n = cs.len();
    let mut out: Vec<&'a str> = Vec::new();
    let mut start: usize = 0;
    let mut i: usize = 0;
    let ghost pred = |l: Seq<char>| line_matches(l, q@, fold);
    proof {
        assert(cs@.subrange(0, 0) =~= Seq::<char>::empty());
        assert(pieces(cs@.subrange(0, 0)).drop_last().map_values(|l: Seq<char>| strip_cr(l))
            =~= Seq::empty());
        reveal(Seq::filter);
    }
    while i < n
        invariant
            cs@ == contents@,
            n == cs@.len(),
            start <= i <= n,
            pred == (|l: Seq<char>| line_matches(l, q@, fold)),
            pieces(cs@.subrange(0, i as int)).last() == cs@.subrange(start as int, i as int),
            views(out@) == pieces(cs@.subrange(0, i as int)).drop_last().map_values(
                |l: Seq<char>| strip_cr(l),
            ).filter(pred),
        decreases n - i,
    {
        let ghost p0 = pieces(cs@.subrange(0, i as int));
        let ghost done0 = p0.drop_last().map_values(|l: Seq<char>| strip_cr(l));
        proof {
            lemma_pieces_step(cs@, i as int);
            lemma_pieces_nonempty(cs@.subrange(0, i as int));
        }
        if cs[i] == '\n' {
            let end = if i > start && cs[i - 1] == '\r' {
                i - 1
            } else {
                i
            };
            proof {
                let line = cs@.subrange(start as int, i as int);
                assert(cs@.subrange(start as int, end as int) =~= strip_cr(line));
                let p1 = p0.push(Seq::<char>::empty());
                assert(p1.drop_last() =~= p0);
                assert(p0.map_values(|l: Seq<char>| strip_cr(l)) =~= done0.push(strip_cr(p0.last())))
                    by {
                    assert(p0 =~= p0.drop_last().push(p0.last()));
                }
                lemma_filter_push(done0, strip_cr(line), pred);
            }
            push_if_matches(&mut out, contents, &cs, start, end, q, fold);
            start = i + 1;
        } else {
            proof {
                let p1 = p0.update(p0.len() - 1, p0.last().push(cs@[i as int]));
                assert(p1.drop_last() =~= p0.drop_last());
                assert(p1.last() =~= cs@.subrange(start as int, i + 1));
            }
        }
        i = i + 1;
    }
    proof {
        assert(cs@.subrange(0, n as int) =~= contents@);
        lemma_pieces_nonempty(contents@);
    }
    if start < n {
        proof {
            lemma_filter_push(
                pieces(contents@).drop_last().map_values(|l: Seq<char>| strip_cr(l)),
                cs@.subrange(start as int, n as int),
                pred,
            );
        }
        push_if_matches(&mut out, contents, &cs, start, n, q, fold);
    }
    out
}

/// Every line of `contents` that contains `text`, in file order, as slices of
/// `contents`.
pub fn search<'a>(text: &str, contents: &'a str) -> (r: Vec<&'a str>)
    ensures
        views(r@) == search_result(text@, contents@),
        text@.len() == 0 ==> views(r@) == lines_of(contents@),
{
    let q = chars_of(text);
    let r = select_lines(contents, &q, false);
    proof {
        assert((|l: Seq<char>| line_matches(l, text@, false)) =~= (|l: Seq<char>|
            has_substring(l, text@)));
        if text@.len() == 0 {
            lemma_search_empty_query(contents@);
            assert(text@ =~= Seq::<char>::empty());
        }
    }
    r
}

/// Every line of `contents` whose lowercase form contains the lowercase form
/// of `text`, in file order, as slices of `contents` (their case unchanged).
pub fn search_case_insensitive<'a>(text: &str, contents: &'a str) -> (r: Vec<&'a str>)
    ensures
        views(r@) == search_ci_result(text@, contents@),
        text@.len() == 0 ==> views(r@) == lines_of(contents@),
{
    let lower = lowercase(text);
    let q = chars_of(lower.as_str());
    let r = select_lines(contents, &q, true);
    proof {
        assert((|l: Seq<char>| line_matches(l, lower_of(text@), true)) =~= (|l: Seq<char>|
            has_substring(lower_of(l), lower_of(text@))));
        if text@.len() == 0 {
            let p = |l: Seq<char>| line_matches(l, lower_of(text@), true);
            assert(lower_of(text@) =~= Seq::<char>::empty());
            assert forall|l: Seq<char>| #[trigger] p(l) by {
                lemma_empty_occurs(lower_of(l));
            }
            lemma_filter_all(lines_of(contents@), p);
        }
    }
    r
}

/// A line of `contents` is in the result of `search` exactly when it contains
/// `query`, and every line of the result contains it.
pub proof fn lemma_search_exact(query: Seq<char>, contents: Seq<char>)
    ensures
        forall|k: int|
            0 <= k < lines_of(contents).len() ==> (#[trigger] search_result(
                query,
                contents,
            ).contains(lines_of(contents)[k]) <==> has_substring(lines_of(contents)[k], query)),
        forall|k: int|
            0 <= k < search_result(query, contents).len() ==> has_substring(
                #[trigger] search_result(query, contents)[k],
                query,
            ),
{
    lemma_filter_exact(lines_of(contents), |l: Seq<char>| has_substring(l, query));
}

/// A line of `contents` is in the result of `search_case_insensitive` exactly
/// when its lowercase form contains the lowercase form of `query`, and every
/// line of the result is such a line.
pub proof fn lemma_search_case_insensitive_exact(query: Seq<char>, contents: Seq<char>)
    ensures
        forall|k: int|
            0 <= k < lines_of(contents).len() ==> (#[trigger] search_ci_result(
                query,
                contents,
            ).contains(lines_of(contents)[k]) <==> has_substring(
                lower_of(lines_of(contents)[k]),
                lower_of(query),
            )),
        forall|k: int|
            0 <= k < search_ci_result(query, contents).len() ==> has_substring(
                lower_of(#[trigger] search_ci_result(query, contents)[k]),
                lower_of(query),
            ),
{
    lemma_filter_exact(
        lines_of(contents),
        |l: Seq<char>| has_substring(lower_of(l), lower_of(query)),
    );
}

/// Both searches return lines of `contents` exactly as they stand there, in
/// the order of the file: their results are subsequences of the lines.
pub proof fn lemma_results_keep_order(query: Seq<char>, contents: Seq<char>)
    ensures
        is_subsequence(search_result(query, contents), lines_of(contents)),
        is_subsequence(search_ci_result(query, contents), lines_of(contents)),
{
    lemma_filter_subsequence(lines_of(contents), |l: Seq<char>| has_substring(l, query));
    lemma_filter_subsequence(
        lines_of(contents),
        |l: Seq<char>| has_substring(lower_of(l), lower_of(query)),
    );
}

/// With an empty query, `search` returns every line of `contents` unchanged.
pub proof fn lemma_search_empty_query(contents: Seq<char>)
    ensures
        search_result(Seq::empty(), contents) == lines_of(contents),
{
    let p = |l: Seq<char>| has_substring(l, Seq::empty());
    assert forall|l: Seq<char>| #[trigger] p(l) by {
        lemma_empty_occurs(l);
    }
    lemma_filter_all(lines_of(contents), p);
}

} // verus!
