//! The two search modes: exact and case-insensitive.
use vstd::prelude::*;
use crate::text::{contains, contains_query, lemma_lines_after_last, lines_of, split_lines, views};

verus! {

/// The lowercase form of a text, as `str::to_lowercase` gives it.
pub uninterp spec fn lower_of(s: Seq<char>) -> Seq<char>;

/// Relies on `str::to_lowercase`: its result depends on the characters of
/// `s` alone.
#[verifier::external_body]
fn lowercase(s: &str) -> (r: String)
    ensures
        r@ == lower_of(s@),
{
    s.to_lowercase()
}

/// A line holds `query` exactly.
pub open spec fn holds(query: Seq<char>) -> spec_fn(Seq<char>) -> bool {
    |line: Seq<char>| contains(line, query)
}

/// The lowercase form of a line holds the lowercase form of `query`.
pub open spec fn holds_folded(query: Seq<char>) -> spec_fn(Seq<char>) -> bool {
    |line: Seq<char>| contains(lower_of(line), lower_of(query))
}

/// The lines of `content` that hold `query`, in order.
pub open spec fn matching_lines(query: Seq<char>, content: Seq<char>) -> Seq<Seq<char>> {
    lines_of(content).filter(holds(query))
}

/// The lines of `content` that hold `query` when both are lowercased, in
/// order and as they stand in `content`.
pub open spec fn matching_lines_folded(query: Seq<char>, content: Seq<char>) -> Seq<Seq<char>> {
    lines_of(content).filter(holds_folded(query))
}

/// Filtering a sequence with one more element at its end.
proof fn lemma_filter_push(s: Seq<Seq<char>>, x: Seq<char>, pred: spec_fn(Seq<char>) -> bool)
    ensures
        s.push(x).filter(pred) == (if pred(x) {
            s.filter(pred).push(x)
        } else {
            s.filter(pred)
        }),
{
    reveal(Seq::filter);
    assert(s.push(x).drop_last() =~= s);
}

/// The lines of `content` that hold `query`, in the order in which they
/// stand there. Each is a slice of `content`.
pub fn search<'a>(query: &str, content: &'a str) -> (r: Vec<&'a str>)
    ensures
        views(r@) == matching_lines(query@, content@),
{
    let lines = split_lines(content);
    let mut r: Vec<&'a str> = Vec::new();
    let mut i: usize = 0;
    while i < lines.len()
        invariant
            i <= lines@.len(),
            views(lines@) == lines_of(content@),
            views(r@) == views(lines@.take(i as int)).filter(holds(query@)),
        decreases lines@.len() - i,
    {
        let line = lines[i];
        let ghost before = r@;
        proof {
            assert(views(lines@.take(i + 1)) =~= views(lines@.take(i as int)).push(line@));
            lemma_filter_push(views(lines@.take(i as int)), line@, holds(query@));
        }
        if contains_query(line, query) {
            r.push(line);
            assert(views(r@) =~= views(before).push(line@));
        }
        i = i + 1;
    }
    assert(lines@.take(i as int) =~= lines@);
    r
}

/// The lines of `content` whose lowercase form holds the lowercase form of
/// `query`, in the order in which they stand there and as they stand there.
/// The query is lowercased once.
pub fn search_case_insensitive<'a>(query: &str, content: &'a str) -> (r: Vec<&'a str>)
    ensures
        views(r@) == matching_lines_folded(query@, content@),
{
    let folded_query = lowercase(query);
    let lines = split_lines(content);
    let mut r: Vec<&'a str> = Vec::new();
    let mut i: usize = 0;
    while i < lines.len()
        invariant
            i <= lines@.len(),
            views(lines@) == lines_of(content@),
            folded_query@ == lower_of(query@),
            views(r@) == views(lines@.take(i as int)).filter(holds_folded(query@)),
        decreases lines@.len() - i,
    {
        let line = lines[i];
        let ghost before = r@;
        proof {
            assert(views(lines@.take(i + 1)) =~= views(lines@.take(i as int)).push(line@));
            lemma_filter_push(views(lines@.take(i as int)), line@, holds_folded(query@));
        }
        let folded_line = lowercase(line);
        if contains_query(folded_line.as_str(), folded_query.as_str()) {
            r.push(line);
            assert(views(r@) =~= views(before).push(line@));
        }
        i = i + 1;
    }
    assert(lines@.take(i as int) =~= lines@);
    r
}

/// `pos` lists, for each element of `sub`, a position of `s` that holds it,
/// and the positions rise strictly.
pub open spec fn is_position_list(pos: Seq<int>, sub: Seq<Seq<char>>, s: Seq<Seq<char>>) -> bool {
    &&& pos.len() == sub.len()
    &&& forall|k: int| 0 <= k < pos.len() ==> 0 <= #[trigger] pos[k] < s.len() && s[pos[k]] == sub[k]
    &&& forall|j: int, k: int| 0 <= j < k < pos.len() ==> #[trigger] pos[j] < #[trigger] pos[k]
}

/// `sub` is made of elements of `s` taken in the order in which they stand
/// there, each position used at most once.
pub open spec fn is_ordered_subsequence(sub: Seq<Seq<char>>, s: Seq<Seq<char>>) -> bool {
    exists|pos: Seq<int>| #[trigger] is_position_list(pos, sub, s)
}

/// Filtering keeps the order of what it keeps.
proof fn lemma_filter_ordered(s: Seq<Seq<char>>, pred: spec_fn(Seq<char>) -> bool)
    ensures
        is_ordered_subsequence(s.filter(pred), s),
    decreases s.len(),
{
    reveal(Seq::filter);
    if s.len() == 0 {
        let pos: Seq<int> = seq![];
        assert(is_position_list(pos, s.filter(pred), s));
    } else {
        let rest = s.drop_last();
        lemma_filter_ordered(rest, pred);
        let sub = rest.filter(pred);
        let pos = choose|pos: Seq<int>| is_position_list(pos, sub, rest);
        if pred(s.last()) {
            let pos2 = pos.push(s.len() - 1);
            assert(is_position_list(pos2, s.filter(pred), s));
        } else {
            assert(is_position_list(pos, s.filter(pred), s));
        }
    }
}

/// Filtering with a condition that every element meets keeps them all.
proof fn lemma_filter_all(s: Seq<Seq<char>>, pred: spec_fn(Seq<char>) -> bool)
    requires
        forall|x: Seq<char>| #[trigger] pred(x),
    ensures
        s.filter(pred) == s,
    decreases s.len(),
{
    reveal(Seq::filter);
    if s.len() > 0 {
        lemma_filter_all(s.drop_last(), pred);
        assert(s.drop_last().push(s.last()) =~= s);
    }
}

/// A single line (a non-empty text without '\n') is found by a non-empty
/// query exactly when the query occurs in it, and then it is returned as it
/// is.
pub proof fn lemma_search_single_line(query: Seq<char>, line: Seq<char>)
    requires
        query.len() > 0,
        !line.contains('\n'),
    ensures
        matching_lines(query, line) == (if contains(line, query) {
            seq![line]
        } else {
            seq![]
        }),
{
    let none = Seq::<Seq<char>>::empty();
    reveal(Seq::filter);
    lemma_lines_after_last(seq![], line);
    assert(seq![] + line =~= line);
    assert(none.filter(holds(query)) == none);
    if line.len() > 0 {
        lemma_filter_push(none, line, holds(query));
        assert(none.push(line) =~= seq![line]);
    }
}

/// A single line (a non-empty text without '\n') is found by the
/// case-insensitive search exactly when the lowercase query occurs in the
/// lowercase line, and then it is returned in its own case.
pub proof fn lemma_search_case_insensitive_single_line(query: Seq<char>, line: Seq<char>)
    requires
        line.len() > 0,
        !line.contains('\n'),
    ensures
        matching_lines_folded(query, line) == (if contains(lower_of(line), lower_of(query)) {
            seq![line]
        } else {
            seq![]
        }),
{
    let none = Seq::<Seq<char>>::empty();
    reveal(Seq::filter);
    lemma_lines_after_last(seq![], line);
    assert(seq![] + line =~= line);
    assert(none.filter(holds_folded(query)) == none);
    lemma_filter_push(none, line, holds_folded(query));
    assert(none.push(line) =~= seq![line]);
}

/// Both searches return the lines they find in the order in which those
/// lines stand in the text.
pub proof fn lemma_matches_keep_order(query: Seq<char>, content: Seq<char>)
    ensures
        is_ordered_subsequence(matching_lines(query, content), lines_of(content)),
        is_ordered_subsequence(matching_lines_folded(query, content), lines_of(content)),
{
    lemma_filter_ordered(lines_of(content), holds(query));
    lemma_filter_ordered(lines_of(content), holds_folded(query));
}

/// The empty query finds every line of the text, unchanged.
pub proof fn lemma_empty_query_matches_all(content: Seq<char>)
    ensures
        matching_lines(seq![], content) == lines_of(content),
{
    assert forall|line: Seq<char>| #[trigger] holds(seq![])(line) by {
        let none = Seq::<char>::empty();
        assert(line.subrange(0, 0 + none.len() as int) =~= none);
    }
    lemma_filter_all(lines_of(content), holds(seq![]));
}

} // verus!
