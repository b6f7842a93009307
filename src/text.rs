//! Characters, substring containment and line splitting.
use vstd::prelude::*;

verus! {

/// `pat` occurs in `text` as a contiguous run of characters.
pub open spec fn contains(text: Seq<char>, pat: Seq<char>) -> bool {
    exists|i: int|
        0 <= i && i + pat.len() <= text.len() && #[trigger] text.subrange(i, i + pat.len()) == pat
}

/// The characters of `s`, in order.
fn chars_of(s: &str) -> (r: Vec<char>)
    ensures
        r@ == s@,
{
    broadcast use vstd::string::group_string_axioms;

    let mut r: Vec<char> = Vec::new();
    for c in it: s.chars()
        invariant
            r@ == it.history(),
    {
        r.push(c);
    }
    r
}

/// Whether `pat` occurs in `text` starting at character `start`.
fn occurs_at(text: &Vec<char>, pat: &Vec<char>, start: usize) -> (r: bool)
    requires
        start + pat@.len() <= text@.len(),
    ensures
        r == (text@.subrange(start as int, start + pat@.len()) == pat@),
{
    let n: usize = text.len();
    let mut j: usize = 0;
    while j < pat.len()
        invariant
            j <= pat@.len(),
            n == text@.len(),
            start + pat@.len() <= text@.len(),
            forall|k: int| 0 <= k < j ==> text@[start + k] == pat@[k],
        decreases pat@.len() - j,
    {
        if text[start + j] != pat[j] {
            assert(text@.subrange(start as int, start + pat@.len())[j as int] != pat@[j as int]);
            return false;
        }
        j = j + 1;
    }
    assert(text@.subrange(start as int, start + pat@.len()) =~= pat@);
    true
}

/// Whether `query` occurs in `line`. The empty query occurs in every line.
pub fn contains_query(line: &str, query: &str) -> (r: bool)
    ensures
        r == contains(line@, query@),
{
    let text = chars_of(line);
    let pat = chars_of(query);
    if pat.len() > text.len() {
        return false;
    }
    let last: usize = text.len() - pat.len();
    let mut i: usize = 0;
    loop
        invariant
            i <= last,
            last + pat@.len() == text@.len(),
            text@ == line@,
            pat@ == query@,
            forall|k: int| 0 <= k < i ==> #[trigger] text@.subrange(k, k + pat@.len()) != pat@,
        decreases last - i,
    {
        if occurs_at(&text, &pat, i) {
            return true;
        }
        if i == last {
            return false;
        }
        i = i + 1;
    }
}

/// The views of a sequence of string slices.
pub open spec fn views(s: Seq<&str>) -> Seq<Seq<char>> {
    s.map_values(|l: &str| l@)
}

/// `line` without one final '\r', if it ends in one.
pub open spec fn trim_cr(line: Seq<char>) -> Seq<char> {
    if line.len() > 0 && line.last() == '\r' {
        line.drop_last()
    } else {
        line
    }
}

/// The lines of `cur + t`, where `cur` holds the characters read so far of
/// a line that has not ended yet. A line ends at each '\n', which is not
/// part of it, and loses one '\r' just before that '\n'. A last line without
/// '\n' is kept as it stands, if it is not empty.
pub open spec fn lines_after(cur: Seq<char>, t: Seq<char>) -> Seq<Seq<char>>
    decreases t.len(),
{
    if t.len() == 0 {
        if cur.len() == 0 {
            seq![]
        } else {
            seq![cur]
        }
    } else if t[0] == '\n' {
        seq![trim_cr(cur)] + lines_after(seq![], t.drop_first())
    } else {
        lines_after(cur.push(t[0]), t.drop_first())
    }
}

/// The lines of `t`: the text between line terminators ("\n" or "\r\n"),
/// in order. A final terminator does not start another line, and the empty
/// text has no lines.
pub open spec fn lines_of(t: Seq<char>) -> Seq<Seq<char>> {
    lines_after(seq![], t)
}

/// Splitting at the first '\n' gives the first line, then the lines of what
/// follows it.
proof fn lemma_lines_after_newline(cur: Seq<char>, head: Seq<char>, tail: Seq<char>)
    requires
        !head.contains('\n'),
    ensures
        lines_after(cur, head + seq!['\n'] + tail) == seq![trim_cr(cur + head)] + lines_of(tail),
    decreases head.len(),
{
    let t = head + seq!['\n'] + tail;
    if head.len() == 0 {
        assert(t.drop_first() =~= tail);
        assert(cur + head =~= cur);
    } else {
        assert(head[0] != '\n') by {
            if head[0] == '\n' {
                assert(head.contains('\n'));
            }
        }
        let rest = head.drop_first();
        assert(!rest.contains('\n')) by {
            if rest.contains('\n') {
                let i = choose|i: int| 0 <= i < rest.len() && rest[i] == '\n';
                assert(head[i + 1] == '\n');
            }
        }
        assert(t.drop_first() =~= rest + seq!['\n'] + tail);
        lemma_lines_after_newline(cur.push(head[0]), rest, tail);
        assert(cur.push(head[0]) + rest =~= cur + head);
    }
}

/// Text without '\n' is at most one line, read to its end.
pub(crate) proof fn lemma_lines_after_last(cur: Seq<char>, t: Seq<char>)
    requires
        !t.contains('\n'),
    ensures
        lines_after(cur, t) == (if (cur + t).len() == 0 {
            seq![]
        } else {
            seq![cur + t]
        }),
    decreases t.len(),
{
    if t.len() == 0 {
        assert(cur + t =~= cur);
    } else {
        assert(t[0] != '\n') by {
            if t[0] == '\n' {
                assert(t.contains('\n'));
            }
        }
        let rest = t.drop_first();
        assert(!rest.contains('\n')) by {
            if rest.contains('\n') {
                let i = choose|i: int| 0 <= i < rest.len() && rest[i] == '\n';
                assert(t[i + 1] == '\n');
            }
        }
        lemma_lines_after_last(cur.push(t[0]), rest);
        assert(cur.push(t[0]) + rest =~= cur + t);
    }
}

/// Relies on `str::split_once` with the pattern '\n': the text before the
/// first '\n' and the text after it, or `None` where `s` holds no '\n'.
#[verifier::external_body]
fn split_at_newline<'a>(s: &'a str) -> (r: Option<(&'a str, &'a str)>)
    ensures
        r matches Some((head, tail)) ==> s@ == head@ + seq!['\n'] + tail@ && !head@.contains(
            '\n',
        ),
        r is None ==> !s@.contains('\n'),
{
    s.split_once('\n')
}

/// `line` without one final '\r', if it ends in one.
fn strip_cr<'a>(line: &'a str) -> (r: &'a str)
    ensures
        r@ == trim_cr(line@),
{
    let n: usize = line.unicode_len();
    if n > 0 && line.get_char(n - 1) == '\r' {
        line.substring_char(0, n - 1)
    } else {
        line
    }
}

/// The lines of `content`, each a slice of it, in order.
pub fn split_lines<'a>(content: &'a str) -> (r: Vec<&'a str>)
    ensures
        views(r@) == lines_of(content@),
{
    let mut r: Vec<&'a str> = Vec::new();
    let mut rest: &'a str = content;
    loop
        invariant
            views(r@) + lines_of(rest@) == lines_of(content@),
        decreases rest@.len(),
    {
        let ghost done = r@;
        match split_at_newline(rest) {
            Some((head, tail)) => {
                proof {
                    lemma_lines_after_newline(seq![], head@, tail@);
                    assert(seq![] + head@ =~= head@);
                }
                let line = strip_cr(head);
                r.push(line);
                proof {
                    assert(views(r@) =~= views(done).push(line@));
                    assert(views(r@) + lines_of(tail@) =~= views(done) + lines_of(rest@));
                }
                rest = tail;
            },
            None => {
                proof {
                    lemma_lines_after_last(seq![], rest@);
                    assert(seq![] + rest@ =~= rest@);
                }
                if rest.is_empty() {
                    assert(views(r@) =~= views(r@) + lines_of(rest@));
                } else {
                    r.push(rest);
                    assert(views(r@) =~= views(done) + lines_of(rest@));
                }
                return r;
            },
        }
    }
}

} // verus!
