use vstd::prelude::*;
use crate::registry::HeaderItem;
use crate::text::{is_white_space, views, white_space};

verus! {

/// `s` cut at each newline; a string without newlines is one line.
pub open spec fn split_lines(s: Seq<char>) -> Seq<Seq<char>>
    decreases s.len(),
{
    if s.len() == 0 {
        seq![Seq::empty()]
    } else {
        let rest = split_lines(s.drop_last());
        if s.last() == '\n' {
            rest.push(Seq::empty())
        } else {
            rest.update(rest.len() - 1, rest.last().push(s.last()))
        }
    }
}

proof fn lemma_split_lines_nonempty(s: Seq<char>)
    ensures
        split_lines(s).len() >= 1,
    decreases s.len(),
{
    if s.len() > 0 {
        lemma_split_lines_nonempty(s.drop_last());
    }
}

proof fn lemma_split_no_newline(s: Seq<char>)
    requires
        !s.contains('\n'),
    ensures
        split_lines(s) == seq![s],
    decreases s.len(),
{
    if s.len() > 0 {
        assert(!s.drop_last().contains('\n')) by {
            if s.drop_last().contains('\n') {
                let k = choose|k: int| 0 <= k < s.drop_last().len() && s.drop_last()[k] == '\n';
                assert(s[k] == '\n');
            }
        }
        lemma_split_no_newline(s.drop_last());
        assert(s[s.len() - 1] != '\n');
        assert(s.drop_last().push(s.last()) =~= s);
        assert(split_lines(s) =~= seq![s]);
    } else {
        assert(s =~= Seq::<char>::empty());
    }
}

proof fn lemma_split_after_newline(p: Seq<char>, q: Seq<char>)
    requires
        !q.contains('\n'),
    ensures
        split_lines(p + seq!['\n'] + q) == split_lines(p).push(q),
    decreases q.len(),
{
    let s = p + seq!['\n'] + q;
    if q.len() == 0 {
        assert(s.drop_last() =~= p);
        assert(q =~= Seq::<char>::empty());
        assert(s.last() == '\n');
        assert(split_lines(s) =~= split_lines(p).push(q));
    } else {
        assert(!q.drop_last().contains('\n')) by {
            if q.drop_last().contains('\n') {
                let k = choose|k: int| 0 <= k < q.drop_last().len() && q.drop_last()[k] == '\n';
                assert(q[k] == '\n');
            }
        }
        lemma_split_after_newline(p, q.drop_last());
        assert(s.drop_last() =~= p + seq!['\n'] + q.drop_last());
        assert(q[q.len() - 1] != '\n');
        assert(q.drop_last().push(q.last()) =~= q);
        assert(split_lines(s) =~= split_lines(p).push(q));
    }
}

/// A block comment made only of its opening and closing decoration, each on
/// its own line, holds no documentation lines.
pub proof fn lemma_marker_only_comment(open: Seq<char>, close: Seq<char>)
    requires
        is_boring(open),
        is_boring(close),
        !open.contains('\n'),
        !close.contains('\n'),
    ensures
        docstring_lines(open + seq!['\n'] + close) == Seq::<Seq<char>>::empty(),
{
    let s = open + seq!['\n'] + close;
    lemma_split_no_newline(open);
    lemma_split_after_newline(open, close);
    assert(s[open.len() as int] == '\n');
    assert(s.contains('\n'));
    assert(split_lines(s) =~= seq![open, close]);
    assert(block_body(s) =~= Seq::<Seq<char>>::empty());
}

/// A character of the decoration that starts each line of a block comment.
pub open spec fn is_marker(c: char) -> bool {
    white_space(c) || c == '*'
}

/// A line made only of decoration, such as the line holding a bare `/**`.
pub open spec fn is_boring(line: Seq<char>) -> bool {
    forall|j: int| 0 <= j < line.len() ==> is_marker(#[trigger] line[j])
}

/// The number of decoration characters at the start of `line`.
pub open spec fn marker_len(line: Seq<char>) -> nat
    decreases line.len(),
{
    if line.len() > 0 && is_marker(line[0]) {
        1 + marker_len(line.drop_first())
    } else {
        0
    }
}

/// `line` without `prefix`, where it starts with it; otherwise `line` itself.
pub open spec fn strip_prefix(line: Seq<char>, prefix: Seq<char>) -> Seq<char> {
    if prefix.is_prefix_of(line) {
        line.skip(prefix.len() as int)
    } else {
        line
    }
}

/// The lines of a block comment once a boring first line and a boring last
/// line are dropped.
pub open spec fn block_body(s: Seq<char>) -> Seq<Seq<char>> {
    let all = split_lines(s);
    let rest = if is_boring(all[0]) {
        all.drop_first()
    } else {
        all
    };
    if rest.len() > 0 && is_boring(rest.last()) {
        rest.drop_last()
    } else {
        rest
    }
}

/// The decoration that starts the last line of a block comment's body, taken
/// as the prefix common to its lines.
pub open spec fn block_prefix(body: Seq<Seq<char>>) -> Seq<char> {
    if body.len() == 0 {
        Seq::empty()
    } else {
        body.last().take(marker_len(body.last()) as int)
    }
}

/// The documentation lines held by the text of one doc attribute.  A text with
/// a newline comes from a block comment: boring first and last lines are
/// dropped and the prefix found on the last line is removed wherever it starts
/// a line.  Otherwise the text is one line comment, which loses one leading
/// space.
pub open spec fn docstring_lines(s: Seq<char>) -> Seq<Seq<char>> {
    if s.contains('\n') {
        let body = block_body(s);
        let prefix = block_prefix(body);
        body.map_values(|line: Seq<char>| strip_prefix(line, prefix))
    } else if s.len() > 0 && s[0] == ' ' {
        seq![s.drop_first()]
    } else {
        seq![s]
    }
}

/// Cut `s` at each newline, and tell whether it held any.
fn split_newlines(s: &str) -> (r: (Vec<String>, bool))
    ensures
        views(r.0@) == split_lines(s@),
        r.1 == s@.contains('\n'),
{
    let n = s.unicode_len();
    let mut lines: Vec<String> = Vec::new();
    let mut start: usize = 0;
    let mut i: usize = 0;
    assert(s@.take(0) =~= Seq::<char>::empty());
    while i < n
        invariant
            n == s@.len(),
            start <= i <= n,
            split_lines(s@.take(i as int)) == views(lines@).push(s@.subrange(start as int, i as int)),
            lines@.len() == 0 <==> (forall|j: int| 0 <= j < i ==> s@[j] != '\n'),
        decreases n - i,
    {
        let c = s.get_char(i);
        let ghost before = lines@;
        assert(s@.take(i + 1).drop_last() =~= s@.take(i as int));
        if c == '\n' {
            let ghost piece = s@.subrange(start as int, i as int);
            lines.push(String::from_str(s.substring_char(start, i)));
            start = i + 1;
            assert(views(lines@) =~= views(before).push(piece));
            assert(s@.subrange(start as int, i + 1) =~= Seq::<char>::empty());
        } else {
            assert(s@.subrange(start as int, i + 1) =~= s@.subrange(start as int, i as int).push(c));
        }
        i = i + 1;
    }
    assert(s@.take(n as int) =~= s@);
    let found = lines.len() > 0;
    let ghost before = lines@;
    lines.push(String::from_str(s.substring_char(start, n)));
    assert(views(lines@) =~= views(before).push(s@.subrange(start as int, n as int)));
    (lines, found)
}

fn is_marker_char(c: char) -> (r: bool)
    ensures
        r == is_marker(c),
{
    c == '*' || is_white_space(c)
}

fn boring(line: &str) -> (r: bool)
    ensures
        r == is_boring(line@),
{
    let n = line.unicode_len();
    let mut i: usize = 0;
    while i < n
        invariant
            n == line@.len(),
            i <= n,
            forall|j: int| 0 <= j < i ==> is_marker(#[trigger] line@[j]),
        decreases n - i,
    {
        if !is_marker_char(line.get_char(i)) {
            return false;
        }
        i = i + 1;
    }
    true
}

proof fn lemma_marker_len(line: Seq<char>, i: int)
    requires
        0 <= i <= line.len(),
        forall|j: int| 0 <= j < i ==> is_marker(#[trigger] line[j]),
        i == line.len() || !is_marker(line[i]),
    ensures
        marker_len(line) == i,
    decreases i,
{
    if i > 0 {
        let t = line.drop_first();
        assert forall|j: int| 0 <= j < i - 1 implies is_marker(#[trigger] t[j]) by {
            assert(t[j] == line[j + 1]);
        }
        lemma_marker_len(t, i - 1);
    }
}

/// The number of decoration characters at the start of `line`.
fn count_markers(line: &str) -> (r: usize)
    ensures
        r == marker_len(line@),
        r <= line@.len(),
{
    let n = line.unicode_len();
    let mut i: usize = 0;
    while i < n && is_marker_char(line.get_char(i))
        invariant
            n == line@.len(),
            i <= n,
            forall|j: int| 0 <= j < i ==> is_marker(#[trigger] line@[j]),
        decreases n - i,
    {
        i = i + 1;
    }
    proof {
        lemma_marker_len(line@, i as int);
    }
    i
}

/// Whether `line` starts with `prefix`.
fn starts_with(line: &str, prefix: &str) -> (r: bool)
    ensures
        r == prefix@.is_prefix_of(line@),
{
    let n = line.unicode_len();
    let m = prefix.unicode_len();
    if m > n {
        return false;
    }
    let mut i: usize = 0;
    while i < m
        invariant
            n == line@.len(),
            m == prefix@.len(),
            m <= n,
            i <= m,
            forall|j: int| 0 <= j < i ==> prefix@[j] == line@[j],
        decreases m - i,
    {
        if prefix.get_char(i) != line.get_char(i) {
            return false;
        }
        i = i + 1;
    }
    true
}

impl HeaderItem {
    /// Split the text of one doc attribute into documentation lines, without
    /// comment decoration: a block comment loses its boring first and last
    /// lines and the decoration prefix of its lines, a line comment loses one
    /// leading space.
    pub fn parse_docstring_attr(s: String) -> (r: Vec<String>)
        ensures
            views(r@) == docstring_lines(s@),
    {
        let (mut lines, multiline) = split_newlines(s.as_str());
        proof {
            lemma_split_lines_nonempty(s@);
        }
        if multiline {
            let ghost all = views(lines@);
            if boring(lines[0].as_str()) {
                lines.remove(0);
                assert(views(lines@) =~= all.drop_first());
            }
            let ghost rest = views(lines@);
            let n = lines.len();
            if n > 0 && boring(lines[n - 1].as_str()) {
                lines.pop();
                assert(views(lines@) =~= rest.drop_last());
            }
            let ghost body = views(lines@);
            assert(body == block_body(s@));
            let prefix = if lines.len() > 0 {
                let last = lines[lines.len() - 1].as_str();
                String::from_str(last.substring_char(0, count_markers(last)))
            } else {
                String::new()
            };
            assert(prefix@ == block_prefix(body));
            let plen = prefix.unicode_len();
            let mut out: Vec<String> = Vec::new();
            let mut k: usize = 0;
            while k < lines.len()
                invariant
                    k <= lines@.len(),
                    views(lines@) == body,
                    plen == prefix@.len(),
                    views(out@) =~= body.take(k as int).map_values(
                        |line: Seq<char>| strip_prefix(line, prefix@),
                    ),
                decreases lines@.len() - k,
            {
                let line = lines[k].as_str();
                let ghost before = out@;
                if starts_with(line, prefix.as_str()) {
                    out.push(String::from_str(line.substring_char(plen, line.unicode_len())));
                } else {
                    out.push(String::from_str(line));
                }
                proof {
                    assert(body[k as int] == line@);
                    assert(body.take(k + 1) =~= body.take(k as int).push(line@));
                    assert(views(out@) =~= views(before).push(strip_prefix(line@, prefix@)));
                }
                k = k + 1;
            }
            assert(body.take(body.len() as int) =~= body);
            out
        } else {
            let n = s.unicode_len();
            let mut out: Vec<String> = Vec::new();
            if n > 0 && s.as_str().get_char(0) == ' ' {
                out.push(String::from_str(s.as_str().substring_char(1, n)));
            } else {
                out.push(s);
            }
            assert(views(out@) =~= docstring_lines(s@));
            out
        }
    }
}

} // verus!
