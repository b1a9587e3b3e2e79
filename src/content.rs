use vstd::prelude::*;
use crate::registry::HeaderItem;
use crate::text::{join_with, joined, str_eq, trim_str, trimmed, views};

verus! {

/// The line that opens a block of C declarations in documentation.
pub open spec fn fence_open() -> Seq<char> {
    seq!['`', '`', '`', 'c']
}

/// The line that closes a block of C declarations.
pub open spec fn fence_close() -> Seq<char> {
    seq!['`', '`', '`']
}

/// A comment line with no text.
pub open spec fn blank_comment() -> Seq<char> {
    seq!['/', '/']
}

/// A line of prose as a C comment line.
pub open spec fn comment_line(line: Seq<char>) -> Seq<char> {
    if line.len() == 0 {
        blank_comment()
    } else {
        seq!['/', '/', ' '] + line
    }
}

/// `lines` without the blank comment lines at its end.
pub open spec fn strip_blank_comments(lines: Seq<Seq<char>>) -> Seq<Seq<char>>
    decreases lines.len(),
{
    if lines.len() > 0 && lines.last() == blank_comment() {
        strip_blank_comments(lines.drop_last())
    } else {
        lines
    }
}

/// The state of the renderer between documentation lines: the lines emitted so
/// far, whether a declaration block is open, and whether blank lines are
/// currently dropped.
pub struct RenderState {
    pub emitted: Seq<Seq<char>>,
    pub in_decl: bool,
    pub skip_blank: bool,
}

/// The state before the first documentation line.
pub open spec fn initial_state() -> RenderState {
    RenderState { emitted: Seq::empty(), in_decl: false, skip_blank: true }
}

/// The effect of one documentation line on the renderer.
pub open spec fn render_step(st: RenderState, line: Seq<char>) -> RenderState {
    if st.in_decl {
        if trimmed(line) == fence_close() {
            RenderState { emitted: st.emitted, in_decl: false, skip_blank: true }
        } else {
            RenderState { emitted: st.emitted.push(line), ..st }
        }
    } else if st.skip_blank && line.len() == 0 {
        st
    } else if trimmed(line) == fence_open() {
        RenderState { emitted: strip_blank_comments(st.emitted), in_decl: true, ..st }
    } else {
        RenderState {
            emitted: st.emitted.push(comment_line(line)),
            in_decl: false,
            skip_blank: false,
        }
    }
}

/// The renderer's state after all of `doc`.
pub open spec fn render_state(doc: Seq<Seq<char>>) -> RenderState
    decreases doc.len(),
{
    if doc.len() == 0 {
        initial_state()
    } else {
        render_step(render_state(doc.drop_last()), doc.last())
    }
}

/// The C header content for documentation lines: prose as `//` comments,
/// fenced C blocks verbatim, no blank comment lines at the end, lines joined
/// with newlines.
pub open spec fn content_text(doc: Seq<Seq<char>>) -> Seq<char> {
    joined(strip_blank_comments(render_state(doc).emitted), seq!['\n'])
}

/// Remove the blank comment lines at the end of `lines`.
fn strip_trailing_blank_comments(lines: &mut Vec<String>)
    ensures
        views(final(lines)@) == strip_blank_comments(views(old(lines)@)),
{
    loop
        invariant
            strip_blank_comments(views(lines@)) == strip_blank_comments(views(old(lines)@)),
        decreases lines@.len(),
    {
        proof {
            reveal_strlit("//");
            assert("//"@ =~= blank_comment());
        }
        let n = lines.len();
        if n == 0 || !str_eq(lines[n - 1].as_str(), "//") {
            assert(n > 0 ==> views(lines@).last() == lines@[n - 1]@);
            return;
        }
        assert(views(lines@).last() == lines@[n - 1]@);
        let ghost before = lines@;
        lines.pop();
        assert(views(lines@) =~= views(before).drop_last());
    }
}

impl HeaderItem {
    /// Render documentation lines into C header content.  Prose lines become `//`
    /// comments, lines between a "```c" line and a "```" line are copied verbatim,
    /// blank lines before the first prose line and after a block are dropped, and
    /// so are blank comment lines just before a block and at the end.
    pub fn parse_content(doc: Vec<String>) -> (r: String)
        ensures
            r@ == content_text(views(doc@)),
    {
        let mut content: Vec<String> = Vec::new();
        let mut in_decl = false;
        let mut skip_blank = true;
        let mut i: usize = 0;
        assert(views(doc@.take(0)) =~= Seq::<Seq<char>>::empty());
        assert(views(content@) =~= Seq::<Seq<char>>::empty());
        while i < doc.len()
            invariant
                i <= doc@.len(),
                render_state(views(doc@.take(i as int))) == (RenderState {
                    emitted: views(content@),
                    in_decl,
                    skip_blank,
                }),
            decreases doc@.len() - i,
        {
            proof {
                reveal_strlit("```");
                reveal_strlit("```c");
                reveal_strlit("// ");
                reveal_strlit("//");
                assert("```"@ =~= fence_close());
                assert("```c"@ =~= fence_open());
                assert("// "@ =~= seq!['/', '/', ' ']);
                assert("//"@ =~= blank_comment());
            }
            let line = &doc[i];
            proof {
                assert(views(doc@.take(i + 1)) =~= views(doc@.take(i as int)).push(line@));
                assert(views(doc@.take(i + 1)).drop_last() =~= views(doc@.take(i as int)));
            }
            let ghost before = content@;
            let t = trim_str(line.as_str());
            if in_decl {
                if str_eq(t, "```") {
                    in_decl = false;
                    skip_blank = true;
                } else {
                    content.push(line.clone());
                    assert(views(content@) =~= views(before).push(line@));
                }
            } else if skip_blank && line.unicode_len() == 0 {
            } else if str_eq(t, "```c") {
                in_decl = true;
                strip_trailing_blank_comments(&mut content);
            } else {
                if line.unicode_len() > 0 {
                    let mut c = String::from_str("// ");
                    c.append(line.as_str());
                    content.push(c);
                } else {
                    content.push(String::from_str("//"));
                }
                skip_blank = false;
                assert(views(content@) =~= views(before).push(comment_line(line@)));
            }
            i = i + 1;
        }
        assert(doc@.take(doc@.len() as int) =~= doc@);
        proof {
            reveal_strlit("\n");
            assert("\n"@ =~= seq!['\n']);
        }
        strip_trailing_blank_comments(&mut content);
        join_with(&content, "\n")
    }
}

} // verus!
