//! The rendering of a tree as text, one node or token to a line.

use crate::error::ParseError;
use crate::ranges::{
    end_of, is_layout, layout, lemma_offset_step, lemma_offset_step_zero, offset_at, same_steps,
    start_of, strip, text_len,
};
use crate::syntax::SyntaxKind;
use crate::text::{
    byte_len, char_width, chars_of, decimal, lemma_byte_len_concat, lemma_byte_len_push,
    push_decimal, width_of,
};
use crate::tree::{leaf_text, steps_of, TreeItem, TreeStep};
use vstd::prelude::*;
use vstd::string::StringExecFns;

verus! {

/// A text in quotes, with the characters escaped that `Debug` escapes.
pub uninterp spec fn debug_quoted(text: Seq<char>) -> Seq<char>;

/// The `Debug` formatting of `str` of std: the text in double quotes, with
/// escapes.
#[verifier::external_body]
fn quote(text: &str) -> (quoted: String)
    ensures
        quoted@ == debug_quoted(text@),
{
    format!("{:?}", text)
}

/// The number of characters of the shortest stretch of `text` from `from`
/// on that brings `bytes` to 21 bytes or more.
pub open spec fn cut_end(text: Seq<char>, from: int, bytes: nat) -> int
    decreases text.len() - from,
{
    if bytes >= 21 || from < 0 || from >= text.len() {
        from
    } else {
        cut_end(text, from + 1, bytes + char_width(text[from]))
    }
}

/// The text of a token as it is shown: the text itself if it takes less than
/// 25 bytes, and else its first 21 bytes, or a few more up to the end of a
/// character, followed by ` ...`.
pub open spec fn shown_text(text: Seq<char>) -> Seq<char> {
    if byte_len(text) < 25 {
        text
    } else {
        text.take(cut_end(text, 0, 0)) + " ..."@
    }
}

/// The name under which a raw kind is shown: the name of the kind, or the
/// number itself if it is the tag of no kind.
pub open spec fn kind_text(raw: u16) -> Seq<char> {
    match SyntaxKind::spec_from_raw(raw) {
        Some(kind) => kind.spec_name(),
        None => decimal(raw as nat),
    }
}

/// Two blanks for each level.
pub open spec fn indent(level: nat) -> Seq<char>
    decreases level,
{
    if level == 0 {
        Seq::empty()
    } else {
        indent((level - 1) as nat) + "  "@
    }
}

/// The line of the node or token at `i`, at a level: indentation, kind, `@`,
/// range and, for a token, its text in quotes. A closing step has no line.
pub open spec fn step_line(steps: Seq<TreeStep>, i: int, level: nat) -> Seq<char> {
    match steps[i] {
        TreeStep::Open(kind) => line_head(steps, i, level, kind),
        TreeStep::Leaf(kind, text) => line_head(steps, i, level, kind) + " "@ + debug_quoted(
            shown_text(text),
        ),
        TreeStep::Close => Seq::empty(),
    }
}

/// The head of the line of the node or token at `i`: indentation, kind, `@`
/// and range.
pub open spec fn line_head(steps: Seq<TreeStep>, i: int, level: nat, kind: u16) -> Seq<char> {
    indent(level) + kind_text(kind) + "@"@ + decimal(start_of(steps, i)) + ".."@ + decimal(
        end_of(steps, i),
    )
}

/// The level after a step: one deeper after a node opens, one back after a
/// node closes.
pub open spec fn next_level(step: TreeStep, level: nat) -> nat {
    match step {
        TreeStep::Open(_) => level + 1,
        TreeStep::Leaf(_, _) => level,
        TreeStep::Close => if level > 0 {
            (level - 1) as nat
        } else {
            0
        },
    }
}

/// The level after the first `upto` steps.
pub open spec fn level_at(steps: Seq<TreeStep>, upto: int) -> nat
    decreases upto,
{
    if upto <= 0 {
        0
    } else {
        next_level(steps[upto - 1], level_at(steps, upto - 1))
    }
}

/// The lines of the first `upto` steps, set apart by line feeds.
pub open spec fn tree_text(steps: Seq<TreeStep>, upto: int) -> Seq<char>
    decreases upto,
{
    if upto <= 0 {
        Seq::empty()
    } else {
        let before = tree_text(steps, upto - 1);
        let line = step_line(steps, upto - 1, level_at(steps, upto - 1));
        if steps[upto - 1] is Close {
            before
        } else if before.len() == 0 {
            line
        } else {
            before + "\n"@ + line
        }
    }
}

/// The diagnostics in words, each on a line of its own after a line feed.
pub open spec fn error_lines(errors: Seq<ParseError>) -> Seq<char>
    decreases errors.len(),
{
    if errors.len() == 0 {
        Seq::empty()
    } else {
        error_lines(errors.drop_last()) + "\n"@ + errors.last().spec_text()
    }
}

/// A tree and its diagnostics as text: one line for each node and token of
/// the tree, in preorder, then one line for each diagnostic.
pub open spec fn debug_text(steps: Seq<TreeStep>, errors: Seq<ParseError>) -> Seq<char> {
    tree_text(steps, steps.len() as int) + error_lines(errors)
}

/// The text of a token as it is shown.
fn shown(text: &str) -> (r: String)
    ensures
        r@ == shown_text(text@),
{
    let chars = chars_of(text);
    let n = chars.len();
    let mut total: u32 = 0;
    let mut k: usize = 0;
    proof {
        assert(chars@.take(0) =~= Seq::<char>::empty());
        lemma_byte_len_push(Seq::<char>::empty(), 'a');
    }
    while k < n && total < 25
        invariant
            n == chars@.len(),
            k <= n,
            total <= 28,
            total == byte_len(chars@.take(k as int)),
            byte_len(chars@.take(k as int)) <= byte_len(chars@),
        decreases n - k,
    {
        let c = chars[k];
        proof {
            let s = chars@;
            assert(s.take(k + 1) =~= s.take(k as int).push(c));
            lemma_byte_len_push(s.take(k as int), c);
            assert(s =~= s.take(k + 1) + s.skip(k + 1));
            lemma_byte_len_concat(s.take(k + 1), s.skip(k + 1));
        }
        total = total + width_of(c);
        k += 1;
    }
    proof {
        if k == n {
            assert(chars@.take(n as int) =~= chars@);
        }
    }
    if total < 25 {
        text.to_owned()
    } else {
        let mut out = String::new();
        let mut bytes: u32 = 0;
        let mut i: usize = 0;
        proof {
            assert(chars@.take(0) =~= Seq::<char>::empty());
        }
        while i < n && bytes < 21
            invariant
                n == chars@.len(),
                i <= n,
                bytes <= 24,
                out@ == chars@.take(i as int),
                cut_end(chars@, i as int, bytes as nat) == cut_end(chars@, 0, 0),
            decreases n - i,
        {
            let c = chars[i];
            proof {
                assert(chars@.take(i + 1) =~= chars@.take(i as int).push(c));
            }
            out.push(c);
            bytes = bytes + width_of(c);
            i += 1;
        }
        out.append(" ...");
        out
    }
}

/// Appends the name under which a raw kind is shown.
fn push_kind(out: &mut String, raw: u16)
    ensures
        final(out)@ == old(out)@ + kind_text(raw),
{
    match SyntaxKind::from_raw(raw) {
        Some(kind) => {
            out.append(kind.name().as_str());
        },
        None => {
            push_decimal(out, raw as u32);
        },
    }
}

/// Appends the indentation of a level.
fn push_indent(out: &mut String, level: usize)
    ensures
        final(out)@ == old(out)@ + indent(level as nat),
{
    let mut done: usize = 0;
    proof {
        assert(out@ + indent(0) =~= out@);
    }
    while done < level
        invariant
            done <= level,
            out@ == old(out)@ + indent(done as nat),
        decreases level - done,
    {
        proof {
            assert(old(out)@ + indent(done as nat) + "  "@ =~= old(out)@ + indent((done + 1) as nat));
        }
        out.append("  ");
        done += 1;
    }
}

/// Appends the head of a line: indentation, kind, `@` and range.
fn push_head(out: &mut String, level: usize, kind: u16, start: u32, end: u32)
    ensures
        final(out)@ == old(out)@ + (indent(level as nat) + kind_text(kind) + "@"@ + decimal(
            start as nat,
        ) + ".."@ + decimal(end as nat)),
{
    push_indent(out, level);
    push_kind(out, kind);
    out.append("@");
    push_decimal(out, start);
    out.append("..");
    push_decimal(out, end);
    proof {
        assert(out@ =~= old(out)@ + (indent(level as nat) + kind_text(kind) + "@"@ + decimal(
            start as nat,
        ) + ".."@ + decimal(end as nat)));
    }
}

/// A tree, given as a walk through it, and its diagnostics as text. The
/// ranges shown are those that the texts of the tokens give.
pub fn render(items: Vec<TreeItem>, errors: &Vec<ParseError>) -> (out: String)
    requires
        byte_len(leaf_text(steps_of(items@))) <= u32::MAX,
    ensures
        out@ == debug_text(steps_of(items@), errors@),
{
    let ghost steps = steps_of(items@);
    let items = strip(items);
    let places = layout(&items, Ghost(steps));
    let mut out = String::new();
    let mut level: usize = 0;
    let mut offset: u32 = 0;
    let n = items.len();
    let mut i: usize = 0;
    proof {
        lemma_offset_step_zero(steps);
    }
    while i < n
        invariant
            n == steps.len(),
            same_steps(items@, steps),
            byte_len(leaf_text(steps)) <= u32::MAX,
            is_layout(places, steps),
            i <= n,
            level <= i,
            level == level_at(steps, i as int),
            offset == offset_at(steps, i as int),
            out@ == tree_text(steps, i as int),
        decreases n - i,
    {
        proof {
            lemma_offset_step(steps, i as int);
            assert(steps.take(n as int) =~= steps);
            assert(!(items@[i as int] is EndToken));
            assert(places.starts@[i as int] == start_of(steps, i as int));
        }
        match &items[i] {
            TreeItem::Node { kind } => {
                if !out.as_str().is_empty() {
                    out.append("\n");
                }
                push_head(&mut out, level, *kind, offset, places.ends[i]);
                level += 1;
                proof {
                    assert(out@ =~= tree_text(steps, i + 1));
                }
            },
            TreeItem::Token { kind, text } => {
                if !out.as_str().is_empty() {
                    out.append("\n");
                }
                let end = offset + text_len(text, Ghost(offset_at(steps, n as int) - offset));
                push_head(&mut out, level, *kind, offset, end);
                out.append(" ");
                let shown = shown(text.as_str());
                out.append(quote(shown.as_str()).as_str());
                offset = end;
                proof {
                    assert(out@ =~= tree_text(steps, i + 1));
                }
            },
            _ => {
                if level > 0 {
                    level -= 1;
                }
            },
        }
        i += 1;
    }
    proof {
        assert(errors@.take(0) =~= Seq::<ParseError>::empty());
        assert(out@ + error_lines(errors@.take(0)) =~= out@);
    }
    let m = errors.len();
    let mut j: usize = 0;
    while j < m
        invariant
            m == errors@.len(),
            j <= m,
            out@ == tree_text(steps, steps.len() as int) + error_lines(errors@.take(j as int)),
        decreases m - j,
    {
        proof {
            assert(errors@.take(j + 1).drop_last() =~= errors@.take(j as int));
            assert(tree_text(steps, steps.len() as int) + error_lines(errors@.take(j as int))
                + "\n"@ + errors@[j as int].spec_text() =~= tree_text(steps, steps.len() as int)
                + error_lines(errors@.take(j + 1)));
        }
        out.append("\n");
        out.append(errors[j].to_text().as_str());
        j += 1;
    }
    proof {
        assert(errors@.take(m as int) =~= errors@);
    }
    out
}

} // verus!
