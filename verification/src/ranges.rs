//! The byte ranges of the nodes and tokens of a tree.

use crate::text::{byte_len, lemma_byte_len_concat};
use crate::tree::{
    is_single_tree, leaf_text, lemma_leaf_text_concat, lemma_step_push, steps_of, tree_depth,
    TreeItem, TreeStep,
};
use vstd::prelude::*;
use vstd::string::StringSliceAdditionalSpecFns;

verus! {

/// The number of bytes of text before the step at `i`.
pub open spec fn offset_at(steps: Seq<TreeStep>, i: int) -> nat {
    byte_len(leaf_text(steps.take(i)))
}

/// The place, at or after `from`, of the step that closes the node around
/// `from` when `open` nodes inside it are still open; the number of steps if
/// no step does.
pub open spec fn close_from(steps: Seq<TreeStep>, from: int, open: nat) -> int
    decreases steps.len() - from,
{
    if from < 0 || from >= steps.len() {
        steps.len() as int
    } else {
        match steps[from] {
            TreeStep::Open(_) => close_from(steps, from + 1, open + 1),
            TreeStep::Leaf(_, _) => close_from(steps, from + 1, open),
            TreeStep::Close => if open == 0 {
                from
            } else {
                close_from(steps, from + 1, (open - 1) as nat)
            },
        }
    }
}

/// The place of the step that closes the node opened at `i`.
pub open spec fn close_of(steps: Seq<TreeStep>, i: int) -> int {
    close_from(steps, i + 1, 0)
}

/// Where the text of the node or token at `i` starts.
pub open spec fn start_of(steps: Seq<TreeStep>, i: int) -> nat {
    offset_at(steps, i)
}

/// Where the text of the node or token at `i` ends: a token ends after its
/// text, a node where it is closed.
pub open spec fn end_of(steps: Seq<TreeStep>, i: int) -> nat {
    match steps[i] {
        TreeStep::Open(_) => offset_at(steps, close_of(steps, i)),
        _ => offset_at(steps, i + 1),
    }
}

/// The place after the node or token at `i`: where its next sibling stands,
/// or the step that closes its parent.
pub open spec fn after(steps: Seq<TreeStep>, i: int) -> int {
    match steps[i] {
        TreeStep::Open(_) => close_of(steps, i) + 1,
        _ => i + 1,
    }
}

/// The places of the nodes and tokens that stand side by side from `from` on
/// up to `end`.
pub open spec fn siblings(steps: Seq<TreeStep>, from: int, end: int) -> Seq<int>
    decreases end - from,
{
    if from < 0 || from >= end || from >= steps.len() {
        Seq::empty()
    } else if from < after(steps, from) <= end {
        seq![from] + siblings(steps, after(steps, from), end)
    } else {
        seq![from]
    }
}

/// The places of the children of the node opened at `i`.
pub open spec fn children(steps: Seq<TreeStep>, i: int) -> Seq<int> {
    siblings(steps, i + 1, close_of(steps, i))
}

/// The closing step is found at or after the place the search starts from.
pub proof fn lemma_close_from(steps: Seq<TreeStep>, from: int, open: nat)
    requires
        0 <= from <= steps.len(),
    ensures
        from <= close_from(steps, from, open) <= steps.len(),
        close_from(steps, from, open) < steps.len() ==> steps[close_from(steps, from, open)] is Close,
    decreases steps.len() - from,
{
    if from < steps.len() {
        match steps[from] {
            TreeStep::Open(_) => lemma_close_from(steps, from + 1, open + 1),
            TreeStep::Leaf(_, _) => lemma_close_from(steps, from + 1, open),
            TreeStep::Close => if open > 0 {
                lemma_close_from(steps, from + 1, (open - 1) as nat)
            },
        }
    }
}

/// With one more node open, the search first finds the step that closes that
/// node and then goes on from the step after it.
pub proof fn lemma_close_split(steps: Seq<TreeStep>, from: int, open: nat)
    requires
        0 <= from <= steps.len(),
    ensures
        close_from(steps, from, open + 1) == close_from(
            steps,
            close_from(steps, from, 0) + 1,
            open,
        ),
    decreases steps.len() - from,
{
    if from < steps.len() {
        match steps[from] {
            TreeStep::Open(_) => {
                let inner = close_from(steps, from + 1, 0);
                lemma_close_from(steps, from + 1, 0);
                lemma_close_split(steps, from + 1, open + 1);
                lemma_close_split(steps, from + 1, 0);
                if inner < steps.len() {
                    lemma_close_split(steps, inner + 1, open);
                }
            },
            TreeStep::Leaf(_, _) => {
                lemma_close_split(steps, from + 1, open);
            },
            TreeStep::Close => {},
        }
    }
}

/// The offsets do not go back, and a step that is no token leaves the
/// offset as it is.
pub proof fn lemma_offset_step(steps: Seq<TreeStep>, i: int)
    requires
        0 <= i < steps.len(),
    ensures
        offset_at(steps, i + 1) == offset_at(steps, i) + match steps[i] {
            TreeStep::Leaf(_, text) => byte_len(text),
            _ => 0,
        },
        offset_at(steps, i + 1) <= offset_at(steps, steps.len() as int),
        offset_at(steps, 0) == 0,
{
    assert(steps.take(i + 1) =~= steps.take(i).push(steps[i]));
    lemma_step_push(steps.take(i), steps[i]);
    match steps[i] {
        TreeStep::Leaf(_, text) => {
            lemma_byte_len_concat(leaf_text(steps.take(i)), text);
        },
        _ => {
            assert(leaf_text(steps.take(i)) + Seq::<char>::empty() =~= leaf_text(steps.take(i)));
        },
    }
    assert(steps.take(i + 1) + steps.skip(i + 1) =~= steps);
    assert(steps.take(steps.len() as int) =~= steps);
    lemma_leaf_text_concat(steps.take(i + 1), steps.skip(i + 1));
    lemma_offset_step_zero(steps);
}

/// What stands side by side up to the step that closes the node around it
/// lies end to end: each starts where the one before it ends, and the last
/// ends at the closing step.
proof fn lemma_siblings(steps: Seq<TreeStep>, from: int, end: int)
    requires
        0 <= from <= end <= steps.len(),
        close_from(steps, from, 0) == end,
    ensures
        siblings(steps, from, end).len() == 0 <==> from == end,
        from < end ==> siblings(steps, from, end)[0] == from && end_of(
            steps,
            siblings(steps, from, end).last(),
        ) == offset_at(steps, end),
        forall|k: int|
            0 <= k < siblings(steps, from, end).len() - 1 ==> end_of(
                steps,
                #[trigger] siblings(steps, from, end)[k],
            ) == start_of(steps, siblings(steps, from, end)[k + 1]),
    decreases end - from,
{
    if from < end {
        let next = after(steps, from);
        let rest = siblings(steps, next, end);
        let all = siblings(steps, from, end);
        match steps[from] {
            TreeStep::Open(_) => {
                let close = close_of(steps, from);
                lemma_close_from(steps, from + 1, 0);
                lemma_close_split(steps, from + 1, 0);
                if close < steps.len() {
                    lemma_close_from(steps, close + 1, 0);
                    lemma_offset_step(steps, close);
                    lemma_siblings(steps, next, end);
                }
            },
            TreeStep::Leaf(_, _) => {
                lemma_siblings(steps, next, end);
            },
            TreeStep::Close => {},
        }
        assert(all =~= seq![from] + rest);
        assert forall|k: int| 0 <= k < all.len() - 1 implies end_of(steps, #[trigger] all[k])
            == start_of(steps, all[k + 1]) by {
            if k > 0 {
                assert(all[k] == rest[k - 1]);
                assert(all[k + 1] == rest[k]);
            } else {
                assert(all[1] == rest[0]);
            }
        }
        if rest.len() > 0 {
            assert(all.last() == rest.last());
        }
    }
}

/// The range of a node is made of the ranges of its children: the first
/// child starts where the node starts, each further child starts where the
/// child before it ends, and the last child ends where the node ends. A node
/// without children covers nothing.
pub proof fn lemma_children_tile(steps: Seq<TreeStep>, i: int)
    requires
        0 <= i < steps.len(),
        steps[i] is Open,
    ensures
        children(steps, i).len() == 0 ==> start_of(steps, i) == end_of(steps, i),
        children(steps, i).len() > 0 ==> start_of(steps, children(steps, i)[0]) == start_of(
            steps,
            i,
        ) && end_of(steps, children(steps, i).last()) == end_of(steps, i),
        forall|k: int|
            0 <= k < children(steps, i).len() - 1 ==> end_of(
                steps,
                #[trigger] children(steps, i)[k],
            ) == start_of(steps, children(steps, i)[k + 1]),
{
    lemma_close_from(steps, i + 1, 0);
    lemma_siblings(steps, i + 1, close_of(steps, i));
    lemma_offset_step(steps, i);
}

/// The search from `from` finds the closing step at `at` if the depth of the
/// tree first falls there by one more than there are nodes open.
proof fn lemma_close_at(steps: Seq<TreeStep>, from: int, open: nat, at: int)
    requires
        0 <= from <= at < steps.len(),
        steps[at] is Close,
        forall|k: int| from < k <= at ==> tree_depth(#[trigger] steps.take(k)) >= tree_depth(
            steps.take(from),
        ) - open,
        tree_depth(steps.take(at + 1)) == tree_depth(steps.take(from)) - open - 1,
    ensures
        close_from(steps, from, open) == at,
    decreases at - from,
{
    assert(steps.take(from + 1) =~= steps.take(from).push(steps[from]));
    lemma_step_push(steps.take(from), steps[from]);
    if from < at {
        assert(tree_depth(steps.take(from + 1)) >= tree_depth(steps.take(from)) - open);
        match steps[from] {
            TreeStep::Open(_) => lemma_close_at(steps, from + 1, open + 1, at),
            TreeStep::Leaf(_, _) => lemma_close_at(steps, from + 1, open, at),
            TreeStep::Close => lemma_close_at(steps, from + 1, (open - 1) as nat, at),
        }
    }
}

/// The root of a tree ranges over the whole text: from the start to the
/// length of the text in bytes.
pub proof fn lemma_root_range(steps: Seq<TreeStep>)
    requires
        is_single_tree(steps),
    ensures
        start_of(steps, 0) == 0,
        end_of(steps, 0) == byte_len(leaf_text(steps)),
        close_of(steps, 0) == steps.len() - 1,
{
    let n = steps.len() as int;
    lemma_offset_step_zero(steps);
    assert(steps.take(1) =~= Seq::<TreeStep>::empty().push(steps[0]));
    lemma_step_push(Seq::<TreeStep>::empty(), steps[0]);
    assert(steps.take(n) =~= steps);
    assert(steps.take(n) =~= steps.take(n - 1).push(steps[n - 1]));
    lemma_step_push(steps.take(n - 1), steps[n - 1]);
    if n == 2 {
        assert(steps.take(n - 1) =~= steps.take(1));
    }
    lemma_close_at(steps, 1, 0, n - 1);
    lemma_offset_step(steps, n - 1);
}

/// The step that an item of a walk stands for. The leaving of a token
/// stands for no step.
pub open spec fn step_of(item: TreeItem) -> TreeStep {
    match item {
        TreeItem::Node { kind } => TreeStep::Open(kind),
        TreeItem::Token { kind, text } => TreeStep::Leaf(kind, text@),
        _ => TreeStep::Close,
    }
}

/// Whether the items are the steps, one for one.
pub open spec fn same_steps(items: Seq<TreeItem>, steps: Seq<TreeStep>) -> bool {
    &&& items.len() == steps.len()
    &&& forall|i: int|
        0 <= i < items.len() ==> !(#[trigger] items[i] is EndToken) && step_of(items[i])
            == steps[i]
}

/// Items that are steps, one for one, stand for just those steps.
pub proof fn lemma_same_steps(items: Seq<TreeItem>, steps: Seq<TreeStep>)
    requires
        same_steps(items, steps),
    ensures
        steps_of(items) == steps,
    decreases items.len(),
{
    if items.len() > 0 {
        lemma_same_steps(items.drop_last(), steps.drop_last());
        assert(steps_of(items) =~= steps);
    } else {
        assert(steps_of(items) =~= steps);
    }
}

/// The offsets do not go back.
pub proof fn lemma_offset_monotone(steps: Seq<TreeStep>, i: int, j: int)
    requires
        0 <= i <= j <= steps.len(),
    ensures
        offset_at(steps, i) <= offset_at(steps, j),
    decreases j - i,
{
    if i < j {
        lemma_offset_monotone(steps, i, j - 1);
        lemma_offset_step(steps, j - 1);
    }
}

/// The items of a walk without the leaving of tokens: the steps of the walk,
/// one for one.
pub fn strip(items: Vec<TreeItem>) -> (clean: Vec<TreeItem>)
    ensures
        same_steps(clean@, steps_of(items@)),
{
    let mut items = items;
    let ghost all = items@;
    let n = items.len();
    let mut clean: Vec<TreeItem> = Vec::new();
    let mut i: usize = 0;
    proof {
        assert(all.take(0) =~= Seq::<TreeItem>::empty());
    }
    while i < n
        invariant
            n == all.len(),
            items@.len() == n,
            i <= n,
            forall|j: int| i <= j < n ==> items@[j] == all[j],
            same_steps(clean@, steps_of(all.take(i as int))),
        decreases n - i,
    {
        let mut item = TreeItem::EndToken;
        core::mem::swap(&mut items[i], &mut item);
        proof {
            assert(all.take(i + 1).drop_last() =~= all.take(i as int));
        }
        match item {
            TreeItem::EndToken => {},
            _ => {
                clean.push(item);
            },
        }
        i += 1;
    }
    proof {
        assert(all.take(n as int) =~= all);
    }
    clean
}

/// For each step, where the text of its node or token starts and ends, and
/// for each step that opens a node, the place of the step that closes it.
#[derive(Debug)]
pub struct Layout {
    pub closes: Vec<usize>,
    pub starts: Vec<u32>,
    pub ends: Vec<u32>,
}

/// Whether the layout is that of the steps.
pub open spec fn is_layout(layout: Layout, steps: Seq<TreeStep>) -> bool {
    &&& layout.closes@.len() == steps.len()
    &&& layout.starts@.len() == steps.len()
    &&& layout.ends@.len() == steps.len()
    &&& forall|i: int|
        0 <= i < steps.len() ==> {
            &&& (#[trigger] layout.starts@[i]) == start_of(steps, i)
            &&& layout.ends@[i] == end_of(steps, i)
            &&& steps[i] is Open ==> layout.closes@[i] == close_of(steps, i)
        }
}

/// Works out the layout of the steps, in one pass with a stack of the nodes
/// that are open.
pub(crate) fn layout(items: &Vec<TreeItem>, Ghost(steps): Ghost<Seq<TreeStep>>) -> (layout: Layout)
    requires
        same_steps(items@, steps),
        byte_len(leaf_text(steps)) <= u32::MAX,
    ensures
        is_layout(layout, steps),
{
    let n = items.len();
    let mut closes: Vec<usize> = Vec::new();
    let mut starts: Vec<u32> = Vec::new();
    let mut ends: Vec<u32> = Vec::new();
    while ends.len() < n
        invariant
            ends@.len() <= n,
            closes@.len() == ends@.len(),
            starts@.len() == ends@.len(),
        decreases n - ends@.len(),
    {
        closes.push(0);
        starts.push(0);
        ends.push(0);
    }
    let mut stack: Vec<usize> = Vec::new();
    let mut offset: u32 = 0;
    let ghost mut slot: Seq<int> = Seq::new(n as nat, |i: int| -1int);
    let mut j: usize = 0;
    proof {
        lemma_offset_step_zero(steps);
    }
    while j < n
        invariant
            n == steps.len(),
            same_steps(items@, steps),
            byte_len(leaf_text(steps)) <= u32::MAX,
            j <= n,
            closes@.len() == n,
            starts@.len() == n,
            ends@.len() == n,
            slot.len() == n,
            offset == offset_at(steps, j as int),
            forall|k: int|
                0 <= k < stack@.len() ==> (#[trigger] stack@[k]) < j && steps[stack@[k] as int] is Open
                    && slot[stack@[k] as int] == k && close_from(
                    steps,
                    j as int,
                    (stack@.len() - 1 - k) as nat,
                ) == close_of(steps, stack@[k] as int),
            forall|i: int|
                0 <= i < j && steps[i] is Open ==> (#[trigger] slot[i] == -1 && ends@[i] == end_of(
                    steps,
                    i,
                ) && closes@[i] == close_of(steps, i)) || (0 <= slot[i] < stack@.len()
                    && stack@[slot[i]] == i),
            forall|i: int| 0 <= i < j ==> (#[trigger] starts@[i]) == start_of(steps, i),
            forall|i: int|
                0 <= i < j && !(steps[i] is Open) ==> (#[trigger] ends@[i]) == end_of(steps, i),
        decreases n - j,
    {
        proof {
            lemma_offset_step(steps, j as int);
            assert(steps.take(n as int) =~= steps);
            assert(!(items@[j as int] is EndToken));
        }
        starts[j] = offset;
        match &items[j] {
            TreeItem::Node { .. } => {
                proof {
                    slot = slot.update(j as int, stack@.len() as int);
                }
                stack.push(j);
            },
            TreeItem::Token { text, .. } => {
                let len = text_len(text, Ghost(offset_at(steps, n as int) - offset));
                offset = offset + len;
                ends[j] = offset;
            },
            _ => {
                ends[j] = offset;
                match stack.pop() {
                    Some(top) => {
                        ends[top] = offset;
                        closes[top] = j;
                        proof {
                            slot = slot.update(top as int, -1);
                        }
                    },
                    None => {},
                }
            },
        }
        j += 1;
    }
    while stack.len() > 0
        invariant
            n == steps.len(),
            closes@.len() == n,
            starts@.len() == n,
            ends@.len() == n,
            slot.len() == n,
            offset == offset_at(steps, n as int),
            forall|k: int|
                0 <= k < stack@.len() ==> (#[trigger] stack@[k]) < n && steps[stack@[k] as int] is Open
                    && slot[stack@[k] as int] == k && close_of(steps, stack@[k] as int) == n,
            forall|i: int|
                0 <= i < n && steps[i] is Open ==> (#[trigger] slot[i] == -1 && ends@[i] == end_of(
                    steps,
                    i,
                ) && closes@[i] == close_of(steps, i)) || (0 <= slot[i] < stack@.len()
                    && stack@[slot[i]] == i),
            forall|i: int| 0 <= i < n ==> (#[trigger] starts@[i]) == start_of(steps, i),
            forall|i: int|
                0 <= i < n && !(steps[i] is Open) ==> (#[trigger] ends@[i]) == end_of(steps, i),
        decreases stack@.len(),
    {
        match stack.pop() {
            Some(top) => {
                ends[top] = offset;
                closes[top] = n;
                proof {
                    slot = slot.update(top as int, -1);
                }
            },
            None => {},
        }
    }
    let layout = Layout { closes, starts, ends };
    proof {
        assert forall|i: int| 0 <= i < steps.len() implies {
            &&& (#[trigger] layout.starts@[i]) == start_of(steps, i)
            &&& layout.ends@[i] == end_of(steps, i)
            &&& steps[i] is Open ==> layout.closes@[i] == close_of(steps, i)
        } by {
            if steps[i] is Open {
                assert(slot[i] == -1);
            } else {
                assert(ends@[i] == end_of(steps, i));
            }
        }
    }
    layout
}

/// The number of bytes of a text that is known to fit a `u32`.
pub(crate) fn text_len(text: &String, Ghost(limit): Ghost<int>) -> (len: u32)
    requires
        byte_len(text@) <= limit <= u32::MAX,
    ensures
        len == byte_len(text@),
{
    let slice = text.as_str();
    let len = slice.len();
    assert(slice.spec_bytes() == vstd::utf8::encode_utf8(text@));
    len as u32
}

/// No text stands before the first step.
pub proof fn lemma_offset_step_zero(steps: Seq<TreeStep>)
    ensures
        offset_at(steps, 0) == 0,
{
    assert(steps.take(0) =~= Seq::<TreeStep>::empty());
    crate::text::lemma_byte_len_push(Seq::<char>::empty(), 'a');
}

} // verus!
