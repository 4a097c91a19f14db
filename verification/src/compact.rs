//! Keeping the transcript small: old tool results are shortened, large tool
//! output is moved out of the transcript, and a compacted conversation is
//! replaced by a summary that remembers the recently read files.
use vstd::prelude::*;

use crate::message::{
    block_views, blocks_of, lookup, message_views, BlockView, ContentBlock, ContentView, Message,
    MessageContent, MessageView, Role,
};
use crate::text::{
    char_count, concat, decimal, join, join_spec, owned, str_eq, take_chars, take_chars_spec,
    usize_to_decimal, views,
};

verus! {

/// How many of the latest tool results keep their full text.
pub const KEEP_RECENT_TOOL_RESULTS: usize = 3;

/// Tool output longer than this many characters is saved to a file.
pub const PERSIST_THRESHOLD: usize = 30000;

/// How many characters of a saved output stay in the transcript.
pub const PREVIEW_CHARS: usize = 2000;

/// How many recently read files a compaction remembers.
pub const MAX_RECENT_FILES: usize = 5;

/// Tool results up to this many characters are never shortened.
pub const COMPACT_MIN_CHARS: usize = 120;

/// The text that replaces an old, long tool result.
pub open spec fn compacted_tool_result() -> Seq<char> {
    "[Earlier tool result compacted. Re-run the tool if you need full detail.]"@
}

/// What the agent remembers across compactions.
pub struct CompactState {
    pub has_compacted: bool,
    pub last_summary: Option<String>,
    pub recent_files: Vec<String>,
}

impl CompactState {
    /// The state before any compaction (`CompactState::default()`).
    pub fn new() -> (s: CompactState)
        ensures
            !s.has_compacted,
            s.last_summary is None,
            s.recent_files@.len() == 0,
    {
        CompactState { has_compacted: false, last_summary: None, recent_files: Vec::new() }
    }

    /// Notes that `path` was read: it moves to the end of the recent files,
    /// and only the latest five stay.
    pub fn remember_recent_file(&mut self, path: &str)
        ensures
            views(final(self).recent_files@) == keep_latest(
                remove_all(views(old(self).recent_files@), path@).push(path@),
                MAX_RECENT_FILES as nat,
            ),
            final(self).has_compacted == old(self).has_compacted,
            final(self).last_summary == old(self).last_summary,
    {
        let mut kept: Vec<String> = Vec::new();
        let mut i: usize = 0;
        while i < self.recent_files.len()
            invariant
                i <= self.recent_files.len(),
                views(kept@) == remove_all(views(self.recent_files@.take(i as int)), path@),
            decreases self.recent_files.len() - i,
        {
            let ghost before = views(kept@);
            let ghost pre = views(self.recent_files@.take(i as int));
            let ghost next = views(self.recent_files@.take(i + 1));
            assert(next.drop_last() =~= pre);
            assert(next.last() == self.recent_files@[i as int]@);
            if !str_eq(self.recent_files[i].as_str(), path) {
                let f = self.recent_files[i].clone();
                let ghost kept_before = kept@;
                kept.push(f);
                assert(views(kept@) =~= views(kept_before).push(f@));
            }
            i = i + 1;
        }
        assert(self.recent_files@.take(self.recent_files.len() as int) == self.recent_files@);
        let ghost kept_before = kept@;
        let p = owned(path);
        kept.push(p);
        assert(views(kept@) =~= views(kept_before).push(path@));
        if kept.len() > MAX_RECENT_FILES {
            let overflow = kept.len() - MAX_RECENT_FILES;
            let mut latest: Vec<String> = Vec::new();
            let mut k: usize = overflow;
            while k < kept.len()
                invariant
                    overflow <= k <= kept.len(),
                    views(latest@) == views(kept@).subrange(overflow as int, k as int),
                decreases kept.len() - k,
            {
                let f = kept[k].clone();
                let ghost latest_before = latest@;
                latest.push(f);
                assert(views(latest@) =~= views(latest_before).push(f@));
                assert(views(kept@)[k as int] == f@);
                assert(views(latest@) =~= views(kept@).subrange(overflow as int, k + 1));
                k = k + 1;
            }
            self.recent_files = latest;
        } else {
            self.recent_files = kept;
        }
    }
}

/// `files` without any entry equal to `path`, in order (`retain(|p| p != path)`).
pub open spec fn remove_all(files: Seq<Seq<char>>, path: Seq<char>) -> Seq<Seq<char>>
    decreases files.len(),
{
    if files.len() == 0 {
        Seq::empty()
    } else if files.last() == path {
        remove_all(files.drop_last(), path)
    } else {
        remove_all(files.drop_last(), path).push(files.last())
    }
}

/// The last `n` entries of `files` (all of them when there are fewer).
pub open spec fn keep_latest(files: Seq<Seq<char>>, n: nat) -> Seq<Seq<char>> {
    if files.len() <= n {
        files
    } else {
        files.subrange(files.len() - n, files.len() as int)
    }
}

// ---------------------------------------------------------------------------
// Shortening old tool results
// ---------------------------------------------------------------------------

/// The positions `(message, block)` of the tool results of the user
/// messages, in transcript order.
pub open spec fn block_positions(i: int, blocks: Seq<BlockView>) -> Seq<(int, int)>
    decreases blocks.len(),
{
    if blocks.len() == 0 {
        Seq::empty()
    } else {
        block_positions(i, blocks.drop_last()) + if blocks.last() is ToolResult {
            seq![(i, blocks.len() - 1)]
        } else {
            Seq::empty()
        }
    }
}

/// The positions `(message, block)` of every tool result in a user message,
/// in transcript order.
pub open spec fn result_positions(msgs: Seq<MessageView>) -> Seq<(int, int)>
    decreases msgs.len(),
{
    if msgs.len() == 0 {
        Seq::empty()
    } else {
        result_positions(msgs.drop_last()) + if msgs.last().role == Role::User {
            block_positions(msgs.len() - 1, blocks_of(msgs.last()))
        } else {
            Seq::empty()
        }
    }
}

/// Block `j` of message `i` is among the first `limit` counted tool results.
pub open spec fn among_first(msgs: Seq<MessageView>, i: int, j: int, limit: int) -> bool {
    exists|k: int| 0 <= k < limit && k < result_positions(msgs).len() && #[trigger] result_positions(msgs)[k] == (i, j)
}

/// A tool result keeps its text unless `shorten` holds and it is longer than
/// 120 characters.
pub open spec fn compact_block(b: BlockView, shorten: bool) -> BlockView {
    match b {
        BlockView::ToolResult { tool_use_id, content } => if shorten && content.len()
            > COMPACT_MIN_CHARS {
            BlockView::ToolResult { tool_use_id, content: compacted_tool_result() }
        } else {
            b
        },
        _ => b,
    }
}

/// Message `i` once the first `limit` counted tool results are shortened.
pub open spec fn compact_message_upto(msgs: Seq<MessageView>, i: int, limit: int) -> MessageView {
    let m = msgs[i];
    match m.content {
        ContentView::Blocks { content: blocks } => MessageView {
            role: m.role,
            content: ContentView::Blocks {
                content: Seq::new(blocks.len(), |j: int| compact_block(blocks[j], among_first(msgs, i, j, limit))),
            },
        },
        ContentView::Text { .. } => m,
    }
}

/// The transcript after micro-compaction: every tool result of a user message
/// except the latest three is replaced by a short note when it is longer than
/// 120 characters; everything else stays.
pub open spec fn micro_compact_spec(msgs: Seq<MessageView>) -> Seq<MessageView> {
    let limit = result_positions(msgs).len() - KEEP_RECENT_TOOL_RESULTS;
    Seq::new(msgs.len(), |i: int| compact_message_upto(msgs, i, limit))
}

/// A position `(i, j)` names a tool result of a user message.
pub open spec fn valid_position(msgs: Seq<MessageView>, p: (int, int)) -> bool {
    &&& 0 <= p.0 < msgs.len()
    &&& msgs[p.0].role == Role::User
    &&& 0 <= p.1 < blocks_of(msgs[p.0]).len()
    &&& blocks_of(msgs[p.0])[p.1] is ToolResult
}

pub open spec fn lex_less(a: (int, int), b: (int, int)) -> bool {
    a.0 < b.0 || (a.0 == b.0 && a.1 < b.1)
}

proof fn lemma_block_positions(i: int, blocks: Seq<BlockView>)
    ensures
        forall|k: int| 0 <= k < block_positions(i, blocks).len() ==> {
            let p = #[trigger] block_positions(i, blocks)[k];
            p.0 == i && 0 <= p.1 < blocks.len() && blocks[p.1] is ToolResult
        },
        forall|a: int, b: int| 0 <= a < b < block_positions(i, blocks).len() ==>
            #[trigger] block_positions(i, blocks)[a].1 < #[trigger] block_positions(i, blocks)[b].1,
    decreases blocks.len(),
{
    if blocks.len() > 0 {
        let prev = blocks.drop_last();
        lemma_block_positions(i, prev);
        let ps = block_positions(i, blocks);
        let pp = block_positions(i, prev);
        assert forall|k: int| 0 <= k < ps.len() implies {
            let p = #[trigger] ps[k];
            p.0 == i && 0 <= p.1 < blocks.len() && blocks[p.1] is ToolResult
        } by {
            if k < pp.len() {
                assert(ps[k] == pp[k]);
                assert(blocks[pp[k].1] == prev[pp[k].1]);
            }
        }
        assert forall|a: int, b: int| 0 <= a < b < ps.len() implies #[trigger] ps[a].1 < #[trigger] ps[b].1 by {
            if b < pp.len() {
                assert(ps[a] == pp[a] && ps[b] == pp[b]);
            } else {
                assert(ps[a] == pp[a]);
            }
        }
    }
}

proof fn lemma_result_positions(msgs: Seq<MessageView>)
    ensures
        forall|k: int| 0 <= k < result_positions(msgs).len() ==> valid_position(msgs, #[trigger] result_positions(msgs)[k]),
        forall|a: int, b: int| 0 <= a < b < result_positions(msgs).len() ==> lex_less(
            #[trigger] result_positions(msgs)[a],
            #[trigger] result_positions(msgs)[b],
        ),
    decreases msgs.len(),
{
    if msgs.len() > 0 {
        let prev = msgs.drop_last();
        lemma_result_positions(prev);
        let last = msgs.len() - 1;
        let ps = result_positions(msgs);
        let pp = result_positions(prev);
        let tail = if msgs.last().role == Role::User {
            block_positions(last, blocks_of(msgs.last()))
        } else {
            Seq::empty()
        };
        lemma_block_positions(last, blocks_of(msgs.last()));
        assert(ps == pp + tail);
        assert forall|k: int| 0 <= k < ps.len() implies valid_position(msgs, #[trigger] ps[k]) by {
            if k < pp.len() {
                assert(ps[k] == pp[k]);
                assert(valid_position(prev, pp[k]));
                assert(msgs[pp[k].0] == prev[pp[k].0]);
            } else {
                assert(ps[k] == tail[k - pp.len()]);
            }
        }
        assert forall|a: int, b: int| 0 <= a < b < ps.len() implies lex_less(#[trigger] ps[a], #[trigger] ps[b]) by {
            if b < pp.len() {
                assert(ps[a] == pp[a] && ps[b] == pp[b]);
            } else if a < pp.len() {
                assert(ps[a] == pp[a]);
                assert(valid_position(prev, pp[a]));
                assert(ps[b] == tail[b - pp.len()]);
            } else {
                assert(ps[a] == tail[a - pp.len()]);
                assert(ps[b] == tail[b - pp.len()]);
            }
        }
    }
}

/// The positions of the tool results of the user messages, in order.
pub fn collect_tool_result_positions(messages: &Vec<Message>) -> (r: Vec<(usize, usize)>)
    ensures
        r@.len() == result_positions(message_views(messages@)).len(),
        forall|k: int| 0 <= k < r@.len() ==> (r@[k].0 as int, r@[k].1 as int) == result_positions(
            message_views(messages@),
        )[k],
{
    let ghost mv = message_views(messages@);
    let mut r: Vec<(usize, usize)> = Vec::new();
    let mut i: usize = 0;
    while i < messages.len()
        invariant
            i <= messages.len(),
            mv == message_views(messages@),
            r@.len() == result_positions(mv.take(i as int)).len(),
            forall|k: int| 0 <= k < r@.len() ==> (r@[k].0 as int, r@[k].1 as int) == #[trigger] result_positions(mv.take(i as int))[k],
        decreases messages.len() - i,
    {
        let ghost pre = mv.take(i as int);
        let ghost start = r@;
        assert(mv.take(i + 1).drop_last() == pre);
        assert(mv.take(i + 1).last() == mv[i as int]);
        if messages[i].role == Role::User {
            if let MessageContent::Blocks { content: blocks } = &messages[i].content {
                let ghost bv = block_views(blocks@);
                let mut j: usize = 0;
                while j < blocks.len()
                    invariant
                        i < messages.len(),
                        j <= blocks.len(),
                        bv == block_views(blocks@),
                        r@.len() == start.len() + block_positions(i as int, bv.take(j as int)).len(),
                        forall|k: int| 0 <= k < start.len() ==> r@[k] == start[k],
                        forall|k: int| 0 <= k < block_positions(i as int, bv.take(j as int)).len() ==>
                            (r@[start.len() + k].0 as int, r@[start.len() + k].1 as int)
                                == #[trigger] block_positions(i as int, bv.take(j as int))[k],
                    decreases blocks.len() - j,
                {
                    assert(bv.take(j + 1).drop_last() == bv.take(j as int));
                    if let ContentBlock::ToolResult { .. } = &blocks[j] {
                        r.push((i, j));
                    }
                    j = j + 1;
                }
                assert(bv.take(blocks.len() as int) == bv);
                assert(blocks_of(mv[i as int]) == bv);
                proof {
                    let ps = result_positions(mv.take(i + 1));
                    assert(ps == result_positions(pre) + block_positions(i as int, bv));
                    assert forall|k: int| 0 <= k < r@.len() implies (r@[k].0 as int, r@[k].1 as int) == #[trigger] ps[k] by {
                        if k >= start.len() {
                            assert(ps[k] == block_positions(i as int, bv)[k - start.len()]);
                        }
                    }
                }
            } else {
                proof {
                    assert(blocks_of(mv[i as int]) =~= Seq::<BlockView>::empty());
                    assert(result_positions(mv.take(i + 1)) =~= result_positions(pre));
                }
            }
        } else {
            assert(result_positions(mv.take(i + 1)) =~= result_positions(pre));
        }
        i = i + 1;
    }
    assert(mv.take(messages.len() as int) == mv);
    r
}

/// The compacted form of one tool-result block.
fn compact_result_block(b: &ContentBlock) -> (r: ContentBlock)
    ensures
        r@ == compact_block(b@, true),
{
    match b {
        ContentBlock::ToolResult { tool_use_id, content } => {
            if char_count(content.as_str()) > COMPACT_MIN_CHARS {
                ContentBlock::ToolResult {
                    tool_use_id: tool_use_id.clone(),
                    content: owned(
                        "[Earlier tool result compacted. Re-run the tool if you need full detail.]",
                    ),
                }
            } else {
                b.clone()
            }
        },
        _ => b.clone(),
    }
}

/// Shortens every tool result of a user message except the latest three when
/// it is longer than 120 characters.
pub fn micro_compact(messages: &mut Vec<Message>)
    ensures
        message_views(final(messages)@) == micro_compact_spec(message_views(old(messages)@)),
{
    let ghost orig = message_views(messages@);
    let positions = collect_tool_result_positions(messages);
    let ghost ps = result_positions(orig);
    proof {
        lemma_result_positions(orig);
    }
    if positions.len() <= KEEP_RECENT_TOOL_RESULTS {
        proof {
            assert forall|i: int| 0 <= i < orig.len() implies #[trigger] micro_compact_spec(orig)[i] == orig[i] by {
                let m = orig[i];
                match m.content {
                    ContentView::Blocks { content: blocks } => {
                        let limit = ps.len() - KEEP_RECENT_TOOL_RESULTS;
                        assert(Seq::new(blocks.len(), |j: int| compact_block(blocks[j], among_first(orig, i, j, limit))) =~= blocks);
                    },
                    ContentView::Text { .. } => {},
                }
            }
            assert(micro_compact_spec(orig) =~= orig);
        }
        return;
    }
    let limit = positions.len() - KEEP_RECENT_TOOL_RESULTS;
    let mut k: usize = 0;
    proof {
        assert forall|i: int| 0 <= i < orig.len() implies #[trigger] message_views(messages@)[i] == compact_message_upto(orig, i, 0) by {
            let m = orig[i];
            match m.content {
                ContentView::Blocks { content: blocks } => {
                    assert(Seq::new(blocks.len(), |j: int| compact_block(blocks[j], among_first(orig, i, j, 0))) =~= blocks);
                },
                ContentView::Text { .. } => {},
            }
        }
    }
    while k < limit
        invariant
            k <= limit,
            limit == ps.len() - KEEP_RECENT_TOOL_RESULTS,
            positions@.len() == ps.len(),
            ps == result_positions(orig),
            forall|q: int| 0 <= q < positions@.len() ==> (positions@[q].0 as int, positions@[q].1 as int) == ps[q],
            forall|q: int| 0 <= q < ps.len() ==> valid_position(orig, #[trigger] ps[q]),
            forall|a: int, b: int| 0 <= a < b < ps.len() ==> lex_less(#[trigger] ps[a], #[trigger] ps[b]),
            messages@.len() == orig.len(),
            forall|i: int| 0 <= i < orig.len() ==> #[trigger] message_views(messages@)[i] == compact_message_upto(orig, i, k as int),
        decreases limit - k,
    {
        let (mi, bi) = positions[k];
        assert(valid_position(orig, ps[k as int]));
        let ghost cur = message_views(messages@);
        let m = messages[mi].clone();
        assert(message_views(messages@)[mi as int] == messages@[mi as int]@);
        assert(m@ == compact_message_upto(orig, mi as int, k as int));
        match m.content {
            MessageContent::Blocks { content: blocks } => {
                let ghost ob = blocks_of(orig[mi as int]);
                assert(orig[mi as int].content is Blocks);
                assert(m@.content == compact_message_upto(orig, mi as int, k as int).content);
                assert(block_views(blocks@).len() == ob.len());
                assert(block_views(blocks@)[bi as int] == compact_block(ob[bi as int], among_first(orig, mi as int, bi as int, k as int)));
                proof {
                    // Positions are distinct, so this result was not shortened yet.
                    if among_first(orig, mi as int, bi as int, k as int) {
                        let q = choose|q: int| 0 <= q < k && q < ps.len() && #[trigger] ps[q] == (mi as int, bi as int);
                        assert(lex_less(ps[q], ps[k as int]));
                    }
                }
                let nb = compact_result_block(&blocks[bi]);
                let ghost old_blocks = block_views(blocks@);
                let mut blocks = blocks;
                blocks.set(bi, nb);
                assert(block_views(blocks@) =~= old_blocks.update(bi as int, nb@));
                let new_msg = Message { role: m.role, content: MessageContent::Blocks { content: blocks } };
                messages.set(mi, new_msg);
                proof {
                    assert forall|i: int| 0 <= i < orig.len() implies #[trigger] message_views(messages@)[i] == compact_message_upto(orig, i, k + 1) by {
                        if i == mi {
                            let om = orig[i];
                            match om.content {
                                ContentView::Blocks { content: obl } => {
                                    assert forall|j: int| 0 <= j < obl.len() implies
                                        block_views(blocks@)[j] == compact_block(obl[j], among_first(orig, i, j, k + 1)) by {
                                        if j == bi {
                                            assert(among_first(orig, i, j, k + 1)) by {
                                                assert(ps[k as int] == (i, j));
                                            }
                                            assert(!among_first(orig, i, j, k as int));
                                            assert(old_blocks[j] == obl[j]);
                                        } else {
                                            assert(block_views(blocks@)[j] == old_blocks[j]);
                                            assert(old_blocks[j] == compact_block(obl[j], among_first(orig, i, j, k as int)));
                                            if among_first(orig, i, j, k + 1) {
                                                let q = choose|q: int| 0 <= q < k + 1 && q < ps.len() && #[trigger] ps[q] == (i, j);
                                                assert(q != k);
                                                assert(among_first(orig, i, j, k as int));
                                            }
                                        }
                                    }
                                    assert(block_views(blocks@) =~= Seq::new(obl.len(), |j: int| compact_block(obl[j], among_first(orig, i, j, k + 1))));
                                },
                                ContentView::Text { .. } => {
                                    assert(false);
                                },
                            }
                        } else {
                            assert(message_views(messages@)[i] == cur[i]);
                            let om = orig[i];
                            match om.content {
                                ContentView::Blocks { content: obl } => {
                                    assert forall|j: int| 0 <= j < obl.len() implies among_first(orig, i, j, k + 1) == among_first(orig, i, j, k as int) by {
                                        if among_first(orig, i, j, k + 1) {
                                            let q = choose|q: int| 0 <= q < k + 1 && q < ps.len() && #[trigger] ps[q] == (i, j);
                                            assert(q != k);
                                        }
                                    }
                                    assert(Seq::new(obl.len(), |j: int| compact_block(obl[j], among_first(orig, i, j, k + 1))) =~= Seq::new(obl.len(), |j: int| compact_block(obl[j], among_first(orig, i, j, k as int))));
                                },
                                ContentView::Text { .. } => {},
                            }
                        }
                    }
                }
            },
            MessageContent::Text { .. } => {
                assert(false);
            },
        }
        k = k + 1;
    }
    assert(message_views(messages@) =~= micro_compact_spec(orig));
}

/// `a` and `b` hold the same kinds of blocks, block for block.
spec fn same_block_kinds(a: Seq<BlockView>, b: Seq<BlockView>) -> bool {
    &&& a.len() == b.len()
    &&& forall|j: int| 0 <= j < a.len() ==> ((#[trigger] a[j]) is ToolResult <==> b[j] is ToolResult)
}

/// `x` and `y` have the same roles and the same kinds of blocks, message for
/// message.
spec fn same_shape(x: Seq<MessageView>, y: Seq<MessageView>) -> bool {
    &&& x.len() == y.len()
    &&& forall|i: int| 0 <= i < x.len() ==> (#[trigger] x[i]).role == y[i].role && same_block_kinds(blocks_of(x[i]), blocks_of(y[i]))
}

proof fn lemma_block_positions_shape(i: int, a: Seq<BlockView>, b: Seq<BlockView>)
    requires
        same_block_kinds(a, b),
    ensures
        block_positions(i, a) == block_positions(i, b),
    decreases a.len(),
{
    if a.len() > 0 {
        let (pa, pb) = (a.drop_last(), b.drop_last());
        assert forall|j: int| 0 <= j < pa.len() implies ((#[trigger] pa[j]) is ToolResult <==> pb[j] is ToolResult) by {
            assert(pa[j] == a[j] && pb[j] == b[j]);
        }
        lemma_block_positions_shape(i, pa, pb);
        assert(a.last() == a[a.len() - 1] && b.last() == b[b.len() - 1]);
    }
}

proof fn lemma_result_positions_shape(x: Seq<MessageView>, y: Seq<MessageView>)
    requires
        same_shape(x, y),
    ensures
        result_positions(x) == result_positions(y),
    decreases x.len(),
{
    if x.len() > 0 {
        let (px, py) = (x.drop_last(), y.drop_last());
        assert forall|i: int| 0 <= i < px.len() implies (#[trigger] px[i]).role == py[i].role && same_block_kinds(
            blocks_of(px[i]),
            blocks_of(py[i]),
        ) by {
            assert(px[i] == x[i] && py[i] == y[i]);
        }
        lemma_result_positions_shape(px, py);
        let n = x.len() - 1;
        assert(x.last() == x[n] && y.last() == y[n]);
        lemma_block_positions_shape(n, blocks_of(x[n]), blocks_of(y[n]));
    }
}

proof fn lemma_compact_block_twice(b: BlockView, shorten: bool)
    ensures
        compact_block(compact_block(b, shorten), shorten) == compact_block(b, shorten),
        compact_block(b, shorten) is ToolResult <==> b is ToolResult,
{
    reveal_strlit("[Earlier tool result compacted. Re-run the tool if you need full detail.]");
}

/// Compaction is stable: compacting an already compacted transcript changes
/// nothing.
pub proof fn law_micro_compact_idempotent(msgs: Seq<MessageView>)
    ensures
        micro_compact_spec(micro_compact_spec(msgs)) == micro_compact_spec(msgs),
{
    let limit = result_positions(msgs).len() - KEEP_RECENT_TOOL_RESULTS;
    let y = micro_compact_spec(msgs);
    assert forall|i: int| 0 <= i < msgs.len() implies (#[trigger] msgs[i]).role == y[i].role && same_block_kinds(
        blocks_of(msgs[i]),
        blocks_of(y[i]),
    ) by {
        match msgs[i].content {
            ContentView::Blocks { content: blocks } => {
                let yb = blocks_of(y[i]);
                assert forall|j: int| 0 <= j < blocks.len() implies ((#[trigger] blocks[j]) is ToolResult <==> yb[j] is ToolResult) by {
                    lemma_compact_block_twice(blocks[j], among_first(msgs, i, j, limit));
                }
            },
            ContentView::Text { .. } => {},
        }
    }
    lemma_result_positions_shape(msgs, y);
    let z = micro_compact_spec(y);
    assert forall|i: int| 0 <= i < y.len() implies #[trigger] z[i] == y[i] by {
        match msgs[i].content {
            ContentView::Blocks { content: blocks } => {
                let yb = blocks_of(y[i]);
                assert forall|j: int| 0 <= j < yb.len() implies compact_block(#[trigger] yb[j], among_first(y, i, j, limit)) == yb[j] by {
                    lemma_compact_block_twice(blocks[j], among_first(msgs, i, j, limit));
                }
                assert(Seq::new(yb.len(), |j: int| compact_block(yb[j], among_first(y, i, j, limit))) =~= yb);
            },
            ContentView::Text { .. } => {},
        }
    }
    assert(z =~= y);
}

// ---------------------------------------------------------------------------
// Large tool output
// ---------------------------------------------------------------------------

/// Whether a tool output is long enough to be saved to a file instead of
/// staying whole in the transcript.
pub fn needs_persisting(output: &str) -> (b: bool)
    ensures
        b == (output@.len() > PERSIST_THRESHOLD),
{
    char_count(output) > PERSIST_THRESHOLD
}

/// The name of the file that holds the full output of a tool call.
pub fn persisted_output_file_name(tool_use_id: &str) -> (r: String)
    ensures
        r@ == tool_use_id@ + ".txt"@,
{
    concat(owned(tool_use_id), ".txt")
}

/// What stays in the transcript of a saved output: where it is, and its
/// first 2000 characters.
pub open spec fn persisted_notice_spec(path: Seq<char>, output: Seq<char>) -> Seq<char> {
    "<persisted-output>\nFull output saved to: "@ + path + "\nPreview:\n"@ + take_chars_spec(
        output,
        PREVIEW_CHARS as nat,
    ) + "\n</persisted-output>"@
}

/// The transcript text that stands in for an output saved to `output_path`.
pub fn persisted_output_notice(output_path: &str, output: &str) -> (r: String)
    ensures
        r@ == persisted_notice_spec(output_path@, output@),
{
    let preview = take_chars(output, PREVIEW_CHARS);
    let r = concat(owned("<persisted-output>\nFull output saved to: "), output_path);
    let r = concat(r, "\nPreview:\n");
    let r = concat(r, preview.as_str());
    concat(r, "\n</persisted-output>")
}

// ---------------------------------------------------------------------------
// Summaries
// ---------------------------------------------------------------------------

/// The lines that list the recent files, one `- path` per file.
pub open spec fn recent_file_lines(files: Seq<Seq<char>>) -> Seq<Seq<char>> {
    files.map_values(|f: Seq<char>| "- "@ + f)
}

/// The summary that replaces a compacted conversation: the model's summary,
/// then the focus the caller asked to keep, then the recent files.
pub open spec fn compose_summary_spec(
    summary: Seq<char>,
    focus: Option<Seq<char>>,
    files: Seq<Seq<char>>,
) -> Seq<char> {
    let with_focus = match focus {
        Some(f) => summary + "\n\nFocus to preserve next:"@ + f,
        None => summary,
    };
    if files.len() == 0 {
        with_focus
    } else {
        with_focus + "\n\nRecent files to reopen if needed:\n"@ + join_spec(
            recent_file_lines(files),
            "\n"@,
        )
    }
}

/// The text of the single message that a compacted conversation becomes.
pub open spec fn compacted_message_text(summary: Seq<char>) -> Seq<char> {
    "This conversation was compacted so the agent can continue working.\n\n"@ + summary
}

impl CompactState {
    /// Records a finished compaction and returns the transcript that replaces
    /// the conversation: one user message with the composed summary.
    pub fn finish_compaction(&mut self, summary: &str, focus: Option<&str>) -> (r: Vec<Message>)
        ensures
            final(self).has_compacted,
            final(self).recent_files == old(self).recent_files,
            final(self).last_summary matches Some(s) && s@ == compose_summary_spec(
                summary@,
                match focus {
                    Some(f) => Some(f@),
                    None => None,
                },
                views(old(self).recent_files@),
            ),
            r@.len() == 1,
            r@[0]@ == (MessageView {
                role: Role::User,
                content: ContentView::Text {
                    content: compacted_message_text(final(self).last_summary->0@),
                },
            }),
    {
        let mut text = owned(summary);
        if let Some(f) = focus {
            text = concat(text, "\n\nFocus to preserve next:");
            text = concat(text, f);
        }
        if self.recent_files.len() > 0 {
            let mut lines: Vec<String> = Vec::new();
            let mut i: usize = 0;
            while i < self.recent_files.len()
                invariant
                    i <= self.recent_files.len(),
                    views(lines@) == recent_file_lines(views(self.recent_files@.take(i as int))),
                decreases self.recent_files.len() - i,
            {
                let line = concat(owned("- "), self.recent_files[i].as_str());
                let ghost before = lines@;
                lines.push(line);
                assert(views(lines@) =~= views(before).push(line@));
                assert(recent_file_lines(views(self.recent_files@.take(i + 1))) =~= recent_file_lines(
                    views(self.recent_files@.take(i as int)),
                ).push("- "@ + self.recent_files@[i as int]@));
                i = i + 1;
            }
            assert(self.recent_files@.take(self.recent_files.len() as int) == self.recent_files@);
            text = concat(text, "\n\nRecent files to reopen if needed:\n");
            let listed = join(&lines, "\n");
            text = concat(text, listed.as_str());
        }
        self.has_compacted = true;
        let body = concat(
            owned("This conversation was compacted so the agent can continue working.\n\n"),
            text.as_str(),
        );
        self.last_summary = Some(text);
        let mut r: Vec<Message> = Vec::new();
        r.push(Message { role: Role::User, content: MessageContent::Text { content: body } });
        r
    }
}

/// The request that asks the model to summarise a conversation, given the
/// conversation as JSON text; at most 80000 characters of it are sent.
pub open spec fn summary_prompt_spec(conversation: Seq<char>) -> Seq<char> {
    "Summarize this coding-agent conversation so work can continue.\nPreserve:\n1. The current goal\n2. Important findings and decisions\n3. Files read or changed\n4. Remaining work\n5. User constraints and preferences\nBe compact but concrete.\n\n"@
        + take_chars_spec(conversation, 80000)
}

/// The prompt that asks for a summary of the conversation.
pub fn summary_prompt(conversation_json: &str) -> (r: String)
    ensures
        r@ == summary_prompt_spec(conversation_json@),
{
    let truncated = take_chars(conversation_json, 80000);
    concat(
        owned(
            "Summarize this coding-agent conversation so work can continue.\nPreserve:\n1. The current goal\n2. Important findings and decisions\n3. Files read or changed\n4. Remaining work\n5. User constraints and preferences\nBe compact but concrete.\n\n",
        ),
        truncated.as_str(),
    )
}

// ---------------------------------------------------------------------------
// Size estimate
// ---------------------------------------------------------------------------

/// The characters a block contributes to the size estimate.
pub open spec fn block_size(b: BlockView) -> nat {
    match b {
        BlockView::Text { text } => text.len(),
        BlockView::ToolUse { name, input, .. } => name.len() + input.text.len(),
        BlockView::ToolResult { content, .. } => content.len(),
        _ => 0,
    }
}

pub open spec fn blocks_size(blocks: Seq<BlockView>) -> nat
    decreases blocks.len(),
{
    if blocks.len() == 0 {
        0
    } else {
        blocks_size(blocks.drop_last()) + block_size(blocks.last())
    }
}

pub open spec fn message_size(m: MessageView) -> nat {
    match m.content {
        ContentView::Text { content } => content.len(),
        ContentView::Blocks { content } => blocks_size(content),
    }
}

/// The size estimate of a transcript when it cannot be serialised: the
/// characters of its texts, tool names, tool inputs and tool results.
pub open spec fn fallback_size_spec(msgs: Seq<MessageView>) -> nat
    decreases msgs.len(),
{
    if msgs.len() == 0 {
        0
    } else {
        fallback_size_spec(msgs.drop_last()) + message_size(msgs.last())
    }
}

/// The characters of the texts, tool calls and tool results of a transcript.
pub fn fallback_context_size(messages: &Vec<Message>) -> (n: usize)
    requires
        fallback_size_spec(message_views(messages@)) <= usize::MAX,
    ensures
        n == fallback_size_spec(message_views(messages@)),
{
    let ghost mv = message_views(messages@);
    let mut n: usize = 0;
    let mut i: usize = 0;
    while i < messages.len()
        invariant
            i <= messages.len(),
            mv == message_views(messages@),
            fallback_size_spec(mv) <= usize::MAX,
            n == fallback_size_spec(mv.take(i as int)),
        decreases messages.len() - i,
    {
        assert(mv.take(i + 1).drop_last() == mv.take(i as int));
        proof {
            lemma_fallback_prefix(mv, i + 1);
        }
        let size: usize = match &messages[i].content {
            MessageContent::Text { content } => char_count(content.as_str()),
            MessageContent::Blocks { content: blocks } => {
                let ghost bv = block_views(blocks@);
                let mut b: usize = 0;
                let mut j: usize = 0;
                while j < blocks.len()
                    invariant
                        i < messages.len(),
                        j <= blocks.len(),
                        bv == block_views(blocks@),
                        blocks_of(mv[i as int]) == bv,
                        fallback_size_spec(mv.take(i as int)) + message_size(mv[i as int]) <= usize::MAX,
                        n == fallback_size_spec(mv.take(i as int)),
                        b == blocks_size(bv.take(j as int)),
                    decreases blocks.len() - j,
                {
                    assert(bv.take(j + 1).drop_last() == bv.take(j as int));
                    proof {
                        lemma_blocks_size_prefix(bv, j + 1);
                    }
                    let add: usize = match &blocks[j] {
                        ContentBlock::Text { text } => char_count(text.as_str()),
                        ContentBlock::ToolUse { name, input, .. } => {
                            char_count(name.as_str()) + char_count(input.text.as_str())
                        },
                        ContentBlock::ToolResult { content, .. } => char_count(content.as_str()),
                        _ => 0,
                    };
                    b = b + add;
                    j = j + 1;
                }
                assert(bv.take(blocks.len() as int) == bv);
                b
            },
        };
        n = n + size;
        i = i + 1;
    }
    assert(mv.take(messages.len() as int) == mv);
    n
}

/// The size estimate of a transcript when it fits in a `usize`, `None` when
/// it does not (where summing it would overflow).
pub fn fallback_context_size_checked(messages: &Vec<Message>) -> (r: Option<usize>)
    ensures
        match r {
            Some(n) => n == fallback_size_spec(message_views(messages@)),
            None => fallback_size_spec(message_views(messages@)) > usize::MAX,
        },
{
    let ghost mv = message_views(messages@);
    let mut n: usize = 0;
    let mut i: usize = 0;
    while i < messages.len()
        invariant
            i <= messages.len(),
            mv == message_views(messages@),
            n == fallback_size_spec(mv.take(i as int)),
        decreases messages.len() - i,
    {
        assert(mv.take(i + 1).drop_last() == mv.take(i as int));
        assert(mv.take(i + 1).last() == mv[i as int]);
        proof {
            lemma_fallback_prefix(mv, i + 1);
        }
        let size: Option<usize> = match &messages[i].content {
            MessageContent::Text { content } => Some(char_count(content.as_str())),
            MessageContent::Blocks { content: blocks } => {
                let ghost bv = block_views(blocks@);
                let mut b: usize = 0;
                let mut j: usize = 0;
                let mut over = false;
                while j < blocks.len() && !over
                    invariant
                        i < messages.len(),
                        j <= blocks.len(),
                        bv == block_views(blocks@),
                        blocks_of(mv[i as int]) == bv,
                        message_size(mv[i as int]) == blocks_size(bv),
                        !over ==> b == blocks_size(bv.take(j as int)),
                        over ==> blocks_size(bv) > usize::MAX,
                    decreases blocks.len() - j + if over { 0int } else { 1int },
                {
                    assert(bv.take(j + 1).drop_last() == bv.take(j as int));
                    assert(bv.take(j + 1).last() == bv[j as int]);
                    proof {
                        lemma_blocks_size_prefix(bv, j + 1);
                    }
                    let add: Option<usize> = match &blocks[j] {
                        ContentBlock::Text { text } => Some(char_count(text.as_str())),
                        ContentBlock::ToolUse { name, input, .. } => {
                            char_count(name.as_str()).checked_add(char_count(input.text.as_str()))
                        },
                        ContentBlock::ToolResult { content, .. } => Some(char_count(content.as_str())),
                        _ => Some(0),
                    };
                    match add {
                        Some(a) => match b.checked_add(a) {
                            Some(t) => {
                                b = t;
                                j = j + 1;
                            },
                            None => {
                                over = true;
                            },
                        },
                        None => {
                            over = true;
                        },
                    }
                }
                assert(!over ==> bv.take(j as int) == bv);
                if over {
                    None
                } else {
                    Some(b)
                }
            },
        };
        match size {
            Some(sz) => match n.checked_add(sz) {
                Some(t) => {
                    n = t;
                },
                None => {
                    return None;
                },
            },
            None => {
                return None;
            },
        }
        i = i + 1;
    }
    assert(mv.take(messages.len() as int) == mv);
    Some(n)
}

proof fn lemma_fallback_prefix(msgs: Seq<MessageView>, k: int)
    requires
        0 <= k <= msgs.len(),
    ensures
        fallback_size_spec(msgs.take(k)) <= fallback_size_spec(msgs),
    decreases msgs.len() - k,
{
    if k < msgs.len() {
        lemma_fallback_prefix(msgs, k + 1);
        assert(msgs.take(k + 1).drop_last() == msgs.take(k));
    } else {
        assert(msgs.take(k) == msgs);
    }
}

proof fn lemma_blocks_size_prefix(blocks: Seq<BlockView>, k: int)
    requires
        0 <= k <= blocks.len(),
    ensures
        blocks_size(blocks.take(k)) <= blocks_size(blocks),
    decreases blocks.len() - k,
{
    if k < blocks.len() {
        lemma_blocks_size_prefix(blocks, k + 1);
        assert(blocks.take(k + 1).drop_last() == blocks.take(k));
    } else {
        assert(blocks.take(k) == blocks);
    }
}


/// What a round of tool calls asks of the compaction: the paths that
/// `read_file` calls name, in order (to remember), whether `compact` was
/// called, and the focus of the last `compact` call.
pub open spec fn round_effects(blocks: Seq<BlockView>) -> (Seq<Seq<char>>, bool, Option<Seq<char>>)
    decreases blocks.len(),
{
    if blocks.len() == 0 {
        (Seq::empty(), false, None)
    } else {
        let (paths, manual, focus) = round_effects(blocks.drop_last());
        match blocks.last() {
            BlockView::ToolUse { name, input, .. } => {
                let paths2 = if name == "read_file"@ && lookup(input.strings, "path"@) is Some {
                    paths.push(lookup(input.strings, "path"@)->0)
                } else {
                    paths
                };
                if name == "compact"@ {
                    (paths2, true, lookup(input.strings, "focus"@))
                } else {
                    (paths2, manual, focus)
                }
            },
            _ => (paths, manual, focus),
        }
    }
}

/// What a round of tool calls asks of the compaction.
pub fn compact_round_effects(blocks: &Vec<ContentBlock>) -> (r: (Vec<String>, bool, Option<String>))
    ensures
        (views(r.0@), r.1, match r.2 {
            Some(f) => Some(f@),
            None => None,
        }) == round_effects(blocks@.map_values(|b: ContentBlock| b@)),
{
    let ghost bv = blocks@.map_values(|b: ContentBlock| b@);
    let mut paths: Vec<String> = Vec::new();
    let mut manual = false;
    let mut focus: Option<String> = None;
    let mut i: usize = 0;
    while i < blocks.len()
        invariant
            i <= blocks.len(),
            bv == blocks@.map_values(|b: ContentBlock| b@),
            (views(paths@), manual, match focus {
                Some(f) => Some(f@),
                None => None,
            }) == round_effects(bv.take(i as int)),
        decreases blocks.len() - i,
    {
        assert(bv.take(i + 1).drop_last() =~= bv.take(i as int));
        assert(bv.take(i + 1).last() == bv[i as int]);
        match &blocks[i] {
            ContentBlock::ToolUse { name, input, .. } => {
                if str_eq(name.as_str(), "read_file") {
                    match input.get_str("path") {
                        Some(p) => {
                            let ghost before = views(paths@);
                            paths.push(p);
                            assert(views(paths@) =~= before.push(lookup(input@.strings, "path"@)->0));
                        },
                        None => {},
                    }
                }
                if str_eq(name.as_str(), "compact") {
                    manual = true;
                    focus = input.get_str("focus");
                }
            },
            _ => {},
        }
        i = i + 1;
    }
    assert(bv.take(i as int) =~= bv);
    (paths, manual, focus)
}

} // verus!
