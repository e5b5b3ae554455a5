use vstd::prelude::*;

use crate::message::{message_of, message_views, Message, MessageView, Role};
use crate::text::{join_with, lemma_join_holds_parts, part_offset, stands_at};

verus! {

/// The separator between the summarized contents.
pub open spec fn summary_separator() -> Seq<char> {
    " | "@
}

/// The text the summary message starts with.
pub open spec fn summary_prefix() -> Seq<char> {
    "[compact summary] "@
}

/// The contents of the messages, in order.
pub open spec fn contents(messages: Seq<MessageView>) -> Seq<Seq<char>> {
    messages.map_values(|m: MessageView| m.content)
}

/// Whether the message at `i` is a tool result.
pub open spec fn is_tool_result(h: Seq<MessageView>, i: int) -> bool {
    0 <= i < h.len() && h[i].role == Role::Tool
}

/// Walking back from `i` over tool results: the first index, at or before
/// `i`, that does not hold a tool result (`i` itself when it is past the end).
pub open spec fn back_off(h: Seq<MessageView>, i: int) -> int
    decreases i,
{
    if 0 < i && is_tool_result(h, i) {
        back_off(h, i - 1)
    } else {
        i
    }
}

/// Whether compacting `h` to its last `keep` messages finishes: either nothing
/// is cut, or some message at or before the first kept one is not a tool
/// result (or the cut keeps nothing at all).
pub open spec fn compaction_finishes(h: Seq<MessageView>, keep: nat) -> bool {
    ||| h.len() <= keep
    ||| exists|j: int| 0 <= j <= h.len() - keep && !#[trigger] is_tool_result(h, j)
}

/// Where compaction cuts `h`: the first kept message is the `keep`-th from
/// the end, moved back over tool results so that no result is parted from the
/// messages before it.
pub open spec fn cut_point(h: Seq<MessageView>, keep: nat) -> int {
    back_off(h, h.len() - keep)
}

/// The summary message that stands for the messages `dropped`.
pub open spec fn summary_message(dropped: Seq<MessageView>) -> MessageView {
    message_of(Role::User, summary_prefix() + join_with(contents(dropped), summary_separator()))
}

/// The history `h` compacted to keep its recent `keep` messages: unchanged
/// when it is no longer than that; otherwise one summary message for what
/// comes before the cut point, followed by everything from the cut point on.
pub open spec fn compacted(h: Seq<MessageView>, keep: nat) -> Seq<MessageView> {
    if h.len() <= keep {
        h
    } else {
        let s = cut_point(h, keep);
        seq![summary_message(h.take(s))] + h.skip(s)
    }
}

/// Moving back over tool results from `i` ends at the same index as moving
/// back from any index passed on the way.
proof fn lemma_back_off_step(h: Seq<MessageView>, i: int)
    requires
        0 < i,
        is_tool_result(h, i),
    ensures
        back_off(h, i) == back_off(h, i - 1),
{
}

/// Moving back from `i`, when some message at or before `i` is not a tool
/// result, stops on the last such message: every message passed over is a
/// tool result.
proof fn lemma_back_off(h: Seq<MessageView>, i: int)
    requires
        0 <= i,
        exists|j: int| 0 <= j <= i && !#[trigger] is_tool_result(h, j),
    ensures
        0 <= back_off(h, i) <= i,
        !is_tool_result(h, back_off(h, i)),
        forall|k: int| back_off(h, i) < k <= i ==> is_tool_result(h, k),
    decreases i,
{
    if 0 < i && is_tool_result(h, i) {
        let j = choose|j: int| 0 <= j <= i && !#[trigger] is_tool_result(h, j);
        assert(j < i);
        lemma_back_off(h, i - 1);
    } else if is_tool_result(h, i) {
        let j = choose|j: int| 0 <= j <= i && !#[trigger] is_tool_result(h, j);
        assert(j == 0);
    }
}

/// A history of at most `keep` messages is left as it is.
pub proof fn lemma_short_history_unchanged(h: Seq<MessageView>, keep: nat)
    requires
        h.len() <= keep,
    ensures
        compacted(h, keep) == h,
{
}

/// The cut falls no later than the `keep`-th message from the end, on a
/// message that is not a tool result (or just past the end when nothing is
/// kept), and every message between the cut and the `keep`-th message from the
/// end is a tool result: the cut is the latest place that does not separate a
/// tool result from the messages before it.
pub proof fn lemma_cut_point(h: Seq<MessageView>, keep: nat)
    requires
        compaction_finishes(h, keep),
        h.len() > keep,
    ensures
        0 <= cut_point(h, keep) <= h.len() - keep,
        !is_tool_result(h, cut_point(h, keep)),
        forall|k: int| cut_point(h, keep) < k <= h.len() - keep ==> is_tool_result(h, k),
{
    lemma_back_off(h, h.len() - keep);
}

/// Compaction keeps the recent messages as they are: after the summary comes
/// everything from the cut on, which includes the last `keep` messages.
pub proof fn lemma_compaction_keeps_recent(h: Seq<MessageView>, keep: nat)
    requires
        compaction_finishes(h, keep),
        h.len() > keep,
    ensures
        compacted(h, keep).len() >= keep + 1,
        compacted(h, keep).skip(1) == h.skip(cut_point(h, keep)),
        compacted(h, keep).skip(compacted(h, keep).len() - keep) == h.skip(h.len() - keep),
{
    lemma_cut_point(h, keep);
    let c = compacted(h, keep);
    let s = cut_point(h, keep);
    assert(c.skip(1) =~= h.skip(s));
    assert(c.skip(c.len() - keep) =~= h.skip(h.len() - keep));
}

/// A compacted history never starts its kept part with an orphan tool result:
/// it opens with the user's summary, and the message after the summary is not a
/// tool result.
pub proof fn lemma_no_orphan_tool_result(h: Seq<MessageView>, keep: nat)
    requires
        compaction_finishes(h, keep),
        h.len() > keep,
    ensures
        compacted(h, keep)[0].role == Role::User,
        compacted(h, keep).len() > 1 ==> compacted(h, keep)[1].role != Role::Tool,
{
    lemma_cut_point(h, keep);
}

/// Copies of `h[from..]`, appended to `out`.
fn push_copies(out: &mut Vec<Message>, h: &[Message], from: usize)
    requires
        from <= h@.len(),
    ensures
        message_views(final(out)@) == message_views(old(out)@) + message_views(h@).skip(
            from as int,
        ),
{
    let ghost start = message_views(out@);
    let mut i = from;
    while i < h.len()
        invariant
            from <= i <= h@.len(),
            message_views(out@) == start + message_views(h@).subrange(from as int, i as int),
        decreases h@.len() - i,
    {
        let m = h[i].clone();
        let ghost prev = message_views(out@);
        out.push(m);
        assert(message_views(out@) =~= prev.push(m@));
        assert(message_views(h@).subrange(from as int, i + 1) =~= message_views(h@).subrange(
            from as int,
            i as int,
        ).push(h@[i as int]@));
        i = i + 1;
    }
    assert(message_views(h@).subrange(from as int, h@.len() as int) =~= message_views(h@).skip(
        from as int,
    ));
}

/// The contents of `h[..end]`, joined with the summary separator.
fn joined_contents(h: &[Message], end: usize) -> (r: String)
    requires
        end <= h@.len(),
    ensures
        r@ == join_with(contents(message_views(h@).take(end as int)), summary_separator()),
{
    let ghost parts = contents(message_views(h@));
    let mut r = String::new();
    let mut i: usize = 0;
    assert(contents(message_views(h@).take(0)) =~= Seq::<Seq<char>>::empty());
    while i < end
        invariant
            end <= h@.len(),
            i <= end,
            parts == contents(message_views(h@)),
            r@ == join_with(contents(message_views(h@).take(i as int)), summary_separator()),
        decreases end - i,
    {
        let ghost before = contents(message_views(h@).take(i as int));
        let ghost after = contents(message_views(h@).take(i + 1));
        assert(after.drop_last() =~= before);
        assert(after.last() == h@[i as int].content@);
        if i > 0 {
            r.append(" | ");
        } else {
            assert(before.len() == 0);
            assert(r@ =~= Seq::<char>::empty());
        }
        r.append(h[i].content.as_str());
        i = i + 1;
    }
    r
}

/// Whether compacting `history` to its recent `keep` messages can finish:
/// false exactly when `keep` is not zero, the history is longer than `keep`,
/// and every message from the first down to the `keep`-th from the end is a
/// tool result.
pub fn compaction_would_finish(history: &[Message], keep: usize) -> (r: bool)
    ensures
        r == compaction_finishes(message_views(history@), keep as nat),
{
    let ghost h = message_views(history@);
    if history.len() <= keep {
        return true;
    }
    let last = history.len() - keep;
    let mut j: usize = 0;
    while j <= last
        invariant
            h == message_views(history@),
            history@.len() > keep,
            last == history@.len() - keep,
            j <= last + 1,
            forall|k: int| 0 <= k < j ==> #[trigger] is_tool_result(h, k),
        decreases last + 1 - j,
    {
        if j == history.len() || history[j].role != Role::Tool {
            assert(!is_tool_result(h, j as int));
            return true;
        }
        assert(is_tool_result(h, j as int));
        j = j + 1;
    }
    false
}

/// Compacts a history to its recent `keep` messages: a history of at most
/// `keep` messages comes back unchanged; otherwise the cut is placed before
/// the `keep`-th message from the end, moved back while it would fall on a tool
/// result, and everything before the cut is replaced by one user message that
/// summarizes their contents.
///
/// When every message from the first down to the `keep`-th from the end is a
/// tool result (and `keep` is not zero), the cut can never be placed; this
/// function is not meant for those histories.
pub fn compact_keep_recent_turns(history: &[Message], keep: usize) -> (r: Vec<Message>)
    requires
        compaction_finishes(message_views(history@), keep as nat),
    ensures
        message_views(r@) == compacted(message_views(history@), keep as nat),
{
    let ghost h = message_views(history@);
    if history.len() <= keep {
        let mut all: Vec<Message> = Vec::new();
        push_copies(&mut all, history, 0);
        assert(message_views(all@) =~= h);
        return all;
    }
    let mut start = history.len() - keep;
    while start < history.len() && history[start].role == Role::Tool
        invariant
            h == message_views(history@),
            history@.len() > keep,
            start <= history@.len() - keep,
            back_off(h, start as int) == cut_point(h, keep as nat),
            exists|j: int| 0 <= j <= start && !#[trigger] is_tool_result(h, j),
        decreases start,
    {
        assert(is_tool_result(h, start as int));
        assert(start > 0);
        proof {
            lemma_back_off_step(h, start as int);
        }
        start = start.saturating_sub(1);
    }
    assert(back_off(h, start as int) == start);
    let mut summary = String::from_str("[compact summary] ");
    let joined = joined_contents(history, start);
    summary.append(joined.as_str());
    let mut compacted_history: Vec<Message> = Vec::new();
    compacted_history.push(Message { role: Role::User, content: summary });
    push_copies(&mut compacted_history, history, start);
    compacted_history
}

/// The summary holds every message it replaces: when messages are dropped, the
/// content of each of them stands in the summary, in order, after the summary
/// prefix and the contents before it, each followed by the separator.
pub proof fn lemma_summary_holds_dropped(h: Seq<MessageView>, keep: nat)
    requires
        compaction_finishes(h, keep),
        h.len() > keep,
    ensures
        compacted(h, keep)[0].role == Role::User,
        forall|k: int|
            0 <= k < cut_point(h, keep) ==> #[trigger] stands_at(
                compacted(h, keep)[0].content,
                h[k].content,
                summary_prefix().len() + part_offset(
                    contents(h.take(cut_point(h, keep))),
                    summary_separator(),
                    k,
                ),
            ),
{
    lemma_cut_point(h, keep);
    let s = cut_point(h, keep);
    let parts = contents(h.take(s));
    lemma_join_holds_parts(parts, summary_separator());
    let summary = compacted(h, keep)[0].content;
    assert(summary == summary_prefix() + join_with(parts, summary_separator()));
    assert forall|k: int| 0 <= k < s implies #[trigger] stands_at(
        summary,
        h[k].content,
        summary_prefix().len() + part_offset(parts, summary_separator(), k),
    ) by {
        assert(parts[k] == h[k].content);
        let off = part_offset(parts, summary_separator(), k);
        assert(stands_at(join_with(parts, summary_separator()), parts[k], off));
        assert forall|i: int| 0 <= i < h[k].content.len() implies summary[summary_prefix().len() + off
            + i] == h[k].content[i] by {
            assert(join_with(parts, summary_separator())[off + i] == parts[k][i]);
        }
    }
}

} // verus!
