//! What the editing and block-marking operations do, stated over their inputs
//! and results.
use vstd::prelude::*;

use crate::app::{
    with_agent_text, with_thought, event_blocks, deleted_before, finished_blocks, inserted, is_kind, lemma_last_match, resolved_blocks,
    toggled_blocks, BlockKind, BlockView,
};
use crate::event::Event;
use crate::text::{
    byte_len, char_index, is_whitespace, lemma_byte_len_insert, lemma_byte_len_push,
    lemma_byte_len_take_step, lemma_char_index, on_char_boundary, trim, trim_end, trim_start,
    utf8_width,
};

verus! {

// ---------------------------------------------------------------------------
// Editing the input line
// ---------------------------------------------------------------------------

/// Typing puts the character just before the new cursor, keeps the text before
/// and after the old cursor on either side of it, and moves the cursor past it.
pub proof fn law_insert_puts_char_before_cursor(input: Seq<char>, cursor: int, c: char)
    requires
        on_char_boundary(input, cursor),
    ensures
        on_char_boundary(inserted(input, cursor, c).0, inserted(input, cursor, c).1),
        inserted(input, cursor, c).1 == cursor + utf8_width(c),
        inserted(input, cursor, c).0.len() == input.len() + 1,
        char_index(inserted(input, cursor, c).0, inserted(input, cursor, c).1) == char_index(
            input,
            cursor,
        ) + 1,
        inserted(input, cursor, c).0[char_index(input, cursor)] == c,
        inserted(input, cursor, c).0.take(char_index(input, cursor)) == input.take(
            char_index(input, cursor),
        ),
        inserted(input, cursor, c).0.skip(char_index(input, cursor) + 1) == input.skip(
            char_index(input, cursor),
        ),
        byte_len(inserted(input, cursor, c).0) == byte_len(input) + utf8_width(c),
{
    let k = char_index(input, cursor);
    let t = input.insert(k, c);
    assert(t.take(k + 1) =~= input.take(k).push(c));
    lemma_byte_len_push(input.take(k), c);
    lemma_char_index(t, k + 1);
    lemma_byte_len_insert(input, k, c);
    assert(t.take(k) =~= input.take(k));
    assert(t.skip(k + 1) =~= input.skip(k));
}

/// Backspace removes exactly the character before the cursor: the text before
/// it and after the cursor is kept, and the cursor moves back by its width.
/// At the start of the line nothing changes.
pub proof fn law_delete_removes_char_before_cursor(input: Seq<char>, cursor: int)
    requires
        on_char_boundary(input, cursor),
    ensures
        cursor == 0 ==> deleted_before(input, cursor) == (input, cursor),
        cursor > 0 ==> {
            let k = char_index(input, cursor);
            let t = deleted_before(input, cursor).0;
            let cur = deleted_before(input, cursor).1;
            &&& k >= 1
            &&& t.len() + 1 == input.len()
            &&& on_char_boundary(t, cur)
            &&& char_index(t, cur) == k - 1
            &&& t.take(k - 1) == input.take(k - 1)
            &&& t.skip(k - 1) == input.skip(k)
            &&& cur + utf8_width(input[k - 1]) == cursor
        },
{
    if cursor > 0 {
        let k = char_index(input, cursor);
        assert(input.take(0) =~= Seq::<char>::empty());
        assert(k >= 1);
        let t = input.remove(k - 1);
        lemma_byte_len_take_step(input, k - 1);
        assert(t.take(k - 1) =~= input.take(k - 1));
        lemma_char_index(t, k - 1);
        assert(t.skip(k - 1) =~= input.skip(k));
    }
}

/// Trimming removes whitespace from the two ends only: the result is a
/// contiguous part of the text, everything before and after it is
/// whitespace, and it neither starts nor ends with whitespace.
pub proof fn law_trim_keeps_the_middle(s: Seq<char>)
    ensures
        exists|i: int, j: int|
            0 <= i <= j <= s.len() && trim(s) == s.subrange(i, j) && (forall|k: int|
                0 <= k < i ==> is_whitespace(#[trigger] s[k])) && (forall|k: int|
                j <= k < s.len() ==> is_whitespace(#[trigger] s[k])),
{
    let i = lemma_trim_start_drops(s);
    let t = trim_start(s);
    let m = lemma_trim_end_drops(t);
    assert(trim(s) == s.subrange(i, i + m)) by {
        assert(t.subrange(0, m) =~= s.subrange(i, i + m));
    }
    assert forall|k: int| i + m <= k < s.len() implies is_whitespace(#[trigger] s[k]) by {
        assert(s[k] == t[k - i]);
    }
}

proof fn lemma_trim_start_drops(s: Seq<char>) -> (i: int)
    ensures
        0 <= i <= s.len(),
        trim_start(s) == s.subrange(i, s.len() as int),
        forall|k: int| 0 <= k < i ==> is_whitespace(#[trigger] s[k]),
    decreases s.len(),
{
    if s.len() > 0 && is_whitespace(s[0]) {
        let i = lemma_trim_start_drops(s.drop_first());
        assert(s.drop_first().subrange(i, s.drop_first().len() as int) =~= s.subrange(
            i + 1,
            s.len() as int,
        ));
        assert forall|k: int| 0 <= k < i + 1 implies is_whitespace(#[trigger] s[k]) by {
            if k > 0 {
                assert(s[k] == s.drop_first()[k - 1]);
            }
        }
        i + 1
    } else {
        assert(s.subrange(0, s.len() as int) =~= s);
        0
    }
}

proof fn lemma_trim_end_drops(s: Seq<char>) -> (j: int)
    ensures
        0 <= j <= s.len(),
        trim_end(s) == s.subrange(0, j),
        forall|k: int| j <= k < s.len() ==> is_whitespace(#[trigger] s[k]),
    decreases s.len(),
{
    if s.len() > 0 && is_whitespace(s.last()) {
        let j = lemma_trim_end_drops(s.drop_last());
        assert(s.drop_last().subrange(0, j) =~= s.subrange(0, j));
        assert forall|k: int| j <= k < s.len() implies is_whitespace(#[trigger] s[k]) by {
            if k < s.len() - 1 {
                assert(s[k] == s.drop_last()[k]);
            }
        }
        j
    } else {
        assert(s.subrange(0, s.len() as int) =~= s);
        s.len() as int
    }
}

// ---------------------------------------------------------------------------
// Marking the latest block of a kind
// ---------------------------------------------------------------------------

proof fn lemma_latest_of_kind(s: Seq<BlockView>, k: BlockKind, j: int)
    requires
        -1 <= j < s.len(),
        j >= 0 ==> s[j].kind() == k,
        forall|m: int| j < m < s.len() ==> (#[trigger] s[m]).kind() != k,
    ensures
        crate::app::last_match(s, is_kind(k)) == j,
{
    assert forall|m: int| j < m < s.len() implies !is_kind(k)(#[trigger] s[m]) by {}
    lemma_last_match(s, is_kind(k), j);
}

/// Toggling flips the collapsed flag of the latest reasoning block, keeps its
/// text, and changes no other block; with no reasoning block nothing changes.
pub proof fn law_toggle_flips_latest_thinking(s: Seq<BlockView>, j: int)
    requires
        -1 <= j < s.len(),
        j >= 0 ==> s[j] is Thinking,
        forall|m: int| j < m < s.len() ==> !((#[trigger] s[m]) is Thinking),
    ensures
        toggled_blocks(s).len() == s.len(),
        forall|m: int| 0 <= m < s.len() && m != j ==> #[trigger] toggled_blocks(s)[m] == s[m],
        j >= 0 ==> toggled_blocks(s)[j] == (BlockView::Thinking {
            content: s[j]->Thinking_content,
            collapsed: !s[j]->collapsed,
        }),
{
    lemma_latest_of_kind(s, BlockKind::Thinking, j);
}

/// Finishing a turn stops the latest agent text block from streaming, keeps
/// its text, and changes no other block.
pub proof fn law_finish_stops_latest_agent_text(s: Seq<BlockView>, j: int)
    requires
        -1 <= j < s.len(),
        j >= 0 ==> s[j] is AgentText,
        forall|m: int| j < m < s.len() ==> !((#[trigger] s[m]) is AgentText),
    ensures
        finished_blocks(s).len() == s.len(),
        forall|m: int| 0 <= m < s.len() && m != j ==> #[trigger] finished_blocks(s)[m] == s[m],
        j >= 0 ==> finished_blocks(s)[j] == (BlockView::AgentText {
            content: s[j]->AgentText_content,
            streaming: false,
        }),
{
    lemma_latest_of_kind(s, BlockKind::AgentText, j);
}

/// Answering records the label on the latest permission request block, keeps
/// its title, and changes no other block.
pub proof fn law_answer_marks_latest_request(s: Seq<BlockView>, label: Seq<char>, j: int)
    requires
        -1 <= j < s.len(),
        j >= 0 ==> s[j] is PermissionRequest,
        forall|m: int| j < m < s.len() ==> !((#[trigger] s[m]) is PermissionRequest),
    ensures
        resolved_blocks(s, label).len() == s.len(),
        forall|m: int| 0 <= m < s.len() && m != j ==> #[trigger] resolved_blocks(s, label)[m] == s[m],
        j >= 0 ==> resolved_blocks(s, label)[j] == (BlockView::PermissionRequest {
            title: s[j]->PermissionRequest_title,
            resolved: Some(label),
        }),
{
    lemma_latest_of_kind(s, BlockKind::PermissionRequest, j);
}


// ---------------------------------------------------------------------------
// Streamed text
// ---------------------------------------------------------------------------

/// A reply chunk is appended to the last block when that block is agent text
/// (which keeps its streaming flag), and otherwise becomes a new streaming agent
/// text block at the end; no other block changes.
pub proof fn law_agent_text_appends(s: Seq<BlockView>, t: String, e: Event)
    requires
        e == Event::AgentText(t),
    ensures
        forall|m: int| 0 <= m < s.len() - 1 ==> #[trigger] event_blocks(s, e)[m] == s[m],
        s.len() > 0 && s.last() is AgentText ==> event_blocks(s, e) == s.update(
            s.len() - 1,
            BlockView::AgentText {
                content: s.last()->AgentText_content + t@,
                streaming: s.last()->streaming,
            },
        ),
        !(s.len() > 0 && s.last() is AgentText) ==> event_blocks(s, e) == s.push(
            BlockView::AgentText { content: t@, streaming: true },
        ),
{
}

/// A reasoning chunk is appended to the last block when that block is
/// reasoning (which keeps its collapsed flag), and otherwise becomes a new
/// expanded reasoning block at the end; no other block changes.
pub proof fn law_thought_appends(s: Seq<BlockView>, t: String, e: Event)
    requires
        e == Event::AgentThought(t),
    ensures
        forall|m: int| 0 <= m < s.len() - 1 ==> #[trigger] event_blocks(s, e)[m] == s[m],
        s.len() > 0 && s.last() is Thinking ==> event_blocks(s, e) == s.update(
            s.len() - 1,
            BlockView::Thinking {
                content: s.last()->Thinking_content + t@,
                collapsed: s.last()->collapsed,
            },
        ),
        !(s.len() > 0 && s.last() is Thinking) ==> event_blocks(s, e) == s.push(
            BlockView::Thinking { content: t@, collapsed: false },
        ),
{
}

/// An error becomes a notice at the end that starts with "Error: " and ends
/// with the error's message.
pub proof fn law_error_notice(s: Seq<BlockView>, msg: String, e: Event)
    requires
        e == Event::Error(msg),
    ensures
        event_blocks(s, e).len() == s.len() + 1,
        event_blocks(s, e).drop_last() == s,
        event_blocks(s, e).last() is System,
        event_blocks(s, e).last()->message.take(7) == "Error: "@,
        event_blocks(s, e).last()->message.skip(7) == msg@,
{
    reveal_strlit("Error: ");
    assert(event_blocks(s, e).drop_last() =~= s);
    let m = event_blocks(s, e).last()->message;
    assert(m == "Error: "@ + msg@);
    assert(m.take(7) =~= "Error: "@);
    assert(m.skip(7) =~= msg@);
}

} // verus!
