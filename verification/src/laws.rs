//! Properties that hold across the operations of the application model.
use vstd::prelude::*;

use crate::app::{
    deleted_before, event_blocks, finished_blocks, inserted, is_kind, last_match,
    lemma_last_match, lemma_last_match_facts, lemma_last_match_update, moved_left, moved_right,
    permission_response, permission_title, resolved_blocks, choice_label, toggled_blocks, with_agent_text, with_thought,
    BlockKind, BlockView,
};
use crate::event::{Event, PermissionOption, PermissionResponse};
use crate::text::{
    byte_len, char_index, is_whitespace, lemma_byte_len_push, lemma_byte_len_take_step,
    lemma_char_index, on_char_boundary, trim, trim_end, trim_start, utf8_width,
};

verus! {

/// Typing a character and then deleting the character before the cursor gives
/// back the input line and the cursor as they were.
pub proof fn law_insert_then_delete(input: Seq<char>, cursor: int, c: char)
    requires
        on_char_boundary(input, cursor),
    ensures
        deleted_before(inserted(input, cursor, c).0, inserted(input, cursor, c).1) == (
            input,
            cursor,
        ),
{
    let k = char_index(input, cursor);
    let t = input.insert(k, c);
    assert(t.take(k + 1) =~= input.take(k).push(c));
    lemma_byte_len_push(input.take(k), c);
    lemma_char_index(t, k + 1);
    assert(t.remove(k) =~= input);
    assert(t.take(k) =~= input.take(k));
}

/// Moving the cursor left and then right returns it to where it was, unless it
/// was at the start of the line.
pub proof fn law_left_then_right(input: Seq<char>, cursor: int)
    requires
        on_char_boundary(input, cursor),
        cursor > 0,
    ensures
        moved_right(input, moved_left(input, cursor)) == cursor,
{
    let k = char_index(input, cursor);
    assert(input.take(0) =~= Seq::<char>::empty());
    assert(k > 0);
    lemma_byte_len_take_step(input, k - 1);
    lemma_char_index(input, k - 1);
    crate::text::lemma_byte_len_take_le(input, k);
}

/// Moving the cursor right and then left returns it to where it was, unless it
/// was at the end of the line.
pub proof fn law_right_then_left(input: Seq<char>, cursor: int)
    requires
        on_char_boundary(input, cursor),
        cursor < byte_len(input),
    ensures
        moved_left(input, moved_right(input, cursor)) == cursor,
{
    let k = char_index(input, cursor);
    assert(input.take(input.len() as int) =~= input);
    assert(k < input.len());
    lemma_byte_len_take_step(input, k);
    lemma_char_index(input, k + 1);
}

/// Toggling the most recent reasoning block twice leaves the conversation as it was.
pub proof fn law_toggle_thinking_twice(s: Seq<BlockView>)
    ensures
        toggled_blocks(toggled_blocks(s)) == s,
{
    let p = is_kind(BlockKind::Thinking);
    lemma_last_match_facts(s, p);
    let i = last_match(s, p);
    if i >= 0 {
        match s[i] {
            BlockView::Thinking { content, collapsed } => {
                let b = BlockView::Thinking { content, collapsed: !collapsed };
                lemma_last_match_update(s, p, b);
                assert(toggled_blocks(toggled_blocks(s)) =~= s);
            },
            _ => {},
        }
    }
}

/// Finishing a turn a second time changes nothing more.
pub proof fn law_turn_finished_idempotent(s: Seq<BlockView>)
    ensures
        finished_blocks(finished_blocks(s)) == finished_blocks(s),
{
    let p = is_kind(BlockKind::AgentText);
    lemma_last_match_facts(s, p);
    let i = last_match(s, p);
    if i >= 0 {
        match s[i] {
            BlockView::AgentText { content, .. } => {
                let b = BlockView::AgentText { content, streaming: false };
                lemma_last_match_update(s, p, b);
                assert(finished_blocks(finished_blocks(s)) =~= finished_blocks(s));
            },
            _ => {},
        }
    }
}

/// Two reply chunks in a row show the same as one chunk holding both.
pub proof fn law_agent_text_chunks_concatenate(s: Seq<BlockView>, a: Seq<char>, b: Seq<char>)
    ensures
        with_agent_text(with_agent_text(s, a), b) == with_agent_text(s, a + b),
{
    if s.len() > 0 {
        match s.last() {
            BlockView::AgentText { content, streaming } => {
                assert(content + a + b =~= content + (a + b));
            },
            _ => {},
        }
    }
    assert(with_agent_text(with_agent_text(s, a), b) =~= with_agent_text(s, a + b));
}

/// Two reasoning chunks in a row show the same as one chunk holding both.
pub proof fn law_thought_chunks_concatenate(s: Seq<BlockView>, a: Seq<char>, b: Seq<char>)
    ensures
        with_thought(with_thought(s, a), b) == with_thought(s, a + b),
{
    if s.len() > 0 {
        match s.last() {
            BlockView::Thinking { content, collapsed } => {
                assert(content + a + b =~= content + (a + b));
            },
            _ => {},
        }
    }
    assert(with_thought(with_thought(s, a), b) =~= with_thought(s, a + b));
}

/// Answering with an index past the options records the same outcome as
/// dismissing the request, and sends the same answer, `Cancelled`.
pub proof fn law_out_of_range_choice_cancels(
    s: Seq<BlockView>,
    options: Seq<PermissionOption>,
    idx: nat,
)
    requires
        idx >= options.len(),
    ensures
        resolved_blocks(s, choice_label(options, idx as int)) == resolved_blocks(s, "cancelled"@),
        permission_response(options.len(), idx) == PermissionResponse::Cancelled,
{
}

/// A permission request followed by its answer leaves the request's block with
/// the answer recorded, and the rest of the conversation as it was.
pub proof fn law_request_then_answer(s: Seq<BlockView>, e: Event, label: Seq<char>)
    requires
        e is PermissionRequest,
    ensures
        match e {
            Event::PermissionRequest { tool_call, .. } => resolved_blocks(event_blocks(s, e), label)
                == s.push(
                BlockView::PermissionRequest {
                    title: permission_title(tool_call),
                    resolved: Some(label),
                },
            ),
            _ => true,
        },
{
    match e {
        Event::PermissionRequest { tool_call, .. } => {
            let t = event_blocks(s, e);
            let p = is_kind(BlockKind::PermissionRequest);
            lemma_last_match(t, p, t.len() - 1);
            assert(resolved_blocks(t, label) =~= s.push(
                BlockView::PermissionRequest {
                    title: permission_title(tool_call),
                    resolved: Some(label),
                },
            ));
        },
        _ => {},
    }
}


/// Every block of `s`, except perhaps the one at index `i`, is unchanged in `t`.
pub open spec fn agrees_except_at(s: Seq<BlockView>, t: Seq<BlockView>, i: int) -> bool {
    forall|j: int| 0 <= j < s.len() && j != i ==> #[trigger] t[j] == s[j]
}

/// No event removes a block or changes a block's kind; an event changes at most
/// one of the blocks that were there before, and otherwise only adds blocks.
pub proof fn law_events_keep_blocks(s: Seq<BlockView>, e: Event)
    ensures
        event_blocks(s, e).len() >= s.len(),
        forall|j: int| 0 <= j < s.len() ==> (#[trigger] event_blocks(s, e)[j]).kind() == s[j].kind(),
        exists|i: int| #[trigger] agrees_except_at(s, event_blocks(s, e), i),
{
    let t = event_blocks(s, e);
    match e {
        Event::ToolCallUpdated(u) => {
            let p = crate::app::is_tool_call_with_id(u.tool_call_id@);
            lemma_last_match_facts(s, p);
            let i = last_match(s, p);
            assert(forall|j: int| 0 <= j < s.len() && j != i ==> #[trigger] t[j] == s[j]);
            assert(agrees_except_at(s, t, i));
        },
        _ => {
            let i = s.len() - 1;
            assert(forall|j: int| 0 <= j < s.len() && j != i ==> #[trigger] t[j] == s[j]);
            assert(agrees_except_at(s, t, i));
        },
    }
}

/// Trimming twice is trimming once.
pub proof fn law_trim_idempotent(s: Seq<char>)
    ensures
        trim(trim(s)) == trim(s),
{
    lemma_trim_start_end(s);
    lemma_trim_start_of_trimmed(trim_start(s));
}

/// Submitted text neither starts nor ends with whitespace.
pub proof fn law_trimmed_edges(s: Seq<char>)
    ensures
        trim(s).len() > 0 ==> !is_whitespace(trim(s)[0]) && !is_whitespace(trim(s).last()),
{
    let t = trim_start(s);
    lemma_trim_start_end(s);
    lemma_trim_start_end(t);
    lemma_trim_end_prefix(t);
    if trim(s).len() > 0 {
        assert(trim(s)[0] == t[0]);
    }
}

proof fn lemma_trim_start_end(s: Seq<char>)
    ensures
        trim_start(s).len() > 0 ==> !is_whitespace(trim_start(s)[0]),
        trim_end(s).len() > 0 ==> !is_whitespace(trim_end(s).last()),
    decreases s.len(),
{
    if s.len() > 0 {
        lemma_trim_start_end(s.drop_first());
        lemma_trim_start_end(s.drop_last());
    }
}

/// Trimming the end keeps a prefix.
proof fn lemma_trim_end_prefix(s: Seq<char>)
    ensures
        trim_end(s).len() <= s.len(),
        trim_end(s) =~= s.take(trim_end(s).len() as int),
    decreases s.len(),
{
    if s.len() > 0 && is_whitespace(s.last()) {
        lemma_trim_end_prefix(s.drop_last());
        assert(s.drop_last().take(trim_end(s).len() as int) =~= s.take(trim_end(s).len() as int));
    } else {
        assert(s.take(s.len() as int) =~= s);
    }
}

proof fn lemma_trim_start_of_trimmed(s: Seq<char>)
    requires
        s.len() > 0 ==> !is_whitespace(s[0]),
    ensures
        trim_start(trim_end(s)) == trim_end(s),
        trim_end(trim_end(s)) == trim_end(s),
{
    lemma_trim_end_prefix(s);
    lemma_trim_start_end(s);
    let t = trim_end(s);
    if t.len() > 0 {
        assert(t[0] == s[0]);
    }
}


/// The byte length used for cursor positions is the length of the string's
/// UTF-8 encoding, that is, what `str::len` returns.
pub proof fn law_byte_len_is_utf8_length(s: Seq<char>)
    ensures
        byte_len(s) == vstd::utf8::encode_utf8(s).len(),
    decreases s.len(),
{
    if s.len() > 0 {
        law_byte_len_is_utf8_length(s.drop_first());
        let head = seq![s[0]];
        assert(s =~= head + s.drop_first());
        crate::text::lemma_byte_len_concat(head, s.drop_first());
        assert(head =~= Seq::<char>::empty().push(s[0]));
        lemma_byte_len_push(Seq::<char>::empty(), s[0]);
        vstd::utf8::char_is_scalar(s[0]);
    }
}


/// Answering a permission request keeps every block and its kind; only a
/// permission request block can change.
pub proof fn law_answer_keeps_blocks(s: Seq<BlockView>, label: Seq<char>)
    ensures
        resolved_blocks(s, label).len() == s.len(),
        forall|j: int|
            0 <= j < s.len() ==> (#[trigger] resolved_blocks(s, label)[j]).kind() == s[j].kind(),
        forall|j: int|
            0 <= j < s.len() && s[j].kind() != BlockKind::PermissionRequest
                ==> #[trigger] resolved_blocks(s, label)[j] == s[j],
{
    lemma_last_match_facts(s, is_kind(BlockKind::PermissionRequest));
}

} // verus!
