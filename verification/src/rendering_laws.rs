//! Properties of what the operations produce, stated over their inputs: tool
//! call updates, diff blocks, permission answers, and what the screen shows.
use vstd::prelude::*;

use crate::app::{
    tool_call_block, choice_label, diff_blocks, diff_lines, event_blocks, is_tool_call_with_id, lemma_last_match,
    permission_response, BlockView, DiffLineView,
};
use crate::event::{
    content_text, location_label, text_output, ContentBlock, ToolCall, ToolCallLocation, status_label, Diff, Event, PermissionOption, PermissionResponse, ToolCallContent,
    ToolCallStatus, ToolCallUpdate,
};
use crate::text::{decimal, digit_char, lines, split_newlines, strip_cr};
use crate::ui::{
    block_lines, line_of, plain, status_bar_view, sv, LineView, SpanView,
};

verus! {

// ---------------------------------------------------------------------------
// Tool call updates
// ---------------------------------------------------------------------------

/// A tool call update changes the latest tool call block with its identifier
/// field by field: a new title or status replaces the old one whether or not
/// other fields are present, new content that carries text replaces the output,
/// and the identifier and locations stay. Blocks before it keep their place.
pub proof fn law_tool_update_applies_each_field(
    s: Seq<BlockView>,
    u: ToolCallUpdate,
    e: Event,
    j: int,
)
    requires
        e == Event::ToolCallUpdated(u),
        0 <= j < s.len(),
        s[j] is ToolCall,
        s[j]->id == u.tool_call_id@,
        forall|k: int|
            j < k < s.len() ==> !((#[trigger] s[k]) is ToolCall && s[k]->id == u.tool_call_id@),
    ensures
        event_blocks(s, e).len() >= s.len(),
        event_blocks(s, e)[j] is ToolCall,
        event_blocks(s, e)[j]->id == u.tool_call_id@,
        event_blocks(s, e)[j]->locations == s[j]->locations,
        u.fields.status matches Some(st) ==> event_blocks(s, e)[j]->status == status_label(st),
        u.fields.status is None ==> event_blocks(s, e)[j]->status == s[j]->status,
        u.fields.title matches Some(t) ==> event_blocks(s, e)[j]->ToolCall_title == t@,
        u.fields.title is None ==> event_blocks(s, e)[j]->ToolCall_title == s[j]->ToolCall_title,
        u.fields.content matches Some(c) ==> (content_text(c@).len() > 0 ==> event_blocks(s, e)[j]->output
            == Some(content_text(c@))),
        u.fields.content matches Some(c) ==> (content_text(c@).len() == 0 ==> event_blocks(s, e)[j]->output
            == s[j]->output),
        u.fields.content is None ==> event_blocks(s, e)[j]->output == s[j]->output,
        forall|k: int| 0 <= k < s.len() && k != j ==> #[trigger] event_blocks(s, e)[k] == s[k],
{
    let p = is_tool_call_with_id(u.tool_call_id@);
    assert forall|k: int| j < k < s.len() implies !p(#[trigger] s[k]) by {
        if p(s[k]) {
            assert(s[k] is ToolCall && s[k]->id == u.tool_call_id@);
        }
    }
    lemma_last_match(s, p, j);
}

/// Distinct statuses are shown by distinct names.
pub proof fn law_status_labels_distinct(a: ToolCallStatus, b: ToolCallStatus)
    ensures
        status_label(a) == status_label(b) ==> a == b,
{
    reveal_strlit("Pending");
    reveal_strlit("InProgress");
    reveal_strlit("Completed");
    reveal_strlit("Failed");
    if status_label(a) == status_label(b) && a != b {
        assert(status_label(a).len() != status_label(b).len() || status_label(a)[0] != status_label(
            b,
        )[0]);
    }
}

// ---------------------------------------------------------------------------
// Diff blocks
// ---------------------------------------------------------------------------

/// The diff blocks of two runs of content are those of the first run followed
/// by those of the second.
pub proof fn law_diff_blocks_concat(c1: Seq<ToolCallContent>, c2: Seq<ToolCallContent>)
    ensures
        diff_blocks(c1 + c2) == diff_blocks(c1) + diff_blocks(c2),
    decreases c2.len(),
{
    if c2.len() == 0 {
        assert(c1 + c2 =~= c1);
        assert(diff_blocks(c1) + diff_blocks(c2) =~= diff_blocks(c1));
    } else {
        law_diff_blocks_concat(c1, c2.drop_last());
        assert((c1 + c2).drop_last() =~= c1 + c2.drop_last());
        assert((c1 + c2).last() == c2.last());
        assert(diff_blocks(c1 + c2) =~= diff_blocks(c1) + diff_blocks(c2));
    }
}

/// One diff item with at least one line gives exactly one diff block, for its
/// file, with its lines; without lines it gives none; other content gives none.
pub proof fn law_diff_block_of_one_item(item: ToolCallContent)
    ensures
        match item {
            ToolCallContent::Diff(d) => if diff_lines(d).len() > 0 {
                diff_blocks(seq![item]) == seq![
                    BlockView::Diff { path: d.path@, lines: diff_lines(d) },
                ]
            } else {
                diff_blocks(seq![item]).len() == 0
            },
            _ => diff_blocks(seq![item]).len() == 0,
        },
{
    let s = seq![item];
    assert(s.drop_last() =~= Seq::<ToolCallContent>::empty());
    assert(diff_blocks(s.drop_last()) =~= Seq::<BlockView>::empty());
    match item {
        ToolCallContent::Diff(d) => {
            if diff_lines(d).len() > 0 {
                assert(diff_blocks(s) =~= seq![
                    BlockView::Diff { path: d.path@, lines: diff_lines(d) },
                ]);
            }
        },
        _ => {},
    }
}

/// Every changed file of a tool call gets its own block: the diff blocks of
/// the content are, in order, one block per diff item that has lines.
pub proof fn law_each_changed_file_gets_a_block(c: Seq<ToolCallContent>, k: int)
    requires
        0 <= k < c.len(),
        c[k] is Diff,
        diff_lines(c[k]->Diff_0).len() > 0,
    ensures
        diff_blocks(c) == diff_blocks(c.take(k)) + seq![
            BlockView::Diff { path: c[k]->Diff_0.path@, lines: diff_lines(c[k]->Diff_0) },
        ] + diff_blocks(c.skip(k + 1)),
{
    assert(c =~= c.take(k) + (seq![c[k]] + c.skip(k + 1)));
    law_diff_blocks_concat(c.take(k), seq![c[k]] + c.skip(k + 1));
    law_diff_blocks_concat(seq![c[k]], c.skip(k + 1));
    law_diff_block_of_one_item(c[k]);
    assert(diff_blocks(c) =~= diff_blocks(c.take(k)) + seq![
        BlockView::Diff { path: c[k]->Diff_0.path@, lines: diff_lines(c[k]->Diff_0) },
    ] + diff_blocks(c.skip(k + 1)));
}

/// A diff shows every line of the old text as removed, then every line of the
/// new text as added.
pub proof fn law_diff_lines_cover_old_and_new(d: Diff)
    ensures
        diff_lines(d).len() == (match d.old_text {
            Some(o) => lines(o@).len(),
            None => 0,
        }) + lines(d.new_text@).len(),
        d.old_text matches Some(o) ==> forall|i: int|
            0 <= i < lines(o@).len() ==> #[trigger] diff_lines(d)[i] == DiffLineView::Remove(
                lines(o@)[i],
            ),
        forall|i: int|
            0 <= i < lines(d.new_text@).len() ==> #[trigger] diff_lines(d)[diff_lines(d).len()
                - lines(d.new_text@).len() + i] == DiffLineView::Add(lines(d.new_text@)[i]),
{
}

// ---------------------------------------------------------------------------
// Permission answers
// ---------------------------------------------------------------------------

/// The answer to a permission request is `Selected(idx)` exactly when `idx`
/// names one of the options, and `Cancelled` exactly when it does not; the
/// recorded label is that option's name, or "cancelled".
pub proof fn law_answer_matches_choice(options: Seq<PermissionOption>, idx: nat)
    ensures
        idx < options.len() ==> permission_response(options.len(), idx)
            == PermissionResponse::Selected(idx as usize),
        idx < options.len() ==> choice_label(options, idx as int) == options[idx as int].name@,
        permission_response(options.len(), idx) == PermissionResponse::Cancelled <==> idx
            >= options.len(),
        idx >= options.len() ==> choice_label(options, idx as int) == "cancelled"@,
{
}

// ---------------------------------------------------------------------------
// What the screen shows
// ---------------------------------------------------------------------------

/// An agent text block shows one plain line per line of its content, whether
/// or not it is still streaming.
pub proof fn law_agent_text_lines(
    content: Seq<char>,
    streaming: bool,
    pending: Option<Seq<PermissionOption>>,
)
    ensures
        block_lines(BlockView::AgentText { content, streaming }, pending).len() == lines(
            content,
        ).len(),
        forall|i: int|
            0 <= i < lines(content).len() ==> #[trigger] block_lines(
                BlockView::AgentText { content, streaming },
                pending,
            )[i] == line_of(seq![sv(lines(content)[i], plain())]),
        block_lines(BlockView::AgentText { content, streaming }, pending) == block_lines(
            BlockView::AgentText { content, streaming: !streaming },
            pending,
        ),
{
}

/// The text of a line: its spans' texts, concatenated.
pub open spec fn line_text(spans: Seq<SpanView>) -> Seq<char>
    decreases spans.len(),
{
    if spans.len() == 0 {
        Seq::<char>::empty()
    } else {
        line_text(spans.drop_last()) + spans.last().text
    }
}

proof fn lemma_line_text_concat(a: Seq<SpanView>, b: Seq<SpanView>)
    ensures
        line_text(a + b) == line_text(a) + line_text(b),
    decreases b.len(),
{
    if b.len() == 0 {
        assert(a + b =~= a);
        assert(line_text(a) + line_text(b) =~= line_text(a));
    } else {
        lemma_line_text_concat(a, b.drop_last());
        assert((a + b).drop_last() =~= a + b.drop_last());
        assert(line_text(a + b) =~= line_text(a) + line_text(b));
    }
}

proof fn lemma_line_text_one(x: SpanView)
    ensures
        line_text(seq![x]) == x.text,
{
    assert(seq![x].drop_last() =~= Seq::<SpanView>::empty());
    assert(line_text(Seq::<SpanView>::empty()) + x.text =~= x.text);
}

proof fn lemma_line_text_two(x: SpanView, y: SpanView)
    ensures
        line_text(seq![x, y]) == x.text + y.text,
{
    assert(seq![x, y] =~= seq![x] + seq![y]);
    lemma_line_text_concat(seq![x], seq![y]);
    lemma_line_text_one(x);
    lemma_line_text_one(y);
}

/// The status bar reads: the model name and a separator when the model is
/// known, then the working directory, then a separator and the branch when
/// there is one. Each part depends only on its own field.
pub proof fn law_status_bar_text(model: Seq<char>, cwd: Seq<char>, branch: Option<Seq<char>>)
    ensures
        line_text(status_bar_view(model, cwd, branch).spans) == (if model.len() > 0 {
            model + " │ "@
        } else {
            Seq::<char>::empty()
        }) + cwd + match branch {
            Some(b) => " │ "@ + b,
            None => Seq::<char>::empty(),
        },
{
    let st = status_bar_view(model, cwd, branch);
    let head = if model.len() > 0 {
        seq![sv(model, crate::ui::colored(crate::ui::Color::Cyan)), sv(" │ "@, plain())]
    } else {
        Seq::<SpanView>::empty()
    };
    let mid = seq![sv(cwd, crate::ui::colored(crate::ui::Color::Blue))];
    let tail = match branch {
        Some(b) => seq![sv(" │ "@, plain()), sv(b, crate::ui::colored(crate::ui::Color::Magenta))],
        None => Seq::<SpanView>::empty(),
    };
    assert(st.spans == head + mid + tail);
    lemma_line_text_concat(head + mid, tail);
    lemma_line_text_concat(head, mid);
    lemma_line_text_one(mid[0]);
    if model.len() > 0 {
        lemma_line_text_two(head[0], head[1]);
    } else {
        assert(line_text(head) =~= Seq::<char>::empty());
    }
    match branch {
        Some(b) => {
            lemma_line_text_two(tail[0], tail[1]);
        },
        None => {
            assert(line_text(tail) =~= Seq::<char>::empty());
        },
    }
    let lhs_head = if model.len() > 0 {
        model + " │ "@
    } else {
        Seq::<char>::empty()
    };
    let lhs_tail = match branch {
        Some(b) => " │ "@ + b,
        None => Seq::<char>::empty(),
    };
    assert(line_text(st.spans) =~= lhs_head + cwd + lhs_tail);
}


// ---------------------------------------------------------------------------
// Numerals, locations, tool call text and new tool calls
// ---------------------------------------------------------------------------

/// The number that a string of decimal digits denotes.
pub open spec fn digits_value(s: Seq<char>) -> int
    decreases s.len(),
{
    if s.len() == 0 {
        0
    } else {
        digits_value(s.drop_last()) * 10 + (s.last() as int - 48)
    }
}

/// The decimal numeral of `n` is made of digits, denotes `n`, and has no
/// leading zero.
pub proof fn law_decimal_denotes(n: nat)
    ensures
        forall|i: int| 0 <= i < decimal(n).len() ==> 48 <= #[trigger] (decimal(n)[i] as int) <= 57,
        digits_value(decimal(n)) == n,
        decimal(n).len() >= 1,
        decimal(n)[0] == '0' ==> n == 0,
    decreases n,
{
    if n < 10 {
        assert(decimal(n) == seq![digit_char(n)]);
        assert(seq![digit_char(n)].drop_last() =~= Seq::<char>::empty());
        assert((digit_char(n) as int) == n + 48);
        assert(digits_value(decimal(n)) == digits_value(Seq::<char>::empty()) * 10 + (digit_char(n) as int - 48));
    } else {
        law_decimal_denotes(n / 10);
        let d = decimal(n / 10);
        assert(decimal(n) == d.push(digit_char(n % 10)));
        assert(decimal(n).drop_last() =~= d);
        assert((digit_char(n % 10) as int) == n % 10 + 48);
        assert(n / 10 * 10 + n % 10 == n);
        assert(digits_value(decimal(n)) == digits_value(d) * 10 + (digit_char(n % 10) as int - 48));
        assert forall|i: int| 0 <= i < decimal(n).len() implies 48 <= #[trigger] (decimal(n)[i] as int) <= 57 by {
            if i < d.len() {
                assert(decimal(n)[i] == d[i]);
            }
        }
        assert(decimal(n)[0] == d[0]);
    }
}

/// A location shows its path, followed by a colon and the line number's
/// numeral when it has a line.
pub proof fn law_location_label(l: ToolCallLocation)
    ensures
        l.line is None ==> location_label(l) == l.path@,
        l.line matches Some(n) ==> location_label(l).len() == l.path@.len() + 1 + decimal(n as nat).len()
            && location_label(l).take(l.path@.len() as int) == l.path@
            && location_label(l)[l.path@.len() as int] == ':'
            && location_label(l).skip(l.path@.len() as int + 1) == decimal(n as nat),
{
    reveal_strlit(":");
    match l.line {
        Some(n) => {
            let t = location_label(l);
            assert(t == l.path@ + ":"@ + decimal(n as nat));
            assert(t.take(l.path@.len() as int) =~= l.path@);
            assert(t.skip(l.path@.len() as int + 1) =~= decimal(n as nat));
        },
        None => {},
    }
}

/// The text of tool call content is the text of its parts, in order: text
/// blocks contribute their text, and everything else contributes nothing.
pub proof fn law_content_text_concat(c1: Seq<ToolCallContent>, c2: Seq<ToolCallContent>)
    ensures
        content_text(c1 + c2) == content_text(c1) + content_text(c2),
    decreases c2.len(),
{
    if c2.len() == 0 {
        assert(c1 + c2 =~= c1);
        assert(content_text(c1) + content_text(c2) =~= content_text(c1));
    } else {
        law_content_text_concat(c1, c2.drop_last());
        assert((c1 + c2).drop_last() =~= c1 + c2.drop_last());
        assert((c1 + c2).last() == c2.last());
        assert(content_text(c1 + c2) =~= content_text(c1) + content_text(c2));
    }
}

/// A single content item carries its text when it is a text block, and no
/// text otherwise.
pub proof fn law_content_text_of_one_item(item: ToolCallContent)
    ensures
        item matches ToolCallContent::Content(ContentBlock::Text(t)) ==> content_text(seq![item]) == t@,
        !(item is Content && item->Content_0 is Text) ==> content_text(seq![item]).len() == 0,
{
    assert(seq![item].drop_last() =~= Seq::<ToolCallContent>::empty());
    assert(content_text(Seq::<ToolCallContent>::empty()) =~= Seq::<char>::empty());
    match item {
        ToolCallContent::Content(ContentBlock::Text(t)) => {
            assert(Seq::<char>::empty() + t@ =~= t@);
        },
        _ => {},
    }
}

/// A tool call that starts adds one block after the existing ones: it carries
/// the call's identifier, title and status name, one location label per
/// location in order, and the call's text as output (none when it has no
/// text); the call's diff blocks follow it.
pub proof fn law_tool_call_started(s: Seq<BlockView>, tc: ToolCall, e: Event)
    requires
        e == Event::ToolCallStarted(tc),
    ensures
        event_blocks(s, e).len() == s.len() + 1 + diff_blocks(tc.content@).len(),
        forall|k: int| 0 <= k < s.len() ==> #[trigger] event_blocks(s, e)[k] == s[k],
        event_blocks(s, e)[s.len() as int] is ToolCall,
        event_blocks(s, e)[s.len() as int]->id == tc.tool_call_id@,
        event_blocks(s, e)[s.len() as int]->ToolCall_title == tc.title@,
        event_blocks(s, e)[s.len() as int]->status == status_label(tc.status),
        event_blocks(s, e)[s.len() as int]->locations.len() == tc.locations@.len(),
        forall|k: int|
            0 <= k < tc.locations@.len() ==> #[trigger] event_blocks(s, e)[s.len() as int]->locations[k]
                == location_label(tc.locations@[k]),
        content_text(tc.content@).len() == 0 ==> event_blocks(s, e)[s.len() as int]->output is None,
        content_text(tc.content@).len() > 0 ==> event_blocks(s, e)[s.len() as int]->output == Some(
            content_text(tc.content@),
        ),
        event_blocks(s, e).skip(s.len() as int + 1) == diff_blocks(tc.content@),
{
    let t = event_blocks(s, e);
    assert(t == s.push(tool_call_block(tc)) + diff_blocks(tc.content@));
    assert(t.skip(s.len() as int + 1) =~= diff_blocks(tc.content@));
}

// ---------------------------------------------------------------------------
// Lines
// ---------------------------------------------------------------------------

proof fn lemma_split_newlines_len(s: Seq<char>)
    ensures
        split_newlines(s).len() >= 1,
    decreases s.len(),
{
    if s.len() > 0 {
        lemma_split_newlines_len(s.drop_last());
    }
}

/// Text without a newline is a single piece.
proof fn lemma_split_no_newline(s: Seq<char>)
    requires
        forall|i: int| 0 <= i < s.len() ==> s[i] != '\n',
    ensures
        split_newlines(s) == seq![s],
    decreases s.len(),
{
    if s.len() > 0 {
        lemma_split_no_newline(s.drop_last());
        assert(s.drop_last().push(s.last()) =~= s);
        assert(seq![s.drop_last()].update(0, s.drop_last().push(s.last())) =~= seq![s]);
    } else {
        assert(s =~= Seq::<char>::empty());
    }
}

/// Splitting `a`, a newline, then `b`: the pieces of `a` (a single piece) and
/// then the pieces of `b`.
proof fn lemma_split_after_line(a: Seq<char>, b: Seq<char>)
    requires
        forall|i: int| 0 <= i < a.len() ==> a[i] != '\n',
    ensures
        split_newlines(a + seq!['\n'] + b) == seq![a] + split_newlines(b),
    decreases b.len(),
{
    lemma_split_newlines_len(b);
    if b.len() == 0 {
        let x = a + seq!['\n'];
        assert(a + seq!['\n'] + b =~= x);
        assert(x.drop_last() =~= a);
        lemma_split_no_newline(a);
        assert(split_newlines(x) =~= seq![a] + split_newlines(b));
    } else {
        lemma_split_after_line(a, b.drop_last());
        lemma_split_newlines_len(b.drop_last());
        let x = a + seq!['\n'] + b;
        assert(x.drop_last() =~= a + seq!['\n'] + b.drop_last());
        assert(x.last() == b.last());
        let r = split_newlines(b.drop_last());
        if b.last() == '\n' {
            assert(split_newlines(x) =~= seq![a] + split_newlines(b));
        } else {
            assert((seq![a] + r).last() == r.last());
            assert(split_newlines(x) =~= seq![a] + split_newlines(b));
        }
    }
}

/// The lines of text: a text without a newline is one line (none when
/// empty); otherwise the first line is the text before the first newline
/// (without one carriage return that ends it), and the rest are the lines of
/// the text after it.
pub proof fn law_lines_first_line(a: Seq<char>, b: Seq<char>)
    requires
        forall|i: int| 0 <= i < a.len() ==> a[i] != '\n',
    ensures
        lines(a + seq!['\n'] + b) == seq![lines(a + seq!['\n'] + b)[0]] + lines(b),
        a.len() > 0 && a.last() == '\r' ==> lines(a + seq!['\n'] + b)[0] == a.drop_last(),
        !(a.len() > 0 && a.last() == '\r') ==> lines(a + seq!['\n'] + b)[0] == a,
        lines(a) == if a.len() == 0 {
            Seq::<Seq<char>>::empty()
        } else {
            seq![a]
        },
{
    lemma_split_after_line(a, b);
    lemma_split_newlines_len(b);
    lemma_split_no_newline(a);
    let p = seq![a] + split_newlines(b);
    assert(p.drop_last() =~= seq![a] + split_newlines(b).drop_last());
    assert(p.last() == split_newlines(b).last());
    assert(p.drop_last().map_values(|l: Seq<char>| strip_cr(l)) =~= seq![strip_cr(a)]
        + split_newlines(b).drop_last().map_values(|l: Seq<char>| strip_cr(l)));
    assert(lines(a + seq!['\n'] + b) =~= seq![strip_cr(a)] + lines(b));
    assert(seq![a].drop_last() =~= Seq::<Seq<char>>::empty());
    assert(Seq::<Seq<char>>::empty().map_values(|l: Seq<char>| strip_cr(l)) =~= Seq::<Seq<char>>::empty());
    if a.len() == 0 {
        assert(lines(a) =~= Seq::<Seq<char>>::empty());
    } else {
        assert(lines(a) =~= seq![a]);
    }
}

} // verus!
