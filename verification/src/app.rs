//! The application model: the conversation shown on screen, the input line
//! with its cursor, and the permission request awaiting an answer.
use futures::channel::oneshot::Sender;
use vstd::prelude::*;

use crate::event::{
    content_text, location_label, status_label, status_text, text_output, ContentBlock, Diff,
    Event, PermissionOption, PermissionResponse, ToolCall, ToolCallContent, ToolCallLocation,
    ToolCallUpdate, ToolCallUpdateFields,
};
use crate::text::{
    byte_len, char_index, char_index_of, char_width, chars_of, lemma_byte_len_take_step,
    lemma_byte_len_take_strict, lemma_char_index, lines, on_char_boundary, push_decimal,
    split_lines, string_from_chars, trim, trim_chars, utf8_width, views,
};

verus! {

// ---------------------------------------------------------------------------
// Block model
// ---------------------------------------------------------------------------

/// A single visual unit in the conversation scroll area.
pub enum Block {
    /// User's submitted input.
    UserInput { text: String },
    /// Agent's streamed text response (accumulates chunks).
    AgentText { content: String, streaming: bool },
    /// Agent's internal reasoning (collapsible).
    Thinking { content: String, collapsed: bool },
    /// Tool invocation with structured output.
    ToolCall {
        id: String,
        title: String,
        status: String,
        locations: Vec<String>,
        output: Option<String>,
    },
    /// Unified diff for file edits.
    Diff { path: String, lines: Vec<DiffLine> },
    /// System notification.
    System { message: String },
    /// Permission request (rendered inline).
    PermissionRequest { title: String, resolved: Option<String> },
}

/// A single line within a diff block.
pub enum DiffLine {
    Context(String),
    Add(String),
    Remove(String),
}

/// The variant of a block, without its contents.
#[derive(Debug, Clone, Copy, PartialEq, Eq, Structural)]
pub enum BlockKind {
    UserInput,
    AgentText,
    Thinking,
    ToolCall,
    Diff,
    System,
    PermissionRequest,
}

/// A diff line as characters.
pub enum DiffLineView {
    Context(Seq<char>),
    Add(Seq<char>),
    Remove(Seq<char>),
}

/// A block as characters: what the screen shows of it.
pub enum BlockView {
    UserInput { text: Seq<char> },
    AgentText { content: Seq<char>, streaming: bool },
    Thinking { content: Seq<char>, collapsed: bool },
    ToolCall {
        id: Seq<char>,
        title: Seq<char>,
        status: Seq<char>,
        locations: Seq<Seq<char>>,
        output: Option<Seq<char>>,
    },
    Diff { path: Seq<char>, lines: Seq<DiffLineView> },
    System { message: Seq<char> },
    PermissionRequest { title: Seq<char>, resolved: Option<Seq<char>> },
}

/// The view of an optional string.
pub open spec fn opt_view(o: Option<String>) -> Option<Seq<char>> {
    match o {
        Some(s) => Some(s@),
        None => None,
    }
}

impl View for DiffLine {
    type V = DiffLineView;

    open spec fn view(&self) -> DiffLineView {
        match self {
            DiffLine::Context(s) => DiffLineView::Context(s@),
            DiffLine::Add(s) => DiffLineView::Add(s@),
            DiffLine::Remove(s) => DiffLineView::Remove(s@),
        }
    }
}

/// The views of a sequence of diff lines.
pub open spec fn diff_line_views(v: Seq<DiffLine>) -> Seq<DiffLineView> {
    v.map_values(|l: DiffLine| l@)
}

impl View for Block {
    type V = BlockView;

    open spec fn view(&self) -> BlockView {
        match self {
            Block::UserInput { text } => BlockView::UserInput { text: text@ },
            Block::AgentText { content, streaming } => BlockView::AgentText {
                content: content@,
                streaming: *streaming,
            },
            Block::Thinking { content, collapsed } => BlockView::Thinking {
                content: content@,
                collapsed: *collapsed,
            },
            Block::ToolCall { id, title, status, locations, output } => BlockView::ToolCall {
                id: id@,
                title: title@,
                status: status@,
                locations: views(locations@),
                output: opt_view(*output),
            },
            Block::Diff { path, lines } => BlockView::Diff {
                path: path@,
                lines: diff_line_views(lines@),
            },
            Block::System { message } => BlockView::System { message: message@ },
            Block::PermissionRequest { title, resolved } => BlockView::PermissionRequest {
                title: title@,
                resolved: opt_view(*resolved),
            },
        }
    }
}

impl BlockView {
    pub open spec fn kind(self) -> BlockKind {
        match self {
            BlockView::UserInput { .. } => BlockKind::UserInput,
            BlockView::AgentText { .. } => BlockKind::AgentText,
            BlockView::Thinking { .. } => BlockKind::Thinking,
            BlockView::ToolCall { .. } => BlockKind::ToolCall,
            BlockView::Diff { .. } => BlockKind::Diff,
            BlockView::System { .. } => BlockKind::System,
            BlockView::PermissionRequest { .. } => BlockKind::PermissionRequest,
        }
    }
}

impl Block {
    /// The variant of this block.
    pub fn kind(&self) -> (k: BlockKind)
        ensures
            k == self@.kind(),
    {
        match self {
            Block::UserInput { .. } => BlockKind::UserInput,
            Block::AgentText { .. } => BlockKind::AgentText,
            Block::Thinking { .. } => BlockKind::Thinking,
            Block::ToolCall { .. } => BlockKind::ToolCall,
            Block::Diff { .. } => BlockKind::Diff,
            Block::System { .. } => BlockKind::System,
            Block::PermissionRequest { .. } => BlockKind::PermissionRequest,
        }
    }
}

/// The views of a sequence of blocks.
pub open spec fn block_views(v: Seq<Block>) -> Seq<BlockView> {
    v.map_values(|b: Block| b@)
}

// ---------------------------------------------------------------------------
// Finding the most recent block of a kind
// ---------------------------------------------------------------------------

/// The index of the last block satisfying `p`, or -1 when there is none.
pub open spec fn last_match(s: Seq<BlockView>, p: spec_fn(BlockView) -> bool) -> int
    decreases s.len(),
{
    if s.len() == 0 {
        -1
    } else if p(s.last()) {
        s.len() - 1
    } else {
        last_match(s.drop_last(), p)
    }
}

/// Blocks of kind `k`.
pub open spec fn is_kind(k: BlockKind) -> spec_fn(BlockView) -> bool {
    |b: BlockView| b.kind() == k
}

/// Tool call blocks with the identifier `id`.
pub open spec fn is_tool_call_with_id(id: Seq<char>) -> spec_fn(BlockView) -> bool {
    |b: BlockView|
        match b {
            BlockView::ToolCall { id: bid, .. } => bid == id,
            _ => false,
        }
}

/// `i` is the last index satisfying `p` (or -1 with no such index) exactly when
/// `p` holds at `i` and nowhere after it.
pub proof fn lemma_last_match(s: Seq<BlockView>, p: spec_fn(BlockView) -> bool, i: int)
    requires
        -1 <= i < s.len(),
        i >= 0 ==> p(s[i]),
        forall|j: int| i < j < s.len() ==> !p(#[trigger] s[j]),
    ensures
        last_match(s, p) == i,
    decreases s.len(),
{
    if s.len() > 0 && i < s.len() - 1 {
        let t = s.drop_last();
        assert forall|j: int| i < j < t.len() implies !p(#[trigger] t[j]) by {
            assert(t[j] == s[j]);
        }
        lemma_last_match(t, p, i);
    }
}

/// Facts about the last index satisfying `p`.
pub proof fn lemma_last_match_facts(s: Seq<BlockView>, p: spec_fn(BlockView) -> bool)
    ensures
        -1 <= last_match(s, p) < s.len(),
        last_match(s, p) >= 0 ==> p(s[last_match(s, p)]),
        forall|j: int| last_match(s, p) < j < s.len() ==> !p(#[trigger] s[j]),
    decreases s.len(),
{
    if s.len() > 0 && !p(s.last()) {
        lemma_last_match_facts(s.drop_last(), p);
        assert forall|j: int| last_match(s, p) < j < s.len() implies !p(#[trigger] s[j]) by {
            if j < s.len() - 1 {
                assert(s[j] == s.drop_last()[j]);
            }
        }
    }
}

/// Replacing the last block satisfying `p` by another that satisfies `p` keeps it last.
pub proof fn lemma_last_match_update(
    s: Seq<BlockView>,
    p: spec_fn(BlockView) -> bool,
    b: BlockView,
)
    requires
        last_match(s, p) >= 0,
        p(b),
    ensures
        last_match(s.update(last_match(s, p), b), p) == last_match(s, p),
{
    lemma_last_match_facts(s, p);
    let i = last_match(s, p);
    let t = s.update(i, b);
    assert forall|j: int| i < j < t.len() implies !p(#[trigger] t[j]) by {
        assert(t[j] == s[j]);
    }
    lemma_last_match(t, p, i);
}

/// The index of the last block of kind `k`.
pub fn last_block_of_kind(blocks: &Vec<Block>, k: BlockKind) -> (r: Option<usize>)
    ensures
        match r {
            Some(i) => i == last_match(block_views(blocks@), is_kind(k)),
            None => last_match(block_views(blocks@), is_kind(k)) == -1,
        },
{
    let ghost s = block_views(blocks@);
    let mut i: usize = blocks.len();
    while i > 0
        invariant
            i <= blocks@.len(),
            s == block_views(blocks@),
            forall|j: int| i <= j < s.len() ==> !is_kind(k)(#[trigger] s[j]),
        decreases i,
    {
        if blocks[i - 1].kind() == k {
            proof {
                lemma_last_match(s, is_kind(k), i - 1);
            }
            return Some(i - 1);
        }
        i = i - 1;
    }
    proof {
        lemma_last_match(s, is_kind(k), -1);
    }
    None
}

/// The index of the last tool call block with identifier `id`.
pub fn last_tool_call_with_id(blocks: &Vec<Block>, id: &String) -> (r: Option<usize>)
    ensures
        match r {
            Some(i) => i == last_match(block_views(blocks@), is_tool_call_with_id(id@)),
            None => last_match(block_views(blocks@), is_tool_call_with_id(id@)) == -1,
        },
{
    let ghost s = block_views(blocks@);
    let ghost p = is_tool_call_with_id(id@);
    let mut i: usize = blocks.len();
    while i > 0
        invariant
            i <= blocks@.len(),
            s == block_views(blocks@),
            p == is_tool_call_with_id(id@),
            forall|j: int| i <= j < s.len() ==> !p(#[trigger] s[j]),
        decreases i,
    {
        assert(s[i - 1] == blocks@[i - 1]@);
        let found = match &blocks[i - 1] {
            Block::ToolCall { id: bid, .. } => *bid == *id,
            _ => false,
        };
        assert(found == p(s[i - 1]));
        if found {
            proof {
                lemma_last_match(s, p, i - 1);
            }
            return Some(i - 1);
        }
        i = i - 1;
    }
    proof {
        lemma_last_match(s, p, -1);
    }
    None
}


// ---------------------------------------------------------------------------
// What a tool call contributes to the conversation
// ---------------------------------------------------------------------------

/// The lines of a diff: the old text's lines removed, then the new text's lines added.
pub open spec fn diff_lines(d: Diff) -> Seq<DiffLineView> {
    let removed = match d.old_text {
        Some(o) => lines(o@).map_values(|l: Seq<char>| DiffLineView::Remove(l)),
        None => Seq::<DiffLineView>::empty(),
    };
    removed + lines(d.new_text@).map_values(|l: Seq<char>| DiffLineView::Add(l))
}

/// One diff block per diff item that has at least one line, in order.
pub open spec fn diff_blocks(items: Seq<ToolCallContent>) -> Seq<BlockView>
    decreases items.len(),
{
    if items.len() == 0 {
        Seq::<BlockView>::empty()
    } else {
        diff_blocks(items.drop_last()) + match items.last() {
            ToolCallContent::Diff(d) => if diff_lines(d).len() > 0 {
                seq![BlockView::Diff { path: d.path@, lines: diff_lines(d) }]
            } else {
                Seq::<BlockView>::empty()
            },
            _ => Seq::<BlockView>::empty(),
        }
    }
}

/// The block that shows a newly started tool call.
pub open spec fn tool_call_block(tc: ToolCall) -> BlockView {
    BlockView::ToolCall {
        id: tc.tool_call_id@,
        title: tc.title@,
        status: status_label(tc.status),
        locations: tc.locations@.map_values(|l: ToolCallLocation| location_label(l)),
        output: text_output(tc.content@),
    }
}

/// A tool call block with the given fields applied: a new title or status
/// replaces the old one, and new content replaces the output when it carries text.
pub open spec fn updated_tool_block(b: BlockView, f: ToolCallUpdateFields) -> BlockView {
    match b {
        BlockView::ToolCall { id, title, status, locations, output } => BlockView::ToolCall {
            id,
            title: match f.title {
                Some(t) => t@,
                None => title,
            },
            status: match f.status {
                Some(st) => status_label(st),
                None => status,
            },
            locations,
            output: match f.content {
                Some(c) => if content_text(c@).len() > 0 {
                    Some(content_text(c@))
                } else {
                    output
                },
                None => output,
            },
        },
        _ => b,
    }
}

/// A location as text.
pub fn location_text(l: &ToolCallLocation) -> (r: String)
    ensures
        r@ == location_label(*l),
{
    let mut r = l.path.clone();
    match l.line {
        Some(n) => {
            r.append(":");
            push_decimal(&mut r, n as u64);
        },
        None => {},
    }
    r
}

/// The text carried by tool call content, or `None` when there is none.
pub fn extract_text_content(content: &[ToolCallContent]) -> (r: Option<String>)
    ensures
        opt_view(r) == text_output(content@),
{
    let mut text = String::new();
    let mut i: usize = 0;
    while i < content.len()
        invariant
            i <= content@.len(),
            text@ == content_text(content@.take(i as int)),
        decreases content.len() - i,
    {
        assert(content@.take(i + 1).drop_last() =~= content@.take(i as int));
        match &content[i] {
            ToolCallContent::Content(ContentBlock::Text(t)) => {
                text.append(t.as_str());
            },
            _ => {},
        }
        i = i + 1;
    }
    assert(content@.take(content@.len() as int) =~= content@);
    if text.as_str().is_empty() {
        None
    } else {
        Some(text)
    }
}

/// The diff lines of one diff item.
fn diff_line_vec(d: &Diff) -> (r: Vec<DiffLine>)
    ensures
        diff_line_views(r@) == diff_lines(*d),
{
    let mut r: Vec<DiffLine> = Vec::new();
    let ghost removed: Seq<DiffLineView> = Seq::empty();
    match &d.old_text {
        Some(o) => {
            let ls = split_lines(o.as_str());
            let mut i: usize = 0;
            while i < ls.len()
                invariant
                    i <= ls@.len(),
                    views(ls@) == lines(o@),
                    diff_line_views(r@) == lines(o@).take(i as int).map_values(
                        |l: Seq<char>| DiffLineView::Remove(l),
                    ),
                decreases ls.len() - i,
            {
                let ghost old_r = r@;
                let x = ls[i].clone();
                assert(views(ls@)[i as int] == ls@[i as int]@);
                assert(x@ == lines(o@)[i as int]);
                r.push(DiffLine::Remove(x));
                assert(diff_line_views(r@) =~= diff_line_views(old_r).push(
                    DiffLineView::Remove(lines(o@)[i as int]),
                ));
                assert(lines(o@).take(i + 1) =~= lines(o@).take(i as int).push(
                    lines(o@)[i as int],
                ));
                assert(diff_line_views(r@) =~= lines(o@).take(i + 1).map_values(
                    |l: Seq<char>| DiffLineView::Remove(l),
                ));
                i = i + 1;
            }
            assert(lines(o@).take(ls@.len() as int) =~= lines(o@));
            proof {
                removed = lines(o@).map_values(|l: Seq<char>| DiffLineView::Remove(l));
            }
        },
        None => {},
    }
    let ls = split_lines(d.new_text.as_str());
    let mut i: usize = 0;
    while i < ls.len()
        invariant
            i <= ls@.len(),
            views(ls@) == lines(d.new_text@),
            removed == match d.old_text {
                Some(o) => lines(o@).map_values(|l: Seq<char>| DiffLineView::Remove(l)),
                None => Seq::<DiffLineView>::empty(),
            },
            diff_line_views(r@) == removed + lines(d.new_text@).take(i as int).map_values(
                |l: Seq<char>| DiffLineView::Add(l),
            ),
        decreases ls.len() - i,
    {
        let ghost old_r = r@;
        let x = ls[i].clone();
        assert(views(ls@)[i as int] == ls@[i as int]@);
        assert(x@ == lines(d.new_text@)[i as int]);
        r.push(DiffLine::Add(x));
        assert(diff_line_views(r@) =~= diff_line_views(old_r).push(
            DiffLineView::Add(lines(d.new_text@)[i as int]),
        ));
        assert(lines(d.new_text@).take(i + 1) =~= lines(d.new_text@).take(i as int).push(
            lines(d.new_text@)[i as int],
        ));
        assert(diff_line_views(r@) =~= removed + lines(d.new_text@).take(i + 1).map_values(
            |l: Seq<char>| DiffLineView::Add(l),
        ));
        i = i + 1;
    }
    assert(lines(d.new_text@).take(ls@.len() as int) =~= lines(d.new_text@));
    assert(diff_line_views(r@) =~= diff_lines(*d));
    r
}

/// Appends one diff block per diff item that has lines.
pub fn extract_diff_blocks(content: &[ToolCallContent], blocks: &mut Vec<Block>)
    ensures
        block_views(final(blocks)@) == block_views(old(blocks)@) + diff_blocks(content@),
{
    let mut i: usize = 0;
    while i < content.len()
        invariant
            i <= content@.len(),
            block_views(blocks@) == block_views(old(blocks)@) + diff_blocks(
                content@.take(i as int),
            ),
        decreases content.len() - i,
    {
        assert(content@.take(i + 1).drop_last() =~= content@.take(i as int));
        let ghost before = blocks@;
        match &content[i] {
            ToolCallContent::Diff(d) => {
                let dl = diff_line_vec(d);
                if dl.len() > 0 {
                    blocks.push(Block::Diff { path: d.path.clone(), lines: dl });
                    assert(block_views(blocks@) =~= block_views(before).push(blocks@.last()@));
                }
            },
            _ => {},
        }
        assert(block_views(blocks@) =~= block_views(old(blocks)@) + diff_blocks(
            content@.take(i + 1),
        ));
        i = i + 1;
    }
    assert(content@.take(content@.len() as int) =~= content@);
}


// ---------------------------------------------------------------------------
// How events change the conversation
// ---------------------------------------------------------------------------

/// A reply chunk extends the last block when that block is agent text, and
/// otherwise starts a new streaming agent text block.
pub open spec fn with_agent_text(s: Seq<BlockView>, t: Seq<char>) -> Seq<BlockView> {
    if s.len() > 0 {
        match s.last() {
            BlockView::AgentText { content, streaming } => s.update(
                s.len() - 1,
                BlockView::AgentText { content: content + t, streaming },
            ),
            _ => s.push(BlockView::AgentText { content: t, streaming: true }),
        }
    } else {
        s.push(BlockView::AgentText { content: t, streaming: true })
    }
}

/// A reasoning chunk extends the last block when that block is reasoning, and
/// otherwise starts a new expanded reasoning block.
pub open spec fn with_thought(s: Seq<BlockView>, t: Seq<char>) -> Seq<BlockView> {
    if s.len() > 0 {
        match s.last() {
            BlockView::Thinking { content, collapsed } => s.update(
                s.len() - 1,
                BlockView::Thinking { content: content + t, collapsed },
            ),
            _ => s.push(BlockView::Thinking { content: t, collapsed: false }),
        }
    } else {
        s.push(BlockView::Thinking { content: t, collapsed: false })
    }
}

/// A tool call update applies to the most recent tool call block with the same
/// identifier, and its new content adds diff blocks at the end; with no such
/// block, nothing changes.
pub open spec fn after_tool_update(s: Seq<BlockView>, u: ToolCallUpdate) -> Seq<BlockView> {
    let i = last_match(s, is_tool_call_with_id(u.tool_call_id@));
    if i < 0 {
        s
    } else {
        s.update(i, updated_tool_block(s[i], u.fields)) + match u.fields.content {
            Some(c) => diff_blocks(c@),
            None => Seq::<BlockView>::empty(),
        }
    }
}

/// The title shown for a permission request.
pub open spec fn permission_title(u: ToolCallUpdate) -> Seq<char> {
    match u.fields.title {
        Some(t) => t@,
        None => "Permission requested"@,
    }
}

/// The name shown for the agent.
pub open spec fn agent_label(name: Option<String>) -> Seq<char> {
    match name {
        Some(n) => n@,
        None => "agent"@,
    }
}

/// The notice that a session started.
pub open spec fn session_message(name: Option<String>, session_id: String) -> Seq<char> {
    "Session started: "@ + agent_label(name) + " ("@ + session_id@ + ")"@
}

/// The conversation after an event.
pub open spec fn event_blocks(s: Seq<BlockView>, e: Event) -> Seq<BlockView> {
    match e {
        Event::AgentText(t) => with_agent_text(s, t@),
        Event::AgentThought(t) => with_thought(s, t@),
        Event::ToolCallStarted(tc) => s.push(tool_call_block(tc)) + diff_blocks(tc.content@),
        Event::ToolCallUpdated(u) => after_tool_update(s, u),
        Event::PermissionRequest { tool_call, .. } => s.push(
            BlockView::PermissionRequest { title: permission_title(tool_call), resolved: None },
        ),
        Event::SessionStarted { agent_name, session_id } => s.push(
            BlockView::System { message: session_message(agent_name, session_id) },
        ),
        Event::Error(msg) => s.push(BlockView::System { message: "Error: "@ + msg@ }),
    }
}

fn append_agent_text(blocks: &mut Vec<Block>, text: String)
    ensures
        block_views(final(blocks)@) == with_agent_text(block_views(old(blocks)@), text@),
{
    let ghost s = block_views(blocks@);
    let last = blocks.pop();
    match last {
        Some(Block::AgentText { content, streaming }) => {
            let mut c = content;
            c.append(text.as_str());
            blocks.push(Block::AgentText { content: c, streaming });
        },
        Some(other) => {
            blocks.push(other);
            blocks.push(Block::AgentText { content: text, streaming: true });
        },
        None => {
            blocks.push(Block::AgentText { content: text, streaming: true });
        },
    }
    assert(block_views(blocks@) =~= with_agent_text(s, text@));
}

fn append_thought(blocks: &mut Vec<Block>, text: String)
    ensures
        block_views(final(blocks)@) == with_thought(block_views(old(blocks)@), text@),
{
    let ghost s = block_views(blocks@);
    let last = blocks.pop();
    match last {
        Some(Block::Thinking { content, collapsed }) => {
            let mut c = content;
            c.append(text.as_str());
            blocks.push(Block::Thinking { content: c, collapsed });
        },
        Some(other) => {
            blocks.push(other);
            blocks.push(Block::Thinking { content: text, collapsed: false });
        },
        None => {
            blocks.push(Block::Thinking { content: text, collapsed: false });
        },
    }
    assert(block_views(blocks@) =~= with_thought(s, text@));
}

fn start_tool_call(blocks: &mut Vec<Block>, tc: ToolCall)
    ensures
        block_views(final(blocks)@) == block_views(old(blocks)@).push(tool_call_block(tc))
            + diff_blocks(tc.content@),
{
    let ghost tc0 = tc;
    let ToolCall { tool_call_id, title, status, content, locations } = tc;
    let mut labels: Vec<String> = Vec::new();
    let mut i: usize = 0;
    while i < locations.len()
        invariant
            i <= locations@.len(),
            views(labels@) == locations@.take(i as int).map_values(
                |l: ToolCallLocation| location_label(l),
            ),
        decreases locations.len() - i,
    {
        let ghost old_labels = labels@;
        let l = location_text(&locations[i]);
        labels.push(l);
        assert(views(labels@) =~= views(old_labels).push(location_label(locations@[i as int])));
        assert(locations@.take(i + 1) =~= locations@.take(i as int).push(locations@[i as int]));
        assert(locations@.take(i + 1).map_values(|l: ToolCallLocation| location_label(l))
            =~= locations@.take(i as int).map_values(|l: ToolCallLocation| location_label(l)).push(
            location_label(locations@[i as int]),
        ));
        i = i + 1;
    }
    assert(locations@.take(locations@.len() as int) =~= locations@);
    let output = extract_text_content(content.as_slice());
    let status_str = status_text(status);
    let ghost before = blocks@;
    blocks.push(
        Block::ToolCall {
            id: tool_call_id,
            title,
            status: status_str,
            locations: labels,
            output,
        },
    );
    assert(block_views(blocks@) =~= block_views(before).push(tool_call_block(tc0)));
    extract_diff_blocks(content.as_slice(), blocks);
}

fn update_tool_call(blocks: &mut Vec<Block>, u: ToolCallUpdate)
    ensures
        block_views(final(blocks)@) == after_tool_update(block_views(old(blocks)@), u),
{
    let ghost s = block_views(blocks@);
    let ghost u0 = u;
    let ToolCallUpdate { tool_call_id, fields } = u;
    match last_tool_call_with_id(blocks, &tool_call_id) {
        None => {},
        Some(i) => {
            proof {
                lemma_last_match_facts(s, is_tool_call_with_id(tool_call_id@));
            }
            let ghost fields0 = fields;
            let ToolCallUpdateFields { status: new_status, title: new_title, content: new_content } =
                fields;
            let b = blocks.remove(i);
            assert(b@ == s[i as int]);
            match b {
                Block::ToolCall { id, title, status, locations, output } => {
                    let title = match new_title {
                        Some(t) => t,
                        None => title,
                    };
                    let status = match new_status {
                        Some(st) => status_text(st),
                        None => status,
                    };
                    match new_content {
                        Some(c) => {
                            let output = match extract_text_content(c.as_slice()) {
                                Some(t) => Some(t),
                                None => output,
                            };
                            blocks.insert(i, Block::ToolCall { id, title, status, locations, output });
                            assert(blocks@[i as int]@ == updated_tool_block(s[i as int], fields0));
                            assert(block_views(blocks@) =~= s.update(
                                i as int,
                                updated_tool_block(s[i as int], fields0),
                            ));
                            extract_diff_blocks(c.as_slice(), blocks);
                        },
                        None => {
                            blocks.insert(i, Block::ToolCall { id, title, status, locations, output });
                            assert(blocks@[i as int]@ == updated_tool_block(s[i as int], fields0));
                            assert(block_views(blocks@) =~= s.update(
                                i as int,
                                updated_tool_block(s[i as int], fields0),
                            ));
                            assert(block_views(blocks@) =~= after_tool_update(s, u0));
                        },
                    }
                },
                other => {
                    blocks.insert(i, other);
                    assert(false);
                },
            }
        },
    }
}


// ---------------------------------------------------------------------------
// Permission requests, turns and reasoning blocks
// ---------------------------------------------------------------------------

/// The label recorded when a permission request is answered with option `idx`:
/// the option's name, or "cancelled" for an index past the options.
pub open spec fn choice_label(options: Seq<PermissionOption>, idx: int) -> Seq<char> {
    if 0 <= idx < options.len() {
        options[idx].name@
    } else {
        "cancelled"@
    }
}

/// The answer sent for option `idx` among `n` options.
pub open spec fn permission_response(n: nat, idx: nat) -> PermissionResponse {
    if idx < n {
        PermissionResponse::Selected(idx as usize)
    } else {
        PermissionResponse::Cancelled
    }
}

/// The answer sent for option `idx` among `n` options.
pub fn choose_response(n: usize, idx: usize) -> (r: PermissionResponse)
    ensures
        r == permission_response(n as nat, idx as nat),
{
    if idx < n {
        PermissionResponse::Selected(idx)
    } else {
        PermissionResponse::Cancelled
    }
}

/// The most recent permission request block records `label` as its outcome.
pub open spec fn resolved_blocks(s: Seq<BlockView>, label: Seq<char>) -> Seq<BlockView> {
    let i = last_match(s, is_kind(BlockKind::PermissionRequest));
    if i < 0 {
        s
    } else {
        match s[i] {
            BlockView::PermissionRequest { title, .. } => s.update(
                i,
                BlockView::PermissionRequest { title, resolved: Some(label) },
            ),
            _ => s,
        }
    }
}

/// The most recent agent text block stops streaming.
pub open spec fn finished_blocks(s: Seq<BlockView>) -> Seq<BlockView> {
    let i = last_match(s, is_kind(BlockKind::AgentText));
    if i < 0 {
        s
    } else {
        match s[i] {
            BlockView::AgentText { content, .. } => s.update(
                i,
                BlockView::AgentText { content, streaming: false },
            ),
            _ => s,
        }
    }
}

/// The most recent reasoning block flips between collapsed and expanded.
pub open spec fn toggled_blocks(s: Seq<BlockView>) -> Seq<BlockView> {
    let i = last_match(s, is_kind(BlockKind::Thinking));
    if i < 0 {
        s
    } else {
        match s[i] {
            BlockView::Thinking { content, collapsed } => s.update(
                i,
                BlockView::Thinking { content, collapsed: !collapsed },
            ),
            _ => s,
        }
    }
}

fn mark_permission_resolved(blocks: &mut Vec<Block>, label: String)
    ensures
        block_views(final(blocks)@) == resolved_blocks(block_views(old(blocks)@), label@),
{
    let ghost s = block_views(blocks@);
    match last_block_of_kind(blocks, BlockKind::PermissionRequest) {
        None => {},
        Some(i) => {
            proof {
                lemma_last_match_facts(s, is_kind(BlockKind::PermissionRequest));
            }
            let b = blocks.remove(i);
            assert(b@ == s[i as int]);
            match b {
                Block::PermissionRequest { title, .. } => {
                    blocks.insert(i, Block::PermissionRequest { title, resolved: Some(label) });
                },
                other => {
                    blocks.insert(i, other);
                    assert(false);
                },
            }
            assert(block_views(blocks@) =~= resolved_blocks(s, label@));
        },
    }
}

fn finish_streaming(blocks: &mut Vec<Block>)
    ensures
        block_views(final(blocks)@) == finished_blocks(block_views(old(blocks)@)),
{
    let ghost s = block_views(blocks@);
    match last_block_of_kind(blocks, BlockKind::AgentText) {
        None => {},
        Some(i) => {
            proof {
                lemma_last_match_facts(s, is_kind(BlockKind::AgentText));
            }
            let b = blocks.remove(i);
            assert(b@ == s[i as int]);
            match b {
                Block::AgentText { content, .. } => {
                    blocks.insert(i, Block::AgentText { content, streaming: false });
                },
                other => {
                    blocks.insert(i, other);
                    assert(false);
                },
            }
            assert(block_views(blocks@) =~= finished_blocks(s));
        },
    }
}

fn toggle_last_thinking(blocks: &mut Vec<Block>)
    ensures
        block_views(final(blocks)@) == toggled_blocks(block_views(old(blocks)@)),
{
    let ghost s = block_views(blocks@);
    match last_block_of_kind(blocks, BlockKind::Thinking) {
        None => {},
        Some(i) => {
            proof {
                lemma_last_match_facts(s, is_kind(BlockKind::Thinking));
            }
            let b = blocks.remove(i);
            assert(b@ == s[i as int]);
            match b {
                Block::Thinking { content, collapsed } => {
                    blocks.insert(i, Block::Thinking { content, collapsed: !collapsed });
                },
                other => {
                    blocks.insert(i, other);
                    assert(false);
                },
            }
            assert(block_views(blocks@) =~= toggled_blocks(s));
        },
    }
}

// ---------------------------------------------------------------------------
// Editing the input line
// ---------------------------------------------------------------------------

/// The input line and cursor after typing `c` at byte offset `cursor`.
pub open spec fn inserted(input: Seq<char>, cursor: int, c: char) -> (Seq<char>, int) {
    (input.insert(char_index(input, cursor), c), cursor + utf8_width(c))
}

/// The input line and cursor after deleting the character before byte offset `cursor`.
pub open spec fn deleted_before(input: Seq<char>, cursor: int) -> (Seq<char>, int) {
    if cursor > 0 {
        let k = char_index(input, cursor);
        (input.remove(k - 1), byte_len(input.take(k - 1)) as int)
    } else {
        (input, cursor)
    }
}

/// The cursor after moving one character left.
pub open spec fn moved_left(input: Seq<char>, cursor: int) -> int {
    if cursor > 0 {
        byte_len(input.take(char_index(input, cursor) - 1)) as int
    } else {
        cursor
    }
}

/// The cursor after moving one character right.
pub open spec fn moved_right(input: Seq<char>, cursor: int) -> int {
    if cursor < byte_len(input) {
        byte_len(input.take(char_index(input, cursor) + 1)) as int
    } else {
        cursor
    }
}


// ---------------------------------------------------------------------------
// The application model
// ---------------------------------------------------------------------------

/// A pending permission request awaiting user decision.
pub struct PendingPermission {
    pub options: Vec<PermissionOption>,
    pub respond: Sender<PermissionResponse>,
}

/// Static metadata shown in the status bar.
pub struct StatusBar {
    pub model: String,
    pub cwd: String,
    pub git_branch: Option<String>,
}

/// The TUI application model.
///
/// All mutable state lives here: events and key presses change it, and the
/// screen is drawn from it.
pub struct App {
    /// Current text in the input bar.
    pub input: String,
    /// Cursor byte-position within `input`.
    pub cursor: usize,
    /// Conversation blocks displayed in the scroll area.
    pub blocks: Vec<Block>,
    /// Vertical scroll offset, in screen rows (0 = bottom / latest).
    pub scroll_offset: u16,
    /// Whether the app should quit on the next loop iteration.
    pub should_quit: bool,
    /// Whether a prompt is currently being processed by the agent.
    pub busy: bool,
    /// Status bar info.
    pub status: StatusBar,
    /// Pending permission request (if any).
    pub pending_permission: Option<PendingPermission>,
}

/// The greeting that opens every conversation.
pub open spec fn welcome_message() -> Seq<char> {
    "Welcome to corust. Type a message and press Enter."@
}

impl App {
    /// The conversation as characters.
    pub open spec fn blocks_view(&self) -> Seq<BlockView> {
        block_views(self.blocks@)
    }

    /// The cursor sits at the start of a character of the input, or at its end,
    /// and the input's UTF-8 length fits in a `usize`.
    pub open spec fn cursor_valid(&self) -> bool {
        &&& on_char_boundary(self.input@, self.cursor as int)
        &&& byte_len(self.input@) <= usize::MAX
    }

    /// A model with the welcome notice, an empty input line, and `cwd` as the
    /// working directory shown in the status bar.
    pub fn new(cwd: String) -> (app: App)
        ensures
            app.blocks_view() == seq![BlockView::System { message: welcome_message() }],
            app.input@ == Seq::<char>::empty(),
            app.cursor == 0,
            app.cursor_valid(),
            app.scroll_offset == 0,
            !app.should_quit,
            !app.busy,
            app.status.model@ == Seq::<char>::empty(),
            app.status.cwd == cwd,
            app.status.git_branch is None,
            app.pending_permission is None,
    {
        let app = App {
            input: String::new(),
            cursor: 0,
            blocks: vec![
                Block::System {
                    message: String::from_str("Welcome to corust. Type a message and press Enter."),
                },
            ],
            scroll_offset: 0,
            should_quit: false,
            busy: false,
            status: StatusBar { model: String::new(), cwd, git_branch: None },
            pending_permission: None,
        };
        proof {
            lemma_char_index(app.input@, 0);
            assert(app.input@.take(0) =~= app.input@);
        }
        assert(app.blocks_view() =~= seq![BlockView::System { message: welcome_message() }]);
        app
    }

    // -- ACP event handling --

    /// Applies an event from the agent connection: the conversation changes as
    /// `event_blocks` says, the view scrolls back to the latest block, a session
    /// start names the agent in the status bar, and a permission request becomes
    /// the pending one. A request still pending when a new one arrives is
    /// dropped: this library never sends on a reply channel itself, it only hands
    /// the channel back from `resolve_permission` and `cancel_permission`.
    pub fn handle_acp_event(&mut self, event: Event)
        ensures
            final(self).blocks_view() == event_blocks(old(self).blocks_view(), event),
            final(self).scroll_offset == 0,
            final(self).input == old(self).input,
            final(self).cursor == old(self).cursor,
            final(self).should_quit == old(self).should_quit,
            final(self).busy == old(self).busy,
            final(self).status.cwd == old(self).status.cwd,
            final(self).status.git_branch == old(self).status.git_branch,
            match event {
                Event::SessionStarted { agent_name, .. } => final(self).status.model@
                    == agent_label(agent_name),
                _ => final(self).status.model == old(self).status.model,
            },
            match event {
                Event::PermissionRequest { options, respond, .. } => final(self).pending_permission
                    == Some((PendingPermission { options, respond })),
                _ => final(self).pending_permission == old(self).pending_permission,
            },
    {
        match event {
            Event::AgentText(text) => {
                append_agent_text(&mut self.blocks, text);
            },
            Event::AgentThought(text) => {
                append_thought(&mut self.blocks, text);
            },
            Event::ToolCallStarted(tool_call) => {
                start_tool_call(&mut self.blocks, tool_call);
            },
            Event::ToolCallUpdated(update) => {
                update_tool_call(&mut self.blocks, update);
            },
            Event::PermissionRequest { tool_call, options, respond } => {
                let title = match tool_call.fields.title {
                    Some(t) => t,
                    None => String::from_str("Permission requested"),
                };
                self.blocks.push(Block::PermissionRequest { title, resolved: None });
                self.pending_permission = Some(PendingPermission { options, respond });
            },
            Event::SessionStarted { agent_name, session_id } => {
                let label = match agent_name {
                    Some(n) => n,
                    None => String::from_str("agent"),
                };
                let message = String::from_str("Session started: ").concat(label.as_str()).concat(
                    " (",
                ).concat(session_id.as_str()).concat(")");
                self.status.model = label;
                self.blocks.push(Block::System { message });
            },
            Event::Error(msg) => {
                let message = String::from_str("Error: ").concat(msg.as_str());
                self.blocks.push(Block::System { message });
            },
        }
        self.scroll_offset = 0;
        assert(self.blocks_view() =~= event_blocks(old(self).blocks_view(), event));
    }

    // -- Permission --

    /// Answers the pending permission request with option `idx` (an index past
    /// the options cancels it): the most recent permission block records the
    /// option's name, or "cancelled", and the request is no longer pending.
    /// Returns the request's reply channel with the answer to send on it:
    /// `Selected(idx)` for an index among the options, `Cancelled` otherwise.
    /// With no pending request nothing happens and nothing is returned.
    pub fn resolve_permission(&mut self, idx: usize) -> (r: Option<
        (Sender<PermissionResponse>, PermissionResponse),
    >)
        ensures
            match old(self).pending_permission {
                None => r is None && *final(self) == *old(self),
                Some(p) => {
                    &&& r == Some(
                        (p.respond, permission_response(p.options@.len(), idx as nat)),
                    )
                    &&& final(self).blocks_view() == resolved_blocks(
                        old(self).blocks_view(),
                        choice_label(p.options@, idx as int),
                    )
                    &&& final(self).pending_permission is None
                    &&& final(self).input == old(self).input
                    &&& final(self).cursor == old(self).cursor
                    &&& final(self).scroll_offset == old(self).scroll_offset
                    &&& final(self).should_quit == old(self).should_quit
                    &&& final(self).busy == old(self).busy
                    &&& final(self).status == old(self).status
                },
            },
    {
        match self.pending_permission.take() {
            None => None,
            Some(perm) => {
                let PendingPermission { options, respond } = perm;
                let label = if idx < options.len() {
                    options[idx].name.clone()
                } else {
                    String::from_str("cancelled")
                };
                mark_permission_resolved(&mut self.blocks, label);
                let response = choose_response(options.len(), idx);
                Some((respond, response))
            },
        }
    }

    /// Dismisses the pending permission request: the most recent permission
    /// block records "cancelled" and the request is no longer pending.
    /// Returns the request's reply channel with the answer `Cancelled` to send
    /// on it. With no pending request nothing happens and nothing is returned.
    pub fn cancel_permission(&mut self) -> (r: Option<
        (Sender<PermissionResponse>, PermissionResponse),
    >)
        ensures
            match old(self).pending_permission {
                None => r is None && *final(self) == *old(self),
                Some(p) => {
                    &&& r == Some((p.respond, PermissionResponse::Cancelled))
                    &&& final(self).blocks_view() == resolved_blocks(
                        old(self).blocks_view(),
                        "cancelled"@,
                    )
                    &&& final(self).pending_permission is None
                    &&& final(self).input == old(self).input
                    &&& final(self).cursor == old(self).cursor
                    &&& final(self).scroll_offset == old(self).scroll_offset
                    &&& final(self).should_quit == old(self).should_quit
                    &&& final(self).busy == old(self).busy
                    &&& final(self).status == old(self).status
                },
            },
    {
        match self.pending_permission.take() {
            None => None,
            Some(perm) => {
                let PendingPermission { options, respond } = perm;
                mark_permission_resolved(&mut self.blocks, String::from_str("cancelled"));
                Some((respond, PermissionResponse::Cancelled))
            },
        }
    }

    // -- Turn lifecycle --

    /// The agent finished its turn: the model is no longer busy and the most
    /// recent agent text block stops streaming.
    pub fn turn_finished(&mut self)
        ensures
            final(self).blocks_view() == finished_blocks(old(self).blocks_view()),
            !final(self).busy,
            final(self).input == old(self).input,
            final(self).cursor == old(self).cursor,
            final(self).scroll_offset == old(self).scroll_offset,
            final(self).should_quit == old(self).should_quit,
            final(self).status == old(self).status,
            final(self).pending_permission == old(self).pending_permission,
    {
        self.busy = false;
        finish_streaming(&mut self.blocks);
    }

    // -- Thinking toggle --

    /// Collapses or expands the most recent reasoning block.
    pub fn toggle_thinking(&mut self)
        ensures
            final(self).blocks_view() == toggled_blocks(old(self).blocks_view()),
            final(self).busy == old(self).busy,
            final(self).input == old(self).input,
            final(self).cursor == old(self).cursor,
            final(self).scroll_offset == old(self).scroll_offset,
            final(self).should_quit == old(self).should_quit,
            final(self).status == old(self).status,
            final(self).pending_permission == old(self).pending_permission,
    {
        toggle_last_thinking(&mut self.blocks);
    }

    // -- Input editing --

    /// Types `c` at the cursor; the cursor moves past it.
    pub fn insert_char(&mut self, c: char)
        requires
            old(self).cursor_valid(),
            byte_len(old(self).input@) + utf8_width(c) <= usize::MAX,
        ensures
            (final(self).input@, final(self).cursor as int) == inserted(
                old(self).input@,
                old(self).cursor as int,
                c,
            ),
            final(self).cursor_valid(),
            final(self).blocks == old(self).blocks,
            final(self).scroll_offset == old(self).scroll_offset,
            final(self).should_quit == old(self).should_quit,
            final(self).busy == old(self).busy,
            final(self).status == old(self).status,
            final(self).pending_permission == old(self).pending_permission,
    {
        let mut v = chars_of(self.input.as_str());
        let k = char_index_of(&v, self.cursor);
        let ghost old_v = v@;
        proof {
            crate::text::lemma_byte_len_take_le(old_v, k as int);
        }
        v.insert(k, c);
        self.input = string_from_chars(&v);
        let w = char_width(c);
        proof {
            assert(v@.take(k + 1) =~= old_v.take(k as int).push(c));
            crate::text::lemma_byte_len_push(old_v.take(k as int), c);
            lemma_char_index(v@, k + 1);
            crate::text::lemma_byte_len_insert(old_v, k as int, c);
        }
        self.cursor = self.cursor + w;
    }

    /// Deletes the character before the cursor (Backspace); the cursor moves to
    /// where that character started. At the start of the line nothing happens.
    pub fn delete_char_before_cursor(&mut self)
        requires
            old(self).cursor_valid(),
        ensures
            (final(self).input@, final(self).cursor as int) == deleted_before(
                old(self).input@,
                old(self).cursor as int,
            ),
            final(self).cursor_valid(),
            final(self).blocks == old(self).blocks,
            final(self).scroll_offset == old(self).scroll_offset,
            final(self).should_quit == old(self).should_quit,
            final(self).busy == old(self).busy,
            final(self).status == old(self).status,
            final(self).pending_permission == old(self).pending_permission,
    {
        if self.cursor > 0 {
            let mut v = chars_of(self.input.as_str());
            let k = char_index_of(&v, self.cursor);
            let ghost old_v = v@;
            assert(old_v.take(0) =~= Seq::<char>::empty());
            assert(k > 0);
            let w = char_width(v[k - 1]);
            proof {
                lemma_byte_len_take_step(old_v, k - 1);
            }
            v.remove(k - 1);
            self.input = string_from_chars(&v);
            proof {
                assert(v@.take(k - 1) =~= old_v.take(k - 1));
                lemma_char_index(v@, k - 1);
                crate::text::lemma_byte_len_remove(old_v, k - 1);
            }
            self.cursor = self.cursor - w;
        }
    }

    /// Submits the input line: when it holds more than whitespace, its trimmed
    /// text becomes a user block and is returned, the line is cleared and the
    /// view scrolls to the latest block; otherwise nothing changes and `None`
    /// is returned.
    pub fn submit_input(&mut self) -> (r: Option<String>)
        ensures
            trim(old(self).input@).len() == 0 ==> r is None && *final(self) == *old(self),
            trim(old(self).input@).len() > 0 ==> {
                &&& r matches Some(t) && t@ == trim(old(self).input@)
                &&& final(self).blocks_view() == old(self).blocks_view().push(
                    BlockView::UserInput { text: trim(old(self).input@) },
                )
                &&& final(self).input@ == Seq::<char>::empty()
                &&& final(self).cursor == 0
                &&& final(self).cursor_valid()
                &&& final(self).scroll_offset == 0
                &&& final(self).should_quit == old(self).should_quit
                &&& final(self).busy == old(self).busy
                &&& final(self).status == old(self).status
                &&& final(self).pending_permission == old(self).pending_permission
            },
    {
        let v = chars_of(self.input.as_str());
        let t = trim_chars(&v);
        if t.len() == 0 {
            return None;
        }
        let text = string_from_chars(&t);
        self.blocks.push(Block::UserInput { text: text.clone() });
        self.input = String::new();
        self.cursor = 0;
        self.scroll_offset = 0;
        proof {
            lemma_char_index(self.input@, 0);
            assert(self.input@.take(0) =~= self.input@);
        }
        assert(self.blocks_view() =~= old(self).blocks_view().push(
            BlockView::UserInput { text: trim(old(self).input@) },
        ));
        Some(text)
    }

    /// Moves the cursor one character left, unless it is at the start.
    pub fn move_cursor_left(&mut self)
        requires
            old(self).cursor_valid(),
        ensures
            final(self).cursor == moved_left(old(self).input@, old(self).cursor as int),
            final(self).cursor_valid(),
            final(self).input == old(self).input,
            final(self).blocks == old(self).blocks,
            final(self).scroll_offset == old(self).scroll_offset,
            final(self).should_quit == old(self).should_quit,
            final(self).busy == old(self).busy,
            final(self).status == old(self).status,
            final(self).pending_permission == old(self).pending_permission,
    {
        if self.cursor > 0 {
            let v = chars_of(self.input.as_str());
            let k = char_index_of(&v, self.cursor);
            assert(v@.take(0) =~= Seq::<char>::empty());
            assert(k > 0);
            let w = char_width(v[k - 1]);
            proof {
                lemma_byte_len_take_step(v@, k - 1);
                lemma_char_index(v@, k - 1);
            }
            self.cursor = self.cursor - w;
        }
    }

    /// Moves the cursor one character right, unless it is at the end.
    pub fn move_cursor_right(&mut self)
        requires
            old(self).cursor_valid(),
        ensures
            final(self).cursor == moved_right(old(self).input@, old(self).cursor as int),
            final(self).cursor_valid(),
            final(self).input == old(self).input,
            final(self).blocks == old(self).blocks,
            final(self).scroll_offset == old(self).scroll_offset,
            final(self).should_quit == old(self).should_quit,
            final(self).busy == old(self).busy,
            final(self).status == old(self).status,
            final(self).pending_permission == old(self).pending_permission,
    {
        let v = chars_of(self.input.as_str());
        let k = char_index_of(&v, self.cursor);
        proof {
            assert(v@.take(v@.len() as int) =~= v@);
            if k < v@.len() {
                lemma_byte_len_take_strict(v@, k as int, v@.len() as int);
            }
        }
        if k < v.len() {
            let w = char_width(v[k]);
            proof {
                lemma_byte_len_take_step(v@, k as int);
                crate::text::lemma_byte_len_take_le(v@, k + 1);
                lemma_char_index(v@, k + 1);
            }
            self.cursor = self.cursor + w;
        }
    }
}

} // verus!
