//! The conversation model: roles, content blocks and messages, with the
//! operations the agent loop performs on a transcript before sending it.
use vstd::prelude::*;

use crate::text::{join, join_spec, push_char, str_eq, views};

verus! {

/// Who wrote a message.
#[derive(Clone, Copy, Debug, PartialEq, Eq, Structural)]
pub enum Role {
    User,
    Assistant,
}

/// The source of an image block.
pub struct ImageSource {
    pub type_: String,
    pub media_type: String,
    pub data: String,
}

/// The input of a tool call.
///
/// `text` is the JSON text of the input object; `strings` and `bools` hold
/// its top-level string-valued and boolean fields, which is what the harness
/// reads.
pub struct ToolInput {
    pub text: String,
    pub strings: Vec<(String, String)>,
    pub bools: Vec<(String, bool)>,
}

/// One block of structured message content.
pub enum ContentBlock {
    Text { text: String },
    Image { source: ImageSource },
    ToolUse { id: String, name: String, input: ToolInput },
    ToolResult { tool_use_id: String, content: String },
    Thinking { thinking: String, signature: String },
    RedactedThinking { data: String },
}

/// The content of a message: plain text or a list of blocks.
#[allow(inconsistent_fields)]
pub enum MessageContent {
    Text { content: String },
    Blocks { content: Vec<ContentBlock> },
}

/// One message of a conversation.
pub struct Message {
    pub role: Role,
    pub content: MessageContent,
}

pub struct ImageSourceView {
    pub type_: Seq<char>,
    pub media_type: Seq<char>,
    pub data: Seq<char>,
}

pub struct ToolInputView {
    pub text: Seq<char>,
    pub strings: Seq<(Seq<char>, Seq<char>)>,
    pub bools: Seq<(Seq<char>, bool)>,
}

pub enum BlockView {
    Text { text: Seq<char> },
    Image { source: ImageSourceView },
    ToolUse { id: Seq<char>, name: Seq<char>, input: ToolInputView },
    ToolResult { tool_use_id: Seq<char>, content: Seq<char> },
    Thinking { thinking: Seq<char>, signature: Seq<char> },
    RedactedThinking { data: Seq<char> },
}

#[allow(inconsistent_fields)]
pub enum ContentView {
    Text { content: Seq<char> },
    Blocks { content: Seq<BlockView> },
}

pub struct MessageView {
    pub role: Role,
    pub content: ContentView,
}

impl View for ImageSource {
    type V = ImageSourceView;

    open spec fn view(&self) -> ImageSourceView {
        ImageSourceView { type_: self.type_@, media_type: self.media_type@, data: self.data@ }
    }
}

pub open spec fn flag_views(v: Seq<(String, bool)>) -> Seq<(Seq<char>, bool)> {
    v.map_values(|p: (String, bool)| (p.0@, p.1))
}

pub open spec fn pair_views(v: Seq<(String, String)>) -> Seq<(Seq<char>, Seq<char>)> {
    v.map_values(|p: (String, String)| (p.0@, p.1@))
}

impl View for ToolInput {
    type V = ToolInputView;

    open spec fn view(&self) -> ToolInputView {
        ToolInputView {
            text: self.text@,
            strings: pair_views(self.strings@),
            bools: flag_views(self.bools@),
        }
    }
}

impl View for ContentBlock {
    type V = BlockView;

    open spec fn view(&self) -> BlockView {
        match self {
            ContentBlock::Text { text } => BlockView::Text { text: text@ },
            ContentBlock::Image { source } => BlockView::Image { source: source@ },
            ContentBlock::ToolUse { id, name, input } => BlockView::ToolUse {
                id: id@,
                name: name@,
                input: input@,
            },
            ContentBlock::ToolResult { tool_use_id, content } => BlockView::ToolResult {
                tool_use_id: tool_use_id@,
                content: content@,
            },
            ContentBlock::Thinking { thinking, signature } => BlockView::Thinking {
                thinking: thinking@,
                signature: signature@,
            },
            ContentBlock::RedactedThinking { data } => BlockView::RedactedThinking { data: data@ },
        }
    }
}

pub open spec fn block_views(v: Seq<ContentBlock>) -> Seq<BlockView> {
    v.map_values(|b: ContentBlock| b@)
}

impl View for MessageContent {
    type V = ContentView;

    open spec fn view(&self) -> ContentView {
        match self {
            MessageContent::Text { content } => ContentView::Text { content: content@ },
            MessageContent::Blocks { content } => ContentView::Blocks {
                content: block_views(content@),
            },
        }
    }
}

impl View for Message {
    type V = MessageView;

    open spec fn view(&self) -> MessageView {
        MessageView { role: self.role, content: self.content@ }
    }
}

pub open spec fn message_views(v: Seq<Message>) -> Seq<MessageView> {
    v.map_values(|m: Message| m@)
}

impl Clone for ImageSource {
    fn clone(&self) -> (r: Self)
        ensures
            r@ == self@,
    {
        ImageSource {
            type_: self.type_.clone(),
            media_type: self.media_type.clone(),
            data: self.data.clone(),
        }
    }
}

impl Clone for ToolInput {
    fn clone(&self) -> (r: Self)
        ensures
            r@ == self@,
    {
        let mut strings: Vec<(String, String)> = Vec::new();
        let mut i: usize = 0;
        while i < self.strings.len()
            invariant
                i <= self.strings.len(),
                pair_views(strings@) == pair_views(self.strings@.take(i as int)),
            decreases self.strings.len() - i,
        {
            let (k, v) = &self.strings[i];
            strings.push((k.clone(), v.clone()));
            assert(pair_views(self.strings@.take(i + 1)) == pair_views(
                self.strings@.take(i as int),
            ).push((self.strings@[i as int].0@, self.strings@[i as int].1@)));
            assert(pair_views(strings@) == pair_views(strings@.drop_last()).push(
                (strings@.last().0@, strings@.last().1@),
            ));
            i = i + 1;
        }
        assert(self.strings@.take(self.strings.len() as int) == self.strings@);
        let mut bools: Vec<(String, bool)> = Vec::new();
        let mut j: usize = 0;
        while j < self.bools.len()
            invariant
                j <= self.bools.len(),
                flag_views(bools@) == flag_views(self.bools@.take(j as int)),
            decreases self.bools.len() - j,
        {
            let ghost before = flag_views(bools@);
            bools.push((self.bools[j].0.clone(), self.bools[j].1));
            assert(flag_views(bools@) =~= before.push((self.bools@[j as int].0@, self.bools@[j as int].1)));
            assert(flag_views(self.bools@.take(j + 1)) =~= flag_views(self.bools@.take(j as int)).push((self.bools@[j as int].0@, self.bools@[j as int].1)));
            j = j + 1;
        }
        assert(self.bools@.take(j as int) =~= self.bools@);
        ToolInput { text: self.text.clone(), strings, bools }
    }
}

impl Clone for ContentBlock {
    fn clone(&self) -> (r: Self)
        ensures
            r@ == self@,
    {
        match self {
            ContentBlock::Text { text } => ContentBlock::Text { text: text.clone() },
            ContentBlock::Image { source } => ContentBlock::Image { source: source.clone() },
            ContentBlock::ToolUse { id, name, input } => ContentBlock::ToolUse {
                id: id.clone(),
                name: name.clone(),
                input: input.clone(),
            },
            ContentBlock::ToolResult { tool_use_id, content } => ContentBlock::ToolResult {
                tool_use_id: tool_use_id.clone(),
                content: content.clone(),
            },
            ContentBlock::Thinking { thinking, signature } => ContentBlock::Thinking {
                thinking: thinking.clone(),
                signature: signature.clone(),
            },
            ContentBlock::RedactedThinking { data } => ContentBlock::RedactedThinking {
                data: data.clone(),
            },
        }
    }
}

/// A copy of a list of blocks.
pub fn clone_blocks(v: &Vec<ContentBlock>) -> (r: Vec<ContentBlock>)
    ensures
        block_views(r@) == block_views(v@),
{
    let mut r: Vec<ContentBlock> = Vec::new();
    let mut i: usize = 0;
    while i < v.len()
        invariant
            i <= v.len(),
            block_views(r@) == block_views(v@.take(i as int)),
        decreases v.len() - i,
    {
        r.push(v[i].clone());
        assert(block_views(v@.take(i + 1)) == block_views(v@.take(i as int)).push(v@[i as int]@));
        assert(block_views(r@) == block_views(r@.drop_last()).push(r@.last()@));
        i = i + 1;
    }
    assert(v@.take(v.len() as int) == v@);
    r
}

impl Clone for MessageContent {
    fn clone(&self) -> (r: Self)
        ensures
            r@ == self@,
    {
        match self {
            MessageContent::Text { content } => MessageContent::Text { content: content.clone() },
            MessageContent::Blocks { content } => MessageContent::Blocks {
                content: clone_blocks(content),
            },
        }
    }
}

impl Clone for Message {
    fn clone(&self) -> (r: Self)
        ensures
            r@ == self@,
    {
        Message { role: self.role, content: self.content.clone() }
    }
}

impl ToolInput {
    /// An input with the given JSON text and string fields.
    pub fn new(text: String, strings: Vec<(String, String)>, bools: Vec<(String, bool)>) -> (r: ToolInput)
        ensures
            r.text == text,
            r.strings == strings,
            r.bools == bools,
    {
        ToolInput { text, strings, bools }
    }

    /// The boolean value of field `key` (`input.get(key).and_then(Value::as_bool)`).
    pub fn get_bool(&self, key: &str) -> (r: Option<bool>)
        ensures
            r == lookup_flag(self@.bools, key@),
    {
        let mut i: usize = 0;
        while i < self.bools.len()
            invariant
                i <= self.bools.len(),
                forall|j: int| 0 <= j < i ==> self.bools@[j].0@ != key@,
            decreases self.bools.len() - i,
        {
            if str_eq(self.bools[i].0.as_str(), key) {
                proof {
                    lemma_lookup_flag_first(flag_views(self.bools@), key@, i as int);
                }
                return Some(self.bools[i].1);
            }
            i = i + 1;
        }
        proof {
            lemma_lookup_flag_absent(flag_views(self.bools@), key@);
        }
        None
    }

    /// The string value of field `key` (`input.get(key).and_then(Value::as_str)`).
    pub fn get_str(&self, key: &str) -> (r: Option<String>)
        ensures
            r matches Some(v) ==> lookup(self@.strings, key@) == Some(v@),
            r is None ==> lookup(self@.strings, key@) is None,
    {
        let mut i: usize = 0;
        while i < self.strings.len()
            invariant
                i <= self.strings.len(),
                forall|j: int| 0 <= j < i ==> self.strings@[j].0@ != key@,
            decreases self.strings.len() - i,
        {
            if str_eq(self.strings[i].0.as_str(), key) {
                proof {
                    lemma_lookup_first(pair_views(self.strings@), key@, i as int);
                }
                return Some(self.strings[i].1.clone());
            }
            i = i + 1;
        }
        proof {
            lemma_lookup_absent(pair_views(self.strings@), key@);
        }
        None
    }
}

/// The value of the first field named `key`.
pub open spec fn lookup(fields: Seq<(Seq<char>, Seq<char>)>, key: Seq<char>) -> Option<Seq<char>>
    decreases fields.len(),
{
    if fields.len() == 0 {
        None
    } else if fields[0].0 == key {
        Some(fields[0].1)
    } else {
        lookup(fields.drop_first(), key)
    }
}

/// The value of the first boolean field named `key`.
pub open spec fn lookup_flag(fields: Seq<(Seq<char>, bool)>, key: Seq<char>) -> Option<bool>
    decreases fields.len(),
{
    if fields.len() == 0 {
        None
    } else if fields[0].0 == key {
        Some(fields[0].1)
    } else {
        lookup_flag(fields.drop_first(), key)
    }
}

proof fn lemma_lookup_flag_first(fields: Seq<(Seq<char>, bool)>, key: Seq<char>, i: int)
    requires
        0 <= i < fields.len(),
        fields[i].0 == key,
        forall|j: int| 0 <= j < i ==> fields[j].0 != key,
    ensures
        lookup_flag(fields, key) == Some(fields[i].1),
    decreases i,
{
    if i > 0 {
        lemma_lookup_flag_first(fields.drop_first(), key, i - 1);
    }
}

proof fn lemma_lookup_flag_absent(fields: Seq<(Seq<char>, bool)>, key: Seq<char>)
    requires
        forall|j: int| 0 <= j < fields.len() ==> fields[j].0 != key,
    ensures
        lookup_flag(fields, key) is None,
    decreases fields.len(),
{
    if fields.len() > 0 {
        lemma_lookup_flag_absent(fields.drop_first(), key);
    }
}

proof fn lemma_lookup_first(fields: Seq<(Seq<char>, Seq<char>)>, key: Seq<char>, i: int)
    requires
        0 <= i < fields.len(),
        fields[i].0 == key,
        forall|j: int| 0 <= j < i ==> fields[j].0 != key,
    ensures
        lookup(fields, key) == Some(fields[i].1),
    decreases i,
{
    if i > 0 {
        lemma_lookup_first(fields.drop_first(), key, i - 1);
    }
}

proof fn lemma_lookup_absent(fields: Seq<(Seq<char>, Seq<char>)>, key: Seq<char>)
    requires
        forall|j: int| 0 <= j < fields.len() ==> fields[j].0 != key,
    ensures
        lookup(fields, key) is None,
    decreases fields.len(),
{
    if fields.len() > 0 {
        lemma_lookup_absent(fields.drop_first(), key);
    }
}

/// The string field `key` of a tool input, or the empty text when it is absent
/// (`input.get(key).and_then(Value::as_str).unwrap_or("")`).
pub open spec fn field_or_empty(input: ToolInputView, key: Seq<char>) -> Seq<char> {
    match lookup(input.strings, key) {
        Some(v) => v,
        None => Seq::empty(),
    }
}

// ---------------------------------------------------------------------------
// Text extraction
// ---------------------------------------------------------------------------

/// The texts of the `Text` blocks, in order.
pub open spec fn block_texts(blocks: Seq<BlockView>) -> Seq<Seq<char>>
    decreases blocks.len(),
{
    if blocks.len() == 0 {
        Seq::empty()
    } else {
        match blocks.last() {
            BlockView::Text { text } => block_texts(blocks.drop_last()).push(text),
            _ => block_texts(blocks.drop_last()),
        }
    }
}

/// The readable text of a message: plain text as is, or the `Text` blocks
/// joined with newlines.
pub open spec fn extract_text_spec(c: ContentView) -> Seq<char> {
    match c {
        ContentView::Text { content: text } => text,
        ContentView::Blocks { content: blocks } => join_spec(block_texts(blocks), seq!['\n']),
    }
}

/// The texts of the `Text` blocks of `blocks`.
pub fn text_blocks(blocks: &Vec<ContentBlock>) -> (r: Vec<String>)
    ensures
        views(r@) == block_texts(block_views(blocks@)),
{
    let mut r: Vec<String> = Vec::new();
    let mut i: usize = 0;
    while i < blocks.len()
        invariant
            i <= blocks.len(),
            views(r@) == block_texts(block_views(blocks@.take(i as int))),
        decreases blocks.len() - i,
    {
        let ghost before = r@;
        assert(block_views(blocks@.take(i + 1)).drop_last() == block_views(blocks@.take(i as int)));
        match &blocks[i] {
            ContentBlock::Text { text } => {
                r.push(text.clone());
                assert(views(r@) == views(before).push(text@));
            },
            _ => {},
        }
        i = i + 1;
    }
    assert(blocks@.take(blocks.len() as int) == blocks@);
    r
}

/// The readable text of a message's content.
pub fn extract_text(content: &MessageContent) -> (r: String)
    ensures
        r@ == extract_text_spec(content@),
{
    match content {
        MessageContent::Text { content: text } => text.clone(),
        MessageContent::Blocks { content: blocks } => {
            let texts = text_blocks(blocks);
            proof {
                reveal_strlit("\n");
                assert("\n"@ =~= seq!['\n']);
            }
            join(&texts, "\n")
        },
    }
}

// ---------------------------------------------------------------------------
// Normalisation before a request
// ---------------------------------------------------------------------------

/// The blocks of a message, or none for plain text.
pub open spec fn blocks_of(m: MessageView) -> Seq<BlockView> {
    match m.content {
        ContentView::Blocks { content: blocks } => blocks,
        ContentView::Text { .. } => Seq::empty(),
    }
}

/// Block `j` of message `i` answers the tool call `id`.
pub open spec fn result_at(msgs: Seq<MessageView>, id: Seq<char>, i: int, j: int) -> bool {
    &&& 0 <= i < msgs.len()
    &&& 0 <= j < blocks_of(msgs[i]).len()
    &&& blocks_of(msgs[i])[j] matches BlockView::ToolResult { tool_use_id, .. } && tool_use_id == id
}

/// Some message holds a tool result for the call `id`.
pub open spec fn has_result_for(msgs: Seq<MessageView>, id: Seq<char>) -> bool {
    exists|i: int, j: int| result_at(msgs, id, i, j)
}

/// The text of the result that stands in for an unanswered tool call.
pub open spec fn cancelled_text() -> Seq<char> {
    seq!['(', 'c', 'a', 'n', 'c', 'e', 'l', 'l', 'e', 'd', ')']
}

/// The user message that answers the unanswered tool call `id`.
pub open spec fn cancellation(id: Seq<char>) -> MessageView {
    MessageView {
        role: Role::User,
        content: ContentView::Blocks {
            content: seq![BlockView::ToolResult { tool_use_id: id, content: cancelled_text() }],
        },
    }
}

/// One cancellation for each tool call in `blocks` that `all` leaves
/// unanswered, in order.
pub open spec fn block_cancellations(blocks: Seq<BlockView>, all: Seq<MessageView>) -> Seq<MessageView>
    decreases blocks.len(),
{
    if blocks.len() == 0 {
        Seq::empty()
    } else {
        let rest = block_cancellations(blocks.drop_last(), all);
        match blocks.last() {
            BlockView::ToolUse { id, .. } => if has_result_for(all, id) {
                rest
            } else {
                rest.push(cancellation(id))
            },
            _ => rest,
        }
    }
}

/// The cancellations for every unanswered tool call of the non-user messages
/// of `msgs`, in order.
pub open spec fn cancellations(msgs: Seq<MessageView>, all: Seq<MessageView>) -> Seq<MessageView>
    decreases msgs.len(),
{
    if msgs.len() == 0 {
        Seq::empty()
    } else {
        cancellations(msgs.drop_last(), all) + if msgs.last().role == Role::User {
            Seq::empty()
        } else {
            block_cancellations(blocks_of(msgs.last()), all)
        }
    }
}

/// The content of two neighbouring messages of one role, merged.
pub open spec fn merge_content(prev: ContentView, cur: ContentView) -> ContentView {
    match prev {
        ContentView::Blocks { content: p } => match cur {
            ContentView::Blocks { content: c } => ContentView::Blocks { content: p + c },
            ContentView::Text { content: c } => ContentView::Blocks {
                content: p.push(BlockView::Text { text: c }),
            },
        },
        ContentView::Text { content: p } => match cur {
            ContentView::Blocks { content: c } => ContentView::Blocks {
                content: seq![BlockView::Text { text: p }] + c,
            },
            ContentView::Text { content: c } => ContentView::Text { content: p.push('\n') + c },
        },
    }
}

/// `msgs` with every run of neighbouring messages of one role merged into one.
pub open spec fn merge_roles(msgs: Seq<MessageView>) -> Seq<MessageView>
    decreases msgs.len(),
{
    if msgs.len() == 0 {
        Seq::empty()
    } else {
        let m = merge_roles(msgs.drop_last());
        let cur = msgs.last();
        if m.len() > 0 && m.last().role == cur.role {
            m.update(
                m.len() - 1,
                MessageView { role: cur.role, content: merge_content(m.last().content, cur.content) },
            )
        } else {
            m.push(cur)
        }
    }
}

/// The transcript that is sent to the model: every unanswered tool call gets a
/// cancelled result appended, then neighbouring messages of one role merge.
pub open spec fn normalize_spec(msgs: Seq<MessageView>) -> Seq<MessageView> {
    merge_roles(msgs + cancellations(msgs, msgs))
}

/// Whether some message of `msgs` holds a tool result for `id`.
pub fn has_result(msgs: &Vec<Message>, id: &str) -> (r: bool)
    ensures
        r == has_result_for(message_views(msgs@), id@),
{
    let ghost mv = message_views(msgs@);
    let mut i: usize = 0;
    while i < msgs.len()
        invariant
            i <= msgs.len(),
            mv == message_views(msgs@),
            forall|a: int, b: int| 0 <= a < i ==> !result_at(mv, id@, a, b),
        decreases msgs.len() - i,
    {
        match &msgs[i].content {
            MessageContent::Blocks { content: blocks } => {
                let mut j: usize = 0;
                while j < blocks.len()
                    invariant
                        i < msgs.len(),
                        j <= blocks.len(),
                        mv == message_views(msgs@),
                        blocks_of(mv[i as int]) == block_views(blocks@),
                        forall|a: int, b: int| 0 <= a < i ==> !result_at(mv, id@, a, b),
                        forall|b: int| 0 <= b < j ==> !result_at(mv, id@, i as int, b),
                    decreases blocks.len() - j,
                {
                    match &blocks[j] {
                        ContentBlock::ToolResult { tool_use_id, .. } => {
                            if str_eq(tool_use_id.as_str(), id) {
                                assert(result_at(mv, id@, i as int, j as int));
                                return true;
                            }
                        },
                        _ => {},
                    }
                    j = j + 1;
                }
                assert forall|a: int, b: int| 0 <= a < i + 1 implies !result_at(mv, id@, a, b) by {
                    if a == i && 0 <= b < j {
                    }
                }
            },
            MessageContent::Text { .. } => {
                assert(blocks_of(mv[i as int]).len() == 0);
            },
        }
        i = i + 1;
    }
    false
}

/// The user message that answers the unanswered tool call `id`.
pub fn cancelled_result(id: &String) -> (m: Message)
    ensures
        m@ == cancellation(id@),
{
    let text = String::from_str("(cancelled)");
    proof {
        reveal_strlit("(cancelled)");
        assert(text@ =~= cancelled_text());
    }
    let mut blocks: Vec<ContentBlock> = Vec::new();
    blocks.push(ContentBlock::ToolResult { tool_use_id: id.clone(), content: text });
    let m = Message { role: Role::User, content: MessageContent::Blocks { content: blocks } };
    assert(block_views(blocks@) =~= seq![BlockView::ToolResult { tool_use_id: id@, content: cancelled_text() }]);
    m
}

/// Two neighbouring contents of one role, merged.
pub fn merge_content_exec(prev: MessageContent, cur: MessageContent) -> (r: MessageContent)
    ensures
        r@ == merge_content(prev@, cur@),
{
    match prev {
        MessageContent::Blocks { content: p } => match cur {
            MessageContent::Blocks { content: c } => {
                let mut p = p;
                let mut c = c;
                let ghost pv = p@;
                let ghost cv = c@;
                p.append(&mut c);
                assert(block_views(p@) =~= block_views(pv) + block_views(cv));
                let r = MessageContent::Blocks { content: p };
                assert(r@ == merge_content(ContentView::Blocks { content: block_views(pv) }, ContentView::Blocks { content: block_views(cv) }));
                r
            },
            MessageContent::Text { content: c } => {
                let mut p = p;
                let ghost pv = p@;
                let ghost c_view = c@;
                p.push(ContentBlock::Text { text: c });
                assert(block_views(p@) =~= block_views(pv).push(BlockView::Text { text: c_view }));
                let r = MessageContent::Blocks { content: p };
                assert(r@ == merge_content(ContentView::Blocks { content: block_views(pv) }, ContentView::Text { content: c_view }));
                r
            },
        },
        MessageContent::Text { content: p } => match cur {
            MessageContent::Blocks { content: c } => {
                let ghost p_view = p@;
                let mut blocks: Vec<ContentBlock> = Vec::new();
                blocks.push(ContentBlock::Text { text: p });
                let mut c = c;
                let ghost cv = c@;
                let ghost first = blocks@;
                blocks.append(&mut c);
                assert(block_views(blocks@) =~= block_views(first) + block_views(cv));
                let r = MessageContent::Blocks { content: blocks };
                assert(block_views(first) =~= seq![BlockView::Text { text: p_view }]);
                r
            },
            MessageContent::Text { content: c } => {
                let mut p = p;
                let ghost pv = p@;
                push_char(&mut p, '\n');
                p.append(c.as_str());
                assert(p@ == pv.push('\n') + c@);
                let r = MessageContent::Text { content: p };
                assert(r@ == merge_content(ContentView::Text { content: pv }, ContentView::Text { content: c@ }));
                r
            },
        },
    }
}

/// `msgs` with every run of neighbouring messages of one role merged into one.
pub fn merge_same_role(msgs: Vec<Message>) -> (r: Vec<Message>)
    ensures
        message_views(r@) == merge_roles(message_views(msgs@)),
{
    let mut merged: Vec<Message> = Vec::new();
    let mut i: usize = 0;
    while i < msgs.len()
        invariant
            i <= msgs.len(),
            message_views(merged@) == merge_roles(message_views(msgs@.take(i as int))),
        decreases msgs.len() - i,
    {
        let ghost pre = message_views(msgs@.take(i as int));
        assert(message_views(msgs@.take(i + 1)).drop_last() == pre);
        assert(message_views(msgs@.take(i + 1)).last() == msgs@[i as int]@);
        let cur = msgs[i].clone();
        let n = merged.len();
        if n > 0 && merged[n - 1].role == cur.role {
            let last = merged.pop().unwrap();
            let content = merge_content_exec(last.content, cur.content);
            merged.push(Message { role: cur.role, content });
            assert(message_views(merged@) =~= merge_roles(pre).update(
                merge_roles(pre).len() - 1,
                MessageView { role: cur@.role, content: merge_content(merge_roles(pre).last().content, cur@.content) },
            ));
        } else {
            merged.push(cur);
            assert(message_views(merged@) =~= merge_roles(pre).push(cur@));
        }
        i = i + 1;
    }
    assert(msgs@.take(msgs.len() as int) == msgs@);
    merged
}

/// The cancellations for the unanswered tool calls among `blocks`.
fn push_block_cancellations(
    blocks: &Vec<ContentBlock>,
    all: &Vec<Message>,
    out: &mut Vec<Message>,
)
    ensures
        message_views(final(out)@) == message_views(old(out)@) + block_cancellations(
            block_views(blocks@),
            message_views(all@),
        ),
{
    let ghost start = message_views(out@);
    let mut j: usize = 0;
    while j < blocks.len()
        invariant
            j <= blocks.len(),
            message_views(out@) == start + block_cancellations(
                block_views(blocks@.take(j as int)),
                message_views(all@),
            ),
        decreases blocks.len() - j,
    {
        let ghost before = message_views(out@);
        let ghost bv = block_views(blocks@.take(j + 1));
        assert(bv.drop_last() == block_views(blocks@.take(j as int)));
        assert(bv.last() == blocks@[j as int]@);
        match &blocks[j] {
            ContentBlock::ToolUse { id, .. } => {
                if !has_result(all, id.as_str()) {
                    out.push(cancelled_result(id));
                    assert(message_views(out@) =~= before.push(cancellation(id@)));
                }
            },
            _ => {},
        }
        j = j + 1;
    }
    assert(blocks@.take(blocks.len() as int) == blocks@);
}

/// The transcript sent to the model: each tool call without a result gets a
/// `(cancelled)` result, then neighbouring messages of one role are merged.
pub fn normalize_messages(messages: &Vec<Message>) -> (r: Vec<Message>)
    ensures
        message_views(r@) == normalize_spec(message_views(messages@)),
{
    let ghost all = message_views(messages@);
    let mut extra: Vec<Message> = Vec::new();
    let mut i: usize = 0;
    while i < messages.len()
        invariant
            i <= messages.len(),
            all == message_views(messages@),
            message_views(extra@) == cancellations(message_views(messages@.take(i as int)), all),
        decreases messages.len() - i,
    {
        let ghost pre = message_views(messages@.take(i as int));
        let ghost before = message_views(extra@);
        assert(message_views(messages@.take(i + 1)).drop_last() == pre);
        assert(message_views(messages@.take(i + 1)).last() == messages@[i as int]@);
        if messages[i].role != Role::User {
            match &messages[i].content {
                MessageContent::Blocks { content: blocks } => {
                    push_block_cancellations(blocks, messages, &mut extra);
                },
                MessageContent::Text { .. } => {
                    assert(block_cancellations(blocks_of(messages@[i as int]@), all) =~= Seq::empty()) by {
                        assert(blocks_of(messages@[i as int]@) =~= Seq::empty());
                    }
                    assert(before + Seq::<MessageView>::empty() =~= before);
                },
            }
        } else {
            assert(before + Seq::<MessageView>::empty() =~= before);
        }
        i = i + 1;
    }
    assert(messages@.take(messages.len() as int) == messages@);
    let mut combined: Vec<Message> = Vec::new();
    let mut k: usize = 0;
    while k < messages.len()
        invariant
            k <= messages.len(),
            message_views(combined@) == message_views(messages@.take(k as int)),
        decreases messages.len() - k,
    {
        let m = messages[k].clone();
        assert(m@ == messages@[k as int]@);
        let ghost before = combined@;
        combined.push(m);
        assert(combined@ == before.push(m));
        assert(message_views(combined@) =~= message_views(before).push(m@));
        assert(message_views(messages@.take(k + 1)) =~= message_views(messages@.take(k as int)).push(messages@[k as int]@));
        k = k + 1;
    }
    let ghost base = message_views(combined@);
    combined.append(&mut extra);
    assert(message_views(combined@) =~= all + cancellations(all, all));
    merge_same_role(combined)
}

// ---------------------------------------------------------------------------
// What normalisation guarantees
// ---------------------------------------------------------------------------

/// In `msgs` no two neighbouring messages have the same role.
pub open spec fn roles_alternate(msgs: Seq<MessageView>) -> bool {
    forall|i: int| 0 <= i < msgs.len() - 1 ==> #[trigger] role_changes_after(msgs, i)
}

/// Message `i` and the one after it have different roles.
pub open spec fn role_changes_after(msgs: Seq<MessageView>, i: int) -> bool {
    msgs[i].role != msgs[i + 1].role
}

proof fn lemma_merge_roles_alternate(msgs: Seq<MessageView>)
    ensures
        roles_alternate(merge_roles(msgs)),
        msgs.len() > 0 ==> merge_roles(msgs).len() > 0 && merge_roles(msgs).last().role
            == msgs.last().role,
    decreases msgs.len(),
{
    if msgs.len() > 0 {
        let prev = msgs.drop_last();
        lemma_merge_roles_alternate(prev);
        let m = merge_roles(prev);
        let cur = msgs.last();
        let r = merge_roles(msgs);
        if m.len() > 0 && m.last().role == cur.role {
            let merged = MessageView { role: cur.role, content: merge_content(m.last().content, cur.content) };
            assert(r == m.update(m.len() - 1, merged));
            assert forall|i: int| 0 <= i < r.len() - 1 implies #[trigger] role_changes_after(r, i) by {
                assert(role_changes_after(m, i));
            }
        } else {
            assert(r == m.push(cur));
            assert forall|i: int| 0 <= i < r.len() - 1 implies #[trigger] role_changes_after(r, i) by {
                if i < m.len() - 1 {
                    assert(role_changes_after(m, i));
                    assert(r[i] == m[i]);
                    assert(r[i + 1] == m[i + 1]);
                } else {
                    assert(r[i] == m.last());
                    assert(r[i + 1] == cur);
                }
            }
        }
    }
}

proof fn lemma_merge_keeps_result(msgs: Seq<MessageView>, id: Seq<char>, i: int, j: int)
    requires
        result_at(msgs, id, i, j),
    ensures
        has_result_for(merge_roles(msgs), id),
    decreases msgs.len(),
{
    let prev = msgs.drop_last();
    let cur = msgs.last();
    let m = merge_roles(prev);
    let r = merge_roles(msgs);
    if i < msgs.len() - 1 {
        assert(result_at(prev, id, i, j));
        lemma_merge_keeps_result(prev, id, i, j);
        let (a, b) = choose|a: int, b: int| result_at(m, id, a, b);
        if m.len() > 0 && m.last().role == cur.role {
            if a < m.len() - 1 {
                assert(result_at(r, id, a, b));
            } else {
                let merged = merge_content(m.last().content, cur.content);
                match m.last().content {
                    ContentView::Blocks { content: pb } => {
                        match cur.content {
                            ContentView::Blocks { content: cb } => {
                                assert(blocks_of(r[a]) == pb + cb);
                                assert(blocks_of(r[a])[b] == pb[b]);
                            },
                            ContentView::Text { content: ct } => {
                                assert(blocks_of(r[a]) == pb.push(BlockView::Text { text: ct }));
                                assert(blocks_of(r[a])[b] == pb[b]);
                            },
                        }
                        assert(result_at(r, id, a, b));
                    },
                    ContentView::Text { .. } => {
                        assert(blocks_of(m[a]).len() == 0);
                    },
                }
            }
        } else {
            assert(result_at(r, id, a, b));
        }
    } else {
        if prev.len() > 0 {
            lemma_merge_roles_alternate(prev);
        }
        if m.len() > 0 && m.last().role == cur.role {
            let last = m.len() - 1;
            match cur.content {
                ContentView::Blocks { content: cb } => {
                    match m.last().content {
                        ContentView::Blocks { content: pb } => {
                            assert(blocks_of(r[last]) == pb + cb);
                            assert(blocks_of(r[last])[pb.len() + j] == cb[j]);
                            assert(result_at(r, id, last, pb.len() + j));
                        },
                        ContentView::Text { content: pt } => {
                            assert(blocks_of(r[last]) == seq![BlockView::Text { text: pt }] + cb);
                            assert(blocks_of(r[last])[1 + j] == cb[j]);
                            assert(result_at(r, id, last, 1 + j));
                        },
                    }
                },
                ContentView::Text { .. } => {
                    assert(blocks_of(cur).len() == 0);
                },
            }
        } else {
            assert(r[m.len() as int] == cur);
            assert(result_at(r, id, m.len() as int, j));
        }
    }
}

/// A tool call of a non-user message of `msgs` (block `j` of message `i`).
pub open spec fn call_at(msgs: Seq<MessageView>, id: Seq<char>, i: int, j: int) -> bool {
    &&& 0 <= i < msgs.len()
    &&& msgs[i].role != Role::User
    &&& 0 <= j < blocks_of(msgs[i]).len()
    &&& blocks_of(msgs[i])[j] matches BlockView::ToolUse { id: call_id, .. } && call_id == id
}

proof fn lemma_block_cancellations_cover(blocks: Seq<BlockView>, all: Seq<MessageView>, id: Seq<char>, j: int)
    requires
        0 <= j < blocks.len(),
        blocks[j] matches BlockView::ToolUse { id: call_id, .. } && call_id == id,
        !has_result_for(all, id),
    ensures
        block_cancellations(blocks, all).contains(cancellation(id)),
    decreases blocks.len(),
{
    let rest = block_cancellations(blocks.drop_last(), all);
    if j < blocks.len() - 1 {
        lemma_block_cancellations_cover(blocks.drop_last(), all, id, j);
        let k = choose|k: int| 0 <= k < rest.len() && rest[k] == cancellation(id);
        match blocks.last() {
            BlockView::ToolUse { id: last_id, .. } => {
                if !has_result_for(all, last_id) {
                    assert(rest.push(cancellation(last_id))[k] == cancellation(id));
                }
            },
            _ => {},
        }
    } else {
        assert(rest.push(cancellation(id)).last() == cancellation(id));
    }
}

proof fn lemma_cancellations_cover(msgs: Seq<MessageView>, all: Seq<MessageView>, id: Seq<char>, i: int, j: int)
    requires
        call_at(msgs, id, i, j),
        !has_result_for(all, id),
    ensures
        cancellations(msgs, all).contains(cancellation(id)),
    decreases msgs.len(),
{
    let prev = cancellations(msgs.drop_last(), all);
    let tail = if msgs.last().role == Role::User {
        Seq::empty()
    } else {
        block_cancellations(blocks_of(msgs.last()), all)
    };
    if i < msgs.len() - 1 {
        assert(call_at(msgs.drop_last(), id, i, j));
        lemma_cancellations_cover(msgs.drop_last(), all, id, i, j);
        let k = choose|k: int| 0 <= k < prev.len() && prev[k] == cancellation(id);
        assert((prev + tail)[k] == cancellation(id));
    } else {
        lemma_block_cancellations_cover(blocks_of(msgs.last()), all, id, j);
        let k = choose|k: int| 0 <= k < tail.len() && tail[k] == cancellation(id);
        assert((prev + tail)[prev.len() + k] == cancellation(id));
    }
}

/// After normalisation, neighbouring messages never share a role.
pub proof fn law_normalized_roles_alternate(msgs: Seq<MessageView>)
    ensures
        roles_alternate(normalize_spec(msgs)),
{
    lemma_merge_roles_alternate(msgs + cancellations(msgs, msgs));
}

/// After normalisation, every tool call that a non-user message makes has a
/// tool result somewhere in the transcript.
pub proof fn law_normalized_calls_answered(msgs: Seq<MessageView>, id: Seq<char>, i: int, j: int)
    requires
        call_at(msgs, id, i, j),
    ensures
        has_result_for(normalize_spec(msgs), id),
{
    let canc = cancellations(msgs, msgs);
    let t = msgs + canc;
    if has_result_for(msgs, id) {
        let (a, b) = choose|a: int, b: int| result_at(msgs, id, a, b);
        assert(t[a] == msgs[a]);
        assert(result_at(t, id, a, b));
        lemma_merge_keeps_result(t, id, a, b);
    } else {
        lemma_cancellations_cover(msgs, msgs, id, i, j);
        let k = choose|k: int| 0 <= k < canc.len() && canc[k] == cancellation(id);
        let a = msgs.len() + k;
        assert(t[a] == cancellation(id));
        assert(blocks_of(cancellation(id))[0] == BlockView::ToolResult { tool_use_id: id, content: cancelled_text() });
        assert(result_at(t, id, a, 0));
        lemma_merge_keeps_result(t, id, a, 0);
    }
}


/// Every tool call of a merged transcript is a tool call of the transcript
/// before merging.
proof fn lemma_merge_call_origin(t: Seq<MessageView>, id: Seq<char>, a: int, b: int)
    requires
        call_at(merge_roles(t), id, a, b),
    ensures
        exists|i: int, j: int| call_at(t, id, i, j),
    decreases t.len(),
{
    let prev = t.drop_last();
    let cur = t.last();
    let m = merge_roles(prev);
    let r = merge_roles(t);
    let n = t.len() - 1;
    assert(t[n] == cur);
    if m.len() > 0 && m.last().role == cur.role {
        let last = m.len() - 1;
        if a < last {
            assert(r[a] == m[a]);
            assert(call_at(m, id, a, b));
            lemma_merge_call_origin(prev, id, a, b);
            let (i, j) = choose|i: int, j: int| call_at(prev, id, i, j);
            assert(t[i] == prev[i]);
            assert(call_at(t, id, i, j));
        } else {
            assert(m.last() == m[last]);
            match m.last().content {
                ContentView::Blocks { content: pb } => {
                    match cur.content {
                        ContentView::Blocks { content: cb } => {
                            assert(blocks_of(r[a]) == pb + cb);
                            if b < pb.len() {
                                assert(blocks_of(r[a])[b] == pb[b]);
                                assert(call_at(m, id, last, b));
                                lemma_merge_call_origin(prev, id, last, b);
                                let (i, j) = choose|i: int, j: int| call_at(prev, id, i, j);
                                assert(t[i] == prev[i]);
                                assert(call_at(t, id, i, j));
                            } else {
                                assert(blocks_of(r[a])[b] == cb[b - pb.len()]);
                                assert(call_at(t, id, n, b - pb.len()));
                            }
                        },
                        ContentView::Text { content: ct } => {
                            assert(blocks_of(r[a]) == pb.push(BlockView::Text { text: ct }));
                            assert(b < pb.len());
                            assert(blocks_of(r[a])[b] == pb[b]);
                            assert(call_at(m, id, last, b));
                            lemma_merge_call_origin(prev, id, last, b);
                            let (i, j) = choose|i: int, j: int| call_at(prev, id, i, j);
                            assert(t[i] == prev[i]);
                            assert(call_at(t, id, i, j));
                        },
                    }
                },
                ContentView::Text { content: pt } => {
                    match cur.content {
                        ContentView::Blocks { content: cb } => {
                            assert(blocks_of(r[a]) == seq![BlockView::Text { text: pt }] + cb);
                            assert(b >= 1);
                            assert(blocks_of(r[a])[b] == cb[b - 1]);
                            assert(call_at(t, id, n, b - 1));
                        },
                        ContentView::Text { .. } => {
                            assert(blocks_of(r[a]).len() == 0);
                        },
                    }
                },
            }
        }
    } else {
        if a < m.len() {
            assert(r[a] == m[a]);
            assert(call_at(m, id, a, b));
            lemma_merge_call_origin(prev, id, a, b);
            let (i, j) = choose|i: int, j: int| call_at(prev, id, i, j);
            assert(t[i] == prev[i]);
            assert(call_at(t, id, i, j));
        } else {
            assert(r[a] == cur);
            assert(call_at(t, id, n, b));
        }
    }
}

proof fn lemma_block_cancellations_are_user(blocks: Seq<BlockView>, all: Seq<MessageView>)
    ensures
        forall|k: int| 0 <= k < block_cancellations(blocks, all).len() ==> (#[trigger] block_cancellations(blocks, all)[k]).role == Role::User,
    decreases blocks.len(),
{
    if blocks.len() > 0 {
        lemma_block_cancellations_are_user(blocks.drop_last(), all);
    }
}

proof fn lemma_cancellations_are_user(msgs: Seq<MessageView>, all: Seq<MessageView>)
    ensures
        forall|k: int| 0 <= k < cancellations(msgs, all).len() ==> (#[trigger] cancellations(msgs, all)[k]).role == Role::User,
    decreases msgs.len(),
{
    if msgs.len() > 0 {
        lemma_cancellations_are_user(msgs.drop_last(), all);
        lemma_block_cancellations_are_user(blocks_of(msgs.last()), all);
        let prev = cancellations(msgs.drop_last(), all);
        let tail = if msgs.last().role == Role::User {
            Seq::empty()
        } else {
            block_cancellations(blocks_of(msgs.last()), all)
        };
        assert forall|k: int| 0 <= k < (prev + tail).len() implies (#[trigger] (prev + tail)[k]).role == Role::User by {
            if k < prev.len() {
                assert((prev + tail)[k] == prev[k]);
            } else {
                assert((prev + tail)[k] == tail[k - prev.len()]);
            }
        }
    }
}

/// A tool call block that `all` answers (any other block counts as answered).
spec fn answered_block(b: BlockView, all: Seq<MessageView>) -> bool {
    match b {
        BlockView::ToolUse { id, .. } => has_result_for(all, id),
        _ => true,
    }
}

proof fn lemma_block_cancellations_none(blocks: Seq<BlockView>, all: Seq<MessageView>)
    requires
        forall|j: int| 0 <= j < blocks.len() ==> answered_block(#[trigger] blocks[j], all),
    ensures
        block_cancellations(blocks, all) == Seq::<MessageView>::empty(),
    decreases blocks.len(),
{
    if blocks.len() > 0 {
        let prev = blocks.drop_last();
        assert forall|j: int| 0 <= j < prev.len() implies answered_block(#[trigger] prev[j], all) by {
            assert(prev[j] == blocks[j]);
        }
        lemma_block_cancellations_none(prev, all);
        assert(answered_block(blocks[blocks.len() - 1], all));
    }
}

proof fn lemma_cancellations_none(msgs: Seq<MessageView>, all: Seq<MessageView>)
    requires
        forall|id: Seq<char>, i: int, j: int| #[trigger] call_at(msgs, id, i, j) ==> has_result_for(all, id),
    ensures
        cancellations(msgs, all) == Seq::<MessageView>::empty(),
    decreases msgs.len(),
{
    if msgs.len() > 0 {
        let prev = msgs.drop_last();
        let n = msgs.len() - 1;
        assert forall|id: Seq<char>, i: int, j: int| #[trigger] call_at(prev, id, i, j) implies has_result_for(all, id) by {
            assert(prev[i] == msgs[i]);
            assert(call_at(msgs, id, i, j));
        }
        lemma_cancellations_none(prev, all);
        if msgs.last().role != Role::User {
            let blocks = blocks_of(msgs.last());
            assert(msgs.last() == msgs[n]);
            assert forall|j: int| 0 <= j < blocks.len() implies answered_block(#[trigger] blocks[j], all) by {
                match blocks[j] {
                    BlockView::ToolUse { id, .. } => {
                        assert(call_at(msgs, id, n, j));
                    },
                    _ => {},
                }
            }
            lemma_block_cancellations_none(blocks, all);
        }
        assert(cancellations(msgs, all) =~= Seq::<MessageView>::empty());
    }
}

proof fn lemma_merge_roles_alternating(msgs: Seq<MessageView>)
    requires
        roles_alternate(msgs),
    ensures
        merge_roles(msgs) == msgs,
    decreases msgs.len(),
{
    if msgs.len() > 0 {
        let prev = msgs.drop_last();
        assert forall|i: int| 0 <= i < prev.len() - 1 implies #[trigger] role_changes_after(prev, i) by {
            assert(role_changes_after(msgs, i));
        }
        lemma_merge_roles_alternating(prev);
        if prev.len() > 0 {
            assert(role_changes_after(msgs, prev.len() - 1));
        }
        assert(prev.push(msgs.last()) =~= msgs);
    }
}

/// Normalising is stable: a normalised transcript is left as it is by a
/// second normalisation.
pub proof fn law_normalize_idempotent(msgs: Seq<MessageView>)
    ensures
        normalize_spec(normalize_spec(msgs)) == normalize_spec(msgs),
{
    let n = normalize_spec(msgs);
    let canc = cancellations(msgs, msgs);
    let t = msgs + canc;
    assert forall|id: Seq<char>, a: int, b: int| #[trigger] call_at(n, id, a, b) implies has_result_for(n, id) by {
        lemma_merge_call_origin(t, id, a, b);
        let (i, j) = choose|i: int, j: int| call_at(t, id, i, j);
        lemma_cancellations_are_user(msgs, msgs);
        if i >= msgs.len() {
            assert(t[i] == canc[i - msgs.len()]);
        }
        assert(t[i] == msgs[i]);
        assert(call_at(msgs, id, i, j));
        law_normalized_calls_answered(msgs, id, i, j);
    }
    lemma_cancellations_none(n, n);
    assert(n + cancellations(n, n) =~= n);
    law_normalized_roles_alternate(msgs);
    lemma_merge_roles_alternating(n);
}


// ---------------------------------------------------------------------------
// Counting tool results
// ---------------------------------------------------------------------------

/// How many blocks of `blocks` satisfy `p`.
pub open spec fn block_count(blocks: Seq<BlockView>, p: spec_fn(BlockView) -> bool) -> nat
    decreases blocks.len(),
{
    if blocks.len() == 0 {
        0
    } else {
        block_count(blocks.drop_last(), p) + if p(blocks.last()) { 1nat } else { 0nat }
    }
}

/// How many blocks of the messages of `msgs` satisfy `p`.
pub open spec fn message_block_count(msgs: Seq<MessageView>, p: spec_fn(BlockView) -> bool) -> nat
    decreases msgs.len(),
{
    if msgs.len() == 0 {
        0
    } else {
        message_block_count(msgs.drop_last(), p) + block_count(blocks_of(msgs.last()), p)
    }
}

/// How many tool calls of `blocks` `all` leaves unanswered.
pub open spec fn unanswered_in_blocks(blocks: Seq<BlockView>, all: Seq<MessageView>) -> nat
    decreases blocks.len(),
{
    if blocks.len() == 0 {
        0
    } else {
        unanswered_in_blocks(blocks.drop_last(), all) + match blocks.last() {
            BlockView::ToolUse { id, .. } => if has_result_for(all, id) { 0nat } else { 1nat },
            _ => 0nat,
        }
    }
}

/// How many tool calls of the non-user messages of `msgs` `all` leaves
/// unanswered.
pub open spec fn unanswered_calls(msgs: Seq<MessageView>, all: Seq<MessageView>) -> nat
    decreases msgs.len(),
{
    if msgs.len() == 0 {
        0
    } else {
        unanswered_calls(msgs.drop_last(), all) + if msgs.last().role == Role::User {
            0nat
        } else {
            unanswered_in_blocks(blocks_of(msgs.last()), all)
        }
    }
}

proof fn lemma_block_count_add(a: Seq<BlockView>, b: Seq<BlockView>, p: spec_fn(BlockView) -> bool)
    ensures
        block_count(a + b, p) == block_count(a, p) + block_count(b, p),
    decreases b.len(),
{
    if b.len() == 0 {
        assert(a + b =~= a);
    } else {
        lemma_block_count_add(a, b.drop_last(), p);
        assert((a + b).drop_last() =~= a + b.drop_last());
        assert((a + b).last() == b.last());
    }
}

proof fn lemma_message_count_add(x: Seq<MessageView>, y: Seq<MessageView>, p: spec_fn(BlockView) -> bool)
    ensures
        message_block_count(x + y, p) == message_block_count(x, p) + message_block_count(y, p),
    decreases y.len(),
{
    if y.len() == 0 {
        assert(x + y =~= x);
    } else {
        lemma_message_count_add(x, y.drop_last(), p);
        assert((x + y).drop_last() =~= x + y.drop_last());
        assert((x + y).last() == y.last());
    }
}

proof fn lemma_block_count_one(b: BlockView, p: spec_fn(BlockView) -> bool)
    ensures
        block_count(seq![b], p) == if p(b) { 1nat } else { 0nat },
{
    let one = seq![b];
    assert(one.drop_last() =~= Seq::<BlockView>::empty());
    assert(block_count(one.drop_last(), p) == 0);
    assert(one.last() == b);
}

/// Merging neighbouring messages keeps every block that `p` counts, when `p`
/// counts no text block (merging may add text blocks).
proof fn lemma_merge_count(t: Seq<MessageView>, p: spec_fn(BlockView) -> bool)
    requires
        forall|s: Seq<char>| !p(BlockView::Text { text: s }),
    ensures
        message_block_count(merge_roles(t), p) == message_block_count(t, p),
    decreases t.len(),
{
    if t.len() > 0 {
        let prev = t.drop_last();
        let cur = t.last();
        let m = merge_roles(prev);
        let r = merge_roles(t);
        lemma_merge_count(prev, p);
        if m.len() > 0 && m.last().role == cur.role {
            let last = m.len() - 1;
            let merged = MessageView { role: cur.role, content: merge_content(m.last().content, cur.content) };
            assert(r == m.update(last, merged));
            assert(r.drop_last() =~= m.drop_last());
            assert(r.last() == merged);
            assert(block_count(blocks_of(merged), p) == block_count(blocks_of(m.last()), p) + block_count(blocks_of(cur), p)) by {
                match m.last().content {
                    ContentView::Blocks { content: pb } => {
                        match cur.content {
                            ContentView::Blocks { content: cb } => {
                                lemma_block_count_add(pb, cb, p);
                            },
                            ContentView::Text { content: ct } => {
                                let x = BlockView::Text { text: ct };
                                assert(pb.push(x).drop_last() =~= pb);
                                assert(block_count(Seq::<BlockView>::empty(), p) == 0);
                                assert(blocks_of(cur) =~= Seq::<BlockView>::empty());
                            },
                        }
                    },
                    ContentView::Text { content: pt } => {
                        assert(blocks_of(m.last()) =~= Seq::<BlockView>::empty());
                        match cur.content {
                            ContentView::Blocks { content: cb } => {
                                let x = BlockView::Text { text: pt };
                                lemma_block_count_add(seq![x], cb, p);
                                lemma_block_count_one(x, p);
                            },
                            ContentView::Text { .. } => {
                                assert(blocks_of(cur) =~= Seq::<BlockView>::empty());
                            },
                        }
                    },
                }
            }
        } else {
            assert(r == m.push(cur));
            assert(r.drop_last() =~= m);
        }
    }
}

proof fn lemma_block_cancellations_count(blocks: Seq<BlockView>, all: Seq<MessageView>, p: spec_fn(BlockView) -> bool)
    requires
        forall|id: Seq<char>| p(BlockView::ToolResult { tool_use_id: id, content: cancelled_text() }),
    ensures
        message_block_count(block_cancellations(blocks, all), p) == unanswered_in_blocks(blocks, all),
    decreases blocks.len(),
{
    if blocks.len() > 0 {
        let rest = block_cancellations(blocks.drop_last(), all);
        lemma_block_cancellations_count(blocks.drop_last(), all, p);
        match blocks.last() {
            BlockView::ToolUse { id, .. } => {
                if !has_result_for(all, id) {
                    let c = cancellation(id);
                    assert(rest.push(c).drop_last() =~= rest);
                    assert(rest.push(c).last() == c);
                    lemma_block_count_one(BlockView::ToolResult { tool_use_id: id, content: cancelled_text() }, p);
                }
            },
            _ => {},
        }
    }
}

proof fn lemma_cancellations_count(msgs: Seq<MessageView>, all: Seq<MessageView>, p: spec_fn(BlockView) -> bool)
    requires
        forall|id: Seq<char>| p(BlockView::ToolResult { tool_use_id: id, content: cancelled_text() }),
    ensures
        message_block_count(cancellations(msgs, all), p) == unanswered_calls(msgs, all),
    decreases msgs.len(),
{
    if msgs.len() > 0 {
        lemma_cancellations_count(msgs.drop_last(), all, p);
        let prev = cancellations(msgs.drop_last(), all);
        if msgs.last().role == Role::User {
            assert(prev + Seq::<MessageView>::empty() =~= prev);
        } else {
            let tail = block_cancellations(blocks_of(msgs.last()), all);
            lemma_block_cancellations_count(blocks_of(msgs.last()), all, p);
            lemma_message_count_add(prev, tail, p);
        }
    }
}

/// Normalising adds one tool result for each unanswered tool call, each with
/// the text "(cancelled)", and keeps every tool result there was.
pub proof fn law_normalize_adds_one_cancelled_result_per_unanswered_call(msgs: Seq<MessageView>)
    ensures
        message_block_count(normalize_spec(msgs), |b: BlockView| b is ToolResult)
            == message_block_count(msgs, |b: BlockView| b is ToolResult) + unanswered_calls(msgs, msgs),
        message_block_count(
            normalize_spec(msgs),
            |b: BlockView| b matches BlockView::ToolResult { content, .. } && content == cancelled_text(),
        ) == message_block_count(
            msgs,
            |b: BlockView| b matches BlockView::ToolResult { content, .. } && content == cancelled_text(),
        ) + unanswered_calls(msgs, msgs),
{
    let canc = cancellations(msgs, msgs);
    let p1 = |b: BlockView| b is ToolResult;
    let p2 = |b: BlockView| b matches BlockView::ToolResult { content, .. } && content == cancelled_text();
    lemma_merge_count(msgs + canc, p1);
    lemma_merge_count(msgs + canc, p2);
    lemma_message_count_add(msgs, canc, p1);
    lemma_message_count_add(msgs, canc, p2);
    lemma_cancellations_count(msgs, msgs, p1);
    lemma_cancellations_count(msgs, msgs, p2);
}

} // verus!
