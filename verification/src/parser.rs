//! The JSONL transcript: the lines of a delta, and the text bytes that each line
//! carries, split into non-thinking and thinking text.
//!
//! A transcript delta is the part of the transcript file that starts at a saved
//! byte offset. [`delta_lines`] splits it into lines the way a buffered reader
//! does, and keeps the lines that are to be counted: the first line is always
//! skipped (the offset may have been recorded mid-line), and so are empty lines
//! and lines that are not UTF-8. Each kept line is a JSON document that is
//! read into a [`TranscriptLine`]; [`count_text_bytes`] counts its bytes, and
//! [`delta_counts`] sums them over the delta.
use vstd::prelude::*;
use vstd::utf8::*;

verus! {

/// A single line from the agent's JSONL transcript.
#[derive(Debug)]
pub struct TranscriptLine {
    /// The `message` field, if present.
    pub message: Option<Message>,
}

/// The `message` object of a transcript line.
#[derive(Debug)]
pub struct Message {
    /// The `content` field, if present.
    pub content: Option<Content>,
}

/// Content is either a plain string or an array of typed content blocks.
#[derive(Debug)]
pub enum Content {
    /// A plain string.
    Plain(String),
    /// An array of typed blocks.
    Blocks(Vec<ContentBlock>),
}

/// A typed content block within a message.
#[derive(Debug)]
pub enum ContentBlock {
    /// `"type": "thinking"`, with its `thinking` text.
    Thinking { thinking: Option<String> },
    /// `"type": "text"`, with its `text`.
    Text { text: Option<String> },
    /// `"type": "tool_use"`, with its `input` value written as compact JSON.
    ToolUse { input: Option<String> },
    /// `"type": "tool_result"`, with its `content`.
    ToolResult { content: Option<ToolResultContent> },
    /// Any other block type (e.g. `"image"`): carries no counted text.
    Unknown,
}

/// `tool_result` content: either a string or an array of text objects.
#[derive(Debug)]
pub enum ToolResultContent {
    /// A plain string.
    Plain(String),
    /// An array of parts.
    Parts(Vec<ToolResultPart>),
}

/// One part of a `tool_result` content array.
#[derive(Debug)]
pub struct ToolResultPart {
    /// The part's `text`, if present.
    pub text: Option<String>,
}

// ---------------------------------------------------------------------------
// Byte counts
// ---------------------------------------------------------------------------

/// Length in bytes of the UTF-8 encoding of `s`, as `str::len` reports it.
pub open spec fn text_len(s: Seq<char>) -> nat {
    (encode_utf8(s).len() as usize) as nat
}

/// Bytes of an optional text: its length, or nothing.
pub open spec fn opt_text_len(s: Option<String>) -> nat {
    match s {
        Some(t) => text_len(t@),
        None => 0,
    }
}

/// Bytes of the texts of tool-result parts; parts without text add nothing.
pub open spec fn parts_bytes(parts: Seq<ToolResultPart>) -> nat
    decreases parts.len(),
{
    if parts.len() == 0 {
        0
    } else {
        parts_bytes(parts.drop_last()) + opt_text_len(parts.last().text)
    }
}

/// Bytes of a `tool_result` content.
pub open spec fn tool_result_bytes(content: ToolResultContent) -> nat {
    match content {
        ToolResultContent::Plain(s) => text_len(s@),
        ToolResultContent::Parts(parts) => parts_bytes(parts@),
    }
}

/// `(non_thinking, thinking)` bytes of one block: thinking text is the only
/// thinking; text, tool input and tool results are non-thinking; a block of an
/// unknown type, or one whose field is absent, adds nothing.
pub open spec fn block_bytes(block: ContentBlock) -> (nat, nat) {
    match block {
        ContentBlock::Thinking { thinking } => (0, opt_text_len(thinking)),
        ContentBlock::Text { text } => (opt_text_len(text), 0),
        ContentBlock::ToolUse { input } => (opt_text_len(input), 0),
        ContentBlock::ToolResult { content } => (
            match content {
                Some(c) => tool_result_bytes(c),
                None => 0,
            },
            0,
        ),
        ContentBlock::Unknown => (0, 0),
    }
}

/// `(non_thinking, thinking)` bytes of a sequence of blocks: the sum over the blocks.
pub open spec fn blocks_bytes(blocks: Seq<ContentBlock>) -> (nat, nat)
    decreases blocks.len(),
{
    if blocks.len() == 0 {
        (0, 0)
    } else {
        let prefix = blocks_bytes(blocks.drop_last());
        let last = block_bytes(blocks.last());
        (prefix.0 + last.0, prefix.1 + last.1)
    }
}

/// `(non_thinking, thinking)` bytes of one transcript line: a plain-string
/// content is all non-thinking text; a line without message or content has none.
pub open spec fn line_bytes(line: TranscriptLine) -> (nat, nat) {
    match line.message {
        Some(message) => match message.content {
            Some(Content::Plain(s)) => (text_len(s@), 0),
            Some(Content::Blocks(blocks)) => blocks_bytes(blocks@),
            None => (0, 0),
        },
        None => (0, 0),
    }
}

/// `(non_thinking, thinking)` bytes of a sequence of lines: the sum over the lines.
pub open spec fn lines_bytes(lines: Seq<TranscriptLine>) -> (nat, nat)
    decreases lines.len(),
{
    if lines.len() == 0 {
        (0, 0)
    } else {
        let prefix = lines_bytes(lines.drop_last());
        let last = line_bytes(lines.last());
        (prefix.0 + last.0, prefix.1 + last.1)
    }
}

/// Whether a pair of byte counts fits in two `u64`s.
pub open spec fn fits_u64(counts: (nat, nat)) -> bool {
    counts.0 <= u64::MAX && counts.1 <= u64::MAX
}

proof fn lemma_parts_bytes_prefix(parts: Seq<ToolResultPart>, i: int)
    requires
        0 <= i <= parts.len(),
    ensures
        parts_bytes(parts.take(i)) <= parts_bytes(parts),
    decreases parts.len(),
{
    if i < parts.len() {
        lemma_parts_bytes_prefix(parts.drop_last(), i);
        assert(parts.drop_last().take(i) =~= parts.take(i));
    } else {
        assert(parts.take(i) =~= parts);
    }
}

proof fn lemma_blocks_bytes_prefix(blocks: Seq<ContentBlock>, i: int)
    requires
        0 <= i <= blocks.len(),
    ensures
        blocks_bytes(blocks.take(i)).0 <= blocks_bytes(blocks).0,
        blocks_bytes(blocks.take(i)).1 <= blocks_bytes(blocks).1,
    decreases blocks.len(),
{
    if i < blocks.len() {
        lemma_blocks_bytes_prefix(blocks.drop_last(), i);
        assert(blocks.drop_last().take(i) =~= blocks.take(i));
    } else {
        assert(blocks.take(i) =~= blocks);
    }
}

proof fn lemma_lines_bytes_prefix(lines: Seq<TranscriptLine>, i: int)
    requires
        0 <= i <= lines.len(),
    ensures
        lines_bytes(lines.take(i)).0 <= lines_bytes(lines).0,
        lines_bytes(lines.take(i)).1 <= lines_bytes(lines).1,
    decreases lines.len(),
{
    if i < lines.len() {
        lemma_lines_bytes_prefix(lines.drop_last(), i);
        assert(lines.drop_last().take(i) =~= lines.take(i));
    } else {
        assert(lines.take(i) =~= lines);
    }
}

/// Counting is additive: the bytes of two runs of lines, one after the other,
/// are the bytes of the first run plus those of the second.
pub proof fn lemma_lines_bytes_concat(first: Seq<TranscriptLine>, second: Seq<TranscriptLine>)
    ensures
        lines_bytes(first + second).0 == lines_bytes(first).0 + lines_bytes(second).0,
        lines_bytes(first + second).1 == lines_bytes(first).1 + lines_bytes(second).1,
    decreases second.len(),
{
    if second.len() == 0 {
        assert(first + second =~= first);
    } else {
        lemma_lines_bytes_concat(first, second.drop_last());
        assert((first + second).drop_last() =~= first + second.drop_last());
    }
}

/// Counting tool-result parts is additive: the bytes of two runs of parts, one
/// after the other, are the bytes of the first run plus those of the second;
/// no parts have no bytes.
pub proof fn lemma_parts_bytes_concat(first: Seq<ToolResultPart>, second: Seq<ToolResultPart>)
    ensures
        parts_bytes(first + second) == parts_bytes(first) + parts_bytes(second),
        parts_bytes(Seq::<ToolResultPart>::empty()) == 0,
    decreases second.len(),
{
    if second.len() == 0 {
        assert(first + second =~= first);
    } else {
        lemma_parts_bytes_concat(first, second.drop_last());
        assert((first + second).drop_last() =~= first + second.drop_last());
    }
}

/// Counting blocks is additive: the bytes of two runs of blocks, one after the
/// other, are the bytes of the first run plus those of the second; so the count
/// does not depend on which run comes first.
pub proof fn lemma_blocks_bytes_concat(first: Seq<ContentBlock>, second: Seq<ContentBlock>)
    ensures
        blocks_bytes(first + second).0 == blocks_bytes(first).0 + blocks_bytes(second).0,
        blocks_bytes(first + second).1 == blocks_bytes(first).1 + blocks_bytes(second).1,
        blocks_bytes(first + second) == blocks_bytes(second + first),
{
    lemma_blocks_bytes_concat_one_way(first, second);
    lemma_blocks_bytes_concat_one_way(second, first);
}

proof fn lemma_blocks_bytes_concat_one_way(first: Seq<ContentBlock>, second: Seq<ContentBlock>)
    ensures
        blocks_bytes(first + second).0 == blocks_bytes(first).0 + blocks_bytes(second).0,
        blocks_bytes(first + second).1 == blocks_bytes(first).1 + blocks_bytes(second).1,
    decreases second.len(),
{
    if second.len() == 0 {
        assert(first + second =~= first);
    } else {
        lemma_blocks_bytes_concat_one_way(first, second.drop_last());
        assert((first + second).drop_last() =~= first + second.drop_last());
    }
}

/// The bytes of a text are the length of its UTF-8 encoding (for any text that
/// a `usize` can measure, as every text in memory is).
pub proof fn lemma_text_len_is_utf8_length(s: Seq<char>)
    requires
        encode_utf8(s).len() <= usize::MAX,
    ensures
        text_len(s) == encode_utf8(s).len(),
{
}

/// A tool result counts the UTF-8 bytes of its text: a plain string its own
/// encoding's length; parts the sum over the parts, where no parts count
/// nothing and each further part adds the UTF-8 length of its text, or nothing
/// when it has none.
pub proof fn lemma_tool_result_counts_utf8_bytes(
    content: ToolResultContent,
    parts: Seq<ToolResultPart>,
    part: ToolResultPart,
)
    ensures
        content matches ToolResultContent::Plain(s) ==> (encode_utf8(s@).len() <= usize::MAX
            ==> tool_result_bytes(content) == encode_utf8(s@).len()),
        content matches ToolResultContent::Parts(ps) ==> tool_result_bytes(content) == parts_bytes(
            ps@,
        ),
        parts_bytes(Seq::<ToolResultPart>::empty()) == 0,
        part.text matches Some(t) ==> (encode_utf8(t@).len() <= usize::MAX ==> parts_bytes(
            parts.push(part),
        ) == parts_bytes(parts) + encode_utf8(t@).len()),
        part.text is None ==> parts_bytes(parts.push(part)) == parts_bytes(parts),
{
    assert(parts.push(part).drop_last() =~= parts);
}

/// Each block adds to the counts of the blocks before it exactly the UTF-8
/// bytes of its text: thinking text to the thinking count; text, tool input and
/// a plain tool result to the non-thinking count; a tool result in parts the
/// bytes of its parts; an absent field or an unknown block nothing. No blocks
/// count nothing.
pub proof fn lemma_block_adds_its_utf8_bytes(blocks: Seq<ContentBlock>, block: ContentBlock)
    ensures
        blocks_bytes(Seq::<ContentBlock>::empty()) == (0nat, 0nat),
        ({
            let before = blocks_bytes(blocks);
            let after = blocks_bytes(blocks.push(block));
            match block {
                ContentBlock::Thinking { thinking: Some(t) } => encode_utf8(t@).len()
                    <= usize::MAX ==> after == (before.0, before.1 + encode_utf8(t@).len()),
                ContentBlock::Text { text: Some(t) } => encode_utf8(t@).len() <= usize::MAX
                    ==> after == (before.0 + encode_utf8(t@).len(), before.1),
                ContentBlock::ToolUse { input: Some(t) } => encode_utf8(t@).len() <= usize::MAX
                    ==> after == (before.0 + encode_utf8(t@).len(), before.1),
                ContentBlock::ToolResult { content: Some(ToolResultContent::Plain(t)) } =>
                    encode_utf8(t@).len() <= usize::MAX ==> after == (
                    before.0 + encode_utf8(t@).len(),
                    before.1,
                ),
                ContentBlock::ToolResult { content: Some(ToolResultContent::Parts(ps)) } => after
                    == (before.0 + parts_bytes(ps@), before.1),
                _ => after == before,
            }
        }),
{
    assert(blocks.push(block).drop_last() =~= blocks);
}

/// A transcript line counts the UTF-8 bytes of its text: a plain-string content
/// is all non-thinking text, block content counts its blocks, and a line
/// without message or content counts nothing.
pub proof fn lemma_line_counts_utf8_bytes(line: TranscriptLine)
    ensures
        match line.message {
            Some(message) => match message.content {
                Some(Content::Plain(s)) => encode_utf8(s@).len() <= usize::MAX ==> line_bytes(line)
                    == (encode_utf8(s@).len(), 0nat),
                Some(Content::Blocks(blocks)) => line_bytes(line) == blocks_bytes(blocks@),
                None => line_bytes(line) == (0nat, 0nat),
            },
            None => line_bytes(line) == (0nat, 0nat),
        },
{
}

/// A delta's totals are the sums of its lines' counts: no lines count nothing,
/// and each further line adds its own count, the pair that `count_text_bytes`
/// returns for it.
pub proof fn lemma_line_adds_its_count(lines: Seq<TranscriptLine>, line: TranscriptLine)
    ensures
        lines_bytes(Seq::<TranscriptLine>::empty()) == (0nat, 0nat),
        lines_bytes(lines.push(line)) == (
            lines_bytes(lines).0 + line_bytes(line).0,
            lines_bytes(lines).1 + line_bytes(line).1,
        ),
        lines_bytes(seq![line]) == line_bytes(line),
{
    assert(lines.push(line).drop_last() =~= lines);
    assert(seq![line].drop_last() =~= Seq::<TranscriptLine>::empty());
}

/// Thinking bytes come from thinking blocks alone: blocks among which there is
/// no thinking block have no thinking bytes.
pub proof fn lemma_thinking_only_from_thinking_blocks(blocks: Seq<ContentBlock>)
    requires
        forall|i: int| 0 <= i < blocks.len() ==> !(#[trigger] blocks[i] is Thinking),
    ensures
        blocks_bytes(blocks).1 == 0,
    decreases blocks.len(),
{
    if blocks.len() > 0 {
        assert(blocks.last() == blocks[blocks.len() - 1]);
        lemma_thinking_only_from_thinking_blocks(blocks.drop_last());
    }
}

/// Non-thinking bytes never come from thinking blocks: blocks that are all
/// thinking blocks have no non-thinking bytes.
pub proof fn lemma_thinking_blocks_add_no_text(blocks: Seq<ContentBlock>)
    requires
        forall|i: int| 0 <= i < blocks.len() ==> #[trigger] blocks[i] is Thinking,
    ensures
        blocks_bytes(blocks).0 == 0,
    decreases blocks.len(),
{
    if blocks.len() > 0 {
        assert(blocks.last() == blocks[blocks.len() - 1]);
        lemma_thinking_blocks_add_no_text(blocks.drop_last());
    }
}

fn opt_text_len_exec(s: &Option<String>) -> (n: usize)
    ensures
        n == opt_text_len(*s),
{
    match s {
        Some(t) => t.as_str().len(),
        None => 0,
    }
}

fn tool_result_bytes_checked(content: &ToolResultContent) -> (n: Option<u64>)
    ensures
        n is Some <==> tool_result_bytes(*content) <= u64::MAX,
        n matches Some(v) ==> v == tool_result_bytes(*content),
{
    match content {
        ToolResultContent::Plain(s) => Some(s.as_str().len() as u64),
        ToolResultContent::Parts(parts) => {
            let mut total: u64 = 0;
            let mut i: usize = 0;
            while i < parts.len()
                invariant
                    i <= parts.len(),
                    total == parts_bytes(parts@.take(i as int)),
                    tool_result_bytes(*content) == parts_bytes(parts@),
                decreases parts.len() - i,
            {
                let n = opt_text_len_exec(&parts[i].text);
                assert(parts@.take(i + 1).drop_last() =~= parts@.take(i as int));
                match total.checked_add(n as u64) {
                    Some(t) => {
                        total = t;
                    },
                    None => {
                        proof {
                            lemma_parts_bytes_prefix(parts@, i + 1);
                        }
                        return None;
                    },
                }
                i += 1;
            }
            assert(parts@.take(i as int) =~= parts@);
            Some(total)
        },
    }
}

/// Bytes of a `tool_result` content: a plain string's length, or the summed
/// lengths of the parts' texts.
pub fn count_tool_result_bytes(content: &ToolResultContent) -> (n: u64)
    requires
        tool_result_bytes(*content) <= u64::MAX,
    ensures
        n == tool_result_bytes(*content),
{
    match tool_result_bytes_checked(content) {
        Some(n) => n,
        None => 0,
    }
}

fn block_bytes_checked(block: &ContentBlock) -> (r: Option<(u64, u64)>)
    ensures
        r is Some <==> fits_u64(block_bytes(*block)),
        r matches Some(c) ==> c.0 == block_bytes(*block).0 && c.1 == block_bytes(*block).1,
{
    match block {
        ContentBlock::Thinking { thinking } => Some((0, opt_text_len_exec(thinking) as u64)),
        ContentBlock::Text { text } => Some((opt_text_len_exec(text) as u64, 0)),
        ContentBlock::ToolUse { input } => Some((opt_text_len_exec(input) as u64, 0)),
        ContentBlock::ToolResult { content } => match content {
            Some(c) => match tool_result_bytes_checked(c) {
                Some(n) => Some((n, 0)),
                None => None,
            },
            None => Some((0, 0)),
        },
        ContentBlock::Unknown => Some((0, 0)),
    }
}

fn line_bytes_checked(line: &TranscriptLine) -> (r: Option<(u64, u64)>)
    ensures
        r is Some <==> fits_u64(line_bytes(*line)),
        r matches Some(c) ==> c.0 == line_bytes(*line).0 && c.1 == line_bytes(*line).1,
{
    let content = match &line.message {
        Some(m) => match &m.content {
            Some(c) => c,
            None => {
                return Some((0, 0));
            },
        },
        None => {
            return Some((0, 0));
        },
    };
    match content {
        Content::Plain(s) => Some((s.as_str().len() as u64, 0)),
        Content::Blocks(blocks) => {
            let mut nt: u64 = 0;
            let mut th: u64 = 0;
            let mut i: usize = 0;
            while i < blocks.len()
                invariant
                    i <= blocks.len(),
                    line_bytes(*line) == blocks_bytes(blocks@),
                    nt == blocks_bytes(blocks@.take(i as int)).0,
                    th == blocks_bytes(blocks@.take(i as int)).1,
                decreases blocks.len() - i,
            {
                assert(blocks@.take(i + 1).drop_last() =~= blocks@.take(i as int));
                proof {
                    lemma_blocks_bytes_prefix(blocks@, i + 1);
                }
                let c = match block_bytes_checked(&blocks[i]) {
                    Some(c) => c,
                    None => {
                        return None;
                    },
                };
                match (nt.checked_add(c.0), th.checked_add(c.1)) {
                    (Some(a), Some(b)) => {
                        nt = a;
                        th = b;
                    },
                    _ => {
                        return None;
                    },
                }
                i += 1;
            }
            assert(blocks@.take(i as int) =~= blocks@);
            Some((nt, th))
        },
    }
}

/// Returns `(non_thinking_bytes, thinking_bytes)` for a single transcript line.
pub fn count_text_bytes(line: &TranscriptLine) -> (counts: (u64, u64))
    requires
        fits_u64(line_bytes(*line)),
    ensures
        counts.0 == line_bytes(*line).0,
        counts.1 == line_bytes(*line).1,
{
    match line_bytes_checked(line) {
        Some(c) => c,
        None => (0, 0),
    }
}

/// Returns `(non_thinking_bytes, thinking_bytes)` summed over the lines of a
/// delta, or `None` exactly when a sum does not fit in a `u64`.
pub fn delta_counts(lines: &Vec<TranscriptLine>) -> (counts: Option<(u64, u64)>)
    ensures
        counts is Some <==> fits_u64(lines_bytes(lines@)),
        counts matches Some(c) ==> c.0 == lines_bytes(lines@).0 && c.1 == lines_bytes(lines@).1,
{
    let mut nt: u64 = 0;
    let mut th: u64 = 0;
    let mut i: usize = 0;
    while i < lines.len()
        invariant
            i <= lines.len(),
            nt == lines_bytes(lines@.take(i as int)).0,
            th == lines_bytes(lines@.take(i as int)).1,
        decreases lines.len() - i,
    {
        assert(lines@.take(i + 1).drop_last() =~= lines@.take(i as int));
        proof {
            lemma_lines_bytes_prefix(lines@, i + 1);
        }
        let c = match line_bytes_checked(&lines[i]) {
            Some(c) => c,
            None => {
                return None;
            },
        };
        match (nt.checked_add(c.0), th.checked_add(c.1)) {
            (Some(a), Some(b)) => {
                nt = a;
                th = b;
            },
            _ => {
                return None;
            },
        }
        i += 1;
    }
    assert(lines@.take(i as int) =~= lines@);
    Some((nt, th))
}

// ---------------------------------------------------------------------------
// Lines of a delta
// ---------------------------------------------------------------------------

/// The byte that ends a line.
pub const NEWLINE: u8 = 10;

/// The byte that a line ended by `"\r\n"` loses with its newline.
pub const CARRIAGE_RETURN: u8 = 13;

/// Index of the first newline at or after `start`, or the length of `data`
/// when there is none.
pub open spec fn newline_at_or_after(data: Seq<u8>, start: int) -> int
    decreases data.len() - start,
{
    if start >= data.len() {
        data.len() as int
    } else if data[start] == NEWLINE {
        start
    } else {
        newline_at_or_after(data, start + 1)
    }
}

/// The next newline at or after `start` lies between `start` and the end of
/// `data`, and is a newline byte when it is not the end.
pub proof fn lemma_newline_bounds(data: Seq<u8>, start: int)
    requires
        0 <= start <= data.len(),
    ensures
        start <= newline_at_or_after(data, start) <= data.len(),
        newline_at_or_after(data, start) < data.len() ==> data[newline_at_or_after(data, start)]
            == NEWLINE,
    decreases data.len() - start,
{
    if start < data.len() && data[start] != NEWLINE {
        lemma_newline_bounds(data, start + 1);
    }
}

/// A line ended by a newline loses a carriage return that stood before it.
pub open spec fn without_cr(line: Seq<u8>) -> Seq<u8> {
    if line.len() > 0 && line.last() == CARRIAGE_RETURN {
        line.drop_last()
    } else {
        line
    }
}

/// The lines of `data` from byte `start` on, as a buffered reader yields them:
/// each newline ends a line and is dropped, with a carriage return just before
/// it; bytes after the last newline form a last line, kept as they are.
pub open spec fn lines_from(data: Seq<u8>, start: int) -> Seq<Seq<u8>>
    decreases data.len() - start,
{
    if start < 0 || start >= data.len() {
        seq![]
    } else {
        let end = newline_at_or_after(data, start);
        proof {
            lemma_newline_bounds(data, start);
        }
        if end < data.len() {
            seq![without_cr(data.subrange(start, end))] + lines_from(data, end + 1)
        } else {
            seq![data.subrange(start, data.len() as int)]
        }
    }
}

/// The lines that are counted, decoded, out of raw lines: the first raw line is
/// skipped when `skip_first` holds, whatever it holds; after it, lines that are
/// empty or not UTF-8 are skipped and the others kept.
pub open spec fn kept_lines(raw: Seq<Seq<u8>>, skip_first: bool) -> Seq<Seq<char>>
    decreases raw.len(),
{
    if raw.len() == 0 {
        seq![]
    } else {
        let line = raw[0];
        let rest = raw.drop_first();
        if skip_first || line.len() == 0 || !valid_utf8(line) {
            kept_lines(rest, false)
        } else {
            seq![decode_utf8(line)] + kept_lines(rest, false)
        }
    }
}

/// The text lines of a delta that are counted: the lines of `data` but the
/// first one, the empty ones and those that are not UTF-8.
pub open spec fn delta_text_lines(data: Seq<u8>) -> Seq<Seq<char>> {
    kept_lines(lines_from(data, 0), true)
}

/// The first line of a delta is never counted: a delta that holds no newline
/// (a single line, complete or not) yields no text lines.
pub proof fn lemma_single_line_delta_is_skipped(data: Seq<u8>)
    requires
        forall|i: int| 0 <= i < data.len() ==> data[i] != NEWLINE,
    ensures
        delta_text_lines(data) == Seq::<Seq<char>>::empty(),
{
    if data.len() > 0 {
        lemma_newline_at_or_after_none(data, 0);
        let raw = lines_from(data, 0);
        assert(raw == seq![data.subrange(0, data.len() as int)]);
        assert(raw.drop_first() =~= Seq::<Seq<u8>>::empty());
        assert(kept_lines(raw.drop_first(), true) =~= Seq::<Seq<char>>::empty());
        assert(kept_lines(raw.drop_first(), false) =~= Seq::<Seq<char>>::empty());
    }
}

proof fn lemma_newline_at_or_after_none(data: Seq<u8>, start: int)
    requires
        0 <= start <= data.len(),
        forall|i: int| 0 <= i < data.len() ==> data[i] != NEWLINE,
    ensures
        newline_at_or_after(data, start) == data.len(),
    decreases data.len() - start,
{
    if start < data.len() {
        lemma_newline_at_or_after_none(data, start + 1);
    }
}

proof fn lemma_newline_shift(a: Seq<u8>, b: Seq<u8>, k: int)
    requires
        0 <= k <= b.len(),
    ensures
        newline_at_or_after(a + b, a.len() + k) == a.len() + newline_at_or_after(b, k),
    decreases b.len() - k,
{
    if k < b.len() {
        assert((a + b)[a.len() + k] == b[k]);
        if b[k] != NEWLINE {
            lemma_newline_shift(a, b, k + 1);
        }
    }
}

proof fn lemma_lines_shift(a: Seq<u8>, b: Seq<u8>, k: int)
    requires
        0 <= k <= b.len(),
    ensures
        lines_from(a + b, a.len() + k) == lines_from(b, k),
    decreases b.len() - k,
{
    if k < b.len() {
        lemma_newline_shift(a, b, k);
        lemma_newline_bounds(b, k);
        let e = newline_at_or_after(b, k);
        if e < b.len() {
            lemma_lines_shift(a, b, e + 1);
            assert((a + b).subrange(a.len() + k, a.len() + e) =~= b.subrange(k, e));
        } else {
            assert((a + b).subrange(a.len() + k, (a + b).len() as int) =~= b.subrange(
                k,
                b.len() as int,
            ));
        }
    }
}

proof fn lemma_newline_prefix(a: Seq<u8>, b: Seq<u8>, start: int)
    requires
        0 <= start < a.len(),
        a.last() == NEWLINE,
    ensures
        newline_at_or_after(a + b, start) == newline_at_or_after(a, start),
        newline_at_or_after(a, start) < a.len(),
    decreases a.len() - start,
{
    assert((a + b)[start] == a[start]);
    if a[start] != NEWLINE {
        lemma_newline_prefix(a, b, start + 1);
    }
}

proof fn lemma_lines_prefix(a: Seq<u8>, b: Seq<u8>, start: int)
    requires
        0 <= start <= a.len(),
        a.len() > 0,
        a.last() == NEWLINE,
    ensures
        lines_from(a + b, start) == lines_from(a, start) + lines_from(b, 0),
    decreases a.len() - start,
{
    if start == a.len() {
        lemma_lines_shift(a, b, 0);
        assert(lines_from(a, start) + lines_from(b, 0) =~= lines_from(b, 0));
    } else {
        lemma_newline_prefix(a, b, start);
        lemma_newline_bounds(a, start);
        let e = newline_at_or_after(a, start);
        lemma_lines_prefix(a, b, e + 1);
        assert((a + b).subrange(start, e) =~= a.subrange(start, e));
        assert(lines_from(a + b, start) =~= lines_from(a, start) + lines_from(b, 0));
    }
}

proof fn lemma_kept_lines_concat(first: Seq<Seq<u8>>, second: Seq<Seq<u8>>, skip_first: bool)
    requires
        first.len() > 0,
    ensures
        kept_lines(first + second, skip_first) == kept_lines(first, skip_first) + kept_lines(
            second,
            false,
        ),
    decreases first.len(),
{
    assert((first + second)[0] == first[0]);
    if first.len() == 1 {
        assert((first + second).drop_first() =~= second);
        assert(first.drop_first() =~= Seq::<Seq<u8>>::empty());
        assert(kept_lines(first.drop_first(), false) =~= Seq::<Seq<char>>::empty());
    } else {
        assert((first + second).drop_first() =~= first.drop_first() + second);
        lemma_kept_lines_concat(first.drop_first(), second, false);
    }
    assert(kept_lines(first + second, skip_first) =~= kept_lines(first, skip_first) + kept_lines(
        second,
        false,
    ));
}

proof fn lemma_terminated_line(line: Seq<u8>, start: int)
    requires
        0 <= start <= line.len(),
        forall|i: int| 0 <= i < line.len() ==> line[i] != NEWLINE,
    ensures
        newline_at_or_after(line + seq![NEWLINE], start) == line.len(),
    decreases line.len() - start,
{
    let t = line + seq![NEWLINE];
    if start < line.len() {
        assert(t[start] == line[start]);
        lemma_terminated_line(line, start + 1);
    } else {
        assert(t[start] == NEWLINE);
    }
}

proof fn lemma_lines_of_terminated_line(line: Seq<u8>)
    requires
        forall|i: int| 0 <= i < line.len() ==> line[i] != NEWLINE,
    ensures
        lines_from(line + seq![NEWLINE], 0) == seq![without_cr(line)],
{
    let t = line + seq![NEWLINE];
    lemma_terminated_line(line, 0);
    assert(t.subrange(0, line.len() as int) =~= line);
    assert(lines_from(t, line.len() as int + 1) =~= Seq::<Seq<u8>>::empty());
    assert(lines_from(t, 0) =~= seq![without_cr(line)]);
}

/// After the first line, the lines of a delta are counted each on its own: a
/// delta cut after one of its newlines keeps the lines of its first part, then
/// those of its second part that are neither empty nor other than UTF-8.
pub proof fn lemma_delta_lines_concat(first: Seq<u8>, second: Seq<u8>)
    requires
        first.len() > 0,
        first.last() == NEWLINE,
    ensures
        delta_text_lines(first + second) == delta_text_lines(first) + kept_lines(
            lines_from(second, 0),
            false,
        ),
{
    lemma_lines_prefix(first, second, 0);
    assert(lines_from(first, 0).len() > 0);
    lemma_kept_lines_concat(lines_from(first, 0), lines_from(second, 0), true);
}

/// Appending a complete line to a delta that ends with a newline adds that
/// line's text, and nothing else, when it is neither empty nor other than UTF-8;
/// otherwise it changes nothing.
pub proof fn lemma_appended_line(data: Seq<u8>, line: Seq<u8>)
    requires
        data.len() > 0,
        data.last() == NEWLINE,
        forall|i: int| 0 <= i < line.len() ==> line[i] != NEWLINE,
    ensures
        valid_utf8(without_cr(line)) && without_cr(line).len() > 0 ==> delta_text_lines(
            data + line + seq![NEWLINE],
        ) == delta_text_lines(data).push(decode_utf8(without_cr(line))),
        !valid_utf8(without_cr(line)) || without_cr(line).len() == 0 ==> delta_text_lines(
            data + line + seq![NEWLINE],
        ) == delta_text_lines(data),
{
    let t = line + seq![NEWLINE];
    assert(data + line + seq![NEWLINE] =~= data + t);
    lemma_delta_lines_concat(data, t);
    lemma_lines_of_terminated_line(line);
    let x = without_cr(line);
    assert(seq![x].drop_first() =~= Seq::<Seq<u8>>::empty());
    assert(kept_lines(seq![x].drop_first(), false) =~= Seq::<Seq<char>>::empty());
    assert(seq![x][0] == x);
    if valid_utf8(x) && x.len() > 0 {
        assert(kept_lines(seq![x], false) =~= seq![decode_utf8(x)]);
    } else {
        assert(kept_lines(seq![x], false) =~= Seq::<Seq<char>>::empty());
    }
    assert(delta_text_lines(data).push(decode_utf8(x)) =~= delta_text_lines(data) + seq![
        decode_utf8(x),
    ]);
    assert(delta_text_lines(data) + Seq::<Seq<char>>::empty() =~= delta_text_lines(data));
}

/// The first line of a delta is skipped: a delta made of one complete line
/// yields no text lines.
pub proof fn lemma_first_complete_line_is_skipped(first: Seq<u8>)
    requires
        forall|i: int| 0 <= i < first.len() ==> first[i] != NEWLINE,
    ensures
        delta_text_lines(first + seq![NEWLINE]) == Seq::<Seq<char>>::empty(),
{
    lemma_lines_of_terminated_line(first);
    let raw = seq![without_cr(first)];
    assert(raw.drop_first() =~= Seq::<Seq<u8>>::empty());
    assert(kept_lines(raw.drop_first(), false) =~= Seq::<Seq<char>>::empty());
}

/// Every complete line after the first is kept whole: appended to a delta that
/// ends with a newline, a line of any length adds exactly its own bytes,
/// decoded, less one carriage return just before its newline, when those bytes
/// are neither empty nor other than UTF-8; otherwise it adds nothing.
pub proof fn lemma_complete_line_is_kept_whole(data: Seq<u8>, line: Seq<u8>)
    requires
        data.len() > 0,
        data.last() == NEWLINE,
        forall|i: int| 0 <= i < line.len() ==> line[i] != NEWLINE,
    ensures
        line.len() > 0 && line.last() != CARRIAGE_RETURN && valid_utf8(line) ==> delta_text_lines(
            data + line + seq![NEWLINE],
        ) == delta_text_lines(data).push(decode_utf8(line)),
        (line.len() == 0 || (line.last() != CARRIAGE_RETURN && !valid_utf8(line)))
            ==> delta_text_lines(data + line + seq![NEWLINE]) == delta_text_lines(data),
        line.len() > 0 && valid_utf8(line) ==> delta_text_lines(
            data + line + seq![CARRIAGE_RETURN, NEWLINE],
        ) == delta_text_lines(data).push(decode_utf8(line)),
        (line.len() == 0 || !valid_utf8(line)) ==> delta_text_lines(
            data + line + seq![CARRIAGE_RETURN, NEWLINE],
        ) == delta_text_lines(data),
{
    lemma_appended_line(data, line);
    let t = line + seq![CARRIAGE_RETURN];
    assert forall|i: int| 0 <= i < t.len() implies t[i] != NEWLINE by {
        if i < line.len() {
            assert(t[i] == line[i]);
        }
    }
    lemma_appended_line(data, t);
    assert(data + line + seq![CARRIAGE_RETURN, NEWLINE] =~= data + t + seq![NEWLINE]);
    assert(t.drop_last() =~= line);
    assert(without_cr(t) == line);
    if line.len() > 0 && line.last() != CARRIAGE_RETURN {
        assert(without_cr(line) == line);
    }
}

/// A last line without a newline is kept whole, carriage return and all: after
/// a delta that ends with a newline, it adds exactly its bytes, decoded, when
/// they are UTF-8, and nothing otherwise.
pub proof fn lemma_unterminated_last_line_is_kept_whole(data: Seq<u8>, line: Seq<u8>)
    requires
        data.len() > 0,
        data.last() == NEWLINE,
        line.len() > 0,
        forall|i: int| 0 <= i < line.len() ==> line[i] != NEWLINE,
    ensures
        valid_utf8(line) ==> delta_text_lines(data + line) == delta_text_lines(data).push(
            decode_utf8(line),
        ),
        !valid_utf8(line) ==> delta_text_lines(data + line) == delta_text_lines(data),
{
    lemma_delta_lines_concat(data, line);
    lemma_newline_at_or_after_none(line, 0);
    assert(line.subrange(0, line.len() as int) =~= line);
    assert(lines_from(line, 0) =~= seq![line]);
    let raw = seq![line];
    assert(raw.drop_first() =~= Seq::<Seq<u8>>::empty());
    assert(kept_lines(raw.drop_first(), false) =~= Seq::<Seq<char>>::empty());
    if valid_utf8(line) {
        assert(kept_lines(raw, false) =~= seq![decode_utf8(line)]);
        assert(delta_text_lines(data).push(decode_utf8(line)) =~= delta_text_lines(data) + seq![
            decode_utf8(line),
        ]);
    } else {
        assert(kept_lines(raw, false) =~= Seq::<Seq<char>>::empty());
        assert(delta_text_lines(data) + Seq::<Seq<char>>::empty() =~= delta_text_lines(data));
    }
}

/// A line that is empty or not UTF-8, put anywhere after the first line of a
/// delta, changes nothing in the lines that are counted.
pub proof fn lemma_skipped_line_changes_nothing(first: Seq<u8>, line: Seq<u8>, rest: Seq<u8>)
    requires
        first.len() > 0,
        first.last() == NEWLINE,
        forall|i: int| 0 <= i < line.len() ==> line[i] != NEWLINE,
        !valid_utf8(without_cr(line)) || without_cr(line).len() == 0,
    ensures
        delta_text_lines(first + (line + seq![NEWLINE]) + rest) == delta_text_lines(first + rest),
{
    let t = line + seq![NEWLINE];
    assert(first + t + rest =~= first + (t + rest));
    lemma_delta_lines_concat(first, t + rest);
    lemma_delta_lines_concat(first, rest);
    assert(t.last() == NEWLINE);
    lemma_lines_prefix(t, rest, 0);
    lemma_lines_of_terminated_line(line);
    let x = without_cr(line);
    lemma_kept_lines_concat(seq![x], lines_from(rest, 0), false);
    assert(seq![x].drop_first() =~= Seq::<Seq<u8>>::empty());
    assert(kept_lines(seq![x].drop_first(), false) =~= Seq::<Seq<char>>::empty());
    assert(seq![x][0] == x);
    assert(kept_lines(seq![x], false) =~= Seq::<Seq<char>>::empty());
    assert(kept_lines(lines_from(t + rest, 0), false) =~= kept_lines(lines_from(rest, 0), false));
}

/// `String::from_utf8` (std): returns the string exactly when the bytes are
/// valid UTF-8, and then the string that they encode.
#[verifier::external_body]
fn string_from_utf8(bytes: Vec<u8>) -> (text: Option<String>)
    ensures
        text is Some <==> valid_utf8(bytes@),
        text matches Some(t) ==> t@ == decode_utf8(bytes@),
{
    String::from_utf8(bytes).ok()
}

/// Splits a transcript delta into the text lines that are counted.
///
/// The first line is always skipped: the saved offset may have been recorded
/// before a line was complete, so the delta may start in the middle of one
/// (even in the middle of a character). Empty lines and lines that are not
/// UTF-8 are skipped too; every other line is kept.
pub fn delta_lines(data: &[u8]) -> (lines: Vec<String>)
    ensures
        lines@.map_values(|s: String| s@) == delta_text_lines(data@),
{
    let mut out: Vec<String> = Vec::new();
    let mut skip_first = true;
    let mut start: usize = 0;
    while start < data.len()
        invariant
            start <= data.len(),
            out@.map_values(|s: String| s@) + kept_lines(lines_from(data@, start as int), skip_first)
                == delta_text_lines(data@),
        decreases data.len() - start,
    {
        let mut cur: Vec<u8> = Vec::new();
        let mut j: usize = start;
        while j < data.len() && data[j] != NEWLINE
            invariant
                start <= j <= data.len(),
                start < data.len(),
                cur@ == data@.subrange(start as int, j as int),
                newline_at_or_after(data@, start as int) == newline_at_or_after(data@, j as int),
            decreases data.len() - j,
        {
            cur.push(data[j]);
            j += 1;
        }
        proof {
            lemma_newline_bounds(data@, start as int);
        }
        let next: usize;
        if j < data.len() {
            if cur.len() > 0 && cur[cur.len() - 1] == CARRIAGE_RETURN {
                cur.pop();
            }
            next = j + 1;
        } else {
            next = j;
        }
        let ghost raw = lines_from(data@, start as int);
        assert(raw.len() > 0 && raw[0] == cur@ && raw.drop_first() =~= lines_from(
            data@,
            next as int,
        ));
        if skip_first {
            skip_first = false;
        } else if cur.len() > 0 {
            match string_from_utf8(cur) {
                Some(text) => {
                    let ghost before = out@;
                    out.push(text);
                    assert(out@.map_values(|s: String| s@) =~= before.map_values(|s: String| s@)
                        + seq![text@]);
                },
                None => {},
            }
        }
        start = next;
    }
    assert(lines_from(data@, start as int) =~= Seq::<Seq<u8>>::empty());
    assert(out@.map_values(|s: String| s@) =~= out@.map_values(|s: String| s@) + Seq::<
        Seq<char>,
    >::empty());
    out
}

} // verus!
