//! Typed content blocks and the plain-text parser.
//!
//! Raw book text is a line-oriented format with three sigil conventions:
//! `#`/`##` heading lines, `%` title lines, and runs of five or more dashes
//! as decorative separators.  Blank lines end paragraphs; other lines are
//! hard-wrapped paragraph content, rejoined with single spaces.  Parsing is
//! total: malformed constructs are dropped, never reported as errors.

use vstd::prelude::*;

use crate::error::{ErrStack, ErrT};
use crate::text::{
    chars_of, chars_to_string, clean_line, clean_line_exec, has_dash_run, has_dash_run_exec,
    lead_run, lead_run_exec, trim, trim_skip_exec,
};

verus! {

/// How many blocks a single page shows.
pub const PAGE_SIZE: i32 = 3;

/// The closed set of block types.
#[derive(Clone, Copy, Debug, Eq, PartialEq, Structural)]
pub enum BlockType {
    Paragraph,
    H1,
    SectionTitle,
}

impl BlockType {
    /// The small-integer code this type is stored under.
    pub open spec fn spec_code(self) -> int {
        match self {
            BlockType::Paragraph => 1,
            BlockType::H1 => 2,
            BlockType::SectionTitle => 4,
        }
    }

    pub fn code(self) -> (r: i32)
        ensures
            r == self.spec_code(),
    {
        match self {
            BlockType::Paragraph => 1,
            BlockType::H1 => 2,
            BlockType::SectionTitle => 4,
        }
    }

    /// Decode a stored type code.  An unrecognized code is a fatal
    /// data-integrity error, not a recoverable condition.
    pub fn from_code(code: i32) -> (r: Result<BlockType, ErrStack>)
        ensures
            match r {
                Ok(t) => t.spec_code() == code,
                Err(e) => {
                    &&& code != 1 && code != 2 && code != 4
                    &&& e.wf()
                    &&& e@.last().variant == ErrT::InvalidBlockType
                },
            },
    {
        match code {
            1 => Ok(BlockType::Paragraph),
            2 => Ok(BlockType::H1),
            4 => Ok(BlockType::SectionTitle),
            _ => Err(
                ErrStack::new(ErrT::InvalidBlockType).ctx(
                    String::from_str("not a valid code for BlockType"),
                ),
            ),
        }
    }
}

/// One typed unit of book content.
#[derive(Debug, Eq, PartialEq)]
pub struct Block {
    pub block_type: BlockType,
    pub content: String,
}

/// The mathematical image of a block.
pub struct BlockModel {
    pub block_type: BlockType,
    pub content: Seq<char>,
}

impl View for Block {
    type V = BlockModel;

    open spec fn view(&self) -> BlockModel {
        BlockModel { block_type: self.block_type, content: self.content@ }
    }
}

impl Clone for Block {
    fn clone(&self) -> (r: Self)
        ensures
            r@ == self@,
    {
        Block { block_type: self.block_type, content: self.content.clone() }
    }
}

/// A block as stored inside a revision: the block itself, its persistent
/// identifier, and its dense position in document order.
#[derive(Debug)]
pub struct SequencedBlock {
    pub id: i32,
    pub block: Block,
    pub sequence: i32,
}

/// The mathematical image of a sequenced block.
pub struct SequencedBlockModel {
    pub id: int,
    pub block: BlockModel,
    pub sequence: int,
}

impl View for SequencedBlock {
    type V = SequencedBlockModel;

    open spec fn view(&self) -> SequencedBlockModel {
        SequencedBlockModel {
            id: self.id as int,
            block: self.block@,
            sequence: self.sequence as int,
        }
    }
}

impl Clone for SequencedBlock {
    fn clone(&self) -> (r: Self)
        ensures
            r@ == self@,
    {
        SequencedBlock { id: self.id, block: self.block.clone(), sequence: self.sequence }
    }
}

/// Which way the reader is paging.
#[derive(Clone, Copy, Debug, Eq, PartialEq, Structural)]
pub enum Direction {
    Back,
    Forward,
}

/// The transient result of parsing raw text; it becomes a revision once
/// persisted.
#[derive(Debug)]
pub struct Book {
    pub title: String,
    pub blocks: Vec<Block>,
}

/// A book together with the id of the revision it was persisted as.
#[derive(Debug)]
pub struct PersistedBook {
    pub revision_id: i32,
    pub book: Book,
}

/// The mathematical image of a book.
pub struct BookModel {
    pub title: Seq<char>,
    pub blocks: Seq<BlockModel>,
}

impl View for Book {
    type V = BookModel;

    open spec fn view(&self) -> BookModel {
        BookModel { title: self.title@, blocks: self.blocks@.map_values(|b: Block| b@) }
    }
}

/// How the parser's grammar reads one line.
pub enum LineClass {
    /// Only whitespace: ends the pending paragraph.
    Blank,
    /// A well-formed `#` or `##` heading with its text.
    Heading(BlockType, Seq<char>),
    /// A `%` line carrying the book title.
    TitleLine(Seq<char>),
    /// Noise that is dropped outright: malformed headings and dash runs.
    Garbage,
    /// Ordinary paragraph content.
    Content(Seq<char>),
}

/// Classify one raw line, after trimming and page-break stripping.
pub open spec fn classify(line: Seq<char>) -> LineClass {
    let t = clean_line(line);
    if t.len() == 0 {
        LineClass::Blank
    } else if t[0] == '#' {
        let h = lead_run(t, '#');
        let c = trim(t.skip(h as int));
        if c.len() == 0 {
            LineClass::Garbage
        } else if h == 1 {
            LineClass::Heading(BlockType::SectionTitle, c)
        } else if h == 2 {
            LineClass::Heading(BlockType::H1, c)
        } else {
            LineClass::Garbage
        }
    } else if t[0] == '%' {
        LineClass::TitleLine(trim(t.skip(lead_run(t, '%') as int)))
    } else if has_dash_run(t) {
        LineClass::Garbage
    } else {
        LineClass::Content(t)
    }
}

/// The parser's running state: the title seen so far, the pending paragraph
/// accumulator, and the blocks already emitted.
pub struct ParseState {
    pub title: Seq<char>,
    pub acc: Seq<char>,
    pub has_acc: bool,
    pub blocks: Seq<BlockModel>,
}

pub open spec fn init_state() -> ParseState {
    ParseState { title: Seq::empty(), acc: Seq::empty(), has_acc: false, blocks: Seq::empty() }
}

/// Emit the pending paragraph, if any.
pub open spec fn flush(st: ParseState) -> ParseState {
    if st.has_acc {
        ParseState {
            title: st.title,
            acc: Seq::empty(),
            has_acc: false,
            blocks: st.blocks.push(
                BlockModel { block_type: BlockType::Paragraph, content: st.acc },
            ),
        }
    } else {
        st
    }
}

/// Process one line.
pub open spec fn step_line(st: ParseState, line: Seq<char>) -> ParseState {
    match classify(line) {
        LineClass::Blank => flush(st),
        LineClass::Heading(t, c) => ParseState {
            blocks: st.blocks.push(BlockModel { block_type: t, content: c }),
            ..st
        },
        LineClass::TitleLine(c) => ParseState { title: c, ..st },
        LineClass::Garbage => st,
        LineClass::Content(c) => ParseState {
            acc: if st.has_acc {
                st.acc + seq![' '] + c
            } else {
                c
            },
            has_acc: true,
            ..st
        },
    }
}

/// Fold the parser over the raw text: `line` is the partial current line
/// and `st` the state accumulated so far.
pub open spec fn parse_chars(s: Seq<char>, line: Seq<char>, st: ParseState) -> ParseState
    decreases s.len(),
{
    if s.len() == 0 {
        step_line(st, line)
    } else if s[0] == '\n' {
        parse_chars(s.drop_first(), Seq::empty(), step_line(st, line))
    } else {
        parse_chars(s.drop_first(), line.push(s[0]), st)
    }
}

/// What parsing `s` yields: the document-ordered blocks and the last title
/// line seen, with a final flush of the pending paragraph.
pub open spec fn parse_spec(s: Seq<char>) -> BookModel {
    let st = flush(parse_chars(s, Seq::empty(), init_state()));
    BookModel { title: st.title, blocks: st.blocks }
}

/// The state the executable parser variables stand for.
pub open spec fn st_of(
    title: Seq<char>,
    acc: Seq<char>,
    has_acc: bool,
    blocks: Seq<Block>,
) -> ParseState {
    ParseState { title, acc, has_acc, blocks: blocks.map_values(|b: Block| b@) }
}

/// Append the pending paragraph accumulator as one `Paragraph` block.
fn flush_exec(acc: &mut Vec<char>, has_acc: &mut bool, blocks: &mut Vec<Block>, title: &Vec<char>)
    ensures
        st_of(title@, final(acc)@, *final(has_acc), final(blocks)@) == flush(
            st_of(title@, old(acc)@, *old(has_acc), old(blocks)@),
        ),
{
    if *has_acc {
        let content = chars_to_string(acc);
        blocks.push(Block { block_type: BlockType::Paragraph, content });
        acc.clear();
        *has_acc = false;
        proof {
            assert(blocks@.map_values(|b: Block| b@) =~= old(blocks)@.map_values(
                |b: Block| b@,
            ).push(BlockModel { block_type: BlockType::Paragraph, content: old(acc)@ }));
        }
    }
}

/// Process one complete raw line against the parser state.
fn process_line(
    line: &Vec<char>,
    title: &mut Vec<char>,
    acc: &mut Vec<char>,
    has_acc: &mut bool,
    blocks: &mut Vec<Block>,
)
    ensures
        st_of(final(title)@, final(acc)@, *final(has_acc), final(blocks)@) == step_line(
            st_of(old(title)@, old(acc)@, *old(has_acc), old(blocks)@),
            line@,
        ),
{
    let t = clean_line_exec(line);
    if t.len() == 0 {
        flush_exec(acc, has_acc, blocks, title);
        return ;
    }
    let first = t[0];
    if first == '#' {
        let h = lead_run_exec(&t, '#');
        let c = trim_skip_exec(&t, h);
        if c.len() == 0 {
            return ;
        }
        if h == 1 {
            blocks.push(Block { block_type: BlockType::SectionTitle, content: chars_to_string(&c) });
            proof {
                assert(blocks@.map_values(|b: Block| b@) =~= old(blocks)@.map_values(
                    |b: Block| b@,
                ).push(BlockModel { block_type: BlockType::SectionTitle, content: c@ }));
            }
        } else if h == 2 {
            blocks.push(Block { block_type: BlockType::H1, content: chars_to_string(&c) });
            proof {
                assert(blocks@.map_values(|b: Block| b@) =~= old(blocks)@.map_values(
                    |b: Block| b@,
                ).push(BlockModel { block_type: BlockType::H1, content: c@ }));
            }
        }
        return ;
    }
    if first == '%' {
        let p = lead_run_exec(&t, '%');
        let c = trim_skip_exec(&t, p);
        *title = c;
        return ;
    }
    if has_dash_run_exec(&t) {
        return ;
    }
    // Ordinary content: rejoin hard-wrapped lines with single spaces.
    if *has_acc {
        acc.push(' ');
    } else {
        acc.clear();
    }
    let ghost acc_before = acc@;
    let mut k: usize = 0;
    while k < t.len()
        invariant
            k <= t@.len(),
            acc@ == acc_before + t@.take(k as int),
        decreases t@.len() - k,
    {
        acc.push(t[k]);
        proof {
            assert(acc_before + t@.take(k as int + 1) =~= (acc_before + t@.take(k as int)).push(
                t@[k as int],
            ));
        }
        k += 1;
    }
    *has_acc = true;
    proof {
        assert(t@.take(t@.len() as int) =~= t@);
        if *old(has_acc) {
            assert(acc@ =~= old(acc)@ + seq![' '] + t@);
        } else {
            assert(acc@ =~= t@);
        }
    }
}

impl Book {
    /// Parse raw plain text into a book: total, deterministic, and
    /// permissive — malformed constructs degrade to omission, not error.
    pub fn from_raw_plain_text(input: &str) -> (book: Book)
        ensures
            book@ == parse_spec(input@),
    {
        let v = chars_of(input);
        let ghost target = parse_chars(v@, Seq::empty(), init_state());
        let mut title: Vec<char> = Vec::new();
        let mut acc: Vec<char> = Vec::new();
        let mut has_acc: bool = false;
        let mut blocks: Vec<Block> = Vec::new();
        let mut line: Vec<char> = Vec::new();
        let n = v.len();
        let mut i: usize = 0;
        proof {
            assert(v@.skip(0) =~= v@);
            assert(blocks@.map_values(|b: Block| b@) =~= Seq::<BlockModel>::empty());
        }
        while i < n
            invariant
                i <= n,
                n == v@.len(),
                target == parse_chars(
                    v@.skip(i as int),
                    line@,
                    st_of(title@, acc@, has_acc, blocks@),
                ),
            decreases n - i,
        {
            let c = v[i];
            proof {
                let rest = v@.skip(i as int);
                assert(rest[0] == v@[i as int]);
                assert(rest.drop_first() =~= v@.skip(i as int + 1));
            }
            if c == '\n' {
                process_line(&line, &mut title, &mut acc, &mut has_acc, &mut blocks);
                line.clear();
            } else {
                line.push(c);
            }
            i += 1;
        }
        proof {
            assert(v@.skip(n as int) =~= Seq::<char>::empty());
        }
        process_line(&line, &mut title, &mut acc, &mut has_acc, &mut blocks);
        flush_exec(&mut acc, &mut has_acc, &mut blocks, &title);
        Book { title: chars_to_string(&title), blocks }
    }
}

/// Parsing is deterministic: identical raw text always yields identical
/// books — two parses of the same input agree on the title and on every
/// block.
pub proof fn lemma_parse_deterministic(b1: BookModel, b2: BookModel, t: Seq<char>)
    requires
        b1 == parse_spec(t),
        b2 == parse_spec(t),
    ensures
        b1 == b2,
{
}

} // verus!
