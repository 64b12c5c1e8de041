use ides::content::{Block, BlockType, Book};

#[test]
fn test_parse_book() {
    let book = Book::from_raw_plain_text("% Title\n\n# Cool book!\n\n## Great\n\nBook.");
    assert_eq!(book.title, "Title");
    assert_eq!(book.blocks[0].block_type, BlockType::SectionTitle);
    assert_eq!(book.blocks[1].block_type, BlockType::H1);
    assert_eq!(book.blocks[2].block_type, BlockType::Paragraph);
    assert_eq!(book.blocks.len(), 3);

    assert_eq!(book.blocks[0].content, "Cool book!");
    assert_eq!(book.blocks[1].content, "Great");
    assert_eq!(book.blocks[2].content, "Book.");
}

#[test]
fn test_parse_hard_wrapping() {
    let book = Book::from_raw_plain_text(
        "this
is
a
hard-wrapped
paragraph which may have multiple
words per line.

But this is definitely
a
new
paragraph.",
    );

    let expected_blocks = vec![
        Block {
            block_type: BlockType::Paragraph,
            content: "this is a hard-wrapped paragraph which may have multiple words per line."
                .into(),
        },
        Block {
            block_type: BlockType::Paragraph,
            content: "But this is definitely a new paragraph.".into(),
        },
    ];

    assert_eq!(book.blocks, expected_blocks);
    assert_eq!(book.blocks.len(), 2);
}

#[test]
fn test_parse_remove_garbage() {
    // The lines with only dashes, or theoretically headings without
    // content, should be ignored.
    let book = Book::from_raw_plain_text(
        "this\nis good content\n\n----- \n\n-----  \n\n#\n\n## \n\n\nmore good content\n",
    );

    assert_eq!(book.blocks.len(), 2);
    assert_eq!(book.blocks[0].content, "this is good content");
    assert_eq!(book.blocks[1].content, "more good content");
    assert!(matches!(book.blocks[0].block_type, BlockType::Paragraph));
    assert!(matches!(book.blocks[1].block_type, BlockType::Paragraph));
}

#[test]
fn test_parse_leading_whitespace() {
    let book = Book::from_raw_plain_text(
        "     Has leading spaces\n\n# Another Cool Book\n\n   Content with leading spaces.",
    );

    assert!(matches!(book.blocks[0].block_type, BlockType::Paragraph));
    assert!(matches!(book.blocks[1].block_type, BlockType::SectionTitle));
    assert_eq!(book.blocks.len(), 3);

    assert_eq!(book.blocks[0].content.trim(), "Has leading spaces");
    assert_eq!(book.blocks[1].content.trim(), "Another Cool Book");
    assert_eq!(book.blocks[2].content.trim(), "Content with leading spaces.");
}

#[test]
fn test_parse_ignore_line_feed() {
    let book = Book::from_raw_plain_text(
        "This\n\nis\u{000C}\n\n\njust\n\n\u{000C}some\n\n\ncontent.\n\n",
    );

    assert_eq!(book.blocks.len(), 5);
    assert_eq!(book.blocks[0].content, "This");
    assert_eq!(book.blocks[1].content, "is");
    assert_eq!(book.blocks[2].content, "just");
    assert_eq!(book.blocks[3].content, "some");
    assert_eq!(book.blocks[4].content, "content.");
    assert!(matches!(book.blocks[0].block_type, BlockType::Paragraph));
}

#[test]
fn test_ignore_too_much_header() {
    let book = Book::from_raw_plain_text("##### woah");
    assert!(book.blocks.is_empty());
}

#[test]
fn test_parse_is_deterministic() {
    let raw = "% A Book\n\nFirst paragraph\nwrapped here.\n\n# Heading\n\nSecond paragraph.";
    let a = Book::from_raw_plain_text(raw);
    let b = Book::from_raw_plain_text(raw);
    assert_eq!(a.title, b.title);
    assert_eq!(a.blocks, b.blocks);
}

#[test]
fn test_parse_interleaved_heading_keeps_accumulator() {
    // A heading never participates in paragraph accumulation: the pending
    // paragraph continues around it.
    let book = Book::from_raw_plain_text("one\n# Head\ntwo\n\nend");
    assert_eq!(book.blocks.len(), 3);
    assert_eq!(book.blocks[0].block_type, BlockType::SectionTitle);
    assert_eq!(book.blocks[0].content, "Head");
    assert_eq!(book.blocks[1].content, "one two");
    assert_eq!(book.blocks[2].content, "end");
}

#[test]
fn test_parse_last_title_wins() {
    let book = Book::from_raw_plain_text("% First\n\n%% Second\n\ntext");
    assert_eq!(book.title, "Second");
    assert_eq!(book.blocks.len(), 1);
}

#[test]
fn test_parse_dashes_inside_text_dropped() {
    let book = Book::from_raw_plain_text("good line\nbad ----- line\nanother good");
    assert_eq!(book.blocks.len(), 1);
    assert_eq!(book.blocks[0].content, "good line another good");
}

#[test]
fn test_block_type_codes() {
    assert_eq!(BlockType::Paragraph.code(), 1);
    assert_eq!(BlockType::H1.code(), 2);
    assert_eq!(BlockType::SectionTitle.code(), 4);
    assert_eq!(BlockType::from_code(1).unwrap(), BlockType::Paragraph);
    assert_eq!(BlockType::from_code(2).unwrap(), BlockType::H1);
    assert_eq!(BlockType::from_code(4).unwrap(), BlockType::SectionTitle);
    let err = BlockType::from_code(3).unwrap_err();
    assert_eq!(err.peek(), ides::error::ErrT::InvalidBlockType);
}
