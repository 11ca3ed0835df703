use md_reader::file_reader::{decode_block, decode_events, parse_frontmatter, DecodeError};
use md_reader::frontmatter::{chars_of, find_delimiter, is_delimiter_at, split_header};
use md_reader::yaml::Event;

fn scalar(text: &str) -> Event {
    Event::Scalar(text.to_string(), 0)
}

fn pair(key: &str, value: &str) -> (String, String) {
    (key.to_string(), value.to_string())
}

#[test]
fn text_without_opening_line_is_all_body() {
    let (metadata, body) = parse_frontmatter("No header here.").unwrap();
    assert!(metadata.is_empty());
    assert_eq!(body, "No header here.");
}

#[test]
fn empty_text_is_all_body() {
    let (metadata, body) = parse_frontmatter("").unwrap();
    assert!(metadata.is_empty());
    assert_eq!(body, "");
}

#[test]
fn delimiter_later_in_the_text_opens_nothing() {
    let source = "Intro\n---\ntitle: Hello\n---\nBody";
    let (metadata, body) = parse_frontmatter(source).unwrap();
    assert!(metadata.is_empty());
    assert_eq!(body, source);
}

#[test]
fn opening_line_needs_its_line_break() {
    assert_eq!(split_header("---"), None);
    assert_eq!(split_header("--- \ntitle: Hello\n---\n"), None);
    assert_eq!(split_header("---\r\ntitle: Hello\r\n---\r\n"), None);
    let (metadata, body) = parse_frontmatter("---").unwrap();
    assert!(metadata.is_empty());
    assert_eq!(body, "---");
}

#[test]
fn unclosed_opening_line_stays_in_the_body() {
    let source = "---\ntitle: Hello\nBody text.";
    let (metadata, body) = parse_frontmatter(source).unwrap();
    assert!(metadata.is_empty());
    assert_eq!(body, source);
}

#[test]
fn closing_line_needs_its_line_break() {
    let source = "---\ntitle: Hello\n---";
    assert_eq!(split_header(source), None);
    let (metadata, body) = parse_frontmatter(source).unwrap();
    assert!(metadata.is_empty());
    assert_eq!(body, source);
}

#[test]
fn lone_opening_line_stays_in_the_body() {
    let (metadata, body) = parse_frontmatter("---\n").unwrap();
    assert!(metadata.is_empty());
    assert_eq!(body, "---\n");
}

#[test]
fn empty_block_gives_no_metadata() {
    let (metadata, body) = parse_frontmatter("---\n---\nBody text.").unwrap();
    assert!(metadata.is_empty());
    assert_eq!(body, "Body text.");
}

#[test]
fn empty_block_and_empty_body() {
    assert_eq!(split_header("---\n---\n"), Some(("", "")));
    let (metadata, body) = parse_frontmatter("---\n---\n").unwrap();
    assert!(metadata.is_empty());
    assert_eq!(body, "");
}

#[test]
fn header_with_one_entry() {
    let (metadata, body) = parse_frontmatter("---\ntitle: Hello\n---\nBody text.").unwrap();
    assert_eq!(metadata, vec![pair("title", "Hello")]);
    assert_eq!(body, "Body text.");
}

#[test]
fn entries_keep_the_order_of_the_file() {
    let source = "---\ntitle: Hello\nauthor: Ann\nlang: en\n---\nBody";
    let (metadata, body) = parse_frontmatter(source).unwrap();
    assert_eq!(metadata, vec![pair("title", "Hello"), pair("author", "Ann"), pair("lang", "en")]);
    assert_eq!(body, "Body");
}

#[test]
fn split_gives_the_block_and_the_body() {
    assert_eq!(
        split_header("---\ntitle: Hello\n---\nBody text."),
        Some(("title: Hello\n", "Body text."))
    );
}

#[test]
fn body_keeps_its_own_leading_line_break() {
    assert_eq!(split_header("---\na: b\n---\n\nBody\n"), Some(("a: b\n", "\nBody\n")));
}

#[test]
fn first_closing_line_wins() {
    assert_eq!(split_header("---\na: b\n---\nBody\n---\nMore"), Some(("a: b\n", "Body\n---\nMore")));
}

#[test]
fn closing_line_may_end_a_longer_line() {
    assert_eq!(split_header("---\nfoo---\nbar"), Some(("foo", "bar")));
    assert_eq!(split_header("---\n----\nbody"), Some(("-", "body")));
}

#[test]
fn offsets_count_characters_not_bytes() {
    assert_eq!(
        split_header("---\ntitre: \u{e9}t\u{e9}\n---\n\u{1f600} corps"),
        Some(("titre: \u{e9}t\u{e9}\n", "\u{1f600} corps"))
    );
    let (metadata, body) = parse_frontmatter("---\ntitre: \u{e9}t\u{e9}\n---\n\u{1f600} corps").unwrap();
    assert_eq!(metadata, vec![pair("titre", "\u{e9}t\u{e9}")]);
    assert_eq!(body, "\u{1f600} corps");
}

#[test]
fn round_trip_of_block_and_body() {
    let block = "title: Hello\nauthor: Ann\n";
    let body = "\nFirst line.\n--- not a delimiter\nLast line.";
    let source = format!("---\n{}---\n{}", block, body);
    assert_eq!(split_header(&source), Some((block, body)));
    let (metadata, parsed_body) = parse_frontmatter(&source).unwrap();
    assert_eq!(metadata, decode_block(block).unwrap());
    assert_eq!(metadata, vec![pair("title", "Hello"), pair("author", "Ann")]);
    assert_eq!(parsed_body, body);
}

#[test]
fn header_parts_make_the_text() {
    for source in ["---\na: b\n---\nBody", "---\n---\n", "---\nfoo---\nbar\n---\n", "---\n----\n"] {
        let (block, body) = split_header(source).unwrap();
        assert_eq!(format!("---\n{}---\n{}", block, body), source);
    }
}

#[test]
fn round_trip_of_a_block_that_ends_in_a_dash() {
    let source = "---\na: b----\nbody";
    assert_eq!(split_header(source), Some(("a: b-", "body")));
}

#[test]
fn block_with_a_delimiter_line_inside_closes_early() {
    let source = "---\na: b\n---\nc: d\n---\nbody";
    assert_eq!(split_header(source), Some(("a: b\n", "c: d\n---\nbody")));
}

#[test]
fn characters_come_out_in_order() {
    assert_eq!(chars_of("a-\u{e9}\n"), vec!['a', '-', '\u{e9}', '\n']);
    assert_eq!(chars_of(""), Vec::<char>::new());
}

#[test]
fn delimiter_is_found_where_it_stands() {
    let chars = chars_of("ab---\ncd---\n");
    assert!(!is_delimiter_at(&chars, 0));
    assert!(!is_delimiter_at(&chars, 1));
    assert!(is_delimiter_at(&chars, 2));
    assert!(is_delimiter_at(&chars, 8));
    assert!(!is_delimiter_at(&chars, 9));
    assert!(!is_delimiter_at(&chars, 12));
    assert!(!is_delimiter_at(&chars, usize::MAX));
    assert_eq!(find_delimiter(&chars, 0), Some(2));
    assert_eq!(find_delimiter(&chars, 2), Some(2));
    assert_eq!(find_delimiter(&chars, 3), Some(8));
    assert_eq!(find_delimiter(&chars, 9), None);
    assert_eq!(find_delimiter(&chars, 100), None);
}

#[test]
fn parser_hands_out_what_it_read() {
    assert_eq!(
        decode_events("title: Hello\n").unwrap(),
        vec![
            Event::StreamStart,
            Event::DocumentStart,
            Event::MappingStart(0),
            scalar("title"),
            scalar("Hello"),
            Event::MappingEnd,
            Event::DocumentEnd,
            Event::StreamEnd,
        ]
    );
    assert_eq!(decode_events("").unwrap(), vec![Event::StreamStart, Event::StreamEnd]);
    assert_eq!(decode_events("# note\n").unwrap(), vec![Event::StreamStart, Event::StreamEnd]);
}

#[test]
fn parser_tells_lists_mappings_and_aliases_apart() {
    assert_eq!(
        decode_events("l: [1, x]\nm: {k: v}\na: &id w\nb: *id\n").unwrap(),
        vec![
            Event::StreamStart,
            Event::DocumentStart,
            Event::MappingStart(0),
            scalar("l"),
            Event::SequenceStart(0),
            scalar("1"),
            scalar("x"),
            Event::SequenceEnd,
            scalar("m"),
            Event::MappingStart(0),
            scalar("k"),
            scalar("v"),
            Event::MappingEnd,
            scalar("a"),
            Event::Scalar("w".to_string(), 1),
            scalar("b"),
            Event::Alias(1),
            Event::MappingEnd,
            Event::DocumentEnd,
            Event::StreamEnd,
        ]
    );
}

#[test]
fn parser_reads_several_documents() {
    assert_eq!(
        decode_events("a: b\n--- \nc\n").unwrap(),
        vec![
            Event::StreamStart,
            Event::DocumentStart,
            Event::MappingStart(0),
            scalar("a"),
            scalar("b"),
            Event::MappingEnd,
            Event::DocumentEnd,
            Event::DocumentStart,
            scalar("c"),
            Event::DocumentEnd,
            Event::StreamEnd,
        ]
    );
}

#[test]
fn parser_reports_broken_syntax() {
    assert_eq!(decode_events("a: [1, 2"), Err(DecodeError::Syntax));
    assert_eq!(decode_events("a: *nowhere\n"), Err(DecodeError::Syntax));
    assert_eq!(decode_events("a: b\n c: d: e\n"), Err(DecodeError::Syntax));
    assert_eq!(decode_block("a: [1, 2"), Err(DecodeError::Syntax));
    assert_eq!(parse_frontmatter("---\na: [1, 2\n---\nBody"), Err(DecodeError::Syntax));
}

#[test]
fn block_must_be_a_mapping() {
    assert_eq!(decode_block("- one\n- two\n"), Err(DecodeError::NotAMapping));
    assert_eq!(decode_block("just a scalar"), Err(DecodeError::NotAMapping));
    assert_eq!(decode_block("[a, b]"), Err(DecodeError::NotAMapping));
    assert_eq!(decode_block("a: b\n--- \nc: d\n"), Err(DecodeError::NotAMapping));
    assert_eq!(parse_frontmatter("---\n- one\n---\nBody"), Err(DecodeError::NotAMapping));
}

#[test]
fn entries_must_be_scalars() {
    assert_eq!(decode_block("tags: [a, b]\n"), Err(DecodeError::NotScalar));
    assert_eq!(decode_block("tags:\n- a\n- b\n"), Err(DecodeError::NotScalar));
    assert_eq!(decode_block("nested:\n  inner: value\n"), Err(DecodeError::NotScalar));
    assert_eq!(decode_block("? [a, b]\n: c\n"), Err(DecodeError::NotScalar));
    assert_eq!(decode_block("x: &anchor v\ny: *anchor\n"), Err(DecodeError::NotScalar));
    assert_eq!(parse_frontmatter("---\ntags: [a, b]\n---\nBody"), Err(DecodeError::NotScalar));
}

#[test]
fn scalars_are_taken_as_they_are_written() {
    assert_eq!(decode_block("count: 3\n").unwrap(), vec![pair("count", "3")]);
    assert_eq!(decode_block("count: '3'\n").unwrap(), vec![pair("count", "3")]);
    assert_eq!(decode_block("count: 0x1F\n").unwrap(), vec![pair("count", "0x1F")]);
    assert_eq!(decode_block("ratio: 1.50\n").unwrap(), vec![pair("ratio", "1.50")]);
    assert_eq!(decode_block("draft: true\n").unwrap(), vec![pair("draft", "true")]);
    assert_eq!(decode_block("1: one\n").unwrap(), vec![pair("1", "one")]);
    assert_eq!(decode_block("date: 2024-01-31\n").unwrap(), vec![pair("date", "2024-01-31")]);
    assert_eq!(decode_block("say: \"a\\tb\"\n").unwrap(), vec![pair("say", "a\tb")]);
    assert_eq!(decode_block("x: &anchor v\n").unwrap(), vec![pair("x", "v")]);
    assert_eq!(
        decode_block("text: |\n  line one\n  line two\n").unwrap(),
        vec![pair("text", "line one\nline two\n")]
    );
}

#[test]
fn entry_without_a_value_has_the_text_of_null() {
    assert_eq!(decode_block("title:\n").unwrap(), vec![pair("title", "~")]);
    assert_eq!(decode_block("title: ~\n").unwrap(), vec![pair("title", "~")]);
    assert_eq!(decode_block("title: ''\n").unwrap(), vec![pair("title", "")]);
}

#[test]
fn repeated_keys_are_refused() {
    assert_eq!(decode_block("a: 1\na: 2\n"), Err(DecodeError::DuplicateKey));
    assert_eq!(decode_block("1: a\n'1': b\n"), Err(DecodeError::DuplicateKey));
    assert_eq!(
        parse_frontmatter("---\ntitle: a\nauthor: b\ntitle: c\n---\nBody"),
        Err(DecodeError::DuplicateKey)
    );
    assert_eq!(decode_block("a: 1\nA: 1\n").unwrap(), vec![pair("a", "1"), pair("A", "1")]);
}

#[test]
fn blank_block_gives_no_metadata() {
    assert!(decode_block("").unwrap().is_empty());
    assert!(decode_block("\n").unwrap().is_empty());
    assert!(decode_block("# only a comment\n").unwrap().is_empty());
}

#[test]
fn empty_mapping_gives_no_metadata() {
    assert!(decode_block("{}").unwrap().is_empty());
}

#[test]
fn deep_nesting_is_read_to_the_end() {
    let block = "- ".repeat(50000) + "x\n";
    assert_eq!(decode_events(&block).map(|events| events.len()), Ok(100005));
    assert_eq!(decode_block(&block), Err(DecodeError::NotAMapping));
    let mut block = String::new();
    for level in 0..2000 {
        block.push_str(&" ".repeat(level));
        block.push_str("a:\n");
    }
    assert_eq!(decode_block(&block), Err(DecodeError::NotScalar));
}

#[test]
fn aliases_are_not_unfolded() {
    let mut block = String::from("a0: &a0 [x, x, x, x, x, x, x, x, x]\n");
    for level in 1..40 {
        let below = format!("*a{}", level - 1);
        let items = vec![below; 9].join(", ");
        block.push_str(&format!("a{}: &a{} [{}]\n", level, level, items));
    }
    assert_eq!(decode_events(&block).map(|events| events.len()), Ok(486));
    assert_eq!(decode_block(&block), Err(DecodeError::NotScalar));
}

#[test]
fn any_text_is_read_or_refused() {
    let alphabet: Vec<char> = "ab:- \n?[]{},&*!|>'\"#%@`~\t\\0\u{e9}".chars().collect();
    let mut state: u64 = 0x2545_f491_4f6c_dd1d;
    for _ in 0..4000 {
        let mut block = String::new();
        state ^= state << 13;
        state ^= state >> 7;
        state ^= state << 17;
        let len = (state % 24) as usize;
        for _ in 0..len {
            state ^= state << 13;
            state ^= state >> 7;
            state ^= state << 17;
            block.push(alphabet[(state % alphabet.len() as u64) as usize]);
        }
        match decode_events(&block) {
            Ok(events) => {
                assert_eq!(events.first(), Some(&Event::StreamStart));
                assert_eq!(events.last(), Some(&Event::StreamEnd));
                assert_eq!(events.iter().filter(|event| **event == Event::StreamEnd).count(), 1);
            }
            Err(error) => assert_eq!(error, DecodeError::Syntax),
        }
        let metadata = decode_block(&block);
        let text = format!("---\n{}---\nbody", block);
        if !format!("{}---", block).contains("---\n") {
            assert_eq!(parse_frontmatter(&text), metadata.map(|pairs| (pairs, "body".to_string())));
        }
    }
}
