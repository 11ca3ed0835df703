use md_reader::file_reader::{
    collect_files, has_markdown_extension, Collection, DecodeError, Entry, LoadError,
    MarkdownFile, SkipReason, Skipped, Traversal,
};

fn readable(name: &str, text: &str) -> Entry {
    Entry { name: name.to_string(), text: Some(text.to_string()) }
}

fn unreadable(name: &str) -> Entry {
    Entry { name: name.to_string(), text: None }
}

fn document(name: &str, frontmatter: &[(&str, &str)], content: &str) -> MarkdownFile {
    MarkdownFile {
        name: name.to_string(),
        frontmatter: frontmatter.iter().map(|(k, v)| (k.to_string(), v.to_string())).collect(),
        content: content.to_string(),
    }
}

fn skipped(name: &str, reason: SkipReason) -> Skipped {
    Skipped { name: name.to_string(), reason }
}

#[test]
fn one_file_with_a_header() {
    let entries = vec![readable("a.md", "---\ntitle: Hello\n---\nBody text.")];
    let collection = collect_files(Traversal::Entries(entries));
    assert_eq!(
        collection,
        Collection {
            files: Ok(vec![document("a.md", &[("title", "Hello")], "Body text.")]),
            skipped: vec![],
        }
    );
}

#[test]
fn one_file_without_a_header() {
    let entries = vec![readable("b.md", "No header here.")];
    let collection = collect_files(Traversal::Entries(entries));
    assert_eq!(
        collection,
        Collection { files: Ok(vec![document("b.md", &[], "No header here.")]), skipped: vec![] }
    );
}

#[test]
fn no_qualifying_file() {
    let collection = collect_files(Traversal::Entries(vec![]));
    assert_eq!(collection, Collection { files: Err(LoadError::NoDocumentsFound), skipped: vec![] });
    let entries = vec![readable("notes.txt", "text"), readable("README", "text")];
    let collection = collect_files(Traversal::Entries(entries));
    assert_eq!(collection, Collection { files: Err(LoadError::NoDocumentsFound), skipped: vec![] });
}

#[test]
fn missing_root() {
    let collection = collect_files(Traversal::Missing);
    assert_eq!(collection, Collection { files: Err(LoadError::PathNotFound), skipped: vec![] });
}

#[test]
fn documents_come_in_discovery_order() {
    let entries = vec![
        readable("z.md", "last letter"),
        readable("image.png", "not text"),
        readable("a.md", "---\nk: v\n---\nfirst letter"),
        readable("m.md", "---\nunclosed"),
    ];
    let collection = collect_files(Traversal::Entries(entries));
    assert_eq!(
        collection.files,
        Ok(vec![
            document("z.md", &[], "last letter"),
            document("a.md", &[("k", "v")], "first letter"),
            document("m.md", &[], "---\nunclosed"),
        ])
    );
    assert_eq!(collection.skipped, vec![]);
}

#[test]
fn unreadable_file_is_passed_over() {
    let entries = vec![unreadable("broken.md"), readable("fine.md", "text")];
    let collection = collect_files(Traversal::Entries(entries));
    assert_eq!(collection.files, Ok(vec![document("fine.md", &[], "text")]));
    assert_eq!(collection.skipped, vec![skipped("broken.md", SkipReason::Unreadable)]);
}

#[test]
fn file_with_bad_metadata_is_passed_over() {
    let entries = vec![
        readable("list.md", "---\n- a\n- b\n---\nBody"),
        readable("fine.md", "---\ntitle: Fine\n---\nBody"),
        readable("syntax.md", "---\na: [1\n---\nBody"),
        readable("nested.md", "---\ntags: [a, b]\n---\nBody"),
        readable("twice.md", "---\na: 1\na: 2\n---\nBody"),
    ];
    let collection = collect_files(Traversal::Entries(entries));
    assert_eq!(collection.files, Ok(vec![document("fine.md", &[("title", "Fine")], "Body")]));
    assert_eq!(
        collection.skipped,
        vec![
            skipped("list.md", SkipReason::Metadata(DecodeError::NotAMapping)),
            skipped("syntax.md", SkipReason::Metadata(DecodeError::Syntax)),
            skipped("nested.md", SkipReason::Metadata(DecodeError::NotScalar)),
            skipped("twice.md", SkipReason::Metadata(DecodeError::DuplicateKey)),
        ]
    );
}

#[test]
fn nothing_left_after_skipping() {
    let entries = vec![unreadable("a.md"), readable("b.md", "---\nscalar\n---\n")];
    let collection = collect_files(Traversal::Entries(entries));
    assert_eq!(collection.files, Err(LoadError::NoDocumentsFound));
    assert_eq!(
        collection.skipped,
        vec![
            skipped("a.md", SkipReason::Unreadable),
            skipped("b.md", SkipReason::Metadata(DecodeError::NotAMapping)),
        ]
    );
}

#[test]
fn file_that_does_not_qualify_is_left_out() {
    let entries = vec![unreadable("picture.png"), readable("doc.md", "text")];
    let collection = collect_files(Traversal::Entries(entries));
    assert_eq!(collection.files, Ok(vec![document("doc.md", &[], "text")]));
    assert_eq!(collection.skipped, vec![]);
}

#[test]
fn extension_is_what_follows_the_last_dot() {
    assert!(has_markdown_extension("a.md"));
    assert!(has_markdown_extension("notes.2024.md"));
    assert!(has_markdown_extension("..md"));
    assert!(has_markdown_extension("\u{e9}t\u{e9}.md"));
    assert!(has_markdown_extension(".hidden.md"));
    assert!(!has_markdown_extension(".md"));
    assert!(!has_markdown_extension("md"));
    assert!(!has_markdown_extension("amd"));
    assert!(!has_markdown_extension(""));
    assert!(!has_markdown_extension("a.MD"));
    assert!(!has_markdown_extension("a.md.txt"));
    assert!(!has_markdown_extension("a.mdx"));
    assert!(!has_markdown_extension("a.md "));
}
