//! Turning the files found under a root into documents: which files
//! qualify, how a header is decoded, and what becomes of a file that cannot
//! be used.

use crate::frontmatter::{
    chars_of, delimiter, delimiter_at, has_delimiter, header_of, lemma_header_of_assembled,
    split_header, DELIMITER_LEN,
};
use crate::yaml::{
    events_of, next_event, parser_over, pending, views_of, yaml_outcomes, Event, EventView,
};
use vstd::prelude::*;

verus! {

/// A document: a Markdown file taken apart into metadata and body.
#[derive(Debug, PartialEq, Eq)]
pub struct MarkdownFile {
    /// The base name of the file.
    pub name: String,
    /// The entries of the front-matter header, in the order of the file;
    /// empty where the file has no header.
    pub frontmatter: Vec<(String, String)>,
    /// The text of the file without its header.
    pub content: String,
}

/// What a `MarkdownFile` holds, as a mathematical value.
pub struct Document {
    pub name: Seq<char>,
    pub frontmatter: Pairs,
    pub content: Seq<char>,
}

impl DeepView for MarkdownFile {
    type V = Document;

    open spec fn deep_view(&self) -> Document {
        Document {
            name: self.name@,
            frontmatter: self.frontmatter.deep_view(),
            content: self.content@,
        }
    }
}

/// Why a front-matter block was not accepted.
#[derive(Clone, Copy, Debug, PartialEq, Eq, Structural)]
pub enum DecodeError {
    /// The block is not well-formed YAML.
    Syntax,
    /// The block holds something other than one document that is a mapping:
    /// a list or a scalar at the top level, or more than one document.
    NotAMapping,
    /// A key or a value of the mapping is not a scalar but a list, a
    /// mapping or an alias.
    NotScalar,
    /// Two entries of the mapping have keys with the same text.
    DuplicateKey,
}

/// Key-value pairs as mathematical values.
pub type Pairs = Seq<(Seq<char>, Seq<char>)>;

/// A stream without a document: it begins and ends, and nothing else.
pub open spec fn is_empty_stream(events: Seq<EventView>) -> bool {
    &&& events.len() == 2
    &&& events[0] is StreamStart
    &&& events[1] is StreamEnd
}

/// A stream of one document that is a mapping: the stream, the document and
/// the mapping begin, they end in the opposite order, and no other document
/// begins in between.
pub open spec fn is_mapping_document(events: Seq<EventView>) -> bool {
    let len = events.len();
    &&& len >= 6
    &&& events[0] is StreamStart
    &&& events[1] is DocumentStart
    &&& events[2] is MappingStart
    &&& events[len - 3] is MappingEnd
    &&& events[len - 2] is DocumentEnd
    &&& events[len - 1] is StreamEnd
    &&& forall|i: int| 3 <= i < len - 3 ==> !(events[i] is DocumentStart)
}

/// What stands between the beginning and the end of the mapping of a
/// stream of one document.
pub open spec fn inside_of(events: Seq<EventView>) -> Seq<EventView> {
    events.subrange(3, events.len() - 3)
}

/// Keys and values in turn, each of them a scalar.
pub open spec fn all_scalar(inside: Seq<EventView>) -> bool {
    &&& inside.len() % 2 == 0
    &&& forall|i: int| 0 <= i < inside.len() ==> inside[i] is Scalar
}

/// The texts of keys and values that stand in turn, pair by pair.
/// Meaningful only when `all_scalar(inside)`.
pub open spec fn texts_of(inside: Seq<EventView>) -> Pairs {
    Seq::new(
        inside.len() / 2,
        |i: int| (inside[2 * i]->Scalar_0, inside[2 * i + 1]->Scalar_0),
    )
}

/// No two of `pairs` have the same key.
pub open spec fn keys_distinct(pairs: Pairs) -> bool {
    forall|i: int, j: int| 0 <= i < j < pairs.len() ==> pairs[i].0 != pairs[j].0
}

/// The metadata that a stream of events stands for: nothing where the
/// stream holds no document; where it holds one document and that is a
/// mapping of scalars to scalars, the texts of its entries, provided that no
/// two keys have the same text.
pub open spec fn mapping_of(events: Seq<EventView>) -> Result<Pairs, DecodeError> {
    if is_empty_stream(events) {
        Ok(Seq::empty())
    } else if !is_mapping_document(events) {
        Err(DecodeError::NotAMapping)
    } else if !all_scalar(inside_of(events)) {
        Err(DecodeError::NotScalar)
    } else if !keys_distinct(texts_of(inside_of(events))) {
        Err(DecodeError::DuplicateKey)
    } else {
        Ok(texts_of(inside_of(events)))
    }
}

/// Whether `key` is the key of one of the first `upto` of `pairs`.
fn has_key(pairs: &Vec<(String, String)>, upto: usize, key: &String) -> (found: bool)
    requires
        upto <= pairs@.len(),
    ensures
        found == exists|i: int| 0 <= i < upto && pairs@[i].0@ == key@,
{
    let mut i: usize = 0;
    while i < upto
        invariant
            i <= upto <= pairs@.len(),
            forall|k: int| 0 <= k < i ==> pairs@[k].0@ != key@,
        decreases upto - i,
    {
        if pairs[i].0 == *key {
            return true;
        }
        i += 1;
    }
    false
}

/// Whether `events` are a stream of one document that is a mapping.
fn frames_mapping(events: &Vec<Event>) -> (framed: bool)
    ensures
        framed == is_mapping_document(views_of(events@)),
{
    let len = events.len();
    let ghost shown = views_of(events@);
    if len < 6 {
        return false;
    }
    let stream = matches!(events[0], Event::StreamStart) && matches!(
        events[len - 1],
        Event::StreamEnd
    );
    let document = matches!(events[1], Event::DocumentStart) && matches!(
        events[len - 2],
        Event::DocumentEnd
    );
    let mapping = matches!(events[2], Event::MappingStart(_)) && matches!(
        events[len - 3],
        Event::MappingEnd
    );
    assert(shown[0] == events@[0]@ && shown[len - 1] == events@[len - 1]@);
    assert(shown[1] == events@[1]@ && shown[len - 2] == events@[len - 2]@);
    assert(shown[2] == events@[2]@ && shown[len - 3] == events@[len - 3]@);
    if !(stream && document && mapping) {
        return false;
    }
    let mut i: usize = 3;
    while i < len - 3
        invariant
            len == events@.len(),
            len >= 6,
            shown == views_of(events@),
            3 <= i <= len - 3,
            forall|k: int| 3 <= k < i ==> !(shown[k] is DocumentStart),
        decreases len - i,
    {
        assert(shown[i as int] == events@[i as int]@);
        if matches!(events[i], Event::DocumentStart) {
            return false;
        }
        i += 1;
    }
    true
}

/// Reads the metadata out of a stream of events.
pub fn parse_yaml(frontmatter: Vec<Event>) -> (metadata: Result<Vec<(String, String)>, DecodeError>)
    ensures
        match metadata {
            Ok(pairs) => mapping_of(views_of(frontmatter@)) == Ok::<Pairs, DecodeError>(
                pairs.deep_view(),
            ),
            Err(error) => mapping_of(views_of(frontmatter@)) == Err::<Pairs, DecodeError>(error),
        },
{
    let mut pairs: Vec<(String, String)> = Vec::new();
    let len = frontmatter.len();
    let ghost shown = views_of(frontmatter@);
    if len == 2 {
        assert(shown[0] == frontmatter@[0]@ && shown[1] == frontmatter@[1]@);
        if matches!(frontmatter[0], Event::StreamStart) && matches!(
            frontmatter[1],
            Event::StreamEnd
        ) {
            assert(pairs.deep_view() =~= Seq::empty());
            return Ok(pairs);
        }
    }
    if !frames_mapping(&frontmatter) {
        return Err(DecodeError::NotAMapping);
    }
    let ghost inside = inside_of(shown);
    if (len - 6) % 2 != 0 {
        return Err(DecodeError::NotScalar);
    }
    let mut i: usize = 3;
    while i < len - 3
        invariant
            len == frontmatter@.len(),
            len >= 6,
            (len - 6) % 2 == 0,
            shown == views_of(frontmatter@),
            inside == inside_of(shown),
            !is_empty_stream(shown),
            is_mapping_document(shown),
            3 <= i <= len - 3,
            (i - 3) % 2 == 0,
            pairs@.len() == (i - 3) / 2,
            forall|k: int| 0 <= k < i - 3 ==> inside[k] is Scalar,
            forall|k: int|
                0 <= k < pairs@.len() ==> (#[trigger] pairs@[k]).0@ == inside[2 * k]->Scalar_0
                    && pairs@[k].1@ == inside[2 * k + 1]->Scalar_0,
        decreases len - i,
    {
        assert(inside[i - 3] == frontmatter@[i as int]@);
        assert(inside[i - 2] == frontmatter@[i + 1]@);
        match (&frontmatter[i], &frontmatter[i + 1]) {
            (Event::Scalar(key, _), Event::Scalar(value, _)) => {
                pairs.push((key.clone(), value.clone()));
            },
            _ => {
                assert(!all_scalar(inside));
                return Err(DecodeError::NotScalar);
            },
        }
        i += 2;
    }
    assert(all_scalar(inside));
    assert(pairs.deep_view() =~= texts_of(inside));
    let mut j: usize = 0;
    while j < pairs.len()
        invariant
            j <= pairs.len(),
            shown == views_of(frontmatter@),
            inside == inside_of(shown),
            !is_empty_stream(shown),
            is_mapping_document(shown),
            all_scalar(inside),
            pairs.deep_view() == texts_of(inside),
            forall|a: int, b: int| 0 <= a < b < j ==> pairs@[a].0@ != pairs@[b].0@,
        decreases pairs.len() - j,
    {
        if has_key(&pairs, j, &pairs[j].0) {
            let ghost a = choose|a: int| 0 <= a < j && pairs@[a].0@ == pairs@[j as int].0@;
            assert(pairs.deep_view()[a].0 == pairs@[a].0@);
            assert(pairs.deep_view()[j as int].0 == pairs@[j as int].0@);
            assert(!keys_distinct(texts_of(inside)));
            return Err(DecodeError::DuplicateKey);
        }
        j += 1;
    }
    assert(keys_distinct(texts_of(inside))) by {
        assert forall|a: int, b: int| 0 <= a < b < pairs.len() implies texts_of(inside)[a].0
            != texts_of(inside)[b].0 by {
            assert(pairs.deep_view()[a].0 == pairs@[a].0@);
            assert(pairs.deep_view()[b].0 == pairs@[b].0@);
        }
    }
    Ok(pairs)
}

/// The metadata that a front-matter block stands for: nothing for an empty
/// block, otherwise what the events stand for that the YAML parser reads
/// from it.
pub open spec fn metadata_of(block: Seq<char>) -> Result<Pairs, DecodeError> {
    if block.len() == 0 {
        Ok(Seq::empty())
    } else {
        match events_of(block) {
            None => Err(DecodeError::Syntax),
            Some(events) => mapping_of(events),
        }
    }
}

/// The metadata and the body of a text: of a text without a header, no
/// metadata and the whole text; of a text with a header, the metadata of its
/// block and what follows the closing delimiter line.
pub open spec fn frontmatter_of(text: Seq<char>) -> Result<(Pairs, Seq<char>), DecodeError> {
    match header_of(text) {
        None => Ok((Seq::empty(), text)),
        Some((block, body)) => match metadata_of(block) {
            Ok(metadata) => Ok((metadata, body)),
            Err(error) => Err(error),
        },
    }
}

/// A text that does not open with a delimiter line has no metadata, and all
/// of it is body.
pub proof fn lemma_no_opening_delimiter(text: Seq<char>)
    requires
        !delimiter_at(text, 0),
    ensures
        frontmatter_of(text) == Ok::<(Pairs, Seq<char>), DecodeError>((Seq::empty(), text)),
{
}

/// A text that opens with a delimiter line which no second delimiter line
/// closes has no metadata, and all of it is body, the opening line included.
pub proof fn lemma_no_closing_delimiter(text: Seq<char>)
    requires
        delimiter_at(text, 0),
        !has_delimiter(text.skip(DELIMITER_LEN as int)),
    ensures
        frontmatter_of(text) == Ok::<(Pairs, Seq<char>), DecodeError>((Seq::empty(), text)),
{
}

/// A text with nothing between its two delimiter lines has no metadata, and
/// its body is what follows the second line.
pub proof fn lemma_empty_block(body: Seq<char>)
    ensures
        frontmatter_of(delimiter() + delimiter() + body) == Ok::<(Pairs, Seq<char>), DecodeError>(
            (Seq::empty(), body),
        ),
{
    let block = Seq::<char>::empty();
    lemma_header_of_assembled(block, body);
    assert(delimiter() + block + delimiter() + body =~= delimiter() + delimiter() + body);
}

/// Round trip: an opening delimiter line, a block that stands for
/// `metadata`, a closing delimiter line and a body, put together and taken
/// apart again, give back `metadata` and the body. The block must not hold
/// the beginning of a delimiter line before its end, or that line would
/// close the header early.
pub proof fn lemma_round_trip(block: Seq<char>, metadata: Pairs, body: Seq<char>)
    requires
        metadata_of(block) == Ok::<Pairs, DecodeError>(metadata),
        forall|at: int| at < block.len() ==> !delimiter_at(block + delimiter(), at),
    ensures
        frontmatter_of(delimiter() + block + delimiter() + body) == Ok::<
            (Pairs, Seq<char>),
            DecodeError,
        >((metadata, body)),
{
    lemma_header_of_assembled(block, body);
}

/// Reads a front-matter block as a stream of events, from the event that
/// begins the stream to the one that ends it.
pub fn decode_events(block: &str) -> (decoded: Result<Vec<Event>, DecodeError>)
    ensures
        match decoded {
            Ok(events) => events_of(block@) == Some(views_of(events@)),
            Err(error) => error == DecodeError::Syntax && events_of(block@) is None,
        },
{
    let mut parser = parser_over(chars_of(block));
    let mut events: Vec<Event> = Vec::new();
    let ghost outcomes = yaml_outcomes(block@);
    assert(outcomes =~= Seq::new(0, |i: int| Some(events@[i]@)) + pending(parser));
    loop
        invariant
            outcomes == yaml_outcomes(block@),
            outcomes == Seq::new(events@.len(), |i: int| Some(events@[i]@)) + pending(parser),
            pending(parser).len() > 0,
        decreases pending(parser).len(),
    {
        let ghost before = pending(parser);
        match next_event(&mut parser) {
            Err(_) => {
                assert(outcomes[events@.len() as int] == before[0]);
                return Err(DecodeError::Syntax);
            },
            Ok(event) => {
                let last = matches!(event, Event::StreamEnd);
                let ghost read = events@;
                events.push(event);
                assert(outcomes =~= Seq::new(events@.len(), |i: int| Some(events@[i]@)) + pending(
                    parser,
                )) by {
                    assert(before =~= seq![before[0]] + before.drop_first());
                    assert(Seq::new(events@.len(), |i: int| Some(events@[i]@)) =~= Seq::new(
                        read.len(),
                        |i: int| Some(read[i]@),
                    ) + seq![before[0]]);
                }
                if last {
                    assert(outcomes =~= Seq::new(events@.len(), |i: int| Some(events@[i]@)));
                    assert(Seq::new(outcomes.len(), |i: int| outcomes[i]->Some_0) =~= views_of(
                        events@,
                    ));
                    return Ok(events);
                }
            },
        }
    }
}

/// Decodes a front-matter block into metadata.
pub fn decode_block(block: &str) -> (metadata: Result<Vec<(String, String)>, DecodeError>)
    ensures
        match metadata {
            Ok(pairs) => metadata_of(block@) == Ok::<Pairs, DecodeError>(pairs.deep_view()),
            Err(error) => metadata_of(block@) == Err::<Pairs, DecodeError>(error),
        },
{
    if block.is_empty() {
        let pairs: Vec<(String, String)> = Vec::new();
        assert(pairs.deep_view() =~= Seq::empty());
        return Ok(pairs);
    }
    match decode_events(block) {
        Err(error) => Err(error),
        Ok(events) => parse_yaml(events),
    }
}

/// Separates the metadata of a document from its body.
///
/// A text that does not open with a delimiter line, or whose opening line is
/// never closed, is all body. Otherwise the block between the two delimiter
/// lines is decoded; the call fails exactly when the block is not one
/// mapping of scalars to scalars with distinct keys.
pub fn parse_frontmatter(text: &str) -> (parsed: Result<
    (Vec<(String, String)>, String),
    DecodeError,
>)
    ensures
        match parsed {
            Ok((metadata, body)) => frontmatter_of(text@) == Ok::<(Pairs, Seq<char>), DecodeError>(
                (metadata.deep_view(), body@),
            ),
            Err(error) => frontmatter_of(text@) == Err::<(Pairs, Seq<char>), DecodeError>(error),
        },
{
    match split_header(text) {
        None => {
            let metadata: Vec<(String, String)> = Vec::new();
            assert(metadata.deep_view() =~= Seq::empty());
            Ok((metadata, text.to_owned()))
        },
        Some((block, body)) => match decode_block(block) {
            Ok(metadata) => Ok((metadata, body.to_owned())),
            Err(error) => Err(error),
        },
    }
}

/// A file that the traversal of the root came upon.
#[derive(Debug, PartialEq, Eq)]
pub struct Entry {
    /// The base name of the file.
    pub name: String,
    /// The content of the file; `None` where it was not read, or could not
    /// be read as text.
    pub text: Option<String>,
}

/// What the traversal of the root came upon.
#[derive(Debug, PartialEq, Eq)]
pub enum Traversal {
    /// The root does not exist.
    Missing,
    /// The root exists; these are the files under it, in discovery order.
    Entries(Vec<Entry>),
}

/// Why a qualifying file did not become a document.
#[derive(Clone, Copy, Debug, PartialEq, Eq, Structural)]
pub enum SkipReason {
    /// The file could not be read as text.
    Unreadable,
    /// The front-matter block of the file was not accepted.
    Metadata(DecodeError),
}

/// A qualifying file that did not become a document.
#[derive(Debug, PartialEq, Eq)]
pub struct Skipped {
    /// The base name of the file.
    pub name: String,
    /// Why it was passed over.
    pub reason: SkipReason,
}

impl DeepView for Skipped {
    type V = (Seq<char>, SkipReason);

    open spec fn deep_view(&self) -> (Seq<char>, SkipReason) {
        (self.name@, self.reason)
    }
}

/// Why loading produced no documents.
#[derive(Clone, Copy, Debug, PartialEq, Eq, Structural)]
pub enum LoadError {
    /// The root does not exist.
    PathNotFound,
    /// The root exists, but no file under it became a document.
    NoDocumentsFound,
}

/// The result of loading: the documents or the reason there are none, and
/// the qualifying files that were passed over on the way.
#[derive(Debug, PartialEq, Eq)]
pub struct Collection {
    /// The documents, in discovery order; never an empty list.
    pub files: Result<Vec<MarkdownFile>, LoadError>,
    /// The qualifying files that did not become documents, in discovery order.
    pub skipped: Vec<Skipped>,
}

/// A base name with the extension `md`: something, then `.md`.
pub open spec fn is_markdown_name(name: Seq<char>) -> bool {
    &&& name.len() >= 4
    &&& name[name.len() - 3] == '.'
    &&& name[name.len() - 2] == 'm'
    &&& name[name.len() - 1] == 'd'
}

/// The entry becomes a document: its name qualifies, its content was read
/// and its front matter is accepted.
pub open spec fn is_document(entry: Entry) -> bool {
    &&& is_markdown_name(entry.name@)
    &&& entry.text matches Some(text)
    &&& frontmatter_of(text@) is Ok
}

/// The entry qualifies by its name and still does not become a document.
pub open spec fn is_skipped(entry: Entry) -> bool {
    is_markdown_name(entry.name@) && !is_document(entry)
}

/// The document that an entry becomes. Meaningful only when `is_document(entry)`.
pub open spec fn document_of(entry: Entry) -> Document {
    let parsed = frontmatter_of(entry.text->0@)->Ok_0;
    Document { name: entry.name@, frontmatter: parsed.0, content: parsed.1 }
}

/// Why an entry is passed over. Meaningful only when `is_skipped(entry)`.
pub open spec fn skip_reason(entry: Entry) -> SkipReason {
    match entry.text {
        None => SkipReason::Unreadable,
        Some(text) => SkipReason::Metadata(frontmatter_of(text@)->Err_0),
    }
}

/// The documents that `entries` become, in the order of `entries`.
pub open spec fn documents_of(entries: Seq<Entry>) -> Seq<Document> {
    entries.filter(|entry: Entry| is_document(entry)).map_values(
        |entry: Entry| document_of(entry),
    )
}

/// The entries among `entries` that are passed over, each with the reason,
/// in the order of `entries`.
pub open spec fn skipped_of(entries: Seq<Entry>) -> Seq<(Seq<char>, SkipReason)> {
    entries.filter(|entry: Entry| is_skipped(entry)).map_values(
        |entry: Entry| (entry.name@, skip_reason(entry)),
    )
}

/// What one more entry adds to the documents and to the entries passed over.
pub proof fn lemma_collect_push(entries: Seq<Entry>, entry: Entry)
    ensures
        documents_of(entries.push(entry)) == if is_document(entry) {
            documents_of(entries).push(document_of(entry))
        } else {
            documents_of(entries)
        },
        skipped_of(entries.push(entry)) == if is_skipped(entry) {
            skipped_of(entries).push((entry.name@, skip_reason(entry)))
        } else {
            skipped_of(entries)
        },
{
    reveal(Seq::filter);
    let more = entries.push(entry);
    assert(more.drop_last() =~= entries);
    assert(more.last() == entry);
    assert(documents_of(more) =~= if is_document(entry) {
        documents_of(entries).push(document_of(entry))
    } else {
        documents_of(entries)
    });
    assert(skipped_of(more) =~= if is_skipped(entry) {
        skipped_of(entries).push((entry.name@, skip_reason(entry)))
    } else {
        skipped_of(entries)
    });
}

/// Whether `name` is a base name with the extension `md`.
pub fn has_markdown_extension(name: &str) -> (qualifies: bool)
    ensures
        qualifies == is_markdown_name(name@),
{
    let chars = chars_of(name);
    let len = chars.len();
    len >= 4 && chars[len - 3] == '.' && chars[len - 2] == 'm' && chars[len - 1] == 'd'
}

/// Turns what the traversal came upon into documents.
///
/// A missing root gives `PathNotFound`. Otherwise every entry whose name has
/// the extension `md` is taken in discovery order: it becomes a document
/// where its content was read and its front matter is accepted, and is
/// listed as skipped where not. No document at all gives `NoDocumentsFound`.
pub fn collect_files(traversal: Traversal) -> (collection: Collection)
    ensures
        match traversal {
            Traversal::Missing => {
                &&& collection.files == Err::<Vec<MarkdownFile>, LoadError>(LoadError::PathNotFound)
                &&& collection.skipped@.len() == 0
            },
            Traversal::Entries(entries) => {
                &&& collection.skipped.deep_view() == skipped_of(entries@)
                &&& match collection.files {
                    Ok(files) => files@.len() > 0 && files.deep_view() == documents_of(entries@),
                    Err(error) => error == LoadError::NoDocumentsFound && documents_of(
                        entries@,
                    ).len() == 0,
                }
            },
        },
{
    let mut skipped: Vec<Skipped> = Vec::new();
    let entries = match traversal {
        Traversal::Missing => {
            return Collection { files: Err(LoadError::PathNotFound), skipped };
        },
        Traversal::Entries(entries) => entries,
    };
    let mut files: Vec<MarkdownFile> = Vec::new();
    let mut i: usize = 0;
    proof {
        reveal(Seq::filter);
        assert(entries@.take(0) =~= Seq::empty());
        assert(files.deep_view() =~= documents_of(entries@.take(0)));
        assert(skipped.deep_view() =~= skipped_of(entries@.take(0)));
    }
    while i < entries.len()
        invariant
            i <= entries.len(),
            files.deep_view() == documents_of(entries@.take(i as int)),
            skipped.deep_view() == skipped_of(entries@.take(i as int)),
        decreases entries.len() - i,
    {
        let entry = &entries[i];
        let ghost files_before = files.deep_view();
        let ghost skipped_before = skipped.deep_view();
        proof {
            lemma_collect_push(entries@.take(i as int), *entry);
            assert(entries@.take(i as int).push(*entry) =~= entries@.take(i + 1));
        }
        if has_markdown_extension(entry.name.as_str()) {
            match &entry.text {
                None => {
                    let reason = SkipReason::Unreadable;
                    skipped.push(Skipped { name: entry.name.clone(), reason });
                    assert(skipped.deep_view() =~= skipped_before.push(
                        (entry.name@, skip_reason(*entry)),
                    ));
                },
                Some(text) => match parse_frontmatter(text.as_str()) {
                    Ok((frontmatter, content)) => {
                        files.push(MarkdownFile { name: entry.name.clone(), frontmatter, content });
                        assert(files.deep_view() =~= files_before.push(document_of(*entry)));
                    },
                    Err(error) => {
                        let reason = SkipReason::Metadata(error);
                        skipped.push(Skipped { name: entry.name.clone(), reason });
                        assert(skipped.deep_view() =~= skipped_before.push(
                            (entry.name@, skip_reason(*entry)),
                        ));
                    },
                },
            }
        }
        i += 1;
    }
    assert(entries@.take(i as int) =~= entries@);
    if files.len() == 0 {
        Collection { files: Err(LoadError::NoDocumentsFound), skipped }
    } else {
        Collection { files: Ok(files), skipped }
    }
}

} // verus!
