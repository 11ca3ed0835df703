//! The browsing session: a cursor over the loaded documents, the keys that
//! move it, and the two panes that show it.

use crate::file_reader::{Document, MarkdownFile};
use vstd::prelude::*;
use vstd::string::StringExecFns;

verus! {

/// The cursor after `next`: on the first item when nothing was selected or
/// the last item was, otherwise one item further down.
pub open spec fn after_next(cursor: Option<usize>, len: nat) -> Option<usize> {
    match cursor {
        Some(i) => if i + 1 >= len {
            Some(0)
        } else {
            Some((i + 1) as usize)
        },
        None => Some(0),
    }
}

/// The cursor after `previous`: on the first item when nothing was selected,
/// on the last item when the first was, otherwise one item further up.
pub open spec fn after_previous(cursor: Option<usize>, len: nat) -> Option<usize> {
    match cursor {
        Some(i) => if i == 0 {
            Some((len - 1) as usize)
        } else {
            Some((i - 1) as usize)
        },
        None => Some(0),
    }
}

/// The cursor after `unselect`: off the list.
pub open spec fn after_unselect(cursor: Option<usize>) -> Option<usize> {
    None
}

/// A cursor over `len` items is either off or on one of them.
pub open spec fn cursor_in_range(cursor: Option<usize>, len: nat) -> bool {
    cursor matches Some(i) ==> i < len
}

/// A list of items, never empty, together with the position of the
/// highlighted one, if any.
pub struct StatefulList<T> {
    selected: Option<usize>,
    items: Vec<T>,
}

impl<T> StatefulList<T> {
    #[verifier::type_invariant]
    spec fn well_formed(self) -> bool {
        self.items@.len() > 0 && cursor_in_range(self.selected, self.items@.len())
    }

    /// The items, in the order in which they were given.
    pub closed spec fn items_view(self) -> Seq<T> {
        self.items@
    }

    /// The position of the highlighted item.
    pub closed spec fn cursor(self) -> Option<usize> {
        self.selected
    }

    /// A list over `items` with nothing selected.
    pub fn with_items(items: Vec<T>) -> (list: StatefulList<T>)
        requires
            items@.len() > 0,
        ensures
            list.items_view() == items@,
            list.cursor() is None,
    {
        StatefulList { selected: None, items }
    }

    /// Moves the cursor one item down; from the last item, and from no
    /// selection, to the first.
    pub fn next(&mut self)
        ensures
            final(self).items_view() == old(self).items_view(),
            final(self).cursor() == after_next(old(self).cursor(), old(self).items_view().len()),
    {
        proof {
            use_type_invariant(&*self);
        }
        let i: usize = match self.selected {
            Some(i) => if i >= self.items.len() - 1 {
                0
            } else {
                i + 1
            },
            None => 0,
        };
        self.selected = Some(i);
    }

    /// Moves the cursor one item up; from the first item to the last, and
    /// from no selection to the first.
    pub fn previous(&mut self)
        ensures
            final(self).items_view() == old(self).items_view(),
            final(self).cursor() == after_previous(
                old(self).cursor(),
                old(self).items_view().len(),
            ),
    {
        proof {
            use_type_invariant(&*self);
        }
        let i: usize = match self.selected {
            Some(i) => if i == 0 {
                self.items.len() - 1
            } else {
                i - 1
            },
            None => 0,
        };
        self.selected = Some(i);
    }

    /// Takes the cursor off the list.
    pub fn unselect(&mut self)
        ensures
            final(self).items_view() == old(self).items_view(),
            final(self).cursor() == after_unselect(old(self).cursor()),
    {
        proof {
            use_type_invariant(&*self);
        }
        self.selected = None;
    }

    /// The position of the highlighted item, which is always one of the list.
    pub fn selected(&self) -> (cursor: Option<usize>)
        ensures
            cursor == self.cursor(),
            cursor_in_range(cursor, self.items_view().len()),
    {
        proof {
            use_type_invariant(self);
        }
        self.selected
    }

    /// The items, in the order in which they were given; there is at least one.
    pub fn items(&self) -> (items: &Vec<T>)
        ensures
            items@ == self.items_view(),
            items@.len() > 0,
    {
        proof {
            use_type_invariant(self);
        }
        &self.items
    }
}

/// The cursor after `next`, `times` times over.
pub open spec fn after_nexts(cursor: Option<usize>, len: nat, times: nat) -> Option<usize>
    decreases times,
{
    if times == 0 {
        cursor
    } else {
        after_next(after_nexts(cursor, len, (times - 1) as nat), len)
    }
}

/// The cursor after `previous`, `times` times over.
pub open spec fn after_previouses(cursor: Option<usize>, len: nat, times: nat) -> Option<usize>
    decreases times,
{
    if times == 0 {
        cursor
    } else {
        after_previous(after_previouses(cursor, len, (times - 1) as nat), len)
    }
}

/// `next` and `previous` keep the cursor on the list, and put it there
/// where it was off.
pub proof fn lemma_moves_stay_in_range(cursor: Option<usize>, len: nat)
    requires
        0 < len <= usize::MAX,
        cursor_in_range(cursor, len),
    ensures
        after_next(cursor, len) is Some,
        after_previous(cursor, len) is Some,
        cursor_in_range(after_next(cursor, len), len),
        cursor_in_range(after_previous(cursor, len), len),
{
}

/// From item `from`, `times` steps down lead `times` items further, past
/// the last item on to the first.
pub proof fn lemma_nexts_from_item(from: usize, len: nat, times: nat)
    requires
        from < len <= usize::MAX,
        times <= len,
    ensures
        after_nexts(Some(from), len, times) == Some(
            if from + times < len {
                (from + times) as usize
            } else {
                (from + times - len) as usize
            },
        ),
    decreases times,
{
    if times > 0 {
        lemma_nexts_from_item(from, len, (times - 1) as nat);
    }
}

/// As many steps down as there are items lead around the list and back to
/// the item they started from.
pub proof fn lemma_nexts_come_round(from: usize, len: nat)
    requires
        from < len <= usize::MAX,
    ensures
        after_nexts(Some(from), len, len) == Some(from),
{
    lemma_nexts_from_item(from, len, len);
}

/// From no selection the first step down lands on the first item, each
/// further one on the item after, and the step after the last item on the
/// first item again.
pub proof fn lemma_nexts_from_unselected(len: nat, times: nat)
    requires
        0 < len <= usize::MAX,
        0 < times <= len + 1,
    ensures
        after_nexts(None, len, times) == Some(
            if times <= len {
                (times - 1) as usize
            } else {
                0usize
            },
        ),
    decreases times,
{
    if times > 1 {
        lemma_nexts_from_unselected(len, (times - 1) as nat);
    } else {
        reveal_with_fuel(after_nexts, 2);
    }
}

/// From no selection one step down lands on the first item, and as many
/// more as there are items lead once around the list and back to it.
pub proof fn lemma_nexts_return_to_first(len: nat)
    requires
        0 < len <= usize::MAX,
    ensures
        after_nexts(None, len, 1) == Some(0usize),
        after_nexts(None, len, len + 1) == Some(0usize),
{
    lemma_nexts_from_unselected(len, 1);
    lemma_nexts_from_unselected(len, len + 1);
}

/// From item `from`, `times` steps up lead `times` items back, past the
/// first item on to the last.
pub proof fn lemma_previouses_from_item(from: usize, len: nat, times: nat)
    requires
        from < len <= usize::MAX,
        times <= len,
    ensures
        after_previouses(Some(from), len, times) == Some(
            if times <= from {
                (from - times) as usize
            } else {
                (from + len - times) as usize
            },
        ),
    decreases times,
{
    if times > 0 {
        lemma_previouses_from_item(from, len, (times - 1) as nat);
    }
}

/// As many steps up as there are items lead around the list and back to the
/// item they started from.
pub proof fn lemma_previouses_come_round(from: usize, len: nat)
    requires
        from < len <= usize::MAX,
    ensures
        after_previouses(Some(from), len, len) == Some(from),
{
    lemma_previouses_from_item(from, len, len);
}

/// From no selection the first step up lands on the first item, the second
/// on the last, and as many more as there are items on the last again.
pub proof fn lemma_previouses_from_unselected(len: nat)
    requires
        0 < len <= usize::MAX,
    ensures
        after_previouses(None, len, 1) == Some(0usize),
        after_previouses(None, len, 2) == Some((len - 1) as usize),
        after_previouses(None, len, len + 2) == Some((len - 1) as usize),
{
    reveal_with_fuel(after_previouses, 3);
    let last = (len - 1) as usize;
    lemma_previouses_come_round(last, len);
    lemma_previouses_append(None, len, 2, len);
}

/// Steps up add up: `first + then` of them are `first`, then `then` more.
proof fn lemma_previouses_append(cursor: Option<usize>, len: nat, first: nat, then: nat)
    ensures
        after_previouses(cursor, len, first + then) == after_previouses(
            after_previouses(cursor, len, first),
            len,
            then,
        ),
    decreases then,
{
    if then > 0 {
        lemma_previouses_append(cursor, len, first, (then - 1) as nat);
    }
}

/// Taking the cursor off an item leaves nothing selected, and a step down
/// from there lands on the first item, whichever item it was.
pub proof fn lemma_unselect_then_next(from: usize, len: nat)
    ensures
        after_unselect(Some(from)) is None,
        after_next(after_unselect(Some(from)), len) == Some(0usize),
{
}

/// A key press, as far as the session tells keys apart.
#[derive(Clone, Copy, Debug, PartialEq, Eq, Structural)]
pub enum Key {
    /// A character key.
    Char(char),
    /// The left arrow.
    Left,
    /// The down arrow.
    Down,
    /// The up arrow.
    Up,
    /// Any other key.
    Other,
}

/// Whether the session goes on after a key press.
#[derive(Clone, Copy, Debug, PartialEq, Eq, Structural)]
pub enum Flow {
    /// The session goes on.
    Continue,
    /// The session has ended; nothing more is drawn or read.
    Stop,
}

/// The key that ends the session.
pub open spec fn is_quit(key: Key) -> bool {
    key == Key::Char('q')
}

/// The cursor after a key press: down is `next`, up is `previous`, left
/// takes the cursor off; every other key, the quit key too, leaves it.
pub open spec fn after_key(cursor: Option<usize>, len: nat, key: Key) -> Option<usize> {
    match key {
        Key::Down => after_next(cursor, len),
        Key::Up => after_previous(cursor, len),
        Key::Left => after_unselect(cursor),
        _ => cursor,
    }
}

/// The time between two forced redraws, in milliseconds.
pub const TICK_RATE_MILLIS: u64 = 250;

/// How long to wait for a key before the next redraw is due: what is left of
/// the tick, and nothing once the tick is over.
pub fn remaining_wait(tick_rate: u64, elapsed: u64) -> (wait: u64)
    ensures
        wait == if elapsed >= tick_rate {
            0
        } else {
            tick_rate - elapsed
        },
{
    if elapsed >= tick_rate {
        0
    } else {
        tick_rate - elapsed
    }
}

/// Whether the tick is over, so that the tick clock starts again.
pub fn tick_is_over(tick_rate: u64, elapsed: u64) -> (over: bool)
    ensures
        over == (elapsed >= tick_rate),
{
    elapsed >= tick_rate
}

/// The role that a piece of text plays in the detail pane.
#[derive(Clone, Copy, Debug, PartialEq, Eq, Structural)]
pub enum Role {
    /// The key of a metadata entry.
    Key,
    /// The value of a metadata entry.
    Value,
    /// The body of the document.
    Body,
    /// The message shown while nothing is selected.
    Placeholder,
}

/// A piece of text of the detail pane.
#[derive(Debug, PartialEq, Eq)]
pub struct Span {
    pub text: String,
    pub role: Role,
}

impl DeepView for Span {
    type V = (Seq<char>, Role);

    open spec fn deep_view(&self) -> (Seq<char>, Role) {
        (self.text@, self.role)
    }
}

/// A row of the list pane.
#[derive(Debug, PartialEq, Eq)]
pub struct Row {
    pub label: String,
    pub highlighted: bool,
}

impl DeepView for Row {
    type V = (Seq<char>, bool);

    open spec fn deep_view(&self) -> (Seq<char>, bool) {
        (self.label@, self.highlighted)
    }
}

/// What the two panes show.
#[derive(Debug, PartialEq, Eq)]
pub struct Panes {
    /// The list pane, row by row from the top.
    pub list: Vec<Row>,
    /// The detail pane: pieces of text that follow one another.
    pub detail: Vec<Span>,
}

/// The message of the detail pane while nothing is selected.
pub const PLACEHOLDER: &'static str = "No markdown file selected.";

/// What stands between a key and its value in the detail pane.
pub const KEY_SUFFIX: &'static str = ": ";

/// The rows of the list pane: one for each document, labelled with its
/// name, in the order of the documents; the row under the cursor is
/// highlighted and no other.
pub open spec fn rows_of(files: Seq<MarkdownFile>, cursor: Option<usize>) -> Seq<
    (Seq<char>, bool),
> {
    Seq::new(files.len(), |i: int| (files[i].name@, cursor == Some(i as usize)))
}

/// The metadata entries in the detail pane: for each entry the key with its
/// suffix, then the value, in the order of the entries.
pub open spec fn entry_spans(entries: Seq<(Seq<char>, Seq<char>)>) -> Seq<(Seq<char>, Role)>
    decreases entries.len(),
{
    if entries.len() == 0 {
        Seq::empty()
    } else {
        entry_spans(entries.drop_last()).push((entries.last().0 + KEY_SUFFIX@, Role::Key)).push(
            (entries.last().1, Role::Value),
        )
    }
}

/// The detail pane of a document: its metadata entries, then its body.
pub open spec fn detail_of(document: Document) -> Seq<(Seq<char>, Role)> {
    entry_spans(document.frontmatter).push((document.content, Role::Body))
}

/// The detail pane: the placeholder while nothing is selected, otherwise the
/// detail of the document under the cursor.
pub open spec fn detail_at(files: Seq<MarkdownFile>, cursor: Option<usize>) -> Seq<
    (Seq<char>, Role),
> {
    match cursor {
        None => seq![(PLACEHOLDER@, Role::Placeholder)],
        Some(i) => detail_of(files[i as int].deep_view()),
    }
}

/// A browsing session over the loaded documents.
pub struct App {
    pub items: StatefulList<MarkdownFile>,
}

impl App {
    /// A session over `items` with nothing selected.
    pub fn new(items: Vec<MarkdownFile>) -> (app: App)
        requires
            items@.len() > 0,
        ensures
            app.items.items_view() == items@,
            app.items.cursor() is None,
    {
        App { items: StatefulList::with_items(items) }
    }

    /// Reacts to a key press: moves the cursor as the key asks, and tells
    /// whether the session goes on. Only the quit key ends it.
    pub fn on_key(&mut self, key: Key) -> (flow: Flow)
        ensures
            final(self).items.items_view() == old(self).items.items_view(),
            final(self).items.cursor() == after_key(
                old(self).items.cursor(),
                old(self).items.items_view().len(),
                key,
            ),
            flow == if is_quit(key) {
                Flow::Stop
            } else {
                Flow::Continue
            },
    {
        match key {
            Key::Char(c) => {
                if c == 'q' {
                    return Flow::Stop;
                }
            },
            Key::Left => self.items.unselect(),
            Key::Down => self.items.next(),
            Key::Up => self.items.previous(),
            Key::Other => {},
        }
        Flow::Continue
    }
}

/// Lays out what the session shows: the list pane and the detail pane.
pub fn ui(app: &App) -> (panes: Panes)
    ensures
        panes.list.deep_view() == rows_of(app.items.items_view(), app.items.cursor()),
        panes.detail.deep_view() == detail_at(app.items.items_view(), app.items.cursor()),
{
    let files = app.items.items();
    let cursor = app.items.selected();
    let mut list: Vec<Row> = Vec::new();
    let mut i: usize = 0;
    while i < files.len()
        invariant
            i <= files.len(),
            list@.len() == i,
            forall|k: int|
                0 <= k < i ==> (#[trigger] list@[k]).deep_view() == (
                    files@[k].name@,
                    cursor == Some(k as usize),
                ),
        decreases files.len() - i,
    {
        let highlighted = match cursor {
            Some(at) => at == i,
            None => false,
        };
        list.push(Row { label: files[i].name.clone(), highlighted });
        i += 1;
    }
    assert(list.deep_view() =~= rows_of(files@, cursor));
    let mut detail: Vec<Span> = Vec::new();
    match cursor {
        None => {
            detail.push(Span { text: PLACEHOLDER.to_owned(), role: Role::Placeholder });
            assert(detail.deep_view() =~= detail_at(files@, cursor));
        },
        Some(at) => {
            let file = &files[at];
            let entries = &file.frontmatter;
            let ghost shown = entries.deep_view();
            assert(detail.deep_view() =~= entry_spans(shown.take(0)));
            let mut j: usize = 0;
            while j < entries.len()
                invariant
                    j <= entries.len(),
                    shown == entries.deep_view(),
                    detail.deep_view() == entry_spans(shown.take(j as int)),
                decreases entries.len() - j,
            {
                let ghost before = detail.deep_view();
                let entry = &entries[j];
                proof {
                    let upto = shown.take(j + 1);
                    assert(upto.drop_last() =~= shown.take(j as int));
                    assert(upto.last() == (entry.0@, entry.1@));
                }
                detail.push(Span { text: entry.0.clone().concat(KEY_SUFFIX), role: Role::Key });
                detail.push(Span { text: entry.1.clone(), role: Role::Value });
                assert(detail.deep_view() =~= before.push((entry.0@ + KEY_SUFFIX@, Role::Key)).push(
                    (entry.1@, Role::Value),
                ));
                j += 1;
            }
            assert(shown.take(j as int) =~= shown);
            let ghost before = detail.deep_view();
            detail.push(Span { text: file.content.clone(), role: Role::Body });
            assert(detail.deep_view() =~= before.push((file.content@, Role::Body)));
        },
    }
    Panes { list, detail }
}

} // verus!
