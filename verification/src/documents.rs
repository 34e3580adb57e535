//! The open-buffer store and the incremental text-sync fold. `didOpen` seeds a
//! buffer, `didChange` folds content changes onto its text, `didClose` drops it.
//! Everything downstream of the store stays full-text: the fold reduces a change
//! list to the whole edited document.
//!
//! Positions count UTF-16 code units. A line or a column out of range addresses
//! the end of the document or of the line, and a column inside a surrogate pair
//! the character itself.

use vstd::prelude::*;
use vstd::string::*;

use crate::lines;
use crate::numerals;
use crate::protocol::{Position, Range};
use crate::strmap::StrMap;
use crate::text;

verus! {

/// One event of a `textDocument/didChange` notification. Without a range it
/// replaces the whole document; a range addresses the text as the preceding
/// events of the list left it.
#[derive(Debug, PartialEq, Eq)]
pub struct ContentChange {
    pub range: Option<Range>,
    pub text: String,
}

/// The index of the character that a position addresses.
pub open spec fn index_at(s: Seq<char>, position: Position) -> int {
    lines::position_index(s, position.line as nat, position.character as nat)
}

/// The text behind one event. A reversed range counts as the range between its
/// two ends.
pub open spec fn changed(s: Seq<char>, change: ContentChange) -> Seq<char> {
    match change.range {
        None => change.text@,
        Some(range) => {
            let a = index_at(s, range.start);
            let b = index_at(s, range.end);
            if a <= b {
                s.take(a) + change.text@ + s.skip(b)
            } else {
                s.take(b) + change.text@ + s.skip(a)
            }
        },
    }
}

/// The text behind a list of events.
pub open spec fn changed_all(s: Seq<char>, changes: Seq<ContentChange>) -> Seq<char>
    decreases changes.len(),
{
    if changes.len() == 0 {
        s
    } else {
        changed(changed_all(s, changes.drop_last()), changes.last())
    }
}

/// Every text that a ranged event of the list addresses is short enough for
/// 32-bit offsets.
pub open spec fn foldable(s: Seq<char>, changes: Seq<ContentChange>) -> bool {
    forall|i: int|
        0 <= i < changes.len() && (#[trigger] changes[i]).range is Some ==> lines::indexable(
            changed_all(s, changes.take(i)),
        )
}

/// Some event of the list has a range.
pub open spec fn any_ranged(changes: Seq<ContentChange>) -> bool {
    exists|i: int| 0 <= i < changes.len() && (#[trigger] changes[i]).range is Some
}

/// Folding one list of events behind another is folding both lists at once.
pub proof fn law_fold_in_parts(s: Seq<char>, a: Seq<ContentChange>, b: Seq<ContentChange>)
    ensures
        changed_all(s, a + b) == changed_all(changed_all(s, a), b),
    decreases b.len(),
{
    if b.len() == 0 {
        assert(a + b =~= a);
    } else {
        assert((a + b).drop_last() =~= a + b.drop_last());
        law_fold_in_parts(s, a, b.drop_last());
    }
}

/// An event without a range makes everything before it irrelevant: the text
/// behind it depends on the event and on what follows alone.
pub proof fn law_full_replace_forgets(
    s: Seq<char>,
    t: Seq<char>,
    earlier: Seq<ContentChange>,
    full: ContentChange,
    later: Seq<ContentChange>,
)
    requires
        full.range is None,
    ensures
        changed_all(s, earlier.push(full) + later) == changed_all(t, seq![full] + later),
{
    law_fold_in_parts(s, earlier.push(full), later);
    law_fold_in_parts(t, seq![full], later);
    assert(earlier.push(full).last() == full);
    assert(seq![full].last() == full);
}

/// An addressed character lies within the text.
pub proof fn law_position_within(s: Seq<char>, position: Position)
    ensures
        0 <= index_at(s, position) <= s.len(),
{
    let line = position.line as nat;
    if line <= lines::newlines(s) {
        lines::lemma_line_start(s, line);
        lines::lemma_next_newline(s, lines::line_start(s, line));
        lines::lemma_chars_within(
            s.subrange(lines::line_start(s, line), lines::content_stop(s, line)),
            position.character as nat,
        );
    }
}

/// A ranged event leaves the text outside of the range as it was: what precedes
/// the range stays in front, what follows it stays behind.
pub proof fn law_edit_is_local(s: Seq<char>, change: ContentChange, range: Range)
    requires
        change.range == Some(range),
        index_at(s, range.start) <= index_at(s, range.end),
    ensures
        ({
            let a = index_at(s, range.start);
            let b = index_at(s, range.end);
            let t = changed(s, change);
            &&& t.take(a) == s.take(a)
            &&& t.skip(a + change.text@.len()) == s.skip(b)
            &&& t.subrange(a, a + change.text@.len() as int) == change.text@
        }),
{
    law_position_within(s, range.start);
    law_position_within(s, range.end);
    let a = index_at(s, range.start);
    let b = index_at(s, range.end);
    let t = changed(s, change);
    assert(t.take(a) =~= s.take(a));
    assert(t.skip(a + change.text@.len()) =~= s.skip(b));
    assert(t.subrange(a, a + change.text@.len() as int) =~= change.text@);
}

/// Applies one ranged event.
fn splice(base: &str, range: Range, replacement: &str) -> (edited: String)
    requires
        lines::indexable(base@),
    ensures
        edited@ == ({
            let a = index_at(base@, range.start);
            let b = index_at(base@, range.end);
            if a <= b {
                base@.take(a) + replacement@ + base@.skip(b)
            } else {
                base@.take(b) + replacement@ + base@.skip(a)
            }
        }),
{
    let start = lines::byte_offset(base, range.start.line, range.start.character);
    let end = lines::byte_offset(base, range.end.line, range.end.character);
    let ghost a = index_at(base@, range.start);
    let ghost b = index_at(base@, range.end);
    proof {
        assert(text::byte_offset_of(base@, a, start as int));
        assert(text::byte_offset_of(base@, b, end as int));
        if a < b {
            text::lemma_utf8_len_take(base@, a, b);
        } else if b < a {
            text::lemma_utf8_len_take(base@, b, a);
        }
    }
    let (low, high) = if start <= end {
        (start, end)
    } else {
        (end, start)
    };
    let mut edited = text::split_text(base, low).0.to_owned();
    edited.append(replacement);
    edited.append(text::split_text(base, high).1);
    edited
}

/// Folds a list of events onto a text, unless a ranged event would address a text
/// too long for 32-bit offsets.
pub fn fold_changes(base: &str, changes: &[ContentChange]) -> (folded: Option<String>)
    ensures
        folded is Some <==> foldable(base@, changes@),
        folded matches Some(t) ==> t@ == changed_all(base@, changes@),
{
    let mut current: String = base.to_owned();
    let mut i: usize = 0;
    assert(changes@.take(0) =~= Seq::<ContentChange>::empty());
    while i < changes.len()
        invariant
            i <= changes@.len(),
            current@ == changed_all(base@, changes@.take(i as int)),
            forall|j: int|
                0 <= j < i && (#[trigger] changes@[j]).range is Some ==> lines::indexable(
                    changed_all(base@, changes@.take(j)),
                ),
        decreases changes.len() - i,
    {
        let change = &changes[i];
        assert(changes@.take(i + 1).drop_last() =~= changes@.take(i as int));
        match change.range {
            None => {
                current = change.text.clone();
            },
            Some(range) => {
                if text::byte_len(current.as_str()) >= u32::MAX as usize {
                    assert(changes@[i as int].range is Some);
                    return None;
                }
                current = splice(current.as_str(), range, change.text.as_str());
            },
        }
        i += 1;
    }
    assert(changes@.take(i as int) =~= changes@);
    Some(current)
}

/// Folds the events of a `didChange` notification, in order, onto `base` and
/// returns the whole edited document.
pub fn apply_content_changes(base: &str, changes: &[ContentChange]) -> (edited: String)
    requires
        foldable(base@, changes@),
    ensures
        edited@ == changed_all(base@, changes@),
{
    fold_changes(base, changes).unwrap()
}

/// One open document: its text and the version the client last reported.
struct Buffer {
    text: String,
    version: i64,
}

/// The open documents by URI.
pub struct DocumentStore {
    buffers: StrMap<Buffer>,
}

impl View for DocumentStore {
    type V = Map<Seq<char>, (Seq<char>, i64)>;

    /// The text and the version of each open URI.
    closed spec fn view(&self) -> Map<Seq<char>, (Seq<char>, i64)> {
        self.buffers@.map_values(|b: Buffer| (b.text@, b.version))
    }
}

/// What the log is told of a version that is not newer than the one of an open document.
pub open spec fn stale_version(
    docs: Map<Seq<char>, (Seq<char>, i64)>,
    uri: Seq<char>,
    version: Option<int>,
) -> Option<Seq<char>> {
    if docs.contains_key(uri) && version is Some && version->0 <= docs[uri].1 {
        Some(
            "ls-server: didChange version "@ + numerals::decimal_int(version->0) + " for "@ + uri
                + " is not newer than the stored "@ + numerals::decimal_int(docs[uri].1 as int)
                + "; applying the edits anyway"@,
        )
    } else {
        None
    }
}

impl DocumentStore {
    /// A store without open documents.
    pub fn new() -> (store: DocumentStore)
        ensures
            store@ == Map::<Seq<char>, (Seq<char>, i64)>::empty(),
    {
        let store = DocumentStore { buffers: StrMap::new() };
        assert(store@ =~= Map::<Seq<char>, (Seq<char>, i64)>::empty());
        store
    }

    /// Opens a document with version 0.
    pub fn open(&mut self, uri: &str, text: &str)
        ensures
            final(self)@ == old(self)@.insert(uri@, (text@, 0i64)),
    {
        self.open_versioned(uri, text, 0);
    }

    /// Opens a document, in place of an open one with the same URI.
    pub fn open_versioned(&mut self, uri: &str, text: &str, version: i64)
        ensures
            final(self)@ == old(self)@.insert(uri@, (text@, version)),
    {
        self.buffers.insert(uri.to_owned(), Buffer { text: text.to_owned(), version });
        assert(self@ =~= old(self)@.insert(uri@, (text@, version)));
    }

    /// Replaces the text of a document and keeps its version; a document that is
    /// not open is opened with version 0.
    pub fn change(&mut self, uri: &str, text: &str)
        ensures
            final(self)@ == old(self)@.insert(
                uri@,
                (
                    text@,
                    if old(self)@.contains_key(uri@) {
                        old(self)@[uri@].1
                    } else {
                        0i64
                    },
                ),
            ),
    {
        let version: i64 = match self.buffers.get(uri) {
            Some(buffer) => buffer.version,
            None => 0,
        };
        self.open_versioned(uri, text, version);
    }

    /// Whether the fold of [`DocumentStore::apply_changes`] is within the limits
    /// of 32-bit offsets.
    pub fn fits(&self, uri: &str, changes: &[ContentChange]) -> (fits: bool)
        ensures
            fits == (self@.contains_key(uri@) ==> foldable(self@[uri@].0, changes@)),
    {
        match self.buffers.get(uri) {
            Some(buffer) => fold_changes(buffer.text.as_str(), changes).is_some(),
            None => true,
        }
    }

    /// What the log is told of a version that is not newer than the one of the document.
    /// The events that come with it are applied all the same.
    pub fn version_warning(&self, uri: &str, version: Option<i64>) -> (warning: Option<String>)
        ensures
            match warning {
                Some(message) => stale_version(
                    self@,
                    uri@,
                    match version {
                        Some(version) => Some(version as int),
                        None => None,
                    },
                ) == Some(message@),
                None => stale_version(
                    self@,
                    uri@,
                    match version {
                        Some(version) => Some(version as int),
                        None => None,
                    },
                ) is None,
            },
    {
        match (self.buffers.get(uri), version) {
            (Some(buffer), Some(version)) => if version <= buffer.version {
                let s = text::with(
                    "ls-server: didChange version ".to_owned(),
                    numerals::numeral_int(version).as_str(),
                );
                let s = text::with(text::with(s, " for "), uri);
                let s = text::with(s, " is not newer than the stored ");
                let s = text::with(s, numerals::numeral_int(buffer.version).as_str());
                Some(text::with(s, "; applying the edits anyway"))
            } else {
                None
            },
            _ => None,
        }
    }

    /// Applies the events of a `didChange` notification to a document and returns
    /// its new text. A version is stored whatever the one before it was. A list of
    /// events without ranges opens a document that is not open; a ranged event has
    /// nothing to address there, and the list is refused with `None`.
    pub fn apply_changes(
        &mut self,
        uri: &str,
        version: Option<i64>,
        changes: &[ContentChange],
    ) -> (edited: Option<String>)
        requires
            old(self)@.contains_key(uri@) ==> foldable(old(self)@[uri@].0, changes@),
        ensures
            edited is None <==> !old(self)@.contains_key(uri@) && any_ranged(changes@),
            edited is None ==> final(self)@ == old(self)@,
            edited matches Some(t) ==> ({
                let before = if old(self)@.contains_key(uri@) {
                    old(self)@[uri@]
                } else {
                    (Seq::<char>::empty(), 0i64)
                };
                let after = match version {
                    Some(version) => version,
                    None => before.1,
                };
                &&& t@ == changed_all(before.0, changes@)
                &&& final(self)@ == old(self)@.insert(uri@, (t@, after))
            }),
    {
        match self.buffers.get(uri) {
            Some(buffer) => {
                let after: i64 = match version {
                    Some(version) => version,
                    None => buffer.version,
                };
                let edited = apply_content_changes(buffer.text.as_str(), changes);
                self.open_versioned(uri, edited.as_str(), after);
                Some(edited)
            },
            None => {
                let mut i: usize = 0;
                while i < changes.len()
                    invariant
                        i <= changes@.len(),
                        forall|j: int| 0 <= j < i ==> (#[trigger] changes@[j]).range is None,
                        !old(self)@.contains_key(uri@),
                        self@ == old(self)@,
                    decreases changes.len() - i,
                {
                    if changes[i].range.is_some() {
                        assert(changes@[i as int].range is Some);
                        return None;
                    }
                    i += 1;
                }
                let edited = apply_content_changes("", changes);
                let after: i64 = match version {
                    Some(version) => version,
                    None => 0,
                };
                proof {
                    reveal_strlit("");
                    assert(""@ =~= Seq::<char>::empty());
                }
                self.open_versioned(uri, edited.as_str(), after);
                Some(edited)
            },
        }
    }

    /// Closes a document.
    pub fn close(&mut self, uri: &str)
        ensures
            final(self)@ == old(self)@.remove(uri@),
    {
        self.buffers.remove(uri);
        assert(self@ =~= old(self)@.remove(uri@));
    }

    /// The text of an open document.
    pub fn text(&self, uri: &str) -> (text: Option<String>)
        ensures
            text is Some <==> self@.contains_key(uri@),
            text matches Some(t) ==> t@ == self@[uri@].0,
    {
        match self.buffers.get(uri) {
            Some(buffer) => Some(buffer.text.clone()),
            None => None,
        }
    }

    /// The version of an open document.
    pub fn version(&self, uri: &str) -> (version: Option<i64>)
        ensures
            version == (if self@.contains_key(uri@) {
                Some(self@[uri@].1)
            } else {
                None
            }),
    {
        match self.buffers.get(uri) {
            Some(buffer) => Some(buffer.version),
            None => None,
        }
    }

    /// Whether a document is open.
    pub fn is_open(&self, uri: &str) -> (open: bool)
        ensures
            open == self@.contains_key(uri@),
    {
        self.buffers.contains(uri)
    }

    /// The open URIs, sorted.
    pub fn open_uris(&self) -> (uris: Vec<String>)
        ensures
            crate::order::strictly_sorted(text::texts(uris@)),
            text::texts(uris@).to_set() == self@.dom(),
    {
        assert(self@.dom() =~= self.buffers@.dom());
        self.buffers.sorted_keys()
    }

    /// Whether a document is open and its text is not the one of its file on disk.
    /// `disk` is that text, or `None` where there is no such file.
    pub fn is_dirty(&self, uri: &str, disk: Option<&str>) -> (dirty: bool)
        ensures
            dirty == (self@.contains_key(uri@) && !(disk is Some && disk->0@ == self@[uri@].0)),
    {
        match self.buffers.get(uri) {
            None => false,
            Some(buffer) => match disk {
                None => true,
                Some(saved) => !text::same_text(saved, buffer.text.as_str()),
            },
        }
    }
}

/// A reversed range counts as the range between its two ends: turning it round changes nothing.
pub proof fn law_reversed_range(s: Seq<char>, change: ContentChange, turned: ContentChange)
    requires
        change.range is Some,
        turned.range is Some,
        change.range->Some_0.start == turned.range->Some_0.end,
        change.range->Some_0.end == turned.range->Some_0.start,
        change.text@ == turned.text@,
    ensures
        changed(s, change) == changed(s, turned),
{
}

/// An event without a range leaves its own text and nothing else, and no event at all leaves the
/// text as it is.
pub proof fn law_whole_replace(s: Seq<char>, change: ContentChange)
    ensures
        change.range is None ==> changed(s, change) == change.text@,
        changed_all(s, Seq::<ContentChange>::empty()) == s,
        changed_all(s, seq![change]) == changed(s, change),
{
    reveal_with_fuel(changed_all, 2);
    assert(seq![change].drop_last() =~= Seq::<ContentChange>::empty());
}

/// The log is told of a change to an open document exactly where its version is not above the
/// one that is held, and then of the document and of both versions.
pub proof fn law_stale_change_told(
    docs: Map<Seq<char>, (Seq<char>, i64)>,
    uri: Seq<char>,
    version: int,
)
    ensures
        stale_version(docs, uri, None) is None,
        stale_version(docs, uri, Some(version)) is Some <==> docs.contains_key(uri) && docs[uri].1
            >= version,
        stale_version(docs, uri, Some(version)) matches Some(told) ==> text::occurs(uri, told)
            && text::occurs(numerals::decimal_int(version), told) && text::occurs(
            numerals::decimal_int(docs[uri].1 as int),
            told,
        ),
{
    if let Some(told) = stale_version(docs, uri, Some(version)) {
        let a = "ls-server: didChange version "@;
        let b = numerals::decimal_int(version);
        let c = " for "@;
        let d = " is not newer than the stored "@;
        let e = numerals::decimal_int(docs[uri].1 as int);
        let f = "; applying the edits anyway"@;
        text::lemma_occurs_within(a, b, c + uri + d + e + f);
        assert(told =~= a + b + (c + uri + d + e + f));
        text::lemma_occurs_within(a + b + c, uri, d + e + f);
        assert(told =~= (a + b + c) + uri + (d + e + f));
        text::lemma_occurs_within(a + b + c + uri + d, e, f);
        assert(told =~= (a + b + c + uri + d) + e + f);
    }
}

} // verus!
