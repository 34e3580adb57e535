//! `textDocument/formatting` over the scalafmt command line: where the binary is
//! found, what a run of it means, and the smallest edits that turn a buffer into
//! its formatted text. The diff is the `dissimilar` crate's.

use vstd::prelude::*;
use vstd::string::*;

use crate::config;
use crate::convert;
use crate::convert::TextEdit;
use crate::documents;
use crate::documents::ContentChange;
use crate::lines;
use crate::logging;
use crate::numerals;
use crate::paths;
use crate::protocol::{Position, Range};
use crate::text;

verus! {

/// A piece of a diff: kept, deleted from the first text, or inserted from the
/// second.
#[derive(Debug, PartialEq, Eq)]
pub enum DiffChunk {
    Equal(String),
    Delete(String),
    Insert(String),
}

/// The model of a piece of a diff.
pub enum ChunkV {
    Equal(Seq<char>),
    Delete(Seq<char>),
    Insert(Seq<char>),
}

impl View for DiffChunk {
    type V = ChunkV;

    open spec fn view(&self) -> ChunkV {
        match self {
            DiffChunk::Equal(s) => ChunkV::Equal(s@),
            DiffChunk::Delete(s) => ChunkV::Delete(s@),
            DiffChunk::Insert(s) => ChunkV::Insert(s@),
        }
    }
}

/// The models of a list of pieces.
pub open spec fn chunk_views(chunks: Seq<DiffChunk>) -> Seq<ChunkV> {
    chunks.map_values(|c: DiffChunk| c@)
}

/// The text that a diff starts from: its kept and deleted pieces.
pub open spec fn source_of(chunks: Seq<ChunkV>) -> Seq<char>
    decreases chunks.len(),
{
    if chunks.len() == 0 {
        seq![]
    } else {
        (match chunks[0] {
            ChunkV::Equal(s) => s,
            ChunkV::Delete(s) => s,
            ChunkV::Insert(_) => seq![],
        }) + source_of(chunks.drop_first())
    }
}

/// The text that a diff leads to: its kept and inserted pieces.
pub open spec fn target_of(chunks: Seq<ChunkV>) -> Seq<char>
    decreases chunks.len(),
{
    if chunks.len() == 0 {
        seq![]
    } else {
        (match chunks[0] {
            ChunkV::Equal(s) => s,
            ChunkV::Delete(_) => seq![],
            ChunkV::Insert(s) => s,
        }) + target_of(chunks.drop_first())
    }
}

/// An edit in character indices: the text that replaces `start..end`.
pub struct IndexEdit {
    pub start: int,
    pub end: int,
    pub text: Seq<char>,
}

/// The edits of a diff whose first piece begins at index `pos`: a deletion with an
/// insertion behind it is one replacement, any other deletion or insertion an edit
/// of its own, and kept text is passed over.
pub open spec fn edits_from(chunks: Seq<ChunkV>, pos: int) -> Seq<IndexEdit>
    decreases chunks.len(),
{
    if chunks.len() == 0 {
        seq![]
    } else {
        match chunks[0] {
            ChunkV::Equal(s) => edits_from(chunks.drop_first(), pos + s.len()),
            ChunkV::Insert(s) => seq![IndexEdit { start: pos, end: pos, text: s }] + edits_from(
                chunks.drop_first(),
                pos,
            ),
            ChunkV::Delete(s) => {
                let end = pos + s.len();
                if chunks.len() > 1 && chunks[1] is Insert {
                    seq![IndexEdit { start: pos, end, text: chunks[1]->Insert_0 }] + edits_from(
                        chunks.skip(2),
                        end,
                    )
                } else {
                    seq![IndexEdit { start: pos, end, text: seq![] }] + edits_from(
                        chunks.drop_first(),
                        end,
                    )
                }
            },
        }
    }
}

/// The position of a character.
pub open spec fn position_of(s: Seq<char>, k: int) -> Position {
    Position { line: lines::line_of(s, k) as u32, character: lines::column_of(s, k) as u32 }
}

/// An edit, in positions of the text `s`.
pub open spec fn placed(s: Seq<char>, edit: IndexEdit) -> (Range, Seq<char>) {
    (Range { start: position_of(s, edit.start), end: position_of(s, edit.end) }, edit.text)
}

/// A list of edits, in positions of the text `s`.
pub open spec fn all_placed(s: Seq<char>, edits: Seq<IndexEdit>) -> Seq<(Range, Seq<char>)> {
    edits.map_values(|e: IndexEdit| placed(s, e))
}

/// The diff that `dissimilar::diff` makes of two texts.
pub uninterp spec fn diff_of(original: Seq<char>, formatted: Seq<char>) -> Seq<ChunkV>;

/// `dissimilar::diff`: the pieces of a diff of two texts. Which diff it is, is
/// named and not stated; that its kept and deleted pieces make up the first text,
/// its kept and inserted ones the second, and that equal texts are kept whole, is.
#[verifier::external_body]
fn diff(original: &str, formatted: &str) -> (chunks: Vec<DiffChunk>)
    ensures
        chunk_views(chunks@) == diff_of(original@, formatted@),
        source_of(chunk_views(chunks@)) == original@,
        target_of(chunk_views(chunks@)) == formatted@,
        original@ == formatted@ ==> forall|i: int|
            0 <= i < chunks@.len() ==> (#[trigger] chunks@[i]@) is Equal,
{
    dissimilar::diff(original, formatted)
        .into_iter()
        .map(
            |chunk| match chunk {
                dissimilar::Chunk::Equal(s) => DiffChunk::Equal(s.to_string()),
                dissimilar::Chunk::Delete(s) => DiffChunk::Delete(s.to_string()),
                dissimilar::Chunk::Insert(s) => DiffChunk::Insert(s.to_string()),
            },
        )
        .collect()
}

/// An edit of a text, from a byte range between characters.
fn edit_at(original: &str, start: usize, end: usize, new_text: &str) -> (edit: TextEdit)
    requires
        lines::indexable(original@),
        exists|k: int| #[trigger] text::byte_offset_of(original@, k, start as int),
        exists|k: int| #[trigger] text::byte_offset_of(original@, k, end as int),
    ensures
        forall|a: int, b: int| #[trigger]
            text::byte_offset_of(original@, a, start as int) && #[trigger] text::byte_offset_of(
                original@,
                b,
                end as int,
            ) ==> convert::edit_view(edit) == placed(
                original@,
                IndexEdit { start: a, end: b, text: new_text@ },
            ),
{
    let (start_line, start_column) = lines::position_at(original, start);
    let (end_line, end_column) = lines::position_at(original, end);
    TextEdit {
        range: Range {
            start: Position { line: start_line, character: start_column },
            end: Position { line: end_line, character: end_column },
        },
        new_text: new_text.to_owned(),
    }
}

/// The edits that a diff of the original text stands for.
pub fn edits_of_chunks(original: &str, chunks: &Vec<DiffChunk>) -> (edits: Vec<TextEdit>)
    requires
        lines::indexable(original@),
        source_of(chunk_views(chunks@)) == original@,
    ensures
        convert::edit_views(edits@) == all_placed(
            original@,
            edits_from(chunk_views(chunks@), 0),
        ),
{
    let ghost s = original@;
    let ghost all = chunk_views(chunks@);
    let ghost mut k: int = 0;
    let mut edits: Vec<TextEdit> = Vec::new();
    let mut pos: usize = 0;
    let mut i: usize = 0;
    proof {
        assert(all.skip(0) =~= all);
        assert(s.skip(0) =~= s);
        assert(s.take(0) =~= Seq::<char>::empty());
        assert(convert::edit_views(edits@) + all_placed(s, edits_from(all, 0)) =~= all_placed(
            s,
            edits_from(all, 0),
        ));
    }
    while i < chunks.len()
        invariant
            i <= chunks@.len(),
            s == original@,
            all == chunk_views(chunks@),
            lines::indexable(s),
            text::byte_offset_of(s, k, pos as int),
            source_of(all.skip(i as int)) == s.skip(k),
            convert::edit_views(edits@) + all_placed(s, edits_from(all.skip(i as int), k))
                == all_placed(s, edits_from(all, 0)),
        decreases chunks.len() - i,
    {
        let ghost rest = all.skip(i as int);
        let ghost tail = edits_from(rest, k);
        let ghost done = convert::edit_views(edits@);
        proof {
            assert(rest[0] == chunks@[i as int]@);
            assert(rest.drop_first() =~= all.skip(i + 1));
        }
        match &chunks[i] {
            DiffChunk::Equal(kept) => {
                proof {
                    lemma_advance(s, k, pos as int, kept@, source_of(all.skip(i + 1)));
                }
                pos += text::byte_len(kept.as_str());
                proof {
                    k = k + kept@.len();
                }
            },
            DiffChunk::Insert(inserted) => {
                let edit = edit_at(original, pos, pos, inserted.as_str());
                edits.push(edit);
                proof {
                    assert(source_of(rest) =~= source_of(all.skip(i + 1)));
                    let first = IndexEdit { start: k, end: k, text: inserted@ };
                    lemma_done(s, done, first, edits_from(all.skip(i + 1), k));
                    assert(convert::edit_views(edits@) =~= done.push(placed(s, first)));
                }
            },
            DiffChunk::Delete(deleted) => {
                proof {
                    lemma_advance(s, k, pos as int, deleted@, source_of(all.skip(i + 1)));
                }
                let stop = pos + text::byte_len(deleted.as_str());
                let ghost end = k + deleted@.len();
                let mut replaced = false;
                if i + 1 < chunks.len() {
                    match &chunks[i + 1] {
                        DiffChunk::Insert(inserted) => {
                            let edit = edit_at(original, pos, stop, inserted.as_str());
                            edits.push(edit);
                            proof {
                                assert(rest[1] == chunks@[i + 1]@);
                                assert(rest.skip(2) =~= all.skip(i + 2));
                                let next = all.skip(i + 1);
                                assert(next[0] == chunks@[i + 1]@);
                                assert(next.drop_first() =~= all.skip(i + 2));
                                assert(source_of(next) =~= source_of(all.skip(i + 2)));
                                let first = IndexEdit { start: k, end, text: inserted@ };
                                lemma_done(s, done, first, edits_from(all.skip(i + 2), end));
                                assert(convert::edit_views(edits@) =~= done.push(placed(s, first)));
                            }
                            replaced = true;
                        },
                        _ => {},
                    }
                }
                if replaced {
                    i += 1;
                } else {
                    let edit = edit_at(original, pos, stop, "");
                    edits.push(edit);
                    proof {
                        reveal_strlit("");
                        assert(""@ =~= Seq::<char>::empty());
                        if rest.len() > 1 {
                            assert(rest[1] == chunks@[i + 1]@);
                        }
                        let first = IndexEdit { start: k, end, text: seq![] };
                        lemma_done(s, done, first, edits_from(all.skip(i + 1), end));
                        assert(convert::edit_views(edits@) =~= done.push(placed(s, first)));
                    }
                }
                pos = stop;
                proof {
                    k = end;
                }
            },
        }
        i += 1;
    }
    proof {
        assert(all.skip(i as int) =~= Seq::<ChunkV>::empty());
        assert(convert::edit_views(edits@) + all_placed(s, Seq::<IndexEdit>::empty())
            =~= convert::edit_views(edits@));
    }
    edits
}

/// Passing over a piece of the text.
proof fn lemma_advance(s: Seq<char>, k: int, pos: int, piece: Seq<char>, rest: Seq<char>)
    requires
        text::byte_offset_of(s, k, pos),
        s.skip(k) == piece + rest,
        lines::indexable(s),
    ensures
        text::byte_offset_of(s, k + piece.len(), pos + text::utf8_len(piece)),
        s.skip(k + piece.len() as int) == rest,
        pos + text::utf8_len(piece) <= text::utf8_len(s) < u32::MAX,
{
    let end = k + piece.len() as int;
    assert(s =~= s.take(k) + s.skip(k));
    assert(s.take(end) =~= s.take(k) + piece);
    text::lemma_utf8_len_add(s.take(k), piece);
    assert(s.skip(end) =~= rest);
    text::lemma_utf8_len_take(s, end, s.len() as int);
    assert(s.take(s.len() as int) =~= s);
}

/// One edit moves from the edits that are left to those that are done.
proof fn lemma_done(
    s: Seq<char>,
    done: Seq<(Range, Seq<char>)>,
    first: IndexEdit,
    rest: Seq<IndexEdit>,
)
    ensures
        done + all_placed(s, seq![first] + rest) == done.push(placed(s, first)) + all_placed(
            s,
            rest,
        ),
{
    assert(all_placed(s, seq![first] + rest) =~= seq![placed(s, first)] + all_placed(s, rest));
    assert(done + (seq![placed(s, first)] + all_placed(s, rest)) =~= done.push(placed(s, first))
        + all_placed(s, rest));
}

/// The smallest edits that turn the original text into the formatted one, in
/// positions of the original.
pub fn minimal_edits(original: &str, formatted: &str) -> (edits: Vec<TextEdit>)
    requires
        lines::indexable(original@),
    ensures
        convert::edit_views(edits@) == all_placed(
            original@,
            edits_from(diff_of(original@, formatted@), 0),
        ),
        source_of(diff_of(original@, formatted@)) == original@,
        target_of(diff_of(original@, formatted@)) == formatted@,
        original@ == formatted@ ==> edits@.len() == 0,
{
    let chunks = diff(original, formatted);
    proof {
        let all = chunk_views(chunks@);
        if original@ == formatted@ {
            assert forall|i: int| 0 <= i < all.len() implies (#[trigger] all[i]) is Equal by {
                assert(all[i] == chunks@[i]@);
            }
            lemma_no_edits(all, 0);
        }
    }
    let edits = edits_of_chunks(original, &chunks);
    assert(convert::edit_views(edits@).len() == edits@.len());
    edits
}

/// A diff of kept pieces alone has no edits.
proof fn lemma_no_edits(chunks: Seq<ChunkV>, pos: int)
    requires
        forall|i: int| 0 <= i < chunks.len() ==> (#[trigger] chunks[i]) is Equal,
    ensures
        edits_from(chunks, pos) == Seq::<IndexEdit>::empty(),
    decreases chunks.len(),
{
    if chunks.len() > 0 {
        assert(chunks[0] is Equal);
        let rest = chunks.drop_first();
        assert forall|i: int| 0 <= i < rest.len() implies (#[trigger] rest[i]) is Equal by {
            assert(rest[i] == chunks[i + 1]);
        }
        lemma_no_edits(rest, pos + chunks[0]->Equal_0.len());
    }
}

/// The edits come in order, from `pos` on, and do not overlap.
pub open spec fn ascending(edits: Seq<IndexEdit>, pos: int) -> bool {
    &&& forall|i: int|
        0 <= i < edits.len() ==> pos <= (#[trigger] edits[i]).start <= edits[i].end
    &&& forall|i: int, j: int|
        0 <= i < j < edits.len() ==> (#[trigger] edits[i]).end <= (#[trigger] edits[j]).start
}

/// One edit in front of edits that come in order.
proof fn lemma_ascending_first(first: IndexEdit, rest: Seq<IndexEdit>, pos: int)
    requires
        pos <= first.start <= first.end,
        ascending(rest, first.end),
    ensures
        ascending(seq![first] + rest, pos),
{
    let all = seq![first] + rest;
    assert forall|i: int| 0 <= i < all.len() implies pos <= (#[trigger] all[i]).start
        <= all[i].end by {
        if i > 0 {
            assert(all[i] == rest[i - 1]);
        }
    }
    assert forall|i: int, j: int| 0 <= i < j < all.len() implies (#[trigger] all[i]).end <= (
    #[trigger] all[j]).start by {
        assert(all[j] == rest[j - 1]);
        if i > 0 {
            assert(all[i] == rest[i - 1]);
        }
    }
}

/// The edits of a diff come in order and do not overlap.
pub proof fn law_edits_ascend(chunks: Seq<ChunkV>, pos: int)
    ensures
        ascending(edits_from(chunks, pos), pos),
    decreases chunks.len(),
{
    if chunks.len() > 0 {
        let rest = chunks.drop_first();
        match chunks[0] {
            ChunkV::Equal(s) => {
                law_edits_ascend(rest, pos + s.len());
            },
            ChunkV::Insert(s) => {
                law_edits_ascend(rest, pos);
                let first = IndexEdit { start: pos, end: pos, text: s };
                lemma_ascending_first(first, edits_from(rest, pos), pos);
            },
            ChunkV::Delete(s) => {
                let end = pos + s.len();
                if chunks.len() > 1 && chunks[1] is Insert {
                    law_edits_ascend(chunks.skip(2), end);
                    let first = IndexEdit { start: pos, end, text: chunks[1]->Insert_0 };
                    lemma_ascending_first(first, edits_from(chunks.skip(2), end), pos);
                } else {
                    law_edits_ascend(rest, end);
                    let first = IndexEdit { start: pos, end, text: seq![] };
                    lemma_ascending_first(first, edits_from(rest, end), pos);
                }
            },
        }
    }
}

/// The text behind a list of edits of `s`, the last one applied first.
pub open spec fn rebuilt(s: Seq<char>, edits: Seq<IndexEdit>) -> Seq<char>
    decreases edits.len(),
{
    if edits.len() == 0 {
        s
    } else {
        let t = rebuilt(s, edits.drop_first());
        t.take(edits[0].start) + edits[0].text + t.skip(edits[0].end)
    }
}

/// The edits of a diff, applied from the last to the first, turn the text it
/// starts from into the text it leads to, and leave what precedes them alone.
pub proof fn law_edits_rebuild(s: Seq<char>, chunks: Seq<ChunkV>, pos: int)
    requires
        0 <= pos <= s.len(),
        s.skip(pos) == source_of(chunks),
    ensures
        rebuilt(s, edits_from(chunks, pos)) == s.take(pos) + target_of(chunks),
    decreases chunks.len(),
{
    if chunks.len() == 0 {
        assert(s.take(pos) + target_of(chunks) =~= s.take(pos) + s.skip(pos));
        assert(s =~= s.take(pos) + s.skip(pos));
    } else {
        let rest = chunks.drop_first();
        match chunks[0] {
            ChunkV::Equal(piece) => {
                let end = pos + piece.len() as int;
                assert(s.skip(end) =~= s.skip(pos).skip(piece.len() as int));
                assert(s.skip(pos).skip(piece.len() as int) =~= source_of(rest));
                law_edits_rebuild(s, rest, end);
                assert(s.take(end) =~= s.take(pos) + s.skip(pos).take(piece.len() as int));
                assert(s.skip(pos).take(piece.len() as int) =~= piece);
                assert(s.take(pos) + target_of(chunks) =~= s.take(end) + target_of(rest));
            },
            ChunkV::Insert(piece) => {
                assert(source_of(chunks) =~= source_of(rest));
                law_edits_rebuild(s, rest, pos);
                lemma_rebuilt_first(s, IndexEdit { start: pos, end: pos, text: piece }, rest, pos);
                assert(target_of(chunks) == piece + target_of(rest));
            },
            ChunkV::Delete(piece) => {
                let end = pos + piece.len() as int;
                assert(s.skip(end) =~= s.skip(pos).skip(piece.len() as int));
                assert(s.skip(pos).skip(piece.len() as int) =~= source_of(rest));
                if chunks.len() > 1 && chunks[1] is Insert {
                    let after = chunks.skip(2);
                    assert(rest.drop_first() =~= after);
                    assert(source_of(rest) =~= source_of(after));
                    law_edits_rebuild(s, after, end);
                    let text = chunks[1]->Insert_0;
                    lemma_rebuilt_first(s, IndexEdit { start: pos, end, text }, after, end);
                    assert(target_of(chunks) =~= text + target_of(after));
                } else {
                    law_edits_rebuild(s, rest, end);
                    lemma_rebuilt_first(s, IndexEdit { start: pos, end, text: seq![] }, rest, end);
                    assert(target_of(chunks) =~= target_of(rest));
                }
            },
        }
    }
}

/// One edit in front of rebuilt text.
proof fn lemma_rebuilt_first(s: Seq<char>, first: IndexEdit, rest: Seq<ChunkV>, pos: int)
    requires
        0 <= first.start <= first.end == pos <= s.len(),
        rebuilt(s, edits_from(rest, pos)) == s.take(pos) + target_of(rest),
    ensures
        rebuilt(s, seq![first] + edits_from(rest, pos)) == s.take(first.start) + (first.text
            + target_of(rest)),
{
    let edits = seq![first] + edits_from(rest, pos);
    assert(edits.drop_first() =~= edits_from(rest, pos));
    let t = s.take(pos) + target_of(rest);
    assert(t.take(first.start) =~= s.take(first.start));
    assert(t.skip(first.end) =~= target_of(rest));
    assert(rebuilt(s, edits) =~= s.take(first.start) + (first.text + target_of(rest)));
}

/// The text behind a list of edits as a client applies it: from the last to the
/// first, each as a ranged content change.
pub open spec fn applied(s: Seq<char>, edits: Seq<TextEdit>) -> Seq<char>
    decreases edits.len(),
{
    if edits.len() == 0 {
        s
    } else {
        documents::changed(
            applied(s, edits.drop_first()),
            ContentChange { range: Some(edits[0].range), text: edits[0].new_text },
        )
    }
}

/// An index between the `\r` and the `\n` of a line break. No position addresses
/// it.
pub open spec fn inside_break(s: Seq<char>, k: int) -> bool {
    0 < k < s.len() && s[k - 1] == '\r' && s[k] == '\n'
}

/// No edit begins or ends inside a line break, when it is its turn.
pub open spec fn clear_of_breaks(s: Seq<char>, edits: Seq<IndexEdit>) -> bool
    decreases edits.len(),
{
    if edits.len() == 0 {
        true
    } else {
        let t = rebuilt(s, edits.drop_first());
        &&& !inside_break(t, edits[0].start)
        &&& !inside_break(t, edits[0].end)
        &&& clear_of_breaks(s, edits.drop_first())
    }
}

/// A client that applies the edits of a diff to the text it starts from gets the
/// text it leads to, unless an edit begins or ends between the `\r` and the `\n` of
/// a line break.
pub proof fn law_edits_apply(s: Seq<char>, chunks: Seq<ChunkV>, pos: int, edits: Seq<TextEdit>)
    requires
        lines::indexable(s),
        0 <= pos <= s.len(),
        s.skip(pos) == source_of(chunks),
        convert::edit_views(edits) == all_placed(s, edits_from(chunks, pos)),
        clear_of_breaks(s, edits_from(chunks, pos)),
    ensures
        applied(s, edits) == s.take(pos) + target_of(chunks),
    decreases chunks.len(), 0nat,
{
    law_edits_rebuild(s, chunks, pos);
    let all = edits_from(chunks, pos);
    assert(edits.len() == all.len()) by {
        assert(convert::edit_views(edits).len() == edits.len());
        assert(all_placed(s, all).len() == all.len());
    }
    if chunks.len() > 0 {
        let rest = chunks.drop_first();
        match chunks[0] {
            ChunkV::Equal(piece) => {
                let end = pos + piece.len() as int;
                assert(s.skip(end) =~= s.skip(pos).skip(piece.len() as int));
                assert(s.skip(pos).skip(piece.len() as int) =~= source_of(rest));
                law_edits_apply(s, rest, end, edits);
                law_edits_rebuild(s, rest, end);
            },
            ChunkV::Insert(piece) => {
                assert(source_of(chunks) =~= source_of(rest));
                lemma_apply_first(
                    s,
                    IndexEdit { start: pos, end: pos, text: piece },
                    rest,
                    pos,
                    edits,
                );
            },
            ChunkV::Delete(piece) => {
                let end = pos + piece.len() as int;
                assert(s.skip(end) =~= s.skip(pos).skip(piece.len() as int));
                assert(s.skip(pos).skip(piece.len() as int) =~= source_of(rest));
                if chunks.len() > 1 && chunks[1] is Insert {
                    let after = chunks.skip(2);
                    assert(rest.drop_first() =~= after);
                    assert(source_of(rest) =~= source_of(after));
                    let text = chunks[1]->Insert_0;
                    lemma_apply_first(s, IndexEdit { start: pos, end, text }, after, end, edits);
                } else {
                    lemma_apply_first(
                        s,
                        IndexEdit { start: pos, end, text: seq![] },
                        rest,
                        end,
                        edits,
                    );
                }
            },
        }
    }
}

/// The first edit of a list, applied to the text behind the others.
proof fn lemma_apply_first(
    s: Seq<char>,
    first: IndexEdit,
    rest: Seq<ChunkV>,
    pos: int,
    edits: Seq<TextEdit>,
)
    requires
        lines::indexable(s),
        0 <= first.start <= first.end == pos <= s.len(),
        s.skip(pos) == source_of(rest),
        convert::edit_views(edits) == all_placed(s, seq![first] + edits_from(rest, pos)),
        clear_of_breaks(s, seq![first] + edits_from(rest, pos)),
    ensures
        applied(s, edits) == rebuilt(s, seq![first] + edits_from(rest, pos)),
    decreases rest.len(), 1nat,
{
    let tail = edits_from(rest, pos);
    let all = seq![first] + tail;
    assert(all.drop_first() =~= tail);
    assert(convert::edit_views(edits).len() == edits.len());
    assert(convert::edit_views(edits)[0] == all_placed(s, all)[0]);
    assert(convert::edit_views(edits.drop_first()) =~= all_placed(s, tail)) by {
        assert(convert::edit_views(edits.drop_first()) =~= convert::edit_views(
            edits,
        ).drop_first());
        assert(all_placed(s, all).drop_first() =~= all_placed(s, tail));
    }
    law_edits_apply(s, rest, pos, edits.drop_first());
    law_edits_rebuild(s, rest, pos);
    let t = s.take(pos) + target_of(rest);
    lemma_address(s, t, first.start);
    lemma_address(s, t, first.end);
    assert(edits[0].range == placed(s, first).0);
    assert(edits[0].new_text@ == first.text);
}

/// The position of a character addresses it in a text that begins the same.
proof fn lemma_address(s: Seq<char>, t: Seq<char>, k: int)
    requires
        lines::indexable(s),
        0 <= k <= s.len(),
        k <= t.len(),
        s.take(k) =~= t.take(k),
        !inside_break(t, k),
    ensures
        documents::index_at(t, position_of(s, k)) == k,
{
    lines::law_position_round_trip(s, t, k);
    lines::lemma_line_of(s, k);
    assert(s.take(s.len() as int) =~= s);
    lines::lemma_newlines_take(s, 0, s.len() as int);
    assert(s.take(0) =~= Seq::<char>::empty());
    text::lemma_len_bounds(s);
    let part = s.subrange(lines::line_start(s, lines::line_of(s, k)), k);
    text::lemma_len_bounds(part);
    assert(s =~= s.take(k - part.len()) + part + s.skip(k));
    text::lemma_utf8_len_add(s.take(k - part.len()) + part, s.skip(k));
    text::lemma_utf8_len_add(s.take(k - part.len()), part);
}

/// The number of lines of scalafmt's error output that an error carries.
pub const STDERR_TAIL_LINES: usize = 10;

/// The number of bytes of scalafmt's error output that an error carries.
pub const STDERR_TAIL_BYTES: usize = 2000;

/// A line of error output that tells something: not blank, no notice of the JVM
/// launcher, no stack frame, no download progress.
pub open spec fn telling(line: Seq<char>) -> bool {
    &&& text::trimmed(line).len() > 0
    &&& !text::has_prefix(line, "Picked up "@)
    &&& !text::has_prefix(text::trimmed_start(line), "at "@)
    &&& !text::has_prefix(line, "Downloading "@)
    &&& !text::has_prefix(line, "Downloaded "@)
}

/// The telling lines, without the white space at their ends.
pub open spec fn telling_lines(list: Seq<Seq<char>>) -> Seq<Seq<char>>
    decreases list.len(),
{
    if list.len() == 0 {
        seq![]
    } else {
        let line = text::trimmed_end(list.last());
        let before = telling_lines(list.drop_last());
        if telling(line) {
            before.push(line)
        } else {
            before
        }
    }
}

/// The longest end of a text that takes at most `bytes` bytes.
pub open spec fn end_within(s: Seq<char>, bytes: nat) -> Seq<char>
    decreases s.len(),
{
    if s.len() == 0 || text::utf8_len(s) <= bytes {
        s
    } else {
        end_within(s.drop_first(), bytes)
    }
}

/// The last elements of a list.
pub open spec fn last_of(list: Seq<Seq<char>>, count: nat) -> Seq<Seq<char>> {
    if list.len() <= count {
        list
    } else {
        list.skip(list.len() - count)
    }
}

/// What an error carries of scalafmt's error output.
pub open spec fn tail_of(stderr: Seq<char>) -> Seq<char> {
    let lines = telling_lines(lines::line_list(stderr));
    let tail = text::joined(last_of(lines, STDERR_TAIL_LINES as nat), "\n"@);
    if text::utf8_len(tail) > STDERR_TAIL_BYTES {
        "\u{2026}"@ + end_within(tail, STDERR_TAIL_BYTES as nat)
    } else if tail.len() == 0 {
        "(no stderr)"@
    } else {
        tail
    }
}

fn is_telling(line: &str) -> (r: bool)
    ensures
        r == telling(line@),
{
    text::chars_of(text::trim(line).as_str()).len() > 0 && !text::starts_with(line, "Picked up ")
        && !text::starts_with(text::trim_start(line).as_str(), "at ") && !text::starts_with(
        line,
        "Downloading ",
    ) && !text::starts_with(line, "Downloaded ")
}

/// The number of bytes of one character.
fn width_of(c: char) -> (width: usize)
    ensures
        width == text::utf8_width(c),
{
    let code = c as u32;
    if code < 0x80 {
        1
    } else if code < 0x800 {
        2
    } else if code < 0x10000 {
        3
    } else {
        4
    }
}

fn keep_end(s: &str, bytes: usize) -> (end: String)
    ensures
        end@ == end_within(s@, bytes as nat),
{
    let chars = text::chars_of(s);
    let mut left: usize = text::byte_len(s);
    let mut i: usize = 0;
    assert(s@.skip(0) =~= s@);
    while i < chars.len() && left > bytes
        invariant
            i <= chars.len(),
            chars@ == s@,
            left == text::utf8_len(s@.skip(i as int)),
            end_within(s@, bytes as nat) == end_within(s@.skip(i as int), bytes as nat),
        decreases chars.len() - i,
    {
        proof {
            text::lemma_utf8_len_first(s@.skip(i as int));
            assert(s@.skip(i as int).drop_first() =~= s@.skip(i + 1));
        }
        left -= width_of(chars[i]);
        i += 1;
    }
    let rest = vstd::slice::slice_subrange(chars.as_slice(), i, chars.len());
    assert(rest@ =~= s@.skip(i as int));
    text::string_of(rest)
}

/// What an error carries of scalafmt's error output: the last telling lines, cut
/// at the front to a number of bytes.
pub fn stderr_tail(stderr: &str) -> (tail: String)
    ensures
        tail@ == tail_of(stderr@),
{
    let list = lines::text_lines(stderr);
    let ghost all = lines::line_list(stderr@);
    let mut kept: Vec<String> = Vec::new();
    let mut i: usize = 0;
    assert(all.take(0) =~= seq![]);
    assert(text::texts(kept@) =~= seq![]);
    while i < list.len()
        invariant
            i <= list@.len(),
            all == text::texts(list@),
            text::texts(kept@) == telling_lines(all.take(i as int)),
        decreases list.len() - i,
    {
        let ghost before = text::texts(kept@);
        let line = text::trim_end(list[i].as_str());
        assert(all.take(i + 1).drop_last() =~= all.take(i as int));
        if is_telling(line.as_str()) {
            let ghost t = line@;
            kept.push(line);
            assert(text::texts(kept@) =~= before.push(t));
        }
        i += 1;
    }
    assert(all.take(i as int) =~= all);
    let from: usize = if kept.len() <= STDERR_TAIL_LINES {
        0
    } else {
        kept.len() - STDERR_TAIL_LINES
    };
    let last = vstd::slice::slice_subrange(kept.as_slice(), from, kept.len());
    assert(text::texts(last@) =~= last_of(text::texts(kept@), STDERR_TAIL_LINES as nat));
    let tail = text::join(last, "\n");
    if text::byte_len(tail.as_str()) > STDERR_TAIL_BYTES {
        let mut cut = "\u{2026}".to_owned();
        text::push_text(&mut cut, keep_end(tail.as_str(), STDERR_TAIL_BYTES).as_str());
        return cut;
    }
    if text::chars_of(tail.as_str()).len() == 0 {
        "(no stderr)".to_owned()
    } else {
        tail
    }
}

/// The places where the directories of `PATH` may hold scalafmt, in order. An empty
/// entry is none.
pub open spec fn candidates(dirs: Seq<Seq<char>>) -> Seq<Seq<char>>
    decreases dirs.len(),
{
    if dirs.len() == 0 {
        seq![]
    } else if dirs.last().len() == 0 {
        candidates(dirs.drop_last())
    } else {
        candidates(dirs.drop_last()).push(paths::joined_path(dirs.last(), "scalafmt"@))
    }
}

/// `found` is the first of `places` that the test accepts, if there is one.
pub open spec fn first_accepted<F: Fn(&str) -> bool>(
    test: F,
    places: Seq<Seq<char>>,
    found: Option<String>,
) -> bool {
    match found {
        Some(place) => exists|k: int|
            0 <= k < places.len() && #[trigger] places[k] == place@ && paths::says(
                test,
                places[k],
                true,
            ) && all_refused(test, places.take(k)),
        None => all_refused(test, places),
    }
}

/// The test refuses every place.
pub open spec fn all_refused<F: Fn(&str) -> bool>(test: F, places: Seq<Seq<char>>) -> bool {
    forall|k: int| 0 <= k < places.len() ==> paths::says(test, #[trigger] places[k], false)
}

proof fn lemma_candidates_prefix(dirs: Seq<Seq<char>>, n: int)
    requires
        0 <= n <= dirs.len(),
    ensures
        candidates(dirs.take(n)).len() <= candidates(dirs).len(),
        candidates(dirs).take(candidates(dirs.take(n)).len() as int) == candidates(dirs.take(n)),
    decreases dirs.len(),
{
    if n == dirs.len() {
        assert(dirs.take(n) =~= dirs);
        assert(candidates(dirs).take(candidates(dirs).len() as int) =~= candidates(dirs));
    } else {
        let shorter = dirs.drop_last();
        lemma_candidates_prefix(shorter, n);
        assert(shorter.take(n) =~= dirs.take(n));
        let len = candidates(dirs.take(n)).len() as int;
        assert(candidates(dirs).take(len) =~= candidates(shorter).take(len));
    }
}

/// The first scalafmt in the directories of `PATH` that the test finds executable.
pub fn scalafmt_on_path<F: Fn(&str) -> bool>(path: Option<&str>, is_executable: &F) -> (
    found: Option<String>)
    requires
        forall|place: &str| is_executable.requires((place,)),
    ensures
        match path {
            Some(path) => first_accepted(
                *is_executable,
                candidates(paths::pieces(path@, ':')),
                found,
            ),
            None => found is None,
        },
{
    let dirs = match path {
        Some(path) => paths::split(path, ':'),
        None => {
            return None;
        },
    };
    let ghost all = text::texts(dirs@);
    let ghost places = candidates(all);
    let mut i: usize = 0;
    assert(all.take(0) =~= seq![]);
    while i < dirs.len()
        invariant
            i <= dirs@.len(),
            all == text::texts(dirs@),
            path is Some && all == paths::pieces(path->0@, ':'),
            places == candidates(all),
            forall|place: &str| is_executable.requires((place,)),
            all_refused(*is_executable, candidates(all.take(i as int))),
        decreases dirs.len() - i,
    {
        let ghost before = candidates(all.take(i as int));
        assert(all.take(i + 1).drop_last() =~= all.take(i as int));
        assert(all.take(i + 1).last() == dirs@[i as int]@);
        if text::chars_of(dirs[i].as_str()).len() > 0 {
            let place = paths::join_path(dirs[i].as_str(), "scalafmt");
            let accepted = is_executable(place.as_str());
            assert(paths::says(*is_executable, place@, accepted));
            assert(candidates(all.take(i + 1)) == before.push(place@));
            if accepted {
                proof {
                    lemma_candidates_prefix(all, i + 1);
                    let k = before.len() as int;
                    assert(places.take(k + 1)[k] == place@);
                    assert(places[k] == place@);
                    assert(places.take(k) =~= places.take(k + 1).take(k));
                    assert(before.push(place@).take(k) =~= before);
                    assert(all_refused(*is_executable, places.take(k)));
                }
                return Some(place);
            }
        }
        i += 1;
    }
    assert(all.take(i as int) =~= all);
    None
}

/// `found` is the scalafmt that the settings name: the configuration before
/// `LS_SCALAFMT`, and that before `PATH`.
pub open spec fn is_scalafmt<F: Fn(&str) -> bool>(
    test: F,
    config: Option<Seq<char>>,
    ls_scalafmt: Option<Seq<char>>,
    path: Option<Seq<char>>,
    found: Option<String>,
) -> bool {
    match config::entry(config, "scalafmt"@) {
        Some(named) => found is Some && found->0@ == named,
        None => match ls_scalafmt {
            Some(named) => found is Some && found->0@ == named,
            None => match path {
                Some(path) => first_accepted(test, candidates(paths::pieces(path, ':')), found),
                None => found is None,
            },
        },
    }
}

/// The scalafmt that the settings name. `config` is the text of the configuration
/// file, if there is one.
pub fn resolve_scalafmt<F: Fn(&str) -> bool>(
    config: Option<&str>,
    ls_scalafmt: Option<&str>,
    path: Option<&str>,
    is_executable: &F,
) -> (found: Option<String>)
    requires
        forall|place: &str| is_executable.requires((place,)),
    ensures
        is_scalafmt(
            *is_executable,
            logging::optional_text(config),
            logging::optional_text(ls_scalafmt),
            logging::optional_text(path),
            found,
        ),
{
    match config::config_string(config, "scalafmt") {
        Some(named) => Some(named),
        None => match ls_scalafmt {
            Some(named) => Some(named.to_owned()),
            None => scalafmt_on_path(path, is_executable),
        },
    }
}

/// The configuration of scalafmt in the root of the workspace, if the test finds it.
pub fn scalafmt_conf<F: Fn(&str) -> bool>(workspace_root: &str, is_file: &F) -> (conf: Option<
    String,
>)
    requires
        forall|path: &str| is_file.requires((path,)),
    ensures
        ({
            let place = paths::joined_path(workspace_root@, ".scalafmt.conf"@);
            match conf {
                Some(conf) => conf@ == place && paths::says(*is_file, place, true),
                None => paths::says(*is_file, place, false),
            }
        }),
{
    let place = paths::join_path(workspace_root, ".scalafmt.conf");
    let found = is_file(place.as_str());
    assert(paths::says(*is_file, place@, found));
    if found {
        Some(place)
    } else {
        None
    }
}

/// The time scalafmt may take, in milliseconds.
pub const SCALAFMT_TIMEOUT: u64 = 10_000;

/// The time between two looks at scalafmt, in milliseconds.
pub const POLL_INTERVAL: u64 = 10;

/// The arguments of scalafmt: it reads the text from its standard input.
pub fn scalafmt_args(conf: &str) -> (args: Vec<String>)
    ensures
        text::texts(args@) == seq!["--stdin"@, "--config"@, conf@, "--non-interactive"@],
{
    let args = vec![
        "--stdin".to_owned(),
        "--config".to_owned(),
        conf.to_owned(),
        "--non-interactive".to_owned(),
    ];
    assert(text::texts(args@) =~= seq!["--stdin"@, "--config"@, conf@, "--non-interactive"@]);
    args
}

/// The environment of scalafmt: it must not download another version of itself.
pub fn scalafmt_environment() -> (variable: (String, String))
    ensures
        variable.0@ == "COURSIER_MODE"@,
        variable.1@ == "offline"@,
{
    ("COURSIER_MODE".to_owned(), "offline".to_owned())
}

/// The error where scalafmt does not start.
pub fn spawn_error(bin: &str, error: &str) -> (message: String)
    ensures
        message@ == "failed to spawn scalafmt ("@ + bin@ + "): "@ + error@,
{
    let mut message = "failed to spawn scalafmt (".to_owned();
    text::push_text(&mut message, bin);
    text::push_text(&mut message, "): ");
    text::push_text(&mut message, error);
    message
}

/// What a look at scalafmt showed.
#[derive(Debug, PartialEq, Eq)]
pub enum Polled {
    Exited,
    Running,
    Failed(String),
}

/// What is to be done after a look at scalafmt.
#[derive(Debug, PartialEq, Eq)]
pub enum RunStep {
    /// Its output is complete.
    Collect,
    /// It is to be looked at again, after `POLL_INTERVAL`.
    Wait,
    /// It is to be killed. The request fails with this error.
    Kill(String),
    /// The request fails with this error.
    Fail(String),
}

/// The decimals of thousandths, without the zeros at their end.
pub open spec fn decimals(thousandths: nat) -> Seq<char> {
    if thousandths == 0 {
        seq![]
    } else if thousandths % 100 == 0 {
        "."@ + numerals::decimal(thousandths / 100)
    } else if thousandths % 10 == 0 {
        "."@ + numerals::padded(thousandths / 10, 2)
    } else {
        "."@ + numerals::padded(thousandths, 3)
    }
}

/// How a number of milliseconds reads as a duration: in seconds where it is one or more.
pub open spec fn shown_duration(millis: nat) -> Seq<char> {
    if millis == 0 {
        "0ns"@
    } else if millis < 1000 {
        numerals::decimal(millis) + "ms"@
    } else {
        numerals::decimal(millis / 1000) + decimals(millis % 1000) + "s"@
    }
}

/// A number of milliseconds as a duration.
pub fn duration_text(millis: u64) -> (s: String)
    ensures
        s@ == shown_duration(millis as nat),
{
    if millis == 0 {
        return "0ns".to_owned();
    }
    if millis < 1000 {
        return text::with(numerals::numeral(millis), "ms");
    }
    let rest: u64 = millis % 1000;
    let decimals = if rest == 0 {
        String::new()
    } else if rest % 100 == 0 {
        text::with(".".to_owned(), numerals::numeral(rest / 100).as_str())
    } else if rest % 10 == 0 {
        text::with(".".to_owned(), numerals::padded_numeral(rest / 10, 2).as_str())
    } else {
        text::with(".".to_owned(), numerals::padded_numeral(rest, 3).as_str())
    };
    assert(decimals@ =~= self::decimals((millis % 1000) as nat));
    let s = text::with(numerals::numeral(millis / 1000), decimals.as_str());
    text::with(s, "s")
}

/// What is to be done after a look at scalafmt, `elapsed` milliseconds after its
/// start.
pub fn poll_step(polled: Polled, elapsed: u64, timeout: u64) -> (step: RunStep)
    ensures
        match polled {
            Polled::Exited => step is Collect,
            Polled::Running => if elapsed >= timeout {
                step matches RunStep::Kill(message) && message@ == "scalafmt timed out after "@
                    + shown_duration(timeout as nat) + " and was killed"@
            } else {
                step is Wait
            },
            Polled::Failed(error) => step matches RunStep::Fail(message) && message@
                == "failed to wait for scalafmt: "@ + error@,
        },
{
    match polled {
        Polled::Exited => RunStep::Collect,
        Polled::Running => {
            if elapsed < timeout {
                return RunStep::Wait;
            }
            let mut message = "scalafmt timed out after ".to_owned();
            text::push_text(&mut message, duration_text(timeout).as_str());
            text::push_text(&mut message, " and was killed");
            RunStep::Kill(message)
        },
        Polled::Failed(error) => {
            let mut message = "failed to wait for scalafmt: ".to_owned();
            text::push_text(&mut message, error.as_str());
            RunStep::Fail(message)
        },
    }
}

/// What a run of scalafmt gave. It prints the formatted text only where that differs
/// from the input, so no output means that the text is formatted already. `status` is
/// its exit status in words.
pub fn run_outcome(input: &str, success: bool, status: &str, stdout: &[u8], stderr: &[u8]) -> (
    outcome: Result<String, String>)
    ensures
        match outcome {
            Ok(formatted) => success && if stdout@.len() == 0 {
                formatted@ == input@
            } else {
                vstd::utf8::encode_utf8(formatted@) == stdout@
            },
            Err(message) => if success {
                &&& stdout@.len() > 0 && !vstd::utf8::valid_utf8(stdout@)
                &&& message@ == "scalafmt produced non-UTF-8 output"@
            } else {
                message@ == "scalafmt failed ("@ + status@ + "): "@ + tail_of(
                    text::lossy(stderr@),
                )
            },
        },
{
    if !success {
        let mut message = "scalafmt failed (".to_owned();
        text::push_text(&mut message, status);
        text::push_text(&mut message, "): ");
        let errors = text::lossy_text(stderr);
        text::push_text(&mut message, stderr_tail(errors.as_str()).as_str());
        return Err(message);
    }
    if stdout.len() == 0 {
        return Ok(input.to_owned());
    }
    match text::text_of(stdout) {
        Some(formatted) => Ok(formatted.to_owned()),
        None => Err("scalafmt produced non-UTF-8 output".to_owned()),
    }
}

/// The telling lines of two lists in a row are those of each, in order. A line is kept where it
/// is not blank, no notice of the launcher, no stack frame and no download progress, and then
/// without the white space at its end.
pub proof fn law_telling_lines(
    first: Seq<Seq<char>>,
    second: Seq<Seq<char>>,
    one: Seq<char>,
)
    ensures
        telling_lines(first + second) == telling_lines(first) + telling_lines(second),
        ({
            let line = text::trimmed_end(one);
            let kept = text::trimmed(line).len() > 0 && !text::has_prefix(line, "Picked up "@)
                && !text::has_prefix(text::trimmed_start(line), "at "@) && !text::has_prefix(
                line,
                "Downloading "@,
            ) && !text::has_prefix(line, "Downloaded "@);
            telling_lines(seq![one]) =~= (if kept {
                seq![line]
            } else {
                seq![]
            })
        }),
    decreases second.len(),
{
    reveal_with_fuel(telling_lines, 2);
    assert(seq![one].drop_last() =~= seq![]);
    if second.len() == 0 {
        assert(first + second =~= first);
        assert(telling_lines(first) + telling_lines(second) =~= telling_lines(first));
    } else {
        law_telling_lines(first, second.drop_last(), one);
        assert((first + second).drop_last() =~= first + second.drop_last());
        assert(telling_lines(first + second) =~= telling_lines(first) + telling_lines(second));
    }
}

/// The end of a text is the longest one that takes no more than so many bytes.
pub proof fn law_end_within(s: Seq<char>, bytes: nat)
    ensures
        end_within(s, bytes).len() <= s.len(),
        end_within(s, bytes) == s.skip(s.len() - end_within(s, bytes).len()),
        text::utf8_len(end_within(s, bytes)) <= bytes,
        end_within(s, bytes).len() < s.len() ==> text::utf8_len(
            s.skip(s.len() - end_within(s, bytes).len() - 1),
        ) > bytes,
    decreases s.len(),
{
    if s.len() == 0 || text::utf8_len(s) <= bytes {
        assert(s.skip(0) =~= s);
    } else {
        let rest = s.drop_first();
        law_end_within(rest, bytes);
        let end = end_within(s, bytes);
        assert(rest.skip(rest.len() - end.len()) =~= s.skip(s.len() - end.len()));
        if end.len() < rest.len() {
            assert(rest.skip(rest.len() - end.len() - 1) =~= s.skip(s.len() - end.len() - 1));
        } else {
            assert(s.skip(0) =~= s);
        }
    }
}

/// An error carries the last ten telling lines, in order, where they take no more than 2000
/// bytes, and else their end behind an ellipsis; and it says so where there are none.
pub proof fn law_tail_carried(stderr: Seq<char>)
    ensures
        ({
            let told = telling_lines(lines::line_list(stderr));
            let kept = if told.len() <= 10 {
                told
            } else {
                told.skip(told.len() - 10)
            };
            let whole = text::joined(kept, "\n"@);
            &&& whole.len() == 0 ==> tail_of(stderr) == "(no stderr)"@
            &&& whole.len() > 0 && text::utf8_len(whole) <= 2000 ==> tail_of(stderr) == whole
            &&& text::utf8_len(whole) > 2000 ==> tail_of(stderr) == "\u{2026}"@ + end_within(
                whole,
                2000,
            )
        }),
{
    let told = telling_lines(lines::line_list(stderr));
    let whole = text::joined(last_of(told, STDERR_TAIL_LINES as nat), "\n"@);
    text::lemma_len_bounds(whole);
}

/// The places of two lists of directories in a row are those of each, in order; a directory has
/// its scalafmt below it, and an empty entry has none.
pub proof fn law_places_in_parts(
    first: Seq<Seq<char>>,
    second: Seq<Seq<char>>,
    one: Seq<char>,
)
    ensures
        candidates(first + second) == candidates(first) + candidates(second),
        one.len() > 0 ==> candidates(seq![one]) =~= seq![paths::joined_path(one, "scalafmt"@)],
        candidates(seq![Seq::<char>::empty()]).len() == 0,
    decreases second.len(),
{
    reveal_with_fuel(candidates, 2);
    assert(seq![one].drop_last() =~= seq![]);
    assert(seq![Seq::<char>::empty()].drop_last() =~= seq![]);
    if second.len() == 0 {
        assert(first + second =~= first);
        assert(candidates(first) + candidates(second) =~= candidates(first));
    } else {
        law_places_in_parts(first, second.drop_last(), one);
        assert((first + second).drop_last() =~= first + second.drop_last());
        assert(candidates(first + second) =~= candidates(first) + candidates(second));
    }
}

/// A duration reads in milliseconds below a second, and else in seconds with as many decimals as
/// it needs.
pub proof fn law_duration_shown(seconds: nat, tenths: nat, hundredths: nat, thousandths: nat)
    requires
        seconds > 0,
        tenths < 10,
        hundredths < 10,
        thousandths < 10,
    ensures
        shown_duration(seconds * 1000) == numerals::decimal(seconds) + "s"@,
        tenths > 0 ==> shown_duration(seconds * 1000 + tenths * 100) == numerals::decimal(seconds)
            + ("."@ + numerals::decimal(tenths)) + "s"@,
        hundredths > 0 ==> shown_duration(seconds * 1000 + tenths * 100 + hundredths * 10)
            == numerals::decimal(seconds) + ("."@ + numerals::padded(
            tenths * 10 + hundredths,
            2,
        )) + "s"@,
        thousandths > 0 ==> shown_duration(
            seconds * 1000 + tenths * 100 + hundredths * 10 + thousandths,
        ) == numerals::decimal(seconds) + ("."@ + numerals::padded(
            tenths * 100 + hundredths * 10 + thousandths,
            3,
        )) + "s"@,
{
    assert(numerals::decimal(seconds) + Seq::<char>::empty() =~= numerals::decimal(seconds));
    let a = tenths * 100;
    let b = tenths * 100 + hundredths * 10;
    let c = tenths * 100 + hundredths * 10 + thousandths;
    assert((seconds * 1000) / 1000 == seconds && (seconds * 1000) % 1000 == 0);
    assert((seconds * 1000 + a) / 1000 == seconds && (seconds * 1000 + a) % 1000 == a);
    assert((seconds * 1000 + b) / 1000 == seconds && (seconds * 1000 + b) % 1000 == b);
    assert((seconds * 1000 + c) / 1000 == seconds && (seconds * 1000 + c) % 1000 == c);
    assert(a % 100 == 0 && a / 100 == tenths);
    assert(b % 10 == 0 && b / 10 == tenths * 10 + hundredths);
    assert(hundredths > 0 ==> b % 100 != 0);
    assert(thousandths > 0 ==> c % 10 != 0 && c % 100 != 0);
}

/// What the configuration names comes before `LS_SCALAFMT`, and that before `PATH`; of `PATH` it
/// is an executable below one of its directories, and nothing in front of it is one.
pub proof fn law_scalafmt_precedence<F: Fn(&str) -> bool>(
    test: F,
    config: Option<Seq<char>>,
    ls_scalafmt: Option<Seq<char>>,
    path: Option<Seq<char>>,
    found: Option<String>,
    named: Seq<char>,
)
    requires
        is_scalafmt(test, config, ls_scalafmt, path, found),
    ensures
        config::entry(config, "scalafmt"@) == Some(named) ==> found is Some && found->0@ == named,
        config::entry(config, "scalafmt"@) is None && ls_scalafmt == Some(named) ==> found is Some
            && found->0@ == named,
        config::entry(config, "scalafmt"@) is None && ls_scalafmt is None && path is None
            ==> found is None,
        config::entry(config, "scalafmt"@) is None && ls_scalafmt is None && found is Some
            ==> paths::says(test, found->0@, true) && (path matches Some(path) && exists|k: int|
            0 <= k < candidates(paths::pieces(path, ':')).len() && #[trigger] candidates(
                paths::pieces(path, ':'),
            )[k] == found->0@ && forall|j: int|
                0 <= j < k ==> paths::says(
                    test,
                    #[trigger] candidates(paths::pieces(path, ':'))[j],
                    false,
                )),
{
    if config::entry(config, "scalafmt"@) is None && ls_scalafmt is None && found is Some {
        let places = candidates(paths::pieces(path->0, ':'));
        let k = choose|k: int|
            0 <= k < places.len() && #[trigger] places[k] == found->0@ && paths::says(
                test,
                places[k],
                true,
            ) && all_refused(test, places.take(k));
        assert forall|j: int| 0 <= j < k implies paths::says(test, #[trigger] places[j], false) by {
            assert(places.take(k)[j] == places[j]);
        }
    }
}

} // verus!
