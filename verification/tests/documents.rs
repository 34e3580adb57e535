use ls_server::documents::{apply_content_changes, fold_changes, ContentChange, DocumentStore};
use ls_server::json;
use ls_server::lines::{byte_offset, position_at, text_lines};
use ls_server::params;
use ls_server::protocol::{Position, Range};

fn ranged(
    start_line: u32,
    start_char: u32,
    end_line: u32,
    end_char: u32,
    text: &str,
) -> ContentChange {
    ContentChange {
        range: Some(Range {
            start: Position {
                line: start_line,
                character: start_char,
            },
            end: Position {
                line: end_line,
                character: end_char,
            },
        }),
        text: text.to_string(),
    }
}

fn full(text: &str) -> ContentChange {
    ContentChange {
        range: None,
        text: text.to_string(),
    }
}

fn apply(base: &str, changes: &[ContentChange]) -> String {
    apply_content_changes(base, changes)
}

#[test]
fn inserts_at_start_middle_and_end() {
    assert_eq!(apply("hello", &[ranged(0, 0, 0, 0, "X")]), "Xhello");
    assert_eq!(apply("hello", &[ranged(0, 2, 0, 2, "X")]), "heXllo");
    assert_eq!(apply("hello", &[ranged(0, 5, 0, 5, "X")]), "helloX");
}

#[test]
fn deletes_at_start_middle_and_end() {
    assert_eq!(apply("hello", &[ranged(0, 0, 0, 1, "")]), "ello");
    assert_eq!(apply("hello", &[ranged(0, 2, 0, 3, "")]), "helo");
    assert_eq!(apply("hello", &[ranged(0, 4, 0, 5, "")]), "hell");
}

#[test]
fn replaces_at_start_middle_and_end() {
    assert_eq!(apply("hello", &[ranged(0, 0, 0, 2, "J")]), "Jllo");
    assert_eq!(apply("hello", &[ranged(0, 1, 0, 4, "ipp")]), "hippo");
    assert_eq!(apply("hello", &[ranged(0, 3, 0, 5, "p!")]), "help!");
}

#[test]
fn multi_line_ranges_delete_and_replace_across_lines() {
    let base = "one\ntwo\nthree\n";
    assert_eq!(apply(base, &[ranged(0, 1, 2, 3, "")]), "oee\n");
    assert_eq!(
        apply(base, &[ranged(0, 3, 2, 0, "!\nTWO\n")]),
        "one!\nTWO\nthree\n"
    );
    assert_eq!(apply(base, &[ranged(0, 3, 1, 0, "")]), "onetwo\nthree\n");
}

#[test]
fn later_events_in_a_batch_address_the_already_edited_text() {
    assert_eq!(
        apply("ab", &[ranged(0, 1, 0, 1, "X"), ranged(0, 1, 0, 2, "YZ")]),
        "aYZb"
    );
    assert_eq!(
        apply(
            "",
            &[
                ranged(0, 0, 0, 0, "a"),
                ranged(0, 1, 0, 1, "b"),
                ranged(0, 2, 0, 2, "c"),
            ]
        ),
        "abc"
    );
}

#[test]
fn a_batch_may_mix_a_rangeless_full_replace_with_ranged_events() {
    assert_eq!(
        apply(
            "junk",
            &[
                ranged(0, 0, 0, 4, "ignored"),
                full("line1\nline2\n"),
                ranged(1, 0, 1, 5, "LINE2"),
            ]
        ),
        "line1\nLINE2\n"
    );
    assert_eq!(apply("old", &[full("new")]), "new");
}

#[test]
fn edits_before_after_and_inside_astral_chars_count_utf16_units() {
    let base = "a\u{10400}b";
    assert_eq!(apply(base, &[ranged(0, 0, 0, 1, "")]), "\u{10400}b");
    assert_eq!(apply(base, &[ranged(0, 3, 0, 4, "")]), "a\u{10400}");
    assert_eq!(apply(base, &[ranged(0, 1, 0, 3, "")]), "ab");
    assert_eq!(apply(base, &[ranged(0, 3, 0, 3, "X")]), "a\u{10400}Xb");
    assert_eq!(apply("😀x", &[ranged(0, 0, 0, 2, "")]), "x");
    assert_eq!(apply("😀x", &[ranged(0, 2, 0, 3, "y")]), "😀y");
}

#[test]
fn a_mid_surrogate_position_clamps_down_to_the_char_boundary() {
    let base = "a\u{10400}b";
    assert_eq!(apply(base, &[ranged(0, 2, 0, 3, "")]), "ab");
    assert_eq!(apply(base, &[ranged(0, 2, 0, 2, "X")]), "aX\u{10400}b");
}

#[test]
fn crlf_documents_edit_and_clamp_before_the_terminator() {
    let base = "ab\r\ncd\r\n";
    assert_eq!(apply(base, &[ranged(1, 1, 1, 1, "X")]), "ab\r\ncXd\r\n");
    assert_eq!(apply(base, &[ranged(0, 10, 0, 10, "X")]), "abX\r\ncd\r\n");
    assert_eq!(apply(base, &[ranged(0, 2, 1, 0, "")]), "abcd\r\n");
}

#[test]
fn a_whole_document_range_deletes_to_empty() {
    assert_eq!(apply("whole\ndoc\n", &[ranged(0, 0, 2, 0, "")]), "");
    assert_eq!(apply("x", &[ranged(0, 0, 0, 1, "")]), "");
}

#[test]
fn out_of_bounds_lines_and_columns_clamp_to_document_and_line_end() {
    assert_eq!(apply("ab\n", &[ranged(5, 0, 9, 3, "X")]), "ab\nX");
    assert_eq!(apply("ab\n", &[ranged(0, 99, 0, 99, "X")]), "abX\n");
    assert_eq!(apply("ab", &[ranged(0, 1, 9, 9, "")]), "a");
    assert_eq!(apply("ab\n", &[ranged(1, 0, 1, 5, "X")]), "ab\nX");
}

#[test]
fn content_changes_parse_from_the_wire_shape() {
    let params = json::decode(
        br#"{ "contentChanges": [
            {
                "range": {
                    "start": { "line": 1, "character": 2 },
                    "end": { "line": 1, "character": 4 }
                },
                "rangeLength": 2,
                "text": "xy"
            },
            { "text": "whole document" }
        ] }"#,
    )
    .unwrap();
    assert_eq!(
        params::content_changes(&params),
        Some(vec![ranged(1, 2, 1, 4, "xy"), full("whole document")])
    );
}

#[test]
fn open_change_close_track_the_buffer() {
    let mut docs = DocumentStore::new();
    assert!(!docs.is_open("file:///a.scala"));
    docs.open("file:///a.scala", "one");
    assert!(docs.is_open("file:///a.scala"));
    assert_eq!(docs.text("file:///a.scala").as_deref(), Some("one"));
    docs.change("file:///a.scala", "two");
    assert_eq!(docs.text("file:///a.scala").as_deref(), Some("two"));
    docs.close("file:///a.scala");
    assert!(!docs.is_open("file:///a.scala"));
    assert_eq!(docs.text("file:///a.scala"), None);
}

#[test]
fn apply_changes_folds_ranged_events_and_tracks_the_version() {
    let mut docs = DocumentStore::new();
    docs.open_versioned("file:///a.scala", "val x = 1\n", 1);
    assert_eq!(docs.version("file:///a.scala"), Some(1));
    let text = docs
        .apply_changes("file:///a.scala", Some(2), &[ranged(0, 8, 0, 9, "2")])
        .unwrap();
    assert_eq!(text, "val x = 2\n");
    assert_eq!(docs.text("file:///a.scala").as_deref(), Some("val x = 2\n"));
    assert_eq!(docs.version("file:///a.scala"), Some(2));
}

#[test]
fn a_non_monotonic_version_is_applied_anyway() {
    let mut docs = DocumentStore::new();
    docs.open_versioned("file:///a.scala", "ab", 5);
    let text = docs
        .apply_changes("file:///a.scala", Some(3), &[ranged(0, 2, 0, 2, "c")])
        .unwrap();
    assert_eq!(text, "abc");
    assert_eq!(docs.version("file:///a.scala"), Some(3));
}

#[test]
fn a_ranged_change_for_a_never_opened_buffer_is_refused() {
    let mut docs = DocumentStore::new();
    assert_eq!(
        docs.apply_changes("file:///a.scala", Some(1), &[ranged(0, 0, 0, 0, "X")]),
        None
    );
    assert!(!docs.is_open("file:///a.scala"));
    assert_eq!(
        docs.apply_changes("file:///a.scala", Some(1), &[full("whole")])
            .as_deref(),
        Some("whole")
    );
    assert_eq!(docs.text("file:///a.scala").as_deref(), Some("whole"));
}

#[test]
fn open_uris_are_sorted() {
    let mut docs = DocumentStore::new();
    docs.open("file:///b.scala", "");
    docs.open("file:///a.scala", "");
    assert_eq!(
        docs.open_uris(),
        vec!["file:///a.scala".to_string(), "file:///b.scala".to_string()]
    );
}

#[test]
fn an_unopened_uri_is_never_dirty() {
    let docs = DocumentStore::new();
    assert!(!docs.is_dirty("file:///missing.scala", None));
    assert!(!docs.is_dirty("file:///missing.scala", Some("text")));
}

#[test]
fn buffer_matching_disk_is_clean_and_a_divergence_is_dirty() {
    let uri = "file:///a.scala";
    let disk = Some("object A");

    let mut docs = DocumentStore::new();
    docs.open(uri, "object A");
    assert!(!docs.is_dirty(uri, disk), "buffer equals disk => clean");

    docs.change(uri, "object B");
    assert!(docs.is_dirty(uri, disk), "buffer diverges from disk => dirty");
}

#[test]
fn typing_and_undoing_back_to_disk_reads_clean() {
    let uri = "file:///a.scala";
    let disk = Some("val x = 1\n");

    let mut docs = DocumentStore::new();
    docs.open(uri, "val x = 2\n");
    assert!(docs.is_dirty(uri, disk));
    docs.apply_changes(uri, Some(2), &[ranged(0, 8, 0, 9, "1")])
        .unwrap();
    assert!(!docs.is_dirty(uri, disk));
}

#[test]
fn a_buffer_whose_file_is_absent_is_dirty() {
    let uri = "file:///never-written.scala";
    let mut docs = DocumentStore::new();
    docs.open(uri, "content");
    assert!(docs.is_dirty(uri, None));
}

/// A position as an offset, counted in UTF-16 units alone.
fn oracle_offset(units: &[u16], line: u32, character: u32) -> usize {
    let mut current = 0u32;
    let mut line_start = 0usize;
    if line > 0 {
        for (i, &unit) in units.iter().enumerate() {
            if unit == u16::from(b'\n') {
                current += 1;
                if current == line {
                    line_start = i + 1;
                    break;
                }
            }
        }
        if current != line {
            return units.len();
        }
    }
    let content_end = match units[line_start..]
        .iter()
        .position(|&unit| unit == u16::from(b'\n'))
    {
        Some(rel) => {
            let mut end = line_start + rel;
            if end > line_start && units[end - 1] == u16::from(b'\r') {
                end -= 1;
            }
            end
        }
        None => units.len(),
    };
    let mut offset = line_start + (character as usize).min(content_end - line_start);
    if offset < units.len() && (0xDC00..0xE000).contains(&units[offset]) {
        offset -= 1;
    }
    offset
}

/// Applies the changes in UTF-16 units alone.
fn oracle_apply(base: &str, changes: &[ContentChange]) -> String {
    let mut units: Vec<u16> = base.encode_utf16().collect();
    for change in changes {
        match change.range {
            None => units = change.text.encode_utf16().collect(),
            Some(range) => {
                let start = oracle_offset(&units, range.start.line, range.start.character);
                let end = oracle_offset(&units, range.end.line, range.end.character);
                let (start, end) = if start <= end {
                    (start, end)
                } else {
                    (end, start)
                };
                let mut next = units[..start].to_vec();
                next.extend(change.text.encode_utf16());
                next.extend_from_slice(&units[end..]);
                units = next;
            }
        }
    }
    String::from_utf16(&units).expect("edits never split a surrogate pair")
}

/// A generator of a fixed series of numbers.
struct Numbers(u64);

impl Numbers {
    fn below(&mut self, n: u64) -> u64 {
        self.0 = self
            .0
            .wrapping_mul(6364136223846793005)
            .wrapping_add(1442695040888963407);
        (self.0 >> 33) % n
    }

    fn text(&mut self, max: u64) -> String {
        let chars = [
            'a', 'b', 'Z', '0', 'é', 'ß', '好', '\u{10400}', '😀', ' ', '\t', '\n', '\r',
        ];
        let n = self.below(max);
        (0..n)
            .map(|_| chars[self.below(chars.len() as u64) as usize])
            .collect()
    }

    fn change(&mut self) -> ContentChange {
        let range = if self.below(6) == 0 {
            None
        } else {
            let mut position = || Position {
                line: self.below(8) as u32,
                character: self.below(24) as u32,
            };
            Some(Range {
                start: position(),
                end: position(),
            })
        };
        ContentChange {
            range,
            text: self.text(12),
        }
    }
}

#[test]
fn random_edit_scripts_match_the_utf16_oracle() {
    let mut numbers = Numbers(1);
    for _ in 0..400 {
        let base = numbers.text(48);
        let n = numbers.below(8);
        let changes: Vec<ContentChange> = (0..n).map(|_| numbers.change()).collect();
        assert_eq!(
            apply_content_changes(&base, &changes),
            oracle_apply(&base, &changes),
            "{base:?} {changes:?}"
        );
    }
}

#[test]
fn an_edit_with_its_ends_exchanged_is_the_same_edit() {
    assert_eq!(
        apply("one\ntwo\n", &[ranged(1, 1, 0, 2, "-")]),
        apply("one\ntwo\n", &[ranged(0, 2, 1, 1, "-")])
    );
}

#[test]
fn changes_fold_in_parts_as_they_fold_at_once() {
    let all = [ranged(0, 1, 0, 1, "X"), full("new"), ranged(0, 0, 0, 1, "N")];
    let half = fold_changes("ab", &all[..1]).unwrap();
    assert_eq!(fold_changes(&half, &all[1..]), fold_changes("ab", &all));
    assert_eq!(apply("other", &all[1..]), apply("ab", &all));
}

#[test]
fn a_position_is_found_again_at_its_offset() {
    let source = "a\u{10400}b\né\n";
    for (offset, place) in [(0, (0, 0)), (1, (0, 1)), (5, (0, 3)), (7, (1, 0)), (9, (1, 1))] {
        assert_eq!(position_at(source, offset), place);
        assert_eq!(byte_offset(source, place.0, place.1), offset);
    }
}

#[test]
fn lines_end_at_line_feeds_with_or_without_a_carriage_return() {
    assert_eq!(text_lines("a\r\nb\n\nc"), vec!["a", "b", "", "c"]);
    assert_eq!(text_lines("a\n"), vec!["a"]);
    assert!(text_lines("").is_empty());
}

#[test]
fn an_edit_leaves_the_text_around_it_alone() {
    let edited = apply("one\ntwo\nthree\n", &[ranged(1, 0, 1, 3, "2")]);
    assert!(edited.starts_with("one\n"));
    assert!(edited.ends_with("\nthree\n"));
    assert_eq!(edited, "one\n2\nthree\n");
}

#[test]
fn an_edit_that_does_not_fit_is_told_from_one_that_does() {
    let mut docs = DocumentStore::new();
    docs.open("file:///a", "x");
    assert!(docs.fits("file:///a", &[ranged(0, 0, 0, 1, "y")]));
    assert!(docs.fits("file:///never", &[full("y")]));
}

#[test]
fn a_version_that_is_not_newer_is_warned_of() {
    let mut store = DocumentStore::new();
    store.open_versioned("file:///a", "x", 5);
    let warned = |version: i64| {
        Some(format!(
            "ls-server: didChange version {version} for file:///a is not newer than the stored 5; \
             applying the edits anyway"
        ))
    };
    assert_eq!(store.version_warning("file:///a", Some(5)), warned(5));
    assert_eq!(store.version_warning("file:///a", Some(-3)), warned(-3));
    assert_eq!(store.version_warning("file:///a", Some(6)), None);
    assert_eq!(store.version_warning("file:///a", None), None);
    assert_eq!(store.version_warning("file:///b", Some(1)), None);
    assert_eq!(store.apply_changes("file:///a", Some(5), &[full("y")]), Some("y".to_string()));
}
