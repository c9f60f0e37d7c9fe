use snakegpt::corpus::{ContextError, CorpusError, SentenceRecord, SentenceStore};
use snakegpt::text::{
    chars_of, collapse_blank_lines_chars, join_with, split_sentences, string_of, trim_chars,
};

fn record(id: u64, document_id: u64, position: u32, text: &str) -> SentenceRecord {
    SentenceRecord { id, document_id, position, text: text.to_string() }
}

fn document(document_id: u64, first_id: u64, count: u32) -> SentenceStore {
    let mut store = SentenceStore::new();
    for p in 0..count {
        let r = record(first_id + p as u64, document_id, p, &format!("d{document_id}s{p}"));
        assert_eq!(store.insert(r), Ok(true));
    }
    store
}

fn sentences(document_id: u64, positions: std::ops::RangeInclusive<u32>) -> String {
    positions.map(|p| format!("d{document_id}s{p}")).collect::<Vec<_>>().join("\n")
}

#[test]
fn window_around_middle_hit() {
    let store = document(1, 100, 21);
    let context = store.assemble_context(&vec![110]).unwrap();
    assert_eq!(context, sentences(1, 7..=15));
    assert_eq!(context.lines().count(), 9);
}

#[test]
fn window_truncated_at_document_start() {
    let store = document(1, 100, 21);
    assert_eq!(store.assemble_context(&vec![101]).unwrap(), sentences(1, 0..=6));
    assert_eq!(store.assemble_context(&vec![100]).unwrap(), sentences(1, 0..=5));
}

#[test]
fn window_truncated_at_document_end() {
    let store = document(1, 100, 21);
    assert_eq!(store.assemble_context(&vec![119]).unwrap(), sentences(1, 16..=20));
}

#[test]
fn window_orders_by_position_and_keeps_to_its_document() {
    let mut store = SentenceStore::new();
    for (id, p) in [(5u64, 4u32), (1, 0), (3, 2), (2, 1), (4, 3)] {
        assert_eq!(store.insert(record(id, 7, p, &format!("s{p}"))), Ok(true));
    }
    assert_eq!(store.insert(record(9, 8, 1, "other")), Ok(true));
    assert_eq!(store.assemble_context(&vec![3]).unwrap(), "s0\ns1\ns2\ns3\ns4");
}

#[test]
fn passages_follow_hit_order_separated_by_blank_lines() {
    let mut store = document(1, 100, 3);
    for p in 0..2u32 {
        assert_eq!(store.insert(record(200 + p as u64, 2, p, &format!("d2s{p}"))), Ok(true));
    }
    let context = store.assemble_context(&vec![200, 101]).unwrap();
    assert_eq!(context, "d2s0\nd2s1\n\nd1s0\nd1s1\nd1s2");
}

#[test]
fn no_hits_give_an_empty_context() {
    let store = document(1, 100, 3);
    assert_eq!(store.assemble_context(&vec![]).unwrap(), "");
}

#[test]
fn unknown_hit_is_an_error() {
    let store = document(1, 100, 3);
    assert_eq!(
        store.assemble_context(&vec![101, 555, 777]),
        Err(ContextError::UnknownSentence { id: 555 })
    );
}

#[test]
fn passage_is_trimmed_and_blank_lines_collapsed() {
    let mut store = SentenceStore::new();
    assert_eq!(store.insert(record(1, 1, 0, "  first\n\n")), Ok(true));
    assert_eq!(store.insert(record(2, 1, 1, "second\n\n\nthird \t")), Ok(true));
    let context = store.assemble_context(&vec![1]).unwrap();
    assert_eq!(context, "first\nsecond\nthird");
}

#[test]
fn context_is_deterministic() {
    let a = document(1, 100, 21);
    let b = document(1, 100, 21);
    let hits = vec![110, 103, 118];
    assert_eq!(a.assemble_context(&hits), b.assemble_context(&hits));
    assert_eq!(a.assemble_context(&hits), a.assemble_context(&hits));
}

#[test]
fn duplicate_text_is_skipped() {
    let mut store = document(1, 100, 3);
    assert_eq!(store.insert(record(300, 4, 9, "d1s1")), Ok(false));
    assert_eq!(store.len(), 3);
}

#[test]
fn duplicate_id_is_refused() {
    let mut store = document(1, 100, 3);
    assert_eq!(store.insert(record(101, 4, 9, "new text")), Err(CorpusError::DuplicateId { id: 101 }));
    assert_eq!(store.len(), 3);
}

#[test]
fn trim_removes_unicode_white_space() {
    let chars = chars_of("\u{3000}\u{a0} mid dle\u{2028}\n");
    assert_eq!(string_of(&trim_chars(&chars)), "mid dle");
    assert_eq!(string_of(&trim_chars(&chars_of(" \t\n"))), "");
}

#[test]
fn collapse_leaves_one_line_break_of_each_run() {
    let c = |s: &str| string_of(&collapse_blank_lines_chars(&chars_of(s)));
    assert_eq!(c("a\n\nb"), "a\nb");
    assert_eq!(c("a\n\n\nb\n\n\n\nc"), "a\nb\nc");
    assert_eq!(c("\n\n\n"), "\n");
    assert_eq!(c("\n\n\n\n"), "\n");
    assert_eq!(c("\n"), "\n");
    assert_eq!(c("x\ny"), "x\ny");
    assert_eq!(c(""), "");
}

#[test]
fn join_with_separator() {
    let parts = vec!["a".to_string(), "".to_string(), "c".to_string()];
    assert_eq!(join_with(&parts, "--"), "a----c");
    assert_eq!(join_with(&vec![], "--"), "");
    assert_eq!(join_with(&vec!["only".to_string()], "--"), "only");
}

#[test]
fn split_sentences_matches_str_split() {
    for s in ["", "a", "a\n\nb", "\n\n", "\n\n\n", "a\n\n\nb", "x\n\n\n\ny\n", "é\n\nü"] {
        let expected: Vec<String> = s.split("\n\n").map(|p| p.to_string()).collect();
        assert_eq!(split_sentences(s), expected, "input {s:?}");
    }
}

#[test]
fn split_then_join_gives_the_text_back() {
    let s = "First.\n\nSecond\nline.\n\n\nThird.";
    assert_eq!(join_with(&split_sentences(s), "\n\n"), s);
}

#[test]
fn runs_of_line_breaks_inside_a_passage_become_one() {
    let mut store = SentenceStore::new();
    assert_eq!(store.insert(record(1, 1, 0, "a\n\n\nb")), Ok(true));
    assert_eq!(store.assemble_context(&vec![1]).unwrap(), "a\nb");
}

#[test]
fn context_splits_back_into_its_passages() {
    let mut store = SentenceStore::new();
    assert_eq!(store.insert(record(1, 1, 0, "one\n")), Ok(true));
    assert_eq!(store.insert(record(2, 1, 1, "\ntwo")), Ok(true));
    assert_eq!(store.insert(record(3, 2, 0, "three\n\n\n\nfour")), Ok(true));
    let context = store.assemble_context(&vec![1, 3]).unwrap();
    let passages: Vec<&str> = context.split("\n\n").collect();
    assert_eq!(passages, vec!["one\ntwo", "three\nfour"]);
}
