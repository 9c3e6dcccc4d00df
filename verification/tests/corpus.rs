use lcc_lib::corpus::{CorpusScan, PasswordHashFile};

fn lines(texts: &[&str]) -> Vec<String> {
    texts.iter().map(|t| t.to_string()).collect()
}

const A: &str = "AAAAAAAAAAAAAAAA";
const B: &str = "BBBBBBBBBBBBBBBB";
const C: &str = "CCCCCCCCCCCCCCCC";
const KEY_A: u64 = 0xAAAAAAAAAAAAAAAA;
const KEY_B: u64 = 0xBBBBBBBBBBBBBBBB;
const KEY_C: u64 = 0xCCCCCCCCCCCCCCCC;

#[test]
fn neighbours_that_are_equal_count_once() {
    let file = PasswordHashFile::from_lines("corpus.txt".to_string(), &lines(&[A, A, B]));
    assert_eq!(file.length, 2);
    assert_eq!(file.file_name, "corpus.txt");
}

#[test]
fn equal_lines_apart_count_twice() {
    let file = PasswordHashFile::from_lines("c".to_string(), &lines(&[A, B, A, A, A, B, B]));
    assert_eq!(file.length, 4);
}

#[test]
fn empty_corpus_has_no_entries() {
    let file = PasswordHashFile::from_lines("c".to_string(), &Vec::new());
    assert_eq!(file.length, 0);
    let mut cursor = file.iter();
    assert_eq!(cursor.drain(&Vec::new()), Vec::<u64>::new());
    assert_eq!(cursor.len(), 0);
}

#[test]
fn length_counts_lines_not_fingerprints() {
    // Two lines with one fingerprint, and a malformed line: three entries,
    // of which a cursor hands out one.
    let corpus = lines(&["AAAAAAAAAAAAAAAA:1", "AAAAAAAAAAAAAAAA:2", "short"]);
    let file = PasswordHashFile::from_lines("c".to_string(), &corpus);
    assert_eq!(file.length, 3);
    let mut cursor = file.iter();
    assert_eq!(cursor.drain(&corpus), vec![KEY_A]);
    assert_eq!(cursor.len(), 3);
}

#[test]
fn scan_counts_as_lines_come() {
    let mut scan = CorpusScan::new();
    assert_eq!(scan.count(), 0);
    scan.feed(A.to_string());
    assert_eq!(scan.count(), 1);
    scan.feed(A.to_string());
    assert_eq!(scan.count(), 1);
    scan.feed(B.to_string());
    assert_eq!(scan.count(), 2);
    scan.feed(A.to_string());
    assert_eq!(scan.count(), 3);
    let file = scan.finish("path".to_string());
    assert_eq!(file.length, 3);
    assert_eq!(file.file_name, "path");
}

#[test]
fn cursor_hands_out_each_fingerprint_once() {
    let file = PasswordHashFile::from_lines("c".to_string(), &lines(&[A, A, B]));
    let mut cursor = file.iter();
    assert_eq!(cursor.feed(&A.to_string()), Some(KEY_A));
    assert_eq!(cursor.feed(&A.to_string()), None);
    assert_eq!(cursor.feed(&B.to_string()), Some(KEY_B));
    assert_eq!(cursor.position(), 2);
    assert!(!cursor.stopped());
}

#[test]
fn length_stays_while_cursor_moves() {
    let corpus = lines(&[A, B, C]);
    let file = PasswordHashFile::from_lines("c".to_string(), &corpus);
    let mut cursor = file.iter();
    assert_eq!(cursor.len(), 3);
    cursor.feed(&corpus[0]);
    assert_eq!(cursor.len(), 3);
    cursor.feed(&corpus[1]);
    cursor.feed(&corpus[2]);
    assert_eq!(cursor.len(), 3);
    assert_eq!(file.length, 3);
    assert_eq!(cursor.file_name(), "c");
}

#[test]
fn malformed_line_ends_the_stream() {
    let corpus = lines(&[A, "not a hash", B, C]);
    let file = PasswordHashFile::from_lines("c".to_string(), &corpus);
    let mut cursor = file.iter();
    assert_eq!(cursor.feed(&corpus[0]), Some(KEY_A));
    assert!(!cursor.stopped());
    assert_eq!(cursor.feed(&corpus[1]), None);
    assert!(cursor.stopped());
    assert_eq!(cursor.feed(&corpus[2]), None);
    assert_eq!(cursor.feed(&corpus[3]), None);
    assert!(cursor.stopped());
    assert_eq!(cursor.position(), 1);
    let mut again = file.iter();
    assert_eq!(again.drain(&corpus), vec![KEY_A]);
}

#[test]
fn trailing_text_does_not_tell_fingerprints_apart() {
    let corpus = lines(&["AAAAAAAAAAAAAAAA0000:3", "AAAAAAAAAAAAAAAA1111:7", "BBBBBBBBBBBBBBBB2222:1"]);
    let file = PasswordHashFile::from_lines("c".to_string(), &corpus);
    let mut cursor = file.iter();
    assert_eq!(cursor.drain(&corpus), vec![KEY_A, KEY_B]);
}

#[test]
fn resumed_cursor_yields_the_tail() {
    let corpus = lines(&[A, A, B, B, B, C, A, A, C]);
    let file = PasswordHashFile::from_lines("c".to_string(), &corpus);
    let mut fresh = file.iter();
    let all = fresh.drain(&corpus);
    assert_eq!(all, vec![KEY_A, KEY_B, KEY_C, KEY_A, KEY_C]);
    for k in 0..=all.len() {
        let mut resumed = file.resume(k);
        assert_eq!(resumed.drain(&corpus), all[k..].to_vec(), "resumed at {}", k);
    }
    let mut beyond = file.resume(all.len() + 3);
    assert_eq!(beyond.drain(&corpus), Vec::<u64>::new());
}

#[test]
fn cursor_resumes_where_it_stands() {
    let corpus = lines(&[A, A, B, B, C, C, A]);
    let file = PasswordHashFile::from_lines("c".to_string(), &corpus);
    let mut fresh = file.iter();
    let all = fresh.drain(&corpus);
    for fed in 0..=corpus.len() {
        let mut first = file.iter();
        let head = first.drain(&corpus[..fed].to_vec());
        assert_eq!(first.position(), head.len());
        let mut second = first.resume();
        let tail = second.drain(&corpus);
        let mut joined = head.clone();
        joined.extend(tail);
        assert_eq!(joined, all, "after {} lines", fed);
    }
}

#[test]
fn resumed_cursor_resumes_from_the_sum() {
    let corpus = lines(&[A, B, C, A, B, C]);
    let file = PasswordHashFile::from_lines("c".to_string(), &corpus);
    let mut first = file.resume(2);
    assert_eq!(first.feed(&corpus[0]), None);
    assert_eq!(first.feed(&corpus[1]), None);
    assert_eq!(first.feed(&corpus[2]), Some(KEY_C));
    assert_eq!(first.feed(&corpus[3]), Some(KEY_A));
    assert_eq!(first.position(), 4);
    let mut second = first.resume();
    assert_eq!(second.drain(&corpus), vec![KEY_B, KEY_C]);
}

#[test]
fn discarded_entries_are_collapsed_first() {
    let corpus = lines(&[A, A, A, B, C]);
    let file = PasswordHashFile::from_lines("c".to_string(), &corpus);
    let mut cursor = file.resume(1);
    assert_eq!(cursor.drain(&corpus), vec![KEY_B, KEY_C]);
}

#[test]
fn cursor_resumed_far_beyond_the_corpus_can_be_fed() {
    let corpus = lines(&[A, B, B, C]);
    let file = PasswordHashFile::from_lines("c".to_string(), &corpus);
    let mut cursor = file.resume(usize::MAX);
    assert_eq!(cursor.to_discard(), usize::MAX);
    assert_eq!(cursor.position(), usize::MAX);
    assert_eq!(cursor.feed(&corpus[0]), None);
    assert_eq!(cursor.to_discard(), usize::MAX - 1);
    assert_eq!(cursor.drain(&corpus[1..].to_vec()), Vec::<u64>::new());
    assert_eq!(cursor.to_discard(), usize::MAX - 3);
    assert_eq!(cursor.position(), usize::MAX);
}

#[test]
fn entries_to_discard_are_counted_down() {
    let corpus = lines(&[A, A, B, C]);
    let file = PasswordHashFile::from_lines("c".to_string(), &corpus);
    let mut cursor = file.resume(2);
    assert_eq!(cursor.to_discard(), 2);
    assert_eq!(cursor.feed(&corpus[0]), None);
    assert_eq!(cursor.to_discard(), 1);
    assert_eq!(cursor.feed(&corpus[1]), None);
    assert_eq!(cursor.to_discard(), 1);
    assert_eq!(cursor.feed(&corpus[2]), None);
    assert_eq!(cursor.to_discard(), 0);
    assert_eq!(cursor.feed(&corpus[3]), Some(KEY_C));
    assert_eq!(cursor.to_discard(), 0);
    assert_eq!(file.iter().to_discard(), 0);
}
