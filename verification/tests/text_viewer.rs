use std::path::PathBuf;

use popone::text_viewer::{same_path, TextFileEntry, TextViewerModel};

fn entry(path: &str, data: &[u8]) -> TextFileEntry {
    TextFileEntry {
        path: path.to_string(),
        name: PathBuf::from(path)
            .file_name()
            .unwrap()
            .to_string_lossy()
            .into_owned(),
        data: data.to_vec(),
    }
}

fn decode(b: &Vec<u8>) -> String {
    String::from_utf8_lossy(b).into_owned()
}

#[test]
fn test_open_doc_decodes_and_dedupes() {
    let mut m = TextViewerModel::default();
    m.replace_files(vec![entry("readme.txt", "日本語".as_bytes())]);
    let id1 = m.open_doc(0, decode).unwrap();
    assert_eq!(m.docs.len(), 1);
    assert_eq!(m.docs[0].content, "日本語");
    assert!(m.docs[0].open);

    m.docs[0].open = false;
    let id2 = m.open_doc(0, decode).unwrap();
    assert_eq!(id1, id2);
    assert_eq!(m.docs.len(), 1);
    assert!(m.docs[0].open);
}

#[test]
fn test_replace_closes_docs_extend_keeps() {
    let mut m = TextViewerModel::default();
    m.replace_files(vec![entry("a.txt", b"a")]);
    m.open_doc(0, decode);
    assert_eq!(m.docs.len(), 1);

    m.extend_files(vec![entry("a.txt", b"dup"), entry("b.txt", b"b")]);
    assert_eq!(m.files.len(), 2);
    assert_eq!(m.docs.len(), 1);

    m.replace_files(vec![entry("c.txt", b"c")]);
    assert!(m.docs.is_empty());
    assert_eq!(m.files.len(), 1);

    m.list_visible = true;
    m.replace_files(Vec::new());
    assert!(!m.list_visible);
}

// ---------------------------------------------------------------------------
// Further cases
// ---------------------------------------------------------------------------

#[test]
fn open_doc_out_of_range_is_none() {
    let mut m = TextViewerModel::default();
    m.replace_files(vec![entry("a.txt", b"a")]);
    assert!(m.open_doc(3, decode).is_none());
    assert!(m.docs.is_empty());
}

#[test]
fn open_doc_truncates_long_text() {
    let mut m = TextViewerModel::default();
    let long = "é".repeat(1_000_005);
    m.replace_files(vec![entry("big.txt", long.as_bytes())]);
    m.open_doc(0, decode);
    assert!(m.docs[0].truncated);
    assert_eq!(m.docs[0].content.chars().count(), 1_000_000);
    assert_eq!(m.docs[0].title, "big.txt");
}

#[test]
fn extend_skips_duplicates_within_batch() {
    let mut m = TextViewerModel::default();
    m.extend_files(vec![entry("x.txt", b"1"), entry("x.txt", b"2"), entry("y.txt", b"3")]);
    assert_eq!(m.files.len(), 2);
    assert_eq!(m.files[0].data, b"1".to_vec());
    assert!(!m.is_file_open(0));
    m.open_doc(1, decode);
    assert!(m.is_file_open(1));
    assert!(!m.is_file_open(0));
}

#[test]
fn paths_compare_by_components() {
    let p = |s: &str| s.to_string();
    assert!(same_path(&p("docs/a.txt"), &p("docs//a.txt")));
    assert!(same_path(&p("docs/./a.txt"), &p("docs/a.txt")));
    assert!(same_path(&p("docs/"), &p("docs")));
    assert!(same_path(&p("docs\\a.txt"), &p("docs/a.txt")));
    assert!(same_path(&p("./a"), &p("./a")));
    assert!(!same_path(&p("./a"), &p("a")));
    assert!(!same_path(&p("/a"), &p("a")));
    assert!(!same_path(&p("docs/a.txt"), &p("docs/b.txt")));
    assert!(!same_path(&p("a/../b"), &p("b")));
    let mut m = TextViewerModel::default();
    m.replace_files(vec![entry("docs/a.txt", b"1")]);
    m.extend_files(vec![entry("docs//a.txt", b"2"), entry("docs/b.txt", b"3")]);
    assert_eq!(m.files.len(), 2);
    assert_eq!(m.files[1].path, "docs/b.txt");
}
