use indexer::index::{Document, Indexer};
use indexer::token::tokenize;

fn doc(id: usize, content: &str) -> Document {
    Document {
        id,
        content: content.to_string(),
    }
}

#[test]
fn empty_index_answers_empty() {
    let indexer = Indexer::new();
    assert_eq!(indexer.search("anything"), Vec::<usize>::new());
    assert_eq!(indexer.search(""), Vec::<usize>::new());
}

#[test]
fn single_document_hit_and_miss() {
    let mut indexer = Indexer::new();
    indexer.add_document(doc(1, "rust is fast and safe"));
    assert_eq!(indexer.search("rust"), vec![1]);
    assert_eq!(indexer.search("slow"), Vec::<usize>::new());
}

#[test]
fn duplicates_kept_in_ingestion_order() {
    let mut indexer = Indexer::new();
    indexer.add_document(doc(1, "a b a"));
    indexer.add_document(doc(2, "a"));
    assert_eq!(indexer.search("a"), vec![1, 1, 2]);
    assert_eq!(indexer.search("b"), vec![1]);
}

#[test]
fn repeated_ingestion_doubles_postings() {
    let mut indexer = Indexer::new();
    indexer.add_document(doc(1, "a b a"));
    indexer.add_document(doc(1, "a b a"));
    assert_eq!(indexer.search("a"), vec![1, 1, 1, 1]);
    assert_eq!(indexer.search("b"), vec![1, 1]);
}

#[test]
fn case_is_preserved() {
    let mut indexer = Indexer::new();
    indexer.add_document(doc(1, "rust is fast and safe"));
    assert_eq!(indexer.search("Rust"), Vec::<usize>::new());
    assert_eq!(indexer.search("fast"), vec![1]);
}

#[test]
fn punctuation_is_preserved() {
    let mut indexer = Indexer::new();
    indexer.add_document(doc(7, "very fast, and fast"));
    assert_eq!(indexer.search("fast"), vec![7]);
    assert_eq!(indexer.search("fast,"), vec![7]);
}

#[test]
fn other_tokens_do_not_disturb_a_query() {
    let mut indexer = Indexer::new();
    indexer.add_document(doc(1, "shared alpha"));
    indexer.add_document(doc(2, "shared beta gamma"));
    assert_eq!(indexer.search("shared"), vec![1, 2]);
    assert_eq!(indexer.search("alpha"), vec![1]);
    assert_eq!(indexer.search("beta"), vec![2]);
}

#[test]
fn empty_content_contributes_nothing() {
    let mut indexer = Indexer::new();
    indexer.add_document(doc(5, ""));
    indexer.add_document(doc(6, "   \t \n "));
    assert_eq!(indexer.search(""), Vec::<usize>::new());
    assert_eq!(indexer.search(" "), Vec::<usize>::new());
}

#[test]
fn tokenize_splits_on_whitespace_runs() {
    assert_eq!(
        tokenize("rust is  fast"),
        vec![
            vec!['r', 'u', 's', 't'],
            vec!['i', 's'],
            vec!['f', 'a', 's', 't'],
        ]
    );
    assert_eq!(tokenize("  a\tb\nc  "), vec![vec!['a'], vec!['b'], vec!['c']]);
    assert_eq!(tokenize(""), Vec::<Vec<char>>::new());
}

#[test]
fn tokenize_splits_on_unicode_whitespace() {
    assert_eq!(tokenize("a\u{00A0}b"), vec![vec!['a'], vec!['b']]);
    assert_eq!(tokenize("x\u{2003}y\u{3000}z"), vec![vec!['x'], vec!['y'], vec!['z']]);

    let mut indexer = Indexer::new();
    indexer.add_document(doc(3, "left\u{2028}right"));
    assert_eq!(indexer.search("left"), vec![3]);
    assert_eq!(indexer.search("right"), vec![3]);
    assert_eq!(indexer.search("left\u{2028}right"), Vec::<usize>::new());
}
