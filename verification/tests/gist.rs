//! Gist extraction helpers and CogniRank keywords.

use memory_core::gist::{has_min_bytes, sentence_markers, split_non_alphanumeric, CogniRank, GistExtractor};

#[test]
fn gist_test_gist_extractor_default() {
    let extractor = GistExtractor::default();
    assert_eq!(extractor.max_key_points(), 3);
}

#[test]
fn tests_test_gist_extractor_default() {
    let extractor = GistExtractor::default();
    assert_eq!(extractor.max_key_points(), 3);
}

#[test]
fn extractor_keeps_at_least_one_key_point() {
    assert_eq!(GistExtractor::new(0).max_key_points(), 1);
    assert_eq!(GistExtractor::new(5).max_key_points(), 5);
}

#[test]
fn sentences_are_split_trimmed_and_terminated() {
    let g = GistExtractor::default();
    let s = g.split_sentences("Fixed the bug! Why? It works.  Added tests");
    assert_eq!(
        s,
        vec!["Fixed the bug.".to_string(), "It works.".to_string(), "Added tests.".to_string()]
    );
}

#[test]
fn short_pieces_are_dropped_by_bytes() {
    let g = GistExtractor::default();
    assert!(g.split_sentences("").is_empty());
    assert!(g.split_sentences("abcd. ...").is_empty());
    // Two characters of two bytes each and one of one byte: five bytes.
    assert_eq!(g.split_sentences("ééa"), vec!["ééa.".to_string()]);
    assert!(g.split_sentences("éé").is_empty());
}

#[test]
fn byte_lengths_follow_utf8() {
    assert!(has_min_bytes("abcde", 5));
    assert!(!has_min_bytes("abcd", 5));
    assert!(has_min_bytes("日本", 5));
    assert!(!has_min_bytes("日", 4));
}

#[test]
fn markers_are_found_in_lowercase() {
    let m = sentence_markers("FIXED a Bug after we Realized it");
    assert!(m.high_value);
    assert!(m.cognitive);
    assert!(m.outcome);
    let m = sentence_markers("nothing here");
    assert!(!m.high_value && !m.cognitive && !m.outcome);
}

#[test]
fn keywords_are_lowercased_stripped_and_long() {
    let c = CogniRank;
    let mut k = c.extract_keywords("Fix the (Auth) token, token! a bb");
    k.sort();
    assert_eq!(k, vec!["auth".to_string(), "token".to_string()]);
    let d = CogniRank::default();
    assert!(d.extract_keywords("").is_empty());
}

#[test]
fn mentioned_keywords_are_counted() {
    let c = CogniRank;
    let kws = vec!["auth".to_string(), "token".to_string(), "cache".to_string()];
    assert_eq!(c.count_mentioned(&kws, "Refresh the AUTH Token."), 2);
}

#[test]
fn splitting_at_non_alphanumeric_keeps_empty_pieces() {
    assert_eq!(split_non_alphanumeric("a-b  c"), vec!["a", "b", "", "c"]);
    assert_eq!(split_non_alphanumeric(""), vec![""]);
    assert_eq!(split_non_alphanumeric("Ünï2!"), vec!["Ünï2", ""]);
}
