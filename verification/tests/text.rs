use memkeeper_store::digest::{sha256_hex, sha256_text, Sha256};
use memkeeper_store::hex::{hex_decode, hex_encode, hex_nibble};
use memkeeper_store::order::{sort_unique, text_lt, TextSet};
use memkeeper_store::terms::{
    is_prefixable_search_term, is_search_stopword, lexical_terms, memory_fts_metadata_text,
    normalized_search_token_text, query_alias_shingles, query_alias_words,
    remember_candidate_fts_query, search_fts_query, search_prefix_terms, search_term_stems,
    search_term_variants, search_terms, search_variant_terms,
};
use memkeeper_store::text::{
    bounded_char_slice, collapse_whitespace, decimal_of, is_whitespace, join, lines_of,
    make_snippet, split_by, strip_prefix, strip_suffix, to_ascii_lower, trim, trim_left,
};
use memkeeper_store::writing::{canonical_name_from_entity_key, normalized_alias};

fn texts(list: &[&str]) -> Vec<String> {
    list.iter().map(|t| t.to_string()).collect()
}

#[test]
fn white_space_is_that_of_std() {
    for code in 0u32..=0x10_ffff {
        if let Some(c) = char::from_u32(code) {
            assert_eq!(is_whitespace(c), c.is_whitespace(), "{:x}", code);
        }
    }
}

#[test]
fn trimming_is_that_of_std() {
    for text in ["", " ", "a", " a ", "\u{3000}a b\t\n", "\u{a0}\u{2003}", "x\u{feff} "] {
        assert_eq!(trim(text), text.trim());
        assert_eq!(trim_left(text), text.trim_start());
    }
}

#[test]
fn white_space_collapses() {
    assert_eq!(collapse_whitespace("  a \n\t b  c "), "a b c");
    assert_eq!(collapse_whitespace(" \n "), "");
    let once = collapse_whitespace(" x   y ");
    assert_eq!(collapse_whitespace(&once), once);
}

#[test]
fn lower_case_is_that_of_ascii() {
    assert_eq!(to_ascii_lower("AbÇ Éz"), "abÇ Éz".to_ascii_lowercase());
}

#[test]
fn slices_count_characters() {
    assert_eq!(bounded_char_slice("äöüß", 1, 2), "öü");
    assert_eq!(bounded_char_slice("abc", 5, 2), "");
    assert_eq!(bounded_char_slice("abc", 1, 99), "bc");
}

#[test]
fn snippets_start_before_the_first_term() {
    let content = "0123456789 needle 0123456789";
    assert_eq!(make_snippet(content, &texts(&["needle"]), 10), "6789 needl");
    assert_eq!(make_snippet(content, &texts(&["absent"]), 4), "0123");
    assert_eq!(make_snippet(content, &texts(&["needle"]), 0), "");
    assert_eq!(make_snippet("A Needle", &texts(&["needle"]), 4), "A Ne");
}

#[test]
fn joining_and_splitting() {
    assert_eq!(join(&texts(&["a", "b", "c"]), ", "), "a, b, c");
    assert_eq!(join(&texts(&[]), ", "), "");
    assert_eq!(split_by("a\u{1f}b\u{1f}", '\u{1f}'), texts(&["a", "b", ""]));
    assert_eq!(lines_of("a\r\nb\n\nc"), texts(&["a", "b", "", "c"]));
    assert_eq!(strip_prefix("alias::k8s", "alias::"), Some("k8s"));
    assert_eq!(strip_prefix("x", "alias::"), None);
    assert_eq!(strip_suffix("berries", "ies"), Some("berr"));
    assert_eq!(decimal_of(0), "0");
    assert_eq!(decimal_of(u64::MAX), u64::MAX.to_string());
}

#[test]
fn texts_compare_as_std_does() {
    let list = ["", "a", "ab", "b", "B", "ä", "z", "\u{ffff}", "\u{10000}"];
    for a in list {
        for b in list {
            assert_eq!(text_lt(a, b), a < b, "{} {}", a, b);
        }
    }
}

#[test]
fn sets_of_texts_are_sorted() {
    let mut set = TextSet::new();
    assert!(set.insert("b".to_string()));
    assert!(set.insert("a".to_string()));
    assert!(!set.insert("b".to_string()));
    assert_eq!(set.len(), 2);
    assert_eq!(set.get(0), "a");
    assert!(set.contains("b"));
    assert!(!set.contains("c"));
    assert_eq!(sort_unique(&texts(&["c", "a", "c", "b"])), texts(&["a", "b", "c"]));
}

#[test]
fn digests_of_known_messages() {
    assert_eq!(
        sha256_text(""),
        "e3b0c44298fc1c149afbf4c8996fb92427ae41e4649b934ca495991b7852b855"
    );
    assert_eq!(
        sha256_text("abc"),
        "ba7816bf8f01cfea414140de5dae2223b00361a396177a9cb410ff61f20015ad"
    );
    assert_eq!(
        sha256_hex(b"abcdbcdecdefdefgefghfghighijhijkijkljklmklmnlmnomnopnopq"),
        "248d6a61d20638b8e5c026930c3e6039a33ce45964ff2167f6ecedd419db06c1"
    );
    let long = vec![b'a'; 1000];
    let mut parts = Sha256::new();
    parts.update(&long[..300]);
    parts.update(&long[300..301]);
    parts.update(&long[301..]);
    assert_eq!(parts.finish_hex(), sha256_hex(&long));
}

#[test]
fn hexadecimal_reads_back() {
    let bytes: Vec<u8> = (0..=255u8).collect();
    let text = hex_encode(&bytes);
    assert_eq!(&text[..6], "000102");
    assert_eq!(hex_decode(&text), Some(bytes));
    assert_eq!(hex_decode("0g"), None);
    assert_eq!(hex_decode("abc"), None);
    assert_eq!(hex_nibble('f'), Some(15));
    assert_eq!(hex_nibble('g'), None);
}

#[test]
fn search_terms_are_sorted_words_without_stopwords() {
    assert_eq!(search_terms("The Kubernetes cluster, and the CLUSTER!"), texts(&["cluster", "kubernetes"]));
    assert_eq!(search_terms("to be or"), texts(&["be", "or", "to"]));
    assert_eq!(search_terms("  --- "), texts(&[]));
    assert_eq!(search_terms("snake_case Ünïcode"), texts(&["snake_case", "Ünïcode"]));
    assert!(is_search_stopword("then"));
    assert!(!is_search_stopword("cluster"));
}

#[test]
fn terms_have_stems_and_variants() {
    assert_eq!(search_term_stems("policies"), texts(&["policy", "polici", "policie"]));
    assert_eq!(search_term_stems("running"), texts(&["run"]));
    assert_eq!(search_term_variants("decided"), texts(&["decided", "decid"]));
    assert_eq!(search_term_variants("cats"), texts(&["cats"]));
    assert_eq!(search_variant_terms(&texts(&["decided", "x"])), texts(&["(decided OR decid)", "x"]));
    assert!(is_prefixable_search_term("abcd"));
    assert!(!is_prefixable_search_term("abc"));
    assert_eq!(search_prefix_terms(&texts(&["abc"])), texts(&[]));
    assert_eq!(search_prefix_terms(&texts(&["memo", "x"])), texts(&["(memo OR memo*)", "x"]));
}

#[test]
fn full_text_queries_leave_sources_out() {
    assert_eq!(search_fts_query(&texts(&["a", "b"]), true, " AND "), "a AND b");
    assert_eq!(
        search_fts_query(&texts(&["a", "b"]), false, " OR "),
        "{content retrieval_text tags metadata_text} : a OR {content retrieval_text tags metadata_text} : b"
    );
}

#[test]
fn shingles_are_runs_of_words() {
    assert_eq!(query_alias_words("Point of-View"), texts(&["point", "of", "view"]));
    let set = query_alias_shingles("Point of view now");
    for text in ["point", "point of", "point of view", "of view now", "now"] {
        assert!(set.contains(text), "{}", text);
    }
    assert!(!set.contains("point of view now"));
    assert!(!set.contains("point view"));
}

#[test]
fn comparison_terms_are_bounded() {
    assert_eq!(lexical_terms("go to the Warehouse warehouse"), texts(&["warehouse"]));
    assert_eq!(
        remember_candidate_fts_query(&texts(&["abc", "warehouse", "shelf"])),
        "{content retrieval_text tags metadata_text} : warehouse OR {content retrieval_text tags metadata_text} : shelf"
    );
}

#[test]
fn token_texts_hold_stems() {
    assert_eq!(normalized_search_token_text(&texts(&[])), "");
    let text = normalized_search_token_text(&texts(&["Decided policies"]));
    assert!(text.split(' ').any(|t| t == "decid"), "{}", text);
    assert!(text.split(' ').any(|t| t == "policy"), "{}", text);
    let meta = memory_fts_metadata_text(Some("proj"), None, Some("claim"), "Decided", None, "");
    assert!(meta.starts_with("proj"), "{}", meta);
    assert!(meta.contains("claim"), "{}", meta);
}

#[test]
fn names_and_aliases() {
    assert_eq!(normalized_alias("  Point   Of VIEW "), "point of view");
    assert_eq!(normalized_alias(&normalized_alias(" A  b ")), normalized_alias(" A  b "));
    assert_eq!(canonical_name_from_entity_key("tool:cli/memory-keeper.v_2"), "memory keeper v 2");
    assert_eq!(canonical_name_from_entity_key("tool/"), "tool/");
}
