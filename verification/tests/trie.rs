use mydict::trie::Trie;

fn index_of(terms: &[&str]) -> Trie {
    let mut trie = Trie::new();
    for term in terms {
        trie.insert(term);
    }
    trie
}

#[test]
fn empty_index_finds_nothing() {
    let trie = Trie::new();
    assert_eq!(trie.search(""), Vec::<String>::new());
    assert_eq!(trie.search("a"), Vec::<String>::new());
}

#[test]
fn default_index_is_empty() {
    let trie = Trie::default();
    assert_eq!(trie.search(""), Vec::<String>::new());
}

#[test]
fn prefix_search_lists_matches_in_byte_order() {
    let trie = index_of(&["cat", "car", "dog"]);
    assert_eq!(trie.search("ca"), vec!["car".to_string(), "cat".to_string()]);
    assert_eq!(trie.search("z"), Vec::<String>::new());
}

#[test]
fn order_of_insertion_does_not_matter() {
    let one = index_of(&["cat", "car", "dog"]);
    let other = index_of(&["dog", "car", "cat"]);
    assert_eq!(one.search(""), other.search(""));
    assert_eq!(one.search("ca"), other.search("ca"));
}

#[test]
fn empty_query_lists_every_term() {
    let trie = index_of(&["dog", "cat", "car", "do", "zebra", "a"]);
    assert_eq!(
        trie.search(""),
        vec![
            "a".to_string(),
            "car".to_string(),
            "cat".to_string(),
            "do".to_string(),
            "dog".to_string(),
            "zebra".to_string(),
        ]
    );
}

#[test]
fn a_term_is_found_by_itself() {
    let terms = ["dog", "cat", "car", "do", "zebra", "a"];
    let trie = index_of(&terms);
    for term in terms {
        let found = trie.search(term);
        assert!(found.contains(&term.to_string()));
        assert_eq!(found[0], term);
    }
}

#[test]
fn a_query_that_no_term_begins_with_finds_nothing() {
    let trie = index_of(&["cat", "car", "dog"]);
    assert_eq!(trie.search("cab"), Vec::<String>::new());
    assert_eq!(trie.search("cats"), Vec::<String>::new());
    assert_eq!(trie.search("e"), Vec::<String>::new());
    assert_eq!(trie.search("D"), Vec::<String>::new());
}

#[test]
fn inserting_a_term_again_changes_nothing() {
    let mut trie = index_of(&["cat", "car"]);
    trie.insert("cat");
    trie.insert("cat");
    assert_eq!(trie.search(""), vec!["car".to_string(), "cat".to_string()]);
}

#[test]
fn a_term_comes_before_the_terms_that_extend_it() {
    let trie = index_of(&["card", "car", "carda", "ca"]);
    assert_eq!(
        trie.search("ca"),
        vec!["ca".to_string(), "car".to_string(), "card".to_string(), "carda".to_string()]
    );
    assert_eq!(trie.search("card"), vec!["card".to_string(), "carda".to_string()]);
}

#[test]
fn a_prefix_of_a_term_is_no_term() {
    let trie = index_of(&["card"]);
    assert_eq!(trie.search("car"), vec!["card".to_string()]);
    let found = trie.search("car");
    assert!(!found.contains(&"car".to_string()));
}

#[test]
fn the_empty_term_can_be_held() {
    let trie = index_of(&["", "a"]);
    assert_eq!(trie.search(""), vec!["".to_string(), "a".to_string()]);
    assert_eq!(trie.search("a"), vec!["a".to_string()]);
}

#[test]
fn terms_are_case_sensitive() {
    let trie = index_of(&["Cat", "cat"]);
    assert_eq!(trie.search("c"), vec!["cat".to_string()]);
    assert_eq!(trie.search("C"), vec!["Cat".to_string()]);
    assert_eq!(trie.search(""), vec!["Cat".to_string(), "cat".to_string()]);
}

#[test]
fn order_is_by_bytes_not_by_collation() {
    // "é" is encoded as 0xC3 0xA9 and so comes after every ASCII letter.
    let trie = index_of(&["été", "zoo", "eta", "Zoo"]);
    assert_eq!(
        trie.search(""),
        vec!["Zoo".to_string(), "eta".to_string(), "zoo".to_string(), "été".to_string()]
    );
    assert_eq!(trie.search("é"), vec!["été".to_string()]);
    assert_eq!(trie.search("ét"), vec!["été".to_string()]);
}

#[test]
fn terms_of_several_bytes_per_character_are_kept_whole() {
    let trie = index_of(&["日本", "日本語", "日光", "本"]);
    assert_eq!(trie.search("日本"), vec!["日本".to_string(), "日本語".to_string()]);
    assert_eq!(
        trie.search("日"),
        vec!["日光".to_string(), "日本".to_string(), "日本語".to_string()]
    );
    assert_eq!(trie.search("語"), Vec::<String>::new());
}

#[test]
fn many_terms_come_out_sorted_and_complete() {
    let mut terms: Vec<String> = Vec::new();
    for i in 0..300u32 {
        terms.push(format!("t{}", (i * 7919) % 1000));
    }
    let mut trie = Trie::new();
    for term in &terms {
        trie.insert(term);
    }
    let mut expected = terms.clone();
    expected.sort_by(|a, b| a.as_bytes().cmp(b.as_bytes()));
    expected.dedup();
    assert_eq!(trie.search("t"), expected);
    let with_one: Vec<String> = expected.iter().filter(|t| t.starts_with("t1")).cloned().collect();
    assert_eq!(trie.search("t1"), with_one);
}

#[test]
fn a_copy_of_an_index_holds_the_same_terms() {
    let mut trie = index_of(&["cat", "car", "dog", "été", ""]);
    let copy = trie.clone();
    assert_eq!(copy.search(""), trie.search(""));
    assert_eq!(copy.search("ca"), vec!["car".to_string(), "cat".to_string()]);
    trie.insert("cow");
    assert_eq!(trie.search("co"), vec!["cow".to_string()]);
    assert_eq!(copy.search("co"), Vec::<String>::new());
}

#[test]
fn a_long_term_is_held_whole() {
    let long = "a".repeat(5000);
    let mut trie = Trie::new();
    trie.insert(&long);
    trie.insert("ab");
    assert_eq!(trie.search("aa"), vec![long.clone()]);
    assert_eq!(trie.search(""), vec![long.clone(), "ab".to_string()]);
    assert_eq!(trie.clone().search(&long), vec![long]);
}
