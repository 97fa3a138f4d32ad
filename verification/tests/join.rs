use heck::join::join;

fn strings(words: &[&str]) -> Vec<String> {
    words.iter().map(|w| w.to_string()).collect()
}

#[test]
fn join_no_words() {
    assert_eq!(join(&Vec::new(), Some('-')), "");
    assert_eq!(join(&Vec::new(), None), "");
}

#[test]
fn join_one_word() {
    assert_eq!(join(&strings(&["XML"]), Some('-')), "XML");
    assert_eq!(join(&strings(&["XML"]), None), "XML");
}

#[test]
fn join_with_separator() {
    assert_eq!(join(&strings(&["XML", "HTTP", "REQUEST"]), Some('-')), "XML-HTTP-REQUEST");
    assert_eq!(join(&strings(&["Xml", "Http", "Request"]), Some(' ')), "Xml Http Request");
    assert_eq!(join(&strings(&["a", "b"]), Some('_')), "a_b");
}

#[test]
fn join_without_separator() {
    assert_eq!(join(&strings(&["Xml", "Http", "Request"]), None), "XmlHttpRequest");
}

#[test]
fn join_counts_separators() {
    for n in 0..6usize {
        let words: Vec<String> = (0..n).map(|i| format!("w{}", i)).collect();
        let out = join(&words, Some('-'));
        assert_eq!(out.matches('-').count(), n.saturating_sub(1));
        assert!(!out.starts_with('-'));
        assert!(!out.ends_with('-'));
        assert!(!out.contains("--"));
    }
}

#[test]
fn join_length() {
    let words = strings(&["ab", "", "cde", "f-g"]);
    assert_eq!(join(&words, Some('-')).chars().count(), 2 + 0 + 3 + 3 + 3);
    assert_eq!(join(&words, None).chars().count(), 2 + 0 + 3 + 3);
    assert_eq!(join(&words, Some('-')), "ab--cde-f-g");
}
