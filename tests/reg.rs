use ope::{build_regex, delimiter_indices, Error, Matcher, Regexp};

#[test]
fn reg() {
    let reg = regex::Regex::new("^(reate|delete)$").unwrap();
    assert!(reg.is_match("delete"))
}

#[test]
fn build() {
    assert_eq!(
        build_regex("<create|delete>", '<', '>').unwrap(),
        "^(create|delete)$".to_owned()
    )
}

#[test]
fn build_multi_region() {
    assert_eq!(
        build_regex("foo<a|b>bar<c|d>baz", '<', '>').unwrap(),
        "^foo(a|b)bar(c|d)baz$".to_owned()
    )
}

#[test]
fn build_escapes_literal_spans() {
    assert_eq!(
        build_regex("a.b<x|y>c+(d)", '<', '>').unwrap(),
        "^a\\.b(x|y)c\\+\\(d\\)$".to_owned()
    )
}

#[test]
fn build_keeps_nested_delimiters_in_region() {
    assert_eq!(
        build_regex("x<a<b>c>y", '<', '>').unwrap(),
        "^x(a<b>c)y$".to_owned()
    )
}

#[test]
fn build_other_delimiters() {
    assert_eq!(
        build_regex("res:{[0-9]+}", '{', '}').unwrap(),
        "^res:([0-9]+)$".to_owned()
    )
}

#[test]
fn build_unbalanced_missing_close() {
    match build_regex("<abc", '<', '>') {
        Err(Error::UnbalancedBraces(s)) => assert_eq!(s, "<abc"),
        other => panic!("unexpected {:?}", other),
    }
}

#[test]
fn build_unbalanced_close_without_open() {
    match build_regex("abc>", '<', '>') {
        Err(Error::UnbalancedBraces(s)) => assert_eq!(s, "abc>"),
        other => panic!("unexpected {:?}", other),
    }
}

#[test]
fn build_invalid_region() {
    assert!(matches!(
        build_regex("a<(>b", '<', '>'),
        Err(Error::CompileRegexError(_))
    ));
}

#[test]
fn indices_of_regions() {
    assert_eq!(
        delimiter_indices("foo<a|b>bar<c|d>baz", '<', '>').unwrap(),
        vec![3, 8, 11, 16]
    );
    assert_eq!(delimiter_indices("<a<b>c>", '<', '>').unwrap(), vec![0, 7]);
    assert_eq!(delimiter_indices("plain", '<', '>').unwrap(), Vec::<usize>::new());
    assert_eq!(delimiter_indices("", '<', '>').unwrap(), Vec::<usize>::new());
}

#[test]
fn indices_count_characters() {
    assert_eq!(delimiter_indices("é<a>", '<', '>').unwrap(), vec![1, 4]);
    assert_eq!(
        build_regex("é.<a|b>ü", '<', '>').unwrap(),
        "^é\\.(a|b)ü$".to_owned()
    );
}

#[test]
fn indices_unbalanced() {
    assert!(matches!(
        delimiter_indices("<a>>", '<', '>'),
        Err(Error::UnbalancedBraces(_))
    ));
    assert!(matches!(
        delimiter_indices("<<a>", '<', '>'),
        Err(Error::UnbalancedBraces(_))
    ));
}

fn hay(items: &[&str]) -> Vec<String> {
    items.iter().map(|s| s.to_string()).collect()
}

#[test]
fn literal_fast_path() {
    let m = Regexp::new(10).unwrap();
    assert!(m.matches('<', '>', hay(&["create"]), "create").unwrap());
    assert!(!m.matches('<', '>', hay(&["create"]), "creat").unwrap());
}

#[test]
fn disjunction() {
    let m = Regexp::new(10).unwrap();
    assert!(m.matches('<', '>', hay(&["<create|delete>"]), "delete").unwrap());
    assert!(!m.matches('<', '>', hay(&["<create|delete>"]), "update").unwrap());
}

#[test]
fn anchored_match() {
    let m = Regexp::new(10).unwrap();
    assert!(!m.matches('<', '>', hay(&["<create|delete>"]), "xdelete").unwrap());
    assert!(m.matches('<', '>', hay(&["foo<a|b>bar<c|d>baz"]), "foobbarcbaz").unwrap());
    assert!(!m.matches('<', '>', hay(&["foo<a|b>bar<c|d>baz"]), "foobbarebaz").unwrap());
}

#[test]
fn literal_span_metacharacters() {
    let m = Regexp::new(10).unwrap();
    assert!(m.matches('<', '>', hay(&["a.b<x>"]), "a.bx").unwrap());
    assert!(!m.matches('<', '>', hay(&["a.b<x>"]), "azbx").unwrap());
}

#[test]
fn unbalanced_fails_the_call() {
    let m = Regexp::new(10).unwrap();
    assert!(matches!(
        m.matches('<', '>', hay(&["<abc"]), "abc"),
        Err(Error::UnbalancedBraces(_))
    ));
    assert!(matches!(
        m.matches('<', '>', hay(&["x", "abc>"]), "abc"),
        Ok(false)
    ));
}

#[test]
fn invalid_region_fails_the_call() {
    let m = Regexp::new(10).unwrap();
    assert!(matches!(
        m.matches('<', '>', hay(&["<(>"]), "x"),
        Err(Error::CompileRegexError(_))
    ));
}

#[test]
fn cache_size_zero_fails() {
    assert!(matches!(Regexp::new(0), Err(Error::InvalidCacheSize(0))));
    assert!(Regexp::new(1).is_ok());
}

#[test]
fn literal_metacharacter_safety() {
    let m = Regexp::new(1).unwrap();
    assert!(m.matches('<', '>', hay(&["a.b"]), "a.b").unwrap());
    assert!(!m.matches('<', '>', hay(&["a.b"]), "axb").unwrap());
}

#[test]
fn short_circuit_before_malformed() {
    let m = Regexp::new(4).unwrap();
    assert!(m.matches('<', '>', hay(&["create", "<abc"]), "create").unwrap());
    assert!(m.matches('<', '>', hay(&["<create|delete>", "abc>"]), "delete").unwrap());
    assert!(matches!(
        m.matches('<', '>', hay(&["<abc", "create"]), "create"),
        Err(Error::UnbalancedBraces(_))
    ));
}

#[test]
fn empty_haystack() {
    let m = Regexp::new(1).unwrap();
    assert!(!m.matches('<', '>', Vec::new(), "x").unwrap());
}

#[test]
fn eviction_with_capacity_one() {
    let m = Regexp::new(1).unwrap();
    for _ in 0..3 {
        assert!(m.matches('<', '>', hay(&["<a|b>"]), "a").unwrap());
        assert!(m.matches('<', '>', hay(&["<c|d>"]), "d").unwrap());
        assert!(!m.matches('<', '>', hay(&["<a|b>"]), "c").unwrap());
    }
}

#[test]
fn cache_hit_gives_same_answer() {
    let m = Regexp::new(8).unwrap();
    for _ in 0..2 {
        assert!(m.matches('<', '>', hay(&["user/<[0-9]+>"]), "user/42").unwrap());
        assert!(!m.matches('<', '>', hay(&["user/<[0-9]+>"]), "user/x").unwrap());
    }
}

#[test]
fn delimiters_are_part_of_the_key() {
    let m = Regexp::new(8).unwrap();
    assert!(m.matches('<', '>', hay(&["{a}<b|c>"]), "{a}b").unwrap());
    assert!(m.matches('{', '}', hay(&["{a}<b|c>"]), "a<b|c>").unwrap());
    assert!(!m.matches('{', '}', hay(&["{a}<b|c>"]), "{a}b").unwrap());
}
