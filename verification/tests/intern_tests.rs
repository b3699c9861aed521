use protogen::intern::StringIntern;

#[test]
fn distinct_texts_get_distinct_handles() {
    let mut intern = StringIntern::new();
    let a = intern.get_id("alpha");
    let b = intern.get_id("beta");
    let c = intern.get_id("Alpha");
    assert_ne!(a, b);
    assert_ne!(a, c);
    assert_ne!(b, c);
}

#[test]
fn handles_are_dense_and_in_insertion_order() {
    let mut intern = StringIntern::default();
    assert_eq!(intern.len(), 0);
    assert_eq!(intern.get_id("x"), 0);
    assert_eq!(intern.get_id("y"), 1);
    assert_eq!(intern.get_id(""), 2);
    assert_eq!(intern.len(), 3);
}

#[test]
fn interning_twice_gives_the_same_handle() {
    let mut intern = StringIntern::new();
    let first = intern.get_id("name");
    intern.get_id("other");
    assert_eq!(intern.get_id("name"), first);
    assert_eq!(intern.len(), 2);
}

#[test]
fn lookup_returns_the_interned_text() {
    let mut intern = StringIntern::new();
    let a = intern.get_id("alpha");
    let b = intern.get_id("beta");
    assert_eq!(intern.get_str(a).unwrap().as_str(), "alpha");
    assert_eq!(intern.get_str(b).unwrap().as_str(), "beta");
}

#[test]
fn lookup_of_a_handle_never_given_is_absent() {
    let mut intern = StringIntern::new();
    assert!(intern.get_str(0).is_none());
    intern.get_id("only");
    assert!(intern.get_str(1).is_none());
    assert!(intern.get_str(usize::MAX).is_none());
}

#[test]
fn parser_interns_at_recognition() {
    let mut p = protogen::parser::Parser::new("message b { a a = 1; b c = 2; }");
    assert!(p.next_parse().unwrap().is_ok());
    assert_eq!(p.intern.len(), 3);
    assert_eq!(p.intern.get_id("b"), 0);
    assert_eq!(p.intern.get_id("a"), 1);
    assert_eq!(p.intern.get_id("c"), 2);
}
