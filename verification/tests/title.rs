use heck::{to_title_case, ToTitleCase};

#[test]
fn title_test1() {
    assert_eq!("CamelCase".to_title_case(), "Camel Case");
}

#[test]
fn title_test2() {
    assert_eq!("This is Human case.".to_title_case(), "This Is Human Case");
}

#[test]
fn title_test3() {
    assert_eq!(
        "MixedUP CamelCase, with some Spaces".to_title_case(),
        "Mixed Up Camel Case With Some Spaces"
    );
}

#[test]
fn title_test4() {
    assert_eq!(
        "mixed_up_ snake_case, with some _spaces".to_title_case(),
        "Mixed Up Snake Case With Some Spaces"
    );
}

#[test]
fn title_test5() {
    assert_eq!("kebab-case".to_title_case(), "Kebab Case");
}

#[test]
fn title_test6() {
    assert_eq!("SHOUTY_SNAKE_CASE".to_title_case(), "Shouty Snake Case");
}

#[test]
fn title_test7() {
    assert_eq!("snake_case".to_title_case(), "Snake Case");
}

#[test]
fn title_test8() {
    assert_eq!(
        "this-contains_ ALLKinds OfWord_Boundaries".to_title_case(),
        "This Contains All Kinds Of Word Boundaries"
    );
}

#[test]
fn title_test9() {
    assert_eq!("XΣXΣ baﬄe".to_title_case(), "Xσxς Baﬄe");
}

#[test]
fn title_test10() {
    assert_eq!("XMLHttpRequest".to_title_case(), "Xml Http Request");
}

#[test]
fn title_function_agrees_with_trait() {
    assert_eq!(to_title_case("XMLHttpRequest", false), "Xml Http Request");
    assert_eq!(to_title_case("XΣXΣ baﬄe", false), "Xσxς Baﬄe");
}
