use html2maud::convert::maud_of_nodes;
use html2maud::model::{Attr, Node};

fn cv(s: &str) -> Vec<char> {
    s.chars().collect()
}

#[test]
fn empty_container_collapses() {
    let nodes = vec![Node::Tag {
        name: cv("div"),
        classes: None,
        id: None,
        attrs: Vec::new(),
        children: Vec::new(),
    }];
    assert_eq!(maud_of_nodes(&nodes), "html! {\n    div {}\n}");
}

#[test]
fn void_tag_children_are_never_visited() {
    let nodes = vec![Node::Tag {
        name: cv("br"),
        classes: None,
        id: None,
        attrs: Vec::new(),
        children: vec![Node::Raw { text: cv("ignored") }],
    }];
    assert_eq!(maud_of_nodes(&nodes), "html! {\n    br;\n}");
}

#[test]
fn bare_attribute_has_no_value() {
    let nodes = vec![Node::Tag {
        name: cv("input"),
        classes: None,
        id: None,
        attrs: vec![Attr { key: cv("disabled"), value: None }],
        children: Vec::new(),
    }];
    assert_eq!(maud_of_nodes(&nodes), "html! {\n    input disabled;\n}");
}

#[test]
fn id_and_class_keys_are_skipped_in_generic_attributes() {
    let nodes = vec![Node::Tag {
        name: cv("div"),
        classes: Some(vec![cv("c")]),
        id: Some(cv("z")),
        attrs: vec![
            Attr { key: cv("id"), value: Some(cv("z")) },
            Attr { key: cv("class"), value: Some(cv("c")) },
            Attr { key: cv("role"), value: Some(cv("main")) },
        ],
        children: Vec::new(),
    }];
    assert_eq!(maud_of_nodes(&nodes), "html! {\n    div.\"c\" #z role=\"main\" {}\n}");
}

#[test]
fn empty_class_list_still_emits_quoted_segment() {
    let nodes = vec![Node::Tag {
        name: cv("div"),
        classes: Some(Vec::new()),
        id: None,
        attrs: Vec::new(),
        children: Vec::new(),
    }];
    assert_eq!(maud_of_nodes(&nodes), "html! {\n    div.\"\" {}\n}");
}

#[test]
fn raw_text_is_trimmed_and_quoted() {
    let nodes = vec![Node::Raw { text: cv("  hello  ") }];
    assert_eq!(maud_of_nodes(&nodes), "html! {\n    \"hello\"\n}");
}

#[test]
fn raw_text_trim_covers_unicode_whitespace() {
    let nodes = vec![Node::Raw { text: cv("\u{a0}hi\u{2009}") }];
    assert_eq!(maud_of_nodes(&nodes), "html! {\n    \"hi\"\n}");
    let blank = vec![Node::Raw { text: cv("\u{a0}\u{3000}") }];
    assert_eq!(maud_of_nodes(&blank), "html! {}");
}

#[test]
fn comment_node_emits_nothing() {
    let nodes = vec![Node::Comment, Node::Raw { text: cv("x") }];
    assert_eq!(maud_of_nodes(&nodes), "html! {\n    \"x\"\n}");
}

#[test]
fn maud_of_nodes_is_deterministic() {
    let make = || {
        vec![Node::Tag {
            name: cv("span"),
            classes: Some(vec![cv("a"), cv("b")]),
            id: Some(cv("s")),
            attrs: Vec::new(),
            children: vec![Node::Raw { text: cv("t") }],
        }]
    };
    assert_eq!(maud_of_nodes(&make()), maud_of_nodes(&make()));
}
