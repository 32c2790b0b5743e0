use html2maud::convert::html2maud;

#[test]
fn convert_deterministic() {
    let src = "<div class='container' id='main'><span class='badge'>Hello</span>\
               <input disabled /></div>";
    let a = html2maud(src).unwrap();
    let b = html2maud(src).unwrap();
    assert_eq!(a, b);
}

#[test]
fn class_tokens_merge_into_one_literal() {
    let out = html2maud("<div class=\"a b\"></div>").unwrap();
    assert_eq!(out, "html! {\n    div.\"a b\" {}\n}");
    assert_eq!(out.matches(".\"a b\"").count(), 1);
    assert!(!out.contains(".a.b"));
}

#[test]
fn unique_id_keeps_shorthand() {
    let out = html2maud("<div id=\"main\"><span>Hi</span></div>").unwrap();
    assert_eq!(
        out,
        "html! {\n    div #main {\n        span {\n            \"Hi\"\n        }\n    }\n}"
    );
    assert!(out.contains("#main"));
}

#[test]
fn colliding_id_is_promoted() {
    let out = html2maud("<div id=\"x\" class=\"x\"></div>").unwrap();
    assert_eq!(out, "html! {\n    div.\"x\" id=\"x\" {}\n}");
    assert!(out.contains("id=\"x\""));
    assert!(!out.contains("#x"));
}

#[test]
fn void_element_with_attribute() {
    let out = html2maud("<meta charset=\"utf-8\">").unwrap();
    assert_eq!(out, "html! {\n    meta charset=\"utf-8\";\n}");
    assert!(!out.contains("meta charset=\"utf-8\" {"));
}

#[test]
fn comment_is_dropped() {
    let out = html2maud("<!-- note --><p>Hi</p>").unwrap();
    assert_eq!(out, "html! {\n    p {\n        \"Hi\"\n    }\n}");
    assert!(!out.contains("note"));
}

#[test]
fn empty_input_gives_empty_template() {
    let out = html2maud("").unwrap();
    assert_eq!(out, "html! {}");
}

#[test]
fn void_element_has_no_block() {
    let out = html2maud("<br>").unwrap();
    assert_eq!(out, "html! {\n    br;\n}");
}

#[test]
fn quotes_in_text_are_escaped() {
    let out = html2maud("<p>say \"hi\"</p>").unwrap();
    assert_eq!(out, "html! {\n    p {\n        \"say \\\"hi\\\"\"\n    }\n}");
}

#[test]
fn siblings_keep_their_order() {
    let out = html2maud("<ul><li>a</li><li>b</li></ul>").unwrap();
    assert_eq!(
        out,
        "html! {\n    ul {\n        li {\n            \"a\"\n        }\n        li {\n            \"b\"\n        }\n    }\n}"
    );
}

#[test]
fn generic_attributes_keep_document_order() {
    let out = html2maud("<p title=\"t\" lang=\"en\">x</p>").unwrap();
    assert_eq!(
        out,
        "html! {\n    p title=\"t\" lang=\"en\" {\n        \"x\"\n    }\n}"
    );
}

#[test]
fn hyphenated_unique_id_keeps_shorthand() {
    let out = html2maud("<div id=\"my-box\"></div>").unwrap();
    assert_eq!(out, "html! {\n    div #my-box {}\n}");
}

#[test]
fn nested_empty_container_collapses_only_itself() {
    let out = html2maud("<div><span></span></div>").unwrap();
    assert_eq!(out, "html! {\n    div {\n        span {}\n    }\n}");
}

#[test]
fn void_element_nested_in_container() {
    let out = html2maud("<p>a<br>b</p>").unwrap();
    assert_eq!(
        out,
        "html! {\n    p {\n        \"a\"\n        br;\n        \"b\"\n    }\n}"
    );
}

#[test]
fn whitespace_only_text_emits_nothing() {
    let out = html2maud("<div>   \n   </div>").unwrap();
    assert_eq!(out, "html! {\n    div {}\n}");
}
