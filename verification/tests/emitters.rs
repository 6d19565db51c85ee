use dominator_static::dom::{Attr, Node};
use dominator_static::html::{HtmlError, StaticHtml};
use dominator_static::markdown::{conv_heading, MdError, MdEvent, MdTag, StaticMarkdown};
use dominator_static::text::{escape_text, indent, split_ws_str};
use dominator_static::{classify_path, out_name, Convertor, FileKind};

fn el(tag: &str, classes: Vec<&str>, attrs: Vec<(&str, &str)>, children: Vec<Node>) -> Node {
    Node::Element {
        tag: tag.to_string(),
        classes: classes.into_iter().map(|c| c.to_string()).collect(),
        attrs: attrs
            .into_iter()
            .map(|(n, v)| Attr { name: n.to_string(), value: v.to_string() })
            .collect(),
        children,
    }
}

fn text(s: &str) -> Node {
    Node::Text(s.to_string())
}

fn gen(children: Vec<Node>, trim: bool) -> Result<String, HtmlError> {
    StaticHtml::from_nodes(children, trim).gen_dominator()
}

#[test]
fn empty_document_emits_nothing() {
    assert_eq!(gen(vec![], false).unwrap(), "");
}

#[test]
fn invisible_only_document_emits_nothing() {
    assert_eq!(gen(vec![Node::Comment, text("")], false).unwrap(), "");
}

#[test]
fn single_child_is_unwrapped() {
    let out = gen(vec![el("div", vec![], vec![], vec![])], false).unwrap();
    assert_eq!(out, "::dominator::html!(\"div\", {\n})\n");
}

#[test]
fn two_children_are_wrapped_in_a_sequence_literal() {
    let out = gen(
        vec![el("div", vec![], vec![], vec![]), el("div", vec![], vec![], vec![])],
        false,
    )
    .unwrap();
    assert_eq!(
        out,
        "[\n  ::dominator::html!(\"div\", {\n  }),\n  ::dominator::html!(\"div\", {\n  })\n]\n"
    );
}

#[test]
fn two_classes_emit_the_list_form_in_order() {
    let out = gen(vec![el("div", vec!["a", "b"], vec![], vec![])], false).unwrap();
    assert_eq!(out, "::dominator::html!(\"div\", {\n  .class([\"a\", \"b\"])\n})\n");
}

#[test]
fn one_class_emits_the_single_class_form() {
    let out = gen(vec![el("div", vec!["a"], vec![], vec![])], false).unwrap();
    assert_eq!(out, "::dominator::html!(\"div\", {\n  .class(\"a\")\n})\n");
}

#[test]
fn style_attribute_skips_empty_segments() {
    let out = gen(
        vec![el("div", vec![], vec![("style", "color:red; ;margin:0")], vec![])],
        false,
    )
    .unwrap();
    assert_eq!(
        out,
        "::dominator::html!(\"div\", {\n  .style(\"color\", \"red\")\n  .style(\"margin\", \"0\")\n})\n"
    );
}

#[test]
fn style_without_separator_is_fatal() {
    let r = gen(vec![el("div", vec![], vec![("style", "color")], vec![])], false);
    assert_eq!(r, Err(HtmlError::BadStyle));
}

#[test]
fn generic_attribute_is_emitted_and_class_attr_is_skipped() {
    let out = gen(
        vec![el("div", vec![], vec![("class", "a"), ("id", "x")], vec![])],
        false,
    )
    .unwrap();
    assert_eq!(out, "::dominator::html!(\"div\", {\n  .attr(\"id\", \"x\")\n})\n");
}

#[test]
fn prefixed_tag_name_is_fatal() {
    let r = gen(vec![el("foo:bar", vec![], vec![], vec![])], false);
    assert_eq!(r, Err(HtmlError::PrefixedName));
}

#[test]
fn prefixed_attribute_name_is_fatal() {
    let r = gen(vec![el("div", vec![], vec![("xml:lang", "en")], vec![])], false);
    assert_eq!(r, Err(HtmlError::PrefixedName));
}

#[test]
fn escape_without_text_child_is_fatal() {
    let r = gen(vec![el("escape", vec![], vec![], vec![])], false);
    assert_eq!(r, Err(HtmlError::BadEscape));
}

#[test]
fn mixed_children_use_the_children_list_with_commas() {
    let out = gen(
        vec![el("div", vec![], vec![], vec![el("span", vec![], vec![], vec![]), text("x")])],
        false,
    )
    .unwrap();
    assert_eq!(
        out,
        "::dominator::html!(\"div\", {\n  .children([\n    ::dominator::html!(\"span\", {\n    }),\n    ::dominator::text(\"x\")\n  ])\n})\n"
    );
}

#[test]
fn trim_flag_off_preserves_text_whitespace() {
    let doc = StaticHtml::from_str("<div>  hi  </div>", false).unwrap();
    let out = doc.gen_dominator().unwrap();
    assert_eq!(
        out,
        "::dominator::html!(\"div\", {\n  .child(\n    ::dominator::text(\"  hi  \")\n  )\n})\n"
    );
}

#[test]
fn trim_flag_on_trims_text() {
    let doc = StaticHtml::from_str("<div>  hi  </div>", true).unwrap();
    let out = doc.gen_dominator().unwrap();
    assert_eq!(
        out,
        "::dominator::html!(\"div\", {\n  .child(\n    ::dominator::text(\"hi\")\n  )\n})\n"
    );
}

#[test]
fn escape_hatch_is_verbatim_without_wrapping() {
    let doc = StaticHtml::from_str("<escape>console.log(1);</escape>", false).unwrap();
    assert_eq!(doc.gen_dominator().unwrap(), "console.log(1);\n");
    let doc = StaticHtml::from_str("<escape>console.log(1);</escape>", true).unwrap();
    assert_eq!(doc.gen_dominator().unwrap(), "console.log(1);\n");
}

#[test]
fn comments_are_pruned() {
    let doc = StaticHtml::from_str("<!-- only a comment -->", false).unwrap();
    assert_eq!(doc.gen_dominator().unwrap(), "");
}

#[test]
fn edge_whitespace_is_pruned() {
    let doc = StaticHtml::from_str("<div> <span></span> </div>", false).unwrap();
    let out = doc.gen_dominator().unwrap();
    assert_eq!(
        out,
        "::dominator::html!(\"div\", {\n  .child(\n    ::dominator::html!(\"span\", {\n    })\n  )\n})\n"
    );
}

#[test]
fn escaping_leaves_plain_text_unchanged() {
    assert_eq!(escape_text("hello world"), "hello world");
}

#[test]
fn escaping_rewrites_special_characters() {
    assert_eq!(escape_text("a\"b\\c\nd\te"), "a\\\"b\\\\c\\nd\\te");
    assert_eq!(escape_text("\u{1}"), "\\u{1}");
}

#[test]
fn indent_is_two_spaces_per_level() {
    assert_eq!(indent(0), "");
    assert_eq!(indent(3), "      ");
}

#[test]
fn heading_names_follow_the_level() {
    assert_eq!(conv_heading(1), "h1");
    assert_eq!(conv_heading(6), "h6");
}

#[test]
fn ordered_list_start_attribute_follows_the_open_line() {
    let sm = StaticMarkdown {
        events: vec![
            MdEvent::Start(MdTag::List(Some(3))),
            MdEvent::Start(MdTag::Item),
            MdEvent::Text("x".to_string()),
            MdEvent::End(MdTag::Item),
            MdEvent::End(MdTag::List(Some(3))),
        ],
    };
    let out = sm.generate_dominator().unwrap();
    assert_eq!(
        out,
        ".child(::dominator::html!(\"ul\", {\n  .attr(\"start\", \"3\")\n  .child(::dominator::html!(\"li\", {\n    .text(\"x\")\n  })\n})\n"
    );
}

#[test]
fn unbalanced_stream_is_reported() {
    let sm = StaticMarkdown { events: vec![MdEvent::End(MdTag::Paragraph)] };
    assert_eq!(sm.generate_dominator(), Err(MdError::Unbalanced));
}

#[test]
fn markdown_paragraph_round_trip() {
    let sm = StaticMarkdown::from_str("hello");
    let out = sm.generate_dominator().unwrap();
    assert_eq!(out, ".child(::dominator::html!(\"p\", {\n  .text(\"hello\")\n})\n");
}

#[test]
fn markdown_heading_round_trip() {
    let sm = StaticMarkdown::from_str("# Title");
    let out = sm.generate_dominator().unwrap();
    assert_eq!(out, ".child(::dominator::html!(\"h1\", {\n  .text(\"Title\")\n})\n");
}

#[test]
fn markdown_code_span_is_self_contained() {
    let sm = StaticMarkdown { events: vec![MdEvent::Code("y".to_string())] };
    let out = sm.generate_dominator().unwrap();
    assert_eq!(out, ".child(::dominator::html!(\"code\", {\n  .text(\"y\")\n})\n");
}

#[test]
fn markdown_rule_has_no_trailing_newline() {
    let sm = StaticMarkdown { events: vec![MdEvent::Rule] };
    assert_eq!(sm.generate_dominator().unwrap(), ".child(::dominator::html!(\"hr\"))");
}

#[test]
fn markdown_text_is_escaped() {
    let sm = StaticMarkdown { events: vec![MdEvent::Text("a\"b".to_string())] };
    assert_eq!(sm.generate_dominator().unwrap(), ".text(\"a\\\"b\")\n");
}

#[test]
fn markdown_link_emits_href_and_title() {
    let sm = StaticMarkdown {
        events: vec![
            MdEvent::Start(MdTag::Link("https://example.org".to_string(), "t".to_string())),
            MdEvent::Text("go".to_string()),
            MdEvent::End(MdTag::Link("https://example.org".to_string(), "t".to_string())),
        ],
    };
    let out = sm.generate_dominator().unwrap();
    assert_eq!(
        out,
        ".child(::dominator::html!(\"a\", {\n  .attr(\"href\", \"https://example.org\")\n  .attr(\"title\", \"t\")\n  .text(\"go\")\n})\n"
    );
}

#[test]
fn single_escape_child_uses_the_children_list() {
    let out = gen(
        vec![el("div", vec![], vec![], vec![el("escape", vec![], vec![], vec![text("x()")])])],
        false,
    )
    .unwrap();
    assert_eq!(out, "::dominator::html!(\"div\", {\n  .children([\n    x()\n  ])\n})\n");
}

#[test]
fn unordered_list_has_no_start_attribute() {
    let sm = StaticMarkdown {
        events: vec![MdEvent::Start(MdTag::List(None)), MdEvent::End(MdTag::List(None))],
    };
    assert_eq!(
        sm.generate_dominator().unwrap(),
        ".child(::dominator::html!(\"ul\", {\n})\n"
    );
}

#[test]
fn block_quote_opens_its_container() {
    let sm = StaticMarkdown {
        events: vec![MdEvent::Start(MdTag::BlockQuote), MdEvent::End(MdTag::BlockQuote)],
    };
    assert_eq!(
        sm.generate_dominator().unwrap(),
        ".child(::dominator::html!(\"blockquote\", {\n})\n"
    );
}

#[test]
fn image_emits_src_and_title() {
    let sm = StaticMarkdown {
        events: vec![
            MdEvent::Start(MdTag::Image("i.png".to_string(), "t".to_string())),
            MdEvent::End(MdTag::Image("i.png".to_string(), "t".to_string())),
        ],
    };
    assert_eq!(
        sm.generate_dominator().unwrap(),
        ".child(::dominator::html!(\"img\", {\n  .attr(\"src\", \"i.png\")\n  .attr(\"title\", \"t\")\n})\n"
    );
}

#[test]
fn list_start_numbers_print_in_full() {
    let sm = StaticMarkdown {
        events: vec![
            MdEvent::Start(MdTag::List(Some(1234567890))),
            MdEvent::End(MdTag::List(Some(1234567890))),
        ],
    };
    assert_eq!(
        sm.generate_dominator().unwrap(),
        ".child(::dominator::html!(\"ul\", {\n  .attr(\"start\", \"1234567890\")\n})\n"
    );
}

#[test]
fn delete_character_is_hex_escaped() {
    assert_eq!(escape_text("\u{7f}"), "\\u{7f}");
}

#[test]
fn parsed_classes_keep_document_order() {
    let doc = StaticHtml::from_str("<div class=\"b a\"></div>", false).unwrap();
    let out = doc.gen_dominator().unwrap();
    assert_eq!(out, "::dominator::html!(\"div\", {\n  .class([\"b\", \"a\"])\n})\n");
}

#[test]
fn parsed_attributes_keep_source_order() {
    let doc = StaticHtml::from_str("<div id=\"x\" alt=\"y\"></div>", false).unwrap();
    let out = doc.gen_dominator().unwrap();
    assert_eq!(
        out,
        "::dominator::html!(\"div\", {\n  .attr(\"id\", \"x\")\n  .attr(\"alt\", \"y\")\n})\n"
    );
}

#[test]
fn whitespace_split_keeps_order() {
    assert_eq!(split_ws_str("  b \t a "), vec!["b".to_string(), "a".to_string()]);
    assert_eq!(split_ws_str(""), Vec::<String>::new());
    assert_eq!(split_ws_str("one"), vec!["one".to_string()]);
}

#[test]
fn errors_describe_themselves() {
    assert!(HtmlError::BadStyle.describe().contains("separator"));
    assert!(MdError::Unbalanced.describe().contains("unbalanced"));
}

#[test]
fn convertor_holds_path_and_flag() {
    let c = Convertor::new("content".to_string());
    assert_eq!(c.path, "content");
    assert!(!c.trim_html);
    let c = c.trim_html(true);
    assert!(c.trim_html);
}

#[test]
fn extensions_route_to_the_emitters() {
    assert_eq!(classify_path("a/b.html"), FileKind::Html);
    assert_eq!(classify_path("a/b.htm"), FileKind::Html);
    assert_eq!(classify_path("notes.md"), FileKind::Markdown);
    assert_eq!(classify_path("noext"), FileKind::Other);
    assert_eq!(classify_path(".gitignore"), FileKind::Other);
    assert_eq!(classify_path("a.md/plain"), FileKind::Other);
}

#[test]
fn output_names_replace_the_extension() {
    assert_eq!(out_name("dir/page.html"), "dir/page.rs.inc");
    assert_eq!(out_name("notes.md"), "notes.rs.inc");
    assert_eq!(out_name("plain"), "plain.rs.inc");
}
