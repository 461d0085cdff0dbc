use flat_router::lnode::{LAttributeValue, LNode, MacroAttribute, MacroNode};

fn s(x: &str) -> String {
    String::from(x)
}

#[test]
fn text_renders_as_is() {
    assert_eq!(LNode::Text(s("hello")).to_html(), "hello");
}

#[test]
fn fragment_concatenates_children() {
    let n = LNode::Fragment(vec![LNode::Text(s("a")), LNode::Text(s("b"))]);
    assert_eq!(n.to_html(), "ab");
}

#[test]
fn element_with_children_renders_attrs_and_children() {
    let n = LNode::Element {
        name: s("div"),
        attrs: vec![
            (s("class"), LAttributeValue::Static(s("main"))),
            (s("hidden"), LAttributeValue::Boolean),
            (s("style"), LAttributeValue::Dynamic),
            (s("on:click"), LAttributeValue::Noop),
        ],
        children: vec![LNode::Text(s("hi"))],
    };
    assert_eq!(n.to_html(), "<div class=\"main\" hidden >hi</div>");
}

#[test]
fn childless_element_self_closes() {
    let n = LNode::Element {
        name: s("br"),
        attrs: vec![],
        children: vec![],
    };
    assert_eq!(n.to_html(), "<br />");
}

#[test]
fn component_renders_compile_placeholder() {
    let n = LNode::Component(s("Counter"), vec![]);
    assert_eq!(
        n.to_html(),
        "<!--<Counter>--><pre>&lt;Counter/&gt; will load once Rust code has been \
         compiled.</pre><!--</Counter>-->"
    );
}

#[test]
fn dyn_child_renders_compile_placeholder() {
    let n = LNode::DynChild(s("move || count.get()"));
    assert_eq!(
        n.to_html(),
        "<!--<DynChild>--><pre>Dynamic content will load once Rust code has been \
         compiled.</pre><!--</DynChild>-->"
    );
}

#[test]
fn parse_view_returns_single_node_unwrapped() {
    let r = LNode::parse_view(vec![MacroNode::Text {
        literal: Some(s("hi")),
        code: s("\"hi\""),
    }]);
    assert_eq!(r, LNode::Text(s("hi")));
}

#[test]
fn parse_view_wraps_many_nodes_in_fragment() {
    let r = LNode::parse_view(vec![
        MacroNode::Text {
            literal: Some(s("a")),
            code: s("\"a\""),
        },
        MacroNode::Block {
            code: s("move || b()"),
        },
    ]);
    assert_eq!(
        r,
        LNode::Fragment(vec![LNode::Text(s("a")), LNode::DynChild(s("move || b()"))])
    );
}

#[test]
fn parse_node_flattens_fragments_and_skips_other() {
    let r = LNode::parse_view(vec![MacroNode::Fragment(vec![
        MacroNode::Other,
        MacroNode::Text {
            literal: None,
            code: s("{ count }"),
        },
    ])]);
    assert_eq!(r, LNode::DynChild(s("{ count }")));
}

#[test]
fn parse_element_keeps_literal_attrs_static_and_others_dynamic() {
    let r = LNode::parse_view(vec![MacroNode::Element {
        name: s("div"),
        attrs: vec![
            MacroAttribute {
                name: s("class"),
                literal: Some(s("main")),
                debug_text: s("Some(\"main\")"),
            },
            MacroAttribute {
                name: s("style"),
                literal: None,
                debug_text: s("Some(style())"),
            },
        ],
        children: vec![MacroNode::Text {
            literal: Some(s("x")),
            code: s("\"x\""),
        }],
        is_component: false,
    }]);
    assert_eq!(
        r,
        LNode::Element {
            name: s("div"),
            attrs: vec![
                (s("class"), LAttributeValue::Static(s("main"))),
                (s("style"), LAttributeValue::Dynamic),
            ],
            children: vec![LNode::Text(s("x"))],
        }
    );
}

#[test]
fn parse_component_keeps_attr_debug_texts() {
    let r = LNode::parse_view(vec![MacroNode::Element {
        name: s("Counter"),
        attrs: vec![MacroAttribute {
            name: s("count"),
            literal: None,
            debug_text: s("Some(count)"),
        }],
        children: vec![],
        is_component: true,
    }]);
    assert_eq!(
        r,
        LNode::Component(s("Counter"), vec![(s("count"), s("Some(count)"))])
    );
}

#[test]
fn parse_view_of_nothing_is_an_empty_fragment() {
    let r = LNode::parse_view(vec![]);
    assert_eq!(r, LNode::Fragment(vec![]));
    assert_eq!(r.to_html(), "");
}
