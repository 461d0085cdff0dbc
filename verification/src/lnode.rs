//! A lightweight virtual DOM for view-macro templates.
//!
//! Holds the shape of a view template as plain data — the macro parser's own
//! node types cannot be sent between threads — so templates can be diffed and
//! a development-mode preview of the markup emitted. Dynamic parts are kept
//! only as their source text and render as placeholders.

use vstd::prelude::*;

verus! {

/// A template node.
#[derive(Debug, PartialEq, Eq, Hash)]
pub enum LNode {
    Fragment(Vec<LNode>),
    Text(String),
    Element { name: String, attrs: Vec<(String, LAttributeValue)>, children: Vec<LNode> },
    /// A component invocation: name and attribute key/value texts. Skipped
    /// during patching, since it holds its own templates.
    Component(String, Vec<(String, String)>),
    /// A dynamic child, kept as its source text.
    DynChild(String),
}

/// A template attribute value.
#[derive(Debug, Clone, PartialEq, Eq, Hash)]
pub enum LAttributeValue {
    Boolean,
    Static(String),
    /// Safely ignored when emitting markup.
    Dynamic,
    Noop,
}

/// Mathematical value of an [`LNode`].
#[verifier::ext_equal]
pub ghost enum LNodeModel {
    Fragment(Seq<LNodeModel>),
    Text(Seq<char>),
    Element { name: Seq<char>, attrs: Seq<(Seq<char>, LAttrModel)>, children: Seq<LNodeModel> },
    Component(Seq<char>, Seq<(Seq<char>, Seq<char>)>),
    DynChild(Seq<char>),
}

/// Mathematical value of an [`LAttributeValue`].
#[verifier::ext_equal]
pub ghost enum LAttrModel {
    Boolean,
    Static(Seq<char>),
    Dynamic,
    Noop,
}

/// Mathematical value of an attribute value.
pub open spec fn lattr_model(a: LAttributeValue) -> LAttrModel {
    match a {
        LAttributeValue::Boolean => LAttrModel::Boolean,
        LAttributeValue::Static(s) => LAttrModel::Static(s@),
        LAttributeValue::Dynamic => LAttrModel::Dynamic,
        LAttributeValue::Noop => LAttrModel::Noop,
    }
}

/// Mathematical value of an element attribute list.
pub open spec fn lattrs_model(s: Seq<(String, LAttributeValue)>) -> Seq<(Seq<char>, LAttrModel)> {
    s.map_values(|a: (String, LAttributeValue)| (a.0@, lattr_model(a.1)))
}

/// Mathematical value of a component attribute list.
pub open spec fn pairs_model(s: Seq<(String, String)>) -> Seq<(Seq<char>, Seq<char>)> {
    s.map_values(|a: (String, String)| (a.0@, a.1@))
}

/// The element attributes a macro attribute list parses to.
pub open spec fn macro_attrs_model(s: Seq<MacroAttribute>) -> Seq<(Seq<char>, LAttrModel)> {
    s.map_values(|a: MacroAttribute| (a.name@, attr_of(a)))
}

/// The component attribute texts a macro attribute list parses to.
pub open spec fn macro_attr_pairs(s: Seq<MacroAttribute>) -> Seq<(Seq<char>, Seq<char>)> {
    s.map_values(|a: MacroAttribute| (a.name@, a.debug_text@))
}

/// A node list's model is as long as the list.
pub proof fn lemma_lnodes_model_len(s: Seq<LNode>)
    ensures
        lnodes_model(s).len() == s.len(),
    decreases s.len(),
{
    if s.len() > 0 {
        lemma_lnodes_model_len(s.drop_last());
    }
}

/// Mathematical value of a node.
pub open spec fn lnode_model(n: LNode) -> LNodeModel
    decreases n,
{
    match n {
        LNode::Fragment(children) => LNodeModel::Fragment(lnodes_model(children@)),
        LNode::Text(t) => LNodeModel::Text(t@),
        LNode::Element { name, attrs, children } => LNodeModel::Element {
            name: name@,
            attrs: lattrs_model(attrs@),
            children: lnodes_model(children@),
        },
        LNode::Component(name, attrs) => LNodeModel::Component(name@, pairs_model(attrs@)),
        LNode::DynChild(code) => LNodeModel::DynChild(code@),
    }
}

/// Mathematical value of a node list.
pub open spec fn lnodes_model(ns: Seq<LNode>) -> Seq<LNodeModel>
    decreases ns,
{
    if ns.len() == 0 {
        Seq::empty()
    } else {
        lnodes_model(ns.drop_last()).push(lnode_model(ns.last()))
    }
}

/// Markup of one attribute: boolean attributes emit the bare name, static
/// ones a quoted value, dynamic ones nothing; each emitted attribute ends
/// with a trailing space.
pub open spec fn attr_html(name: Seq<char>, value: LAttrModel) -> Seq<char> {
    match value {
        LAttrModel::Boolean => name + " "@,
        LAttrModel::Static(v) => name + "=\""@ + v + "\" "@,
        LAttrModel::Dynamic => Seq::empty(),
        LAttrModel::Noop => Seq::empty(),
    }
}

/// Markup of an attribute list, in order.
pub open spec fn attrs_html(attrs: Seq<(Seq<char>, LAttrModel)>) -> Seq<char>
    decreases attrs.len(),
{
    if attrs.len() == 0 {
        Seq::empty()
    } else {
        attrs_html(attrs.drop_last()) + attr_html(attrs.last().0, attrs.last().1)
    }
}

/// The placeholder markup a component renders to in development mode.
pub open spec fn component_html(name: Seq<char>) -> Seq<char> {
    "<!--<"@ + name + ">--><pre>&lt;"@ + name
        + "/&gt; will load once Rust code has been compiled.</pre><!--</"@ + name + ">-->"@
}

/// Markup of a node: fragments concatenate their children, text is emitted
/// as-is, components and dynamic children render placeholders, and elements
/// self-close exactly when they have no children.
pub open spec fn html_of(n: LNodeModel) -> Seq<char>
    decreases n,
{
    match n {
        LNodeModel::Fragment(children) => htmls_of(children),
        LNodeModel::Text(t) => t,
        LNodeModel::Element { name, attrs, children } => if children.len() == 0 {
            "<"@ + name + " "@ + attrs_html(attrs) + "/>"@
        } else {
            "<"@ + name + " "@ + attrs_html(attrs) + ">"@ + htmls_of(children) + "</"@ + name
                + ">"@
        },
        LNodeModel::Component(name, attrs) => component_html(name),
        LNodeModel::DynChild(code) => "<!--<DynChild>--><pre>Dynamic content will load once Rust code has been compiled.</pre><!--</DynChild>-->"@,
    }
}

/// Markup of a node list, in order.
pub open spec fn htmls_of(ns: Seq<LNodeModel>) -> Seq<char>
    decreases ns,
{
    if ns.len() == 0 {
        Seq::empty()
    } else {
        htmls_of(ns.drop_last()) + html_of(ns.last())
    }
}

impl LNode {
    /// Emit the development-mode markup of this template.
    #[verifier::loop_isolation(false)]
    pub fn to_html(&self) -> (r: String)
        ensures
            r@ == html_of(lnode_model(*self)),
        decreases *self,
    {
        match self {
            LNode::Fragment(frag) => {
                let mut acc = String::new();
                let mut i: usize = 0;
                proof {
                    assert(lnodes_model(frag@.take(0)) =~= Seq::empty());
                    assert(htmls_of(Seq::empty()) =~= Seq::<char>::empty());
                }
                while i < frag.len()
                    invariant
                        i <= frag.len(),
                        acc@ == htmls_of(lnodes_model(frag@.take(i as int))),
                    decreases frag.len() - i,
                {
                    proof {
                        assert(frag@[i as int] == frag[i as int]);
                        assert(decreases_to!(*self => *frag));
                        assert(decreases_to!(*frag => frag@));
                        assert(decreases_to!(frag@ => frag@[i as int]));
                    }
                    let piece = frag[i].to_html();
                    acc.append(piece.as_str());
                    proof {
                        lemma_lnodes_model_take(frag@, i as int);
                    }
                    i += 1;
                }
                proof {
                    assert(frag@.take(frag@.len() as int) =~= frag@);
                }
                acc
            },
            LNode::Text(text) => text.clone(),
            LNode::Component(name, _attrs) => {
                let mut acc = String::new();
                acc.append("<!--<");
                acc.append(name.as_str());
                acc.append(">--><pre>&lt;");
                acc.append(name.as_str());
                acc.append("/&gt; will load once Rust code has been compiled.</pre><!--</");
                acc.append(name.as_str());
                acc.append(">-->");
                acc
            },
            LNode::DynChild(_code) => {
                let mut acc = String::new();
                acc.append(
                    "<!--<DynChild>--><pre>Dynamic content will load once Rust code has been compiled.</pre><!--</DynChild>-->",
                );
                acc
            },
            LNode::Element { name, attrs, children } => {
                let mut rendered_attrs = String::new();
                let ghost attrs_m = lattrs_model(attrs@);
                let mut i: usize = 0;
                proof {
                    assert(attrs_m.take(0) =~= Seq::empty());
                }
                while i < attrs.len()
                    invariant
                        i <= attrs.len(),
                        attrs_m == lattrs_model(attrs@),
                        attrs_m.len() == attrs@.len(),
                        rendered_attrs@ == attrs_html(attrs_m.take(i as int)),
                    decreases attrs.len() - i,
                {
                    let a_name = &attrs[i].0;
                    let a_value = &attrs[i].1;
                    match a_value {
                        LAttributeValue::Boolean => {
                            rendered_attrs.append(a_name.as_str());
                            rendered_attrs.append(" ");
                        },
                        LAttributeValue::Static(v) => {
                            rendered_attrs.append(a_name.as_str());
                            rendered_attrs.append("=\"");
                            rendered_attrs.append(v.as_str());
                            rendered_attrs.append("\" ");
                        },
                        LAttributeValue::Dynamic => {},
                        LAttributeValue::Noop => {},
                    }
                    proof {
                        assert(attrs_m[i as int] == (attrs@[i as int].0@, lattr_model(
                            attrs@[i as int].1,
                        )));
                        assert(attrs_m.take(i as int + 1).drop_last() =~= attrs_m.take(i as int));
                        assert(attrs_m.take(i as int + 1).last() == attrs_m[i as int]);
                    }
                    i += 1;
                }
                proof {
                    assert(attrs_m.take(attrs_m.len() as int) =~= attrs_m);
                }
                let mut acc = String::new();
                acc.append("<");
                acc.append(name.as_str());
                acc.append(" ");
                acc.append(rendered_attrs.as_str());
                if children.len() == 0 {
                    acc.append("/>");
                    proof {
                        assert(lnodes_model(children@) =~= Seq::empty());
                    }
                } else {
                    acc.append(">");
                    let mut i: usize = 0;
                    proof {
                        assert(lnodes_model(children@.take(0)) =~= Seq::empty());
                        assert(htmls_of(Seq::empty()) =~= Seq::<char>::empty());
                    }
                    while i < children.len()
                        invariant
                            i <= children.len(),
                            acc@ == "<"@ + name@ + " "@ + attrs_html(attrs_m) + ">"@ + htmls_of(
                                lnodes_model(children@.take(i as int)),
                            ),
                            attrs_m == lattrs_model(attrs@),
                        decreases children.len() - i,
                    {
                        proof {
                            assert(children@[i as int] == children[i as int]);
                            assert(decreases_to!(*self => *children));
                            assert(decreases_to!(*children => children@));
                            assert(decreases_to!(children@ => children@[i as int]));
                        }
                        let piece = children[i].to_html();
                        acc.append(piece.as_str());
                        proof {
                            lemma_lnodes_model_take(children@, i as int);
                        }
                        i += 1;
                    }
                    acc.append("</");
                    acc.append(name.as_str());
                    acc.append(">");
                    proof {
                        assert(children@.take(children@.len() as int) =~= children@);
                    }
                }
                acc
            },
        }
    }
}

/// What the view-macro parser hands over for one node, as plain values: the
/// source texts and literal values the template keeps, with the parser's own
/// token types already stripped away.
pub enum MacroNode {
    Fragment(Vec<MacroNode>),
    /// A text node: its value as a string literal when it is one, and its
    /// source text.
    Text { literal: Option<String>, code: String },
    /// A braced block: its source text.
    Block { code: String },
    Element {
        name: String,
        attrs: Vec<MacroAttribute>,
        children: Vec<MacroNode>,
        /// Whether the tag names a component rather than an HTML element.
        is_component: bool,
    },
    /// Comments, doctypes and stray attribute nodes: skipped.
    Other,
}

/// One attribute as the macro parser saw it.
pub struct MacroAttribute {
    pub name: String,
    /// The value as a string literal, when it is one.
    pub literal: Option<String>,
    /// The value's debug rendering, kept for component attributes.
    pub debug_text: String,
}

/// The template attribute an element attribute parses to: a static string
/// when the value is a literal, dynamic otherwise.
pub open spec fn attr_of(a: MacroAttribute) -> LAttrModel {
    match a.literal {
        Some(v) => LAttrModel::Static(v@),
        None => LAttrModel::Dynamic,
    }
}

/// The template nodes one macro node parses to: fragments flatten, literal
/// text stays text, non-literal text and blocks become dynamic children kept
/// as source text, component tags collapse to a name with attribute texts,
/// and anything else is skipped.
pub open spec fn parsed_of(n: MacroNode) -> Seq<LNodeModel>
    decreases n,
{
    match n {
        MacroNode::Fragment(children) => parsed_list(children@),
        MacroNode::Text { literal, code } => match literal {
            Some(v) => seq![LNodeModel::Text(v@)],
            None => seq![LNodeModel::DynChild(code@)],
        },
        MacroNode::Block { code } => seq![LNodeModel::DynChild(code@)],
        MacroNode::Element { name, attrs, children, is_component } => if is_component {
            seq![LNodeModel::Component(name@, macro_attr_pairs(attrs@))]
        } else {
            seq![
                LNodeModel::Element {
                    name: name@,
                    attrs: macro_attrs_model(attrs@),
                    children: parsed_list(children@),
                },
            ]
        },
        MacroNode::Other => Seq::empty(),
    }
}

/// The template nodes a macro node list parses to, in order.
pub open spec fn parsed_list(ns: Seq<MacroNode>) -> Seq<LNodeModel>
    decreases ns,
{
    if ns.len() == 0 {
        Seq::empty()
    } else {
        parsed_list(ns.drop_last()) + parsed_of(ns.last())
    }
}

/// The template a whole view macro parses to: the single node itself, or a
/// fragment of all of them.
pub open spec fn parsed_view(ns: Seq<MacroNode>) -> LNodeModel {
    let out = parsed_list(ns);
    if out.len() == 1 {
        out[0]
    } else {
        LNodeModel::Fragment(out)
    }
}

impl LNode {
    /// Parse a whole view macro's nodes into one template.
    pub fn parse_view(nodes: Vec<MacroNode>) -> (r: LNode)
        ensures
            lnode_model(r) == parsed_view(nodes@),
    {
        let ghost orig = nodes@;
        let mut out: Vec<LNode> = Vec::new();
        let mut rest = nodes;
        let ghost mut j: int = 0;
        proof {
            assert(orig.take(0) =~= Seq::<MacroNode>::empty());
            assert(lnodes_model(Seq::empty()) =~= Seq::<LNodeModel>::empty());
            assert(parsed_list(Seq::empty()) =~= Seq::<LNodeModel>::empty());
            assert(rest@ =~= orig.skip(0));
        }
        while rest.len() > 0
            invariant
                0 <= j <= orig.len(),
                rest@ == orig.skip(j),
                lnodes_model(out@) == parsed_list(orig.take(j)),
            decreases rest@.len(),
        {
            proof {
                assert(rest@[0] == orig[j]);
            }
            let node = rest.remove(0);
            LNode::parse_node(node, &mut out);
            proof {
                lemma_parsed_list_take(orig, j);
                assert(rest@ =~= orig.skip(j + 1));
                j = j + 1;
            }
        }
        proof {
            assert(orig.take(orig.len() as int) =~= orig);
            lemma_lnodes_model_len(out@);
        }
        if out.len() == 1 {
            let ghost whole = out@;
            match out.pop() {
                Some(single) => {
                    proof {
                        assert(whole.drop_last() =~= out@);
                        assert(lnodes_model(whole) == lnodes_model(out@).push(lnode_model(single)));
                        assert(lnodes_model(whole)[0] == lnode_model(single));
                    }
                    single
                },
                None => vstd::pervasive::unreached(),  // the length is one
            }
        } else {
            LNode::Fragment(out)
        }
    }

    /// Parse one macro node, appending the templates it yields.
    #[verifier::loop_isolation(false)]
    pub fn parse_node(node: MacroNode, views: &mut Vec<LNode>)
        ensures
            lnodes_model(final(views)@) == lnodes_model(old(views)@) + parsed_of(node),
        decreases node,
    {
        match node {
            MacroNode::Fragment(children) => {
                let ghost vorig = children;
                let ghost corig = children@;
                let mut rest = children;
                let ghost mut j: int = 0;
                proof {
                    assert(rest@ =~= corig.skip(0));
                    assert(corig.take(0) =~= Seq::<MacroNode>::empty());
                    assert(parsed_list(Seq::empty()) =~= Seq::<LNodeModel>::empty());
                    assert(lnodes_model(views@) + parsed_list(corig.take(0)) =~= lnodes_model(
                        views@,
                    ));
                }
                while rest.len() > 0
                    invariant
                        0 <= j <= corig.len(),
                        rest@ == corig.skip(j),
                        lnodes_model(views@) == lnodes_model(old(views)@) + parsed_list(
                            corig.take(j),
                        ),
                    decreases rest@.len(),
                {
                    proof {
                        assert(rest@[0] == corig[j]);
                    }
                    let child = rest.remove(0);
                    proof {
                        assert(decreases_to!(node => vorig));
                        assert(decreases_to!(vorig => corig));
                        assert(decreases_to!(corig => corig[j]));
                    }
                    LNode::parse_node(child, views);
                    proof {
                        lemma_parsed_list_take(corig, j);
                        assert(lnodes_model(views@) =~= lnodes_model(old(views)@) + parsed_list(
                            corig.take(j + 1),
                        ));
                        assert(rest@ =~= corig.skip(j + 1));
                        j = j + 1;
                    }
                }
                proof {
                    assert(corig.take(corig.len() as int) =~= corig);
                }
            },
            MacroNode::Text { literal, code } => {
                match literal {
                    Some(v) => {
                        views.push(LNode::Text(v));
                    },
                    None => {
                        views.push(LNode::DynChild(code));
                    },
                }
                proof {
                    lemma_lnodes_model_push(old(views)@, final(views)@);
                }
            },
            MacroNode::Block { code } => {
                views.push(LNode::DynChild(code));
                proof {
                    lemma_lnodes_model_push(old(views)@, final(views)@);
                }
            },
            MacroNode::Element { name, attrs, children, is_component } => {
                if is_component {
                    let ghost aorig = attrs@;
                    let mut rest_attrs = attrs;
                    let mut pairs: Vec<(String, String)> = Vec::new();
                    let ghost mut j: int = 0;
                    proof {
                        assert(rest_attrs@ =~= aorig.skip(0));
                    }
                    while rest_attrs.len() > 0
                        invariant
                            0 <= j <= aorig.len(),
                            rest_attrs@ == aorig.skip(j),
                            pairs@.len() == j,
                            forall|k: int|
                                0 <= k < j ==> (#[trigger] pairs@[k]).0 == aorig[k].name
                                    && pairs@[k].1 == aorig[k].debug_text,
                        decreases rest_attrs@.len(),
                    {
                        proof {
                            assert(rest_attrs@[0] == aorig[j]);
                        }
                        let a = rest_attrs.remove(0);
                        pairs.push((a.name, a.debug_text));
                        proof {
                            assert(rest_attrs@ =~= aorig.skip(j + 1));
                            j = j + 1;
                        }
                    }
                    proof {
                        assert(pairs_model(pairs@) =~= macro_attr_pairs(aorig));
                    }
                    views.push(LNode::Component(name, pairs));
                    proof {
                        lemma_lnodes_model_push(old(views)@, final(views)@);
                    }
                } else {
                    let ghost aorig = attrs@;
                    let mut rest_attrs = attrs;
                    let mut lattrs: Vec<(String, LAttributeValue)> = Vec::new();
                    let ghost mut j: int = 0;
                    proof {
                        assert(rest_attrs@ =~= aorig.skip(0));
                    }
                    while rest_attrs.len() > 0
                        invariant
                            0 <= j <= aorig.len(),
                            rest_attrs@ == aorig.skip(j),
                            lattrs@.len() == j,
                            forall|k: int|
                                0 <= k < j ==> (#[trigger] lattrs@[k]).0 == aorig[k].name
                                    && lattr_model(lattrs@[k].1) == attr_of(aorig[k]),
                        decreases rest_attrs@.len(),
                    {
                        proof {
                            assert(rest_attrs@[0] == aorig[j]);
                        }
                        let a = rest_attrs.remove(0);
                        match a.literal {
                            Some(v) => {
                                lattrs.push((a.name, LAttributeValue::Static(v)));
                            },
                            None => {
                                lattrs.push((a.name, LAttributeValue::Dynamic));
                            },
                        }
                        proof {
                            assert(rest_attrs@ =~= aorig.skip(j + 1));
                            j = j + 1;
                        }
                    }
                    proof {
                        assert(lattrs_model(lattrs@) =~= macro_attrs_model(aorig));
                    }
                    let ghost vorig = children;
                    let ghost corig = children@;
                    let mut rest = children;
                    let mut child_views: Vec<LNode> = Vec::new();
                    let ghost mut k: int = 0;
                    proof {
                        assert(rest@ =~= corig.skip(0));
                        assert(corig.take(0) =~= Seq::<MacroNode>::empty());
                        assert(lnodes_model(child_views@) =~= parsed_list(corig.take(0)));
                    }
                    while rest.len() > 0
                        invariant
                            0 <= k <= corig.len(),
                            rest@ == corig.skip(k),
                            lnodes_model(child_views@) == parsed_list(corig.take(k)),
                        decreases rest@.len(),
                    {
                        proof {
                            assert(rest@[0] == corig[k]);
                        }
                        let child = rest.remove(0);
                        proof {
                            assert(decreases_to!(node => vorig));
                            assert(decreases_to!(vorig => corig));
                            assert(decreases_to!(corig => corig[k]));
                        }
                        LNode::parse_node(child, &mut child_views);
                        proof {
                            lemma_parsed_list_take(corig, k);
                            assert(lnodes_model(child_views@) =~= parsed_list(corig.take(k + 1)));
                            assert(rest@ =~= corig.skip(k + 1));
                            k = k + 1;
                        }
                    }
                    proof {
                        assert(corig.take(corig.len() as int) =~= corig);
                    }
                    views.push(
                        LNode::Element { name, attrs: lattrs, children: child_views },
                    );
                    proof {
                        lemma_lnodes_model_push(old(views)@, final(views)@);
                    }
                }
            },
            MacroNode::Other => {
                proof {
                    assert(lnodes_model(final(views)@) =~= lnodes_model(old(views)@)
                        + Seq::empty());
                }
            },
        }
    }
}

/// Appending one node appends its model.
proof fn lemma_lnodes_model_push(before: Seq<LNode>, after: Seq<LNode>)
    requires
        after.len() == before.len() + 1,
        after.drop_last() =~= before,
    ensures
        lnodes_model(after) == lnodes_model(before).push(lnode_model(after.last())),
        lnodes_model(after) == lnodes_model(before) + seq![lnode_model(after.last())],
{
    assert(lnodes_model(after) == lnodes_model(before).push(lnode_model(after.last())));
    assert(lnodes_model(before).push(lnode_model(after.last())) =~= lnodes_model(before) + seq![
        lnode_model(after.last()),
    ]);
}

/// Parsing one more node extends the parsed list by what that node yields.
pub proof fn lemma_parsed_list_take(ns: Seq<MacroNode>, j: int)
    requires
        0 <= j < ns.len(),
    ensures
        parsed_list(ns.take(j + 1)) == parsed_list(ns.take(j)) + parsed_of(ns[j]),
{
    assert(ns.take(j + 1).drop_last() =~= ns.take(j));
    assert(ns.take(j + 1).last() == ns[j]);
    assert(ns.take(j + 1).len() == j + 1);
}

/// Taking one more node extends the model by that node's model, and the
/// emitted markup by that node's markup.
pub proof fn lemma_lnodes_model_take(ns: Seq<LNode>, i: int)
    requires
        0 <= i < ns.len(),
    ensures
        lnodes_model(ns.take(i + 1)) == lnodes_model(ns.take(i)).push(lnode_model(ns[i])),
        htmls_of(lnodes_model(ns.take(i + 1))) == htmls_of(lnodes_model(ns.take(i))) + html_of(
            lnode_model(ns[i]),
        ),
{
    assert(ns.take(i + 1).drop_last() =~= ns.take(i));
    assert(ns.take(i + 1).last() == ns[i]);
    assert(ns.take(i + 1).len() == i + 1);
    let m = lnodes_model(ns.take(i + 1));
    assert(m == lnodes_model(ns.take(i)).push(lnode_model(ns[i])));
    assert(m.drop_last() =~= lnodes_model(ns.take(i)));
    assert(m.last() == lnode_model(ns[i]));
    assert(m.len() > 0);
}

} // verus!
