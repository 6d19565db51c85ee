use vstd::prelude::*;
use crate::text::{split_ws, split_ws_str, strings_view, trimmed, trims_empty};

verus! {

/// One attribute of an element: a name/value pair.
pub struct Attr {
    pub name: String,
    pub value: String,
}

/// One node of a Parsed Document: the tree form of an HTML fragment.
/// `Comment`, `Doctype` and `Pi` carry no emitted content and are removed
/// by the first normalization pass.
pub enum Node {
    Element { tag: String, classes: Vec<String>, attrs: Vec<Attr>, children: Vec<Node> },
    Text(String),
    Comment,
    Doctype,
    Pi,
}

/// A text node whose trimmed content is empty.
pub open spec fn is_blank_text(n: Node) -> bool {
    match n {
        Node::Text(s) => trimmed(s@).len() == 0,
        _ => false,
    }
}

// ---------------------------------------------------------------------------
// Deriving class lists from the class attribute
// ---------------------------------------------------------------------------

/// The value of the first `class` attribute, if any.
pub open spec fn first_class(attrs: Seq<Attr>) -> Option<Seq<char>>
    decreases attrs.len(),
{
    if attrs.len() == 0 {
        None
    } else if attrs[0].name@ == "class"@ {
        Some(attrs[0].value@)
    } else {
        first_class(attrs.drop_first())
    }
}

/// The class names an attribute list carries: its class attribute's value
/// split on whitespace, in document order.
pub open spec fn classes_of_attrs(attrs: Seq<Attr>) -> Seq<Seq<char>> {
    match first_class(attrs) {
        None => Seq::empty(),
        Some(v) => split_ws(v),
    }
}

/// `out` is `inp` with every element's class list replaced by the names of
/// its class attribute, recursively; everything else is unchanged.
pub open spec fn classes_rel(inp: Node, out: Node) -> bool
    decreases inp,
{
    match inp {
        Node::Element { tag, classes: _, attrs, children } => match out {
            Node::Element { tag: t2, classes: c2, attrs: a2, children: k2 } => t2 == tag && a2
                == attrs && strings_view(c2@) == classes_of_attrs(attrs@) && classes_each(
                children@,
                k2@,
            ),
            _ => false,
        },
        _ => out == inp,
    }
}

/// `out` is `inp` with every node's class lists derived, element by
/// element.
pub open spec fn classes_each(inp: Seq<Node>, out: Seq<Node>) -> bool
    decreases inp,
{
    if inp.len() == 0 {
        out.len() == 0
    } else {
        out.len() > 0 && classes_rel(inp.last(), out.last()) && classes_each(
            inp.drop_last(),
            out.drop_last(),
        )
    }
}

/// The value of the first `class` attribute, if any.
fn first_class_exec(attrs: &Vec<Attr>) -> (r: Option<String>)
    ensures
        match first_class(attrs@) {
            None => r is None,
            Some(v) => r is Some && r->0@ == v,
        },
{
    let cls = String::from_str("class");
    let n = attrs.len();
    let mut i: usize = 0;
    proof {
        assert(attrs@.skip(0) =~= attrs@);
    }
    while i < n
        invariant
            i <= n,
            n == attrs@.len(),
            cls@ == "class"@,
            first_class(attrs@) == first_class(attrs@.skip(i as int)),
        decreases n - i,
    {
        proof {
            assert(attrs@.skip(i as int)[0] == attrs@[i as int]);
            assert(attrs@.skip(i as int).drop_first() =~= attrs@.skip(i + 1));
        }
        if attrs[i].name.eq(&cls) {
            return Some(attrs[i].value.clone());
        }
        i = i + 1;
    }
    proof {
        assert(attrs@.skip(n as int) =~= Seq::<Attr>::empty());
    }
    None
}

/// Derives one node's class lists from its class attributes.
pub fn assign_classes_node(n: Node) -> (r: Node)
    ensures
        classes_rel(n, r),
    decreases n,
{
    match n {
        Node::Element { tag, classes: _, attrs, children } => {
            let classes = match first_class_exec(&attrs) {
                None => Vec::new(),
                Some(v) => split_ws_str(v.as_str()),
            };
            proof {
                if first_class(attrs@) is None {
                    assert(strings_view(classes@) =~= Seq::<Seq<char>>::empty());
                }
            }
            let children = assign_classes_vec(children);
            Node::Element { tag, classes, attrs, children }
        },
        other => other,
    }
}

/// Derives the class lists of each node of a child list.
pub fn assign_classes_vec(cs: Vec<Node>) -> (r: Vec<Node>)
    ensures
        classes_each(cs@, r@),
    decreases cs@,
{
    let ghost orig = cs@;
    let mut cs = cs;
    match cs.pop() {
        None => {
            cs
        },
        Some(last) => {
            proof {
                assert(decreases_to!(orig => orig.subrange(0, orig.len() - 1)));
                assert(cs@ =~= orig.subrange(0, orig.len() - 1));
                assert(decreases_to!(orig => orig.last()));
            }
            let mut rest = assign_classes_vec(cs);
            let ghost rest0 = rest@;
            let done = assign_classes_node(last);
            rest.push(done);
            proof {
                assert(rest@.drop_last() =~= rest0);
            }
            rest
        },
    }
}

// ---------------------------------------------------------------------------
// Pass 1: structural pruning
// ---------------------------------------------------------------------------

/// `out` is `inp` with every child that is neither an element nor a text
/// node detached, recursively.
pub open spec fn pass1_rel(inp: Node, out: Node) -> bool
    decreases inp,
{
    match inp {
        Node::Element { tag, classes, attrs, children } => match out {
            Node::Element { tag: t2, classes: c2, attrs: a2, children: k2 } => t2 == tag && c2
                == classes && a2 == attrs && pass1_children(children@, k2@),
            _ => false,
        },
        _ => out == inp,
    }
}

/// `out` is the child list `inp` with structural nodes detached and the
/// surviving nodes pruned recursively, in order.
pub open spec fn pass1_children(inp: Seq<Node>, out: Seq<Node>) -> bool
    decreases inp,
{
    if inp.len() == 0 {
        out.len() == 0
    } else {
        match inp.last() {
            Node::Element { .. } => out.len() > 0 && pass1_rel(inp.last(), out.last())
                && pass1_children(inp.drop_last(), out.drop_last()),
            Node::Text(_) => out.len() > 0 && out.last() == inp.last() && pass1_children(
                inp.drop_last(),
                out.drop_last(),
            ),
            _ => pass1_children(inp.drop_last(), out),
        }
    }
}

/// Structural pruning of one node.
pub fn pass1_node(n: Node) -> (r: Node)
    ensures
        pass1_rel(n, r),
    decreases n,
{
    match n {
        Node::Element { tag, classes, attrs, children } => {
            let children = pass1_vec(children);
            Node::Element { tag, classes, attrs, children }
        },
        other => other,
    }
}

/// Structural pruning of a child list.
pub fn pass1_vec(cs: Vec<Node>) -> (r: Vec<Node>)
    ensures
        pass1_children(cs@, r@),
    decreases cs@,
{
    let ghost orig = cs@;
    let mut cs = cs;
    match cs.pop() {
        None => {
            cs
        },
        Some(last) => {
            proof {
                assert(decreases_to!(orig => orig.subrange(0, orig.len() - 1)));
                assert(cs@ =~= orig.subrange(0, orig.len() - 1));
            }
            let mut rest = pass1_vec(cs);
            let ghost rest0 = rest@;
            match last {
                Node::Element { .. } => {
                    proof {
                        assert(decreases_to!(orig => orig.last()));
                    }
                    let pruned = pass1_node(last);
                    rest.push(pruned);
                    proof {
                        assert(rest@.drop_last() =~= rest0);
                    }
                },
                Node::Text(_) => {
                    rest.push(last);
                    proof {
                        assert(rest@.drop_last() =~= rest0);
                    }
                },
                _ => {},
            }
            rest
        },
    }
}

// ---------------------------------------------------------------------------
// Pass 2: edge whitespace pruning
// ---------------------------------------------------------------------------

/// The child list with a blank text node at its very start, and one at its
/// very end, detached.
pub open spec fn edge_pruned(cs: Seq<Node>) -> Seq<Node> {
    let a = if cs.len() > 0 && is_blank_text(cs.first()) {
        cs.drop_first()
    } else {
        cs
    };
    if a.len() > 0 && is_blank_text(a.last()) {
        a.drop_last()
    } else {
        a
    }
}

/// `out` is `inp` with every element's child list edge-pruned, recursively.
pub open spec fn pass2_rel(inp: Node, out: Node) -> bool
    decreases inp,
{
    match inp {
        Node::Element { tag, classes, attrs, children } => match out {
            Node::Element { tag: t2, classes: c2, attrs: a2, children: k2 } => t2 == tag && c2
                == classes && a2 == attrs && pass2_each(edge_pruned(children@), k2@),
            _ => false,
        },
        _ => out == inp,
    }
}

/// `out` is `inp` with every node pruned recursively, element by element.
pub open spec fn pass2_each(inp: Seq<Node>, out: Seq<Node>) -> bool
    decreases inp,
{
    if inp.len() == 0 {
        out.len() == 0
    } else {
        out.len() > 0 && pass2_rel(inp.last(), out.last()) && pass2_each(
            inp.drop_last(),
            out.drop_last(),
        )
    }
}

/// Whether this node is a blank text node.
fn is_blank_text_exec(n: &Node) -> (r: bool)
    ensures
        r == is_blank_text(*n),
{
    match n {
        Node::Text(s) => trims_empty(s.as_str()),
        _ => false,
    }
}

/// Edge pruning of one node.
pub fn pass2_node(n: Node) -> (r: Node)
    ensures
        pass2_rel(n, r),
    decreases n,
{
    match n {
        Node::Element { tag, classes, attrs, children } => {
            let children = edge_prune_vec(children);
            let children = pass2_vec(children);
            Node::Element { tag, classes, attrs, children }
        },
        other => other,
    }
}

/// Detaches a blank text node standing first, and one standing last, in a
/// child list.
pub fn edge_prune_vec(cs: Vec<Node>) -> (r: Vec<Node>)
    ensures
        r@ == edge_pruned(cs@),
{
    let mut cs = cs;
    let ghost orig = cs@;
    if cs.len() > 0 && is_blank_text_exec(&cs[0]) {
        cs.remove(0);
        proof {
            assert(cs@ =~= orig.drop_first());
        }
    }
    let ghost a = cs@;
    if cs.len() > 0 && is_blank_text_exec(&cs[cs.len() - 1]) {
        cs.pop();
        proof {
            assert(cs@ =~= a.drop_last());
        }
    }
    cs
}

/// Recursive pruning of each node of a child list.
pub fn pass2_vec(cs: Vec<Node>) -> (r: Vec<Node>)
    ensures
        pass2_each(cs@, r@),
    decreases cs@,
{
    let ghost orig = cs@;
    let mut cs = cs;
    match cs.pop() {
        None => {
            cs
        },
        Some(last) => {
            proof {
                assert(decreases_to!(orig => orig.subrange(0, orig.len() - 1)));
                assert(cs@ =~= orig.subrange(0, orig.len() - 1));
                assert(decreases_to!(orig => orig.last()));
            }
            let mut rest = pass2_vec(cs);
            let ghost rest0 = rest@;
            let pruned = pass2_node(last);
            rest.push(pruned);
            proof {
                assert(rest@.drop_last() =~= rest0);
            }
            rest
        },
    }
}

} // verus!
