use vstd::prelude::*;
use vstd::string::*;
use crate::dom::{
    assign_classes_vec, classes_each, edge_prune_vec, edge_pruned, pass1_children, pass1_vec,
    pass2_each, pass2_vec, Attr, Node,
};
use crate::text::{escape_seq, indent_seq, push_escaped, trimmed, trim_str, trims_empty};

verus! {

/// The errors of HTML emission. `Parse` is reported when the external
/// parser itself reported errors; the others abort formatting: a tag or
/// attribute name with a namespace prefix, an escape-hatch element without
/// exactly one text child, and a style declaration without a separator.
#[derive(Debug, Clone, Copy, PartialEq, Eq)]
pub enum HtmlError {
    Parse,
    PrefixedName,
    BadEscape,
    BadStyle,
}

impl HtmlError {
    /// A short description of the error.
    pub fn describe(&self) -> (r: &'static str)
        ensures
            match self {
                HtmlError::Parse => r@ == "the HTML parser reported errors"@,
                HtmlError::PrefixedName => r@ == "prefixed tag or attribute names are unsupported"@,
                HtmlError::BadEscape => r@ == "an escape element must hold exactly one text child"@,
                HtmlError::BadStyle => r@ == "a style declaration is missing its `:` separator"@,
            },
    {
        match self {
            HtmlError::Parse => "the HTML parser reported errors",
            HtmlError::PrefixedName => "prefixed tag or attribute names are unsupported",
            HtmlError::BadEscape => "an escape element must hold exactly one text child",
            HtmlError::BadStyle => "a style declaration is missing its `:` separator",
        }
    }
}

// ---------------------------------------------------------------------------
// Small text forms
// ---------------------------------------------------------------------------

/// A trailing comma where a sibling follows.
pub open spec fn comma_seq(comma: bool) -> Seq<char> {
    if comma {
        seq![',']
    } else {
        Seq::empty()
    }
}

/// Whether the name carries a namespace prefix.
pub open spec fn has_colon(s: Seq<char>) -> bool {
    exists|i: int| 0 <= i < s.len() && s[i] == ':'
}

fn contains_colon(s: &str) -> (r: bool)
    ensures
        r == has_colon(s@),
{
    let n = s.unicode_len();
    let mut i: usize = 0;
    while i < n
        invariant
            i <= n,
            n == s@.len(),
            forall|j: int| 0 <= j < i ==> s@[j] != ':',
        decreases n - i,
    {
        if s.get_char(i) == ':' {
            return true;
        }
        i = i + 1;
    }
    false
}

/// A node's text content shown verbatim: each line break is followed by
/// the caller's indent prefix, nothing else is touched.
pub open spec fn verbatim_seq(content: Seq<char>, ind: nat) -> Seq<char>
    decreases content.len(),
{
    if content.len() == 0 {
        Seq::empty()
    } else {
        verbatim_seq(content.drop_last(), ind) + (if content.last() == '\n' {
            seq!['\n'] + indent_seq(ind)
        } else {
            seq![content.last()]
        })
    }
}

fn push_verbatim(out: &mut String, s: &str, pad: &String, Ghost(ind): Ghost<nat>)
    requires
        pad@ == indent_seq(ind),
    ensures
        final(out)@ == old(out)@ + verbatim_seq(s@, ind),
{
    let n = s.unicode_len();
    let mut i: usize = 0;
    while i < n
        invariant
            i <= n,
            n == s@.len(),
            pad@ == indent_seq(ind),
            out@ == old(out)@ + verbatim_seq(s@.take(i as int), ind),
        decreases n - i,
    {
        let c = s.get_char(i);
        if c == '\n' {
            out.push('\n');
            out.append(pad.as_str());
        } else {
            out.push(c);
        }
        i = i + 1;
        proof {
            assert(s@.take(i as int).drop_last() =~= s@.take(i - 1));
            assert(s@.take(i as int).last() == s@[i - 1]);
            assert(out@ =~= old(out)@ + verbatim_seq(s@.take(i as int), ind));
        }
    }
    proof {
        assert(s@.take(n as int) =~= s@);
    }
}

// ---------------------------------------------------------------------------
// Node visibility
// ---------------------------------------------------------------------------

/// The node visibility filter: elements are always visible; a text node is
/// visible iff its content is non-empty, and, under the trim flag, iff its
/// trimmed content is non-empty; everything else is invisible.
pub open spec fn visible(n: Node, trim: bool) -> bool {
    match n {
        Node::Element { .. } => true,
        Node::Text(s) => if trim {
            trimmed(s@).len() > 0
        } else {
            s@.len() > 0
        },
        _ => false,
    }
}

fn visible_exec(n: &Node, trim: bool) -> (r: bool)
    ensures
        r == visible(*n, trim),
{
    match n {
        Node::Element { .. } => true,
        Node::Text(s) => if trim {
            !trims_empty(s.as_str())
        } else {
            s.as_str().unicode_len() > 0
        },
        _ => false,
    }
}

/// The escape-hatch element: its tag name is exactly `escape`.
pub open spec fn is_escape(n: Node) -> bool {
    match n {
        Node::Element { tag, .. } => tag@ == "escape"@,
        _ => false,
    }
}

/// How many children are visible.
pub open spec fn vis_count(cs: Seq<Node>, trim: bool) -> nat
    decreases cs,
{
    if cs.len() == 0 {
        0
    } else {
        vis_count(cs.drop_last(), trim) + if visible(cs.last(), trim) {
            1nat
        } else {
            0nat
        }
    }
}

/// Exactly one child is visible and it is the escape-hatch element.
pub open spec fn single_is_escape(cs: Seq<Node>, trim: bool) -> bool
    decreases cs,
{
    if cs.len() == 0 {
        false
    } else if visible(cs.last(), trim) {
        vis_count(cs.drop_last(), trim) == 0 && is_escape(cs.last())
    } else {
        single_is_escape(cs.drop_last(), trim)
    }
}

// ---------------------------------------------------------------------------
// Classes
// ---------------------------------------------------------------------------

/// The class names as a comma-separated list of escaped string literals,
/// in document order.
pub open spec fn class_items(classes: Seq<String>) -> Seq<char>
    decreases classes,
{
    if classes.len() == 0 {
        Seq::empty()
    } else if classes.len() == 1 {
        "\""@ + escape_seq(classes.last()@) + "\""@
    } else {
        class_items(classes.drop_last()) + ", \""@ + escape_seq(classes.last()@) + "\""@
    }
}

/// The class call: nothing for no classes, a single-class call for one,
/// and a call taking the ordered list of all names for two or more.
pub open spec fn class_text(classes: Seq<String>, ind: nat) -> Seq<char> {
    if classes.len() == 0 {
        Seq::empty()
    } else if classes.len() == 1 {
        indent_seq(ind) + ".class(\""@ + escape_seq(classes[0]@) + "\")\n"@
    } else {
        indent_seq(ind) + ".class(["@ + class_items(classes) + "])\n"@
    }
}

/// Two or more classes always emit the list form, never the single-class
/// call, with every name in document order.
pub proof fn lemma_class_list_form(classes: Seq<String>, ind: nat)
    requires
        classes.len() >= 2,
    ensures
        class_text(classes, ind) == indent_seq(ind) + ".class(["@ + class_items(classes)
            + "])\n"@,
{
}

fn push_classes(out: &mut String, classes: &Vec<String>, pad: &String, Ghost(ind): Ghost<nat>)
    requires
        pad@ == indent_seq(ind),
    ensures
        final(out)@ == old(out)@ + class_text(classes@, ind),
{
    if classes.len() == 0 {
        return ;
    }
    if classes.len() == 1 {
        out.append(pad.as_str());
        out.append(".class(\"");
        push_escaped(out, classes[0].as_str());
        out.append("\")\n");
        proof {
            assert(out@ =~= old(out)@ + class_text(classes@, ind));
        }
        return ;
    }
    out.append(pad.as_str());
    out.append(".class([");
    let n = classes.len();
    let mut i: usize = 0;
    while i < n
        invariant
            i <= n,
            n == classes@.len(),
            n >= 2,
            out@ == old(out)@ + indent_seq(ind) + ".class(["@ + class_items(
                classes@.take(i as int),
            ),
        decreases n - i,
    {
        if i == 0 {
            out.append("\"");
        } else {
            out.append(", \"");
        }
        push_escaped(out, classes[i].as_str());
        out.append("\"");
        i = i + 1;
        proof {
            assert(classes@.take(i as int).drop_last() =~= classes@.take(i - 1));
            assert(classes@.take(i as int).last() == classes@[i - 1]);
            assert(out@ =~= old(out)@ + indent_seq(ind) + ".class(["@ + class_items(
                classes@.take(i as int),
            ));
        }
    }
    out.append("])\n");
    proof {
        assert(classes@.take(n as int) =~= classes@);
        assert(out@ =~= old(out)@ + class_text(classes@, ind));
    }
}

// ---------------------------------------------------------------------------
// The style attribute
// ---------------------------------------------------------------------------

/// The index of the first occurrence of `c` in `s`, or `s.len()` when `c`
/// does not occur.
pub open spec fn find_char(s: Seq<char>, c: char) -> nat
    decreases s.len(),
{
    if s.len() == 0 {
        0
    } else if s[0] == c {
        0
    } else {
        1 + find_char(s.drop_first(), c)
    }
}

proof fn lemma_find_char_at(s: Seq<char>, c: char, k: int)
    requires
        0 <= k <= s.len(),
        forall|j: int| 0 <= j < k ==> s[j] != c,
        k < s.len() ==> s[k] == c,
    ensures
        find_char(s, c) == k,
    decreases s.len(),
{
    if s.len() == 0 {
    } else if k == 0 {
    } else {
        assert(s[0] != c);
        lemma_find_char_at(s.drop_first(), c, k - 1);
    }
}

/// One trimmed style segment: nothing when it is empty, its
/// property/value pair split at the first separator, or the error when it
/// has no separator.
pub open spec fn style_pair(seg: Seq<char>) -> Result<Option<(Seq<char>, Seq<char>)>, HtmlError> {
    let t = trimmed(seg);
    if t.len() == 0 {
        Ok(None)
    } else {
        let j = find_char(t, ':') as int;
        if j >= t.len() {
            Err(HtmlError::BadStyle)
        } else {
            Ok(Some((t.take(j), t.skip(j + 1))))
        }
    }
}

/// The property/value pairs of a style attribute value: segments split on
/// `;`, each trimmed, empty ones skipped, each remaining one split at its
/// first `:`, in source order.
pub open spec fn style_pairs(v: Seq<char>) -> Result<Seq<(Seq<char>, Seq<char>)>, HtmlError>
    decreases v.len(),
{
    let k = find_char(v, ';') as int;
    if k >= v.len() {
        match style_pair(v) {
            Err(e) => Err(e),
            Ok(None) => Ok(Seq::empty()),
            Ok(Some(p)) => Ok(seq![p]),
        }
    } else {
        match style_pair(v.take(k)) {
            Err(e) => Err(e),
            Ok(o) => match style_pairs(v.skip(k + 1)) {
                Err(e) => Err(e),
                Ok(rest) => Ok(
                    match o {
                        None => rest,
                        Some(p) => seq![p] + rest,
                    },
                ),
            },
        }
    }
}

/// One style call line.
pub open spec fn style_line(p: (Seq<char>, Seq<char>), ind: nat) -> Seq<char> {
    indent_seq(ind) + ".style(\""@ + escape_seq(p.0) + "\", \""@ + escape_seq(p.1) + "\")\n"@
}

/// One style call line per property/value pair, in source order.
pub open spec fn style_text(ps: Seq<(Seq<char>, Seq<char>)>, ind: nat) -> Seq<char>
    decreases ps.len(),
{
    if ps.len() == 0 {
        Seq::empty()
    } else {
        style_line(ps[0], ind) + style_text(ps.drop_first(), ind)
    }
}

/// Appends the style calls for the style attribute value `s` from
/// character position `p` on.
fn push_style_from(out: &mut String, s: &str, p: usize, pad: &String, Ghost(ind): Ghost<nat>) -> (r:
    Result<(), HtmlError>)
    requires
        pad@ == indent_seq(ind),
        p <= s@.len(),
    ensures
        match style_pairs(s@.skip(p as int)) {
            Ok(ps) => r is Ok && final(out)@ == old(out)@ + style_text(ps, ind),
            Err(e) => r is Err && r->Err_0 == e,
        },
    decreases s@.len() - p,
{
    let ghost v = s@.skip(p as int);
    let n = s.unicode_len();
    let mut k: usize = p;
    while k < n && s.get_char(k) != ';'
        invariant
            p <= k <= n,
            n == s@.len(),
            forall|j: int| p <= j < k ==> s@[j] != ';',
        decreases n - k,
    {
        k = k + 1;
    }
    proof {
        assert(forall|j: int| 0 <= j < k - p ==> v[j] == s@[j + p] && s@[j + p] != ';');
        if k < n {
            assert(v[k - p] == s@[k as int]);
        }
        lemma_find_char_at(v, ';', k - p);
    }
    let seg = s.substring_char(p, k);
    proof {
        assert(seg@ =~= v.take(k - p));
        if k == n {
            assert(v.take(k - p) =~= v);
        }
    }
    let t = trim_str(seg);
    let tn = t.as_str().unicode_len();
    if tn > 0 {
        let mut j: usize = 0;
        while j < tn && t.as_str().get_char(j) != ':'
            invariant
                j <= tn,
                tn == t@.len(),
                forall|jj: int| 0 <= jj < j ==> t@[jj] != ':',
        decreases tn - j,
        {
            j = j + 1;
        }
        proof {
            lemma_find_char_at(t@, ':', j as int);
        }
        if j == tn {
            return Err(HtmlError::BadStyle);
        }
        out.append(pad.as_str());
        out.append(".style(\"");
        let prop = t.as_str().substring_char(0, j);
        push_escaped(out, prop);
        out.append("\", \"");
        let val = t.as_str().substring_char(j + 1, tn);
        push_escaped(out, val);
        out.append("\")\n");
        proof {
            assert(prop@ =~= t@.take(j as int));
            assert(val@ =~= t@.skip(j + 1));
        }
    }
    if k == n {
        proof {
            match style_pair(v) {
                Ok(Some(pr)) => {
                    assert(seq![pr][0] == pr);
                    assert(seq![pr].drop_first() =~= Seq::<(Seq<char>, Seq<char>)>::empty());
                    assert(style_text(Seq::<(Seq<char>, Seq<char>)>::empty(), ind)
                        == Seq::<char>::empty());
                    assert(style_text(seq![pr], ind) =~= style_line(pr, ind));
                    assert(out@ =~= old(out)@ + style_text(seq![pr], ind));
                },
                Ok(None) => {
                    assert(out@ =~= old(out)@ + style_text(Seq::empty(), ind));
                },
                Err(_) => {},
            }
        }
        Ok(())
    } else {
        let ghost mid = out@;
        let r = push_style_from(out, s, k + 1, pad, Ghost(ind));
        proof {
            assert(v.skip(k - p + 1) =~= s@.skip(k + 1));
        }
        match r {
            Err(e) => {
                proof {
                    assert(style_pairs(v) is Err && style_pairs(v)->Err_0 == e);
                }
                Err(e)
            },
            Ok(_) => {
                proof {
                    match style_pairs(v) {
                        Ok(ps) => {
                            match style_pair(v.take(k - p)) {
                                Ok(Some(pr)) => {
                                    let rest = style_pairs(s@.skip(k + 1))->Ok_0;
                                    assert((seq![pr] + rest).drop_first() =~= rest);
                                    assert((seq![pr] + rest)[0] == pr);
                                    assert(out@ =~= old(out)@ + style_text(ps, ind));
                                },
                                Ok(None) => {
                                    assert(out@ =~= old(out)@ + style_text(ps, ind));
                                },
                                Err(_) => {},
                            }
                        },
                        Err(_) => {},
                    }
                }
                Ok(())
            },
        }
    }
}

// ---------------------------------------------------------------------------
// Attributes
// ---------------------------------------------------------------------------

/// Attributes that are handled by their own clauses, not as generic
/// attribute calls.
pub open spec fn is_skipped_attr(name: Seq<char>) -> bool {
    name == "class"@ || name == "style"@
}

/// One generic attribute call line.
pub open spec fn attr_line(a: Attr, ind: nat) -> Seq<char> {
    indent_seq(ind) + ".attr(\""@ + escape_seq(a.name@) + "\", \""@ + escape_seq(a.value@)
        + "\")\n"@
}

/// The generic attribute calls: every attribute but `class` and `style`,
/// in source order; a prefixed attribute name is the error.
pub open spec fn attrs_text(attrs: Seq<Attr>, ind: nat) -> Result<Seq<char>, HtmlError>
    decreases attrs.len(),
{
    if attrs.len() == 0 {
        Ok(Seq::empty())
    } else if is_skipped_attr(attrs[0].name@) {
        attrs_text(attrs.drop_first(), ind)
    } else if has_colon(attrs[0].name@) {
        Err(HtmlError::PrefixedName)
    } else {
        match attrs_text(attrs.drop_first(), ind) {
            Err(e) => Err(e),
            Ok(rest) => Ok(attr_line(attrs[0], ind) + rest),
        }
    }
}

/// Appends the generic attribute calls.
fn push_attrs(out: &mut String, attrs: &Vec<Attr>, pad: &String, Ghost(ind): Ghost<nat>) -> (r:
    Result<(), HtmlError>)
    requires
        pad@ == indent_seq(ind),
    ensures
        match attrs_text(attrs@, ind) {
            Ok(t) => r is Ok && final(out)@ == old(out)@ + t,
            Err(e) => r is Err && r->Err_0 == e,
        },
    decreases attrs@.len(),
{
    let r = push_attrs_from(out, attrs, 0, pad, Ghost(ind));
    proof {
        assert(attrs@.skip(0) =~= attrs@);
    }
    r
}

fn push_attrs_from(
    out: &mut String,
    attrs: &Vec<Attr>,
    i: usize,
    pad: &String,
    Ghost(ind): Ghost<nat>,
) -> (r: Result<(), HtmlError>)
    requires
        pad@ == indent_seq(ind),
        i <= attrs@.len(),
    ensures
        match attrs_text(attrs@.skip(i as int), ind) {
            Ok(t) => r is Ok && final(out)@ == old(out)@ + t,
            Err(e) => r is Err && r->Err_0 == e,
        },
    decreases attrs@.len() - i,
{
    if i == attrs.len() {
        proof {
            assert(attrs@.skip(i as int) =~= Seq::<Attr>::empty());
        }
        return Ok(());
    }
    proof {
        assert(attrs@.skip(i as int)[0] == attrs@[i as int]);
        assert(attrs@.skip(i as int).drop_first() =~= attrs@.skip(i + 1));
    }
    let a = &attrs[i];
    let cls = String::from_str("class");
    let sty = String::from_str("style");
    if a.name.eq(&cls) || a.name.eq(&sty) {
        return push_attrs_from(out, attrs, i + 1, pad, Ghost(ind));
    }
    if contains_colon(a.name.as_str()) {
        return Err(HtmlError::PrefixedName);
    }
    out.append(pad.as_str());
    out.append(".attr(\"");
    push_escaped(out, a.name.as_str());
    out.append("\", \"");
    push_escaped(out, a.value.as_str());
    out.append("\")\n");
    proof {
        assert(out@ =~= old(out)@ + attr_line(attrs@[i as int], ind));
    }
    let r = push_attrs_from(out, attrs, i + 1, pad, Ghost(ind));
    match r {
        Err(e) => Err(e),
        Ok(_) => {
            proof {
                match attrs_text(attrs@.skip(i as int), ind) {
                    Ok(t) => {
                        assert(out@ =~= old(out)@ + t);
                    },
                    Err(_) => {},
                }
            }
            Ok(())
        },
    }
}

/// The value of the first `style` attribute, if any.
pub open spec fn first_style(attrs: Seq<Attr>) -> Option<Seq<char>>
    decreases attrs.len(),
{
    if attrs.len() == 0 {
        None
    } else if attrs[0].name@ == "style"@ {
        Some(attrs[0].value@)
    } else {
        first_style(attrs.drop_first())
    }
}

/// The style calls of an element: nothing without a style attribute.
pub open spec fn style_block(attrs: Seq<Attr>, ind: nat) -> Result<Seq<char>, HtmlError> {
    match first_style(attrs) {
        None => Ok(Seq::empty()),
        Some(v) => match style_pairs(v) {
            Err(e) => Err(e),
            Ok(ps) => Ok(style_text(ps, ind)),
        },
    }
}

/// Appends the style calls of an element.
fn push_style_block(out: &mut String, attrs: &Vec<Attr>, pad: &String, Ghost(ind): Ghost<nat>) -> (r:
    Result<(), HtmlError>)
    requires
        pad@ == indent_seq(ind),
    ensures
        match style_block(attrs@, ind) {
            Ok(t) => r is Ok && final(out)@ == old(out)@ + t,
            Err(e) => r is Err && r->Err_0 == e,
        },
{
    let sty = String::from_str("style");
    let n = attrs.len();
    let mut i: usize = 0;
    proof {
        assert(attrs@.skip(0) =~= attrs@);
    }
    while i < n
        invariant
            i <= n,
            n == attrs@.len(),
            sty@ == "style"@,
            pad@ == indent_seq(ind),
            out@ == old(out)@,
            first_style(attrs@) == first_style(attrs@.skip(i as int)),
        decreases n - i,
    {
        proof {
            assert(attrs@.skip(i as int)[0] == attrs@[i as int]);
            assert(attrs@.skip(i as int).drop_first() =~= attrs@.skip(i + 1));
        }
        if attrs[i].name.eq(&sty) {
            let r = push_style_from(out, attrs[i].value.as_str(), 0, pad, Ghost(ind));
            proof {
                assert(attrs@[i as int].value@.skip(0) =~= attrs@[i as int].value@);
            }
            return r;
        }
        i = i + 1;
    }
    proof {
        assert(attrs@.skip(n as int) =~= Seq::<Attr>::empty());
    }
    Ok(())
}

// ---------------------------------------------------------------------------
// The recursive formatter
// ---------------------------------------------------------------------------

/// Whether the node is a text node.
pub open spec fn is_text(n: Node) -> bool {
    match n {
        Node::Text(_) => true,
        _ => false,
    }
}

/// The content of a text node.
pub open spec fn text_content(n: Node) -> Seq<char> {
    match n {
        Node::Text(s) => s@,
        _ => Seq::empty(),
    }
}

/// A text node as an expression: one text call, its content trimmed under
/// the trim flag and escaped.
pub open spec fn text_expr(s: Seq<char>, ind: nat, trim: bool, comma: bool) -> Seq<char> {
    indent_seq(ind) + "::dominator::text(\""@ + escape_seq(
        if trim {
            trimmed(s)
        } else {
            s
        },
    ) + "\")"@ + comma_seq(comma) + "\n"@
}

/// One node as an expression at the given indent level, with a trailing
/// comma where a visible sibling follows. The escape-hatch element copies
/// its single text child verbatim, line by line, at the caller's indent
/// level; any other element opens a builder call, emits its class call,
/// its style calls, its generic attribute calls and its children clause,
/// and closes the call.
pub open spec fn fmt_expr(n: Node, ind: nat, trim: bool, comma: bool) -> Result<
    Seq<char>,
    HtmlError,
>
    decreases n, 2int,
{
    match n {
        Node::Text(s) => Ok(text_expr(s@, ind, trim, comma)),
        Node::Element { tag, classes, attrs, children } => {
            if tag@ == "escape"@ {
                if children@.len() == 1 && is_text(children@[0]) {
                    Ok(
                        indent_seq(ind) + verbatim_seq(text_content(children@[0]), ind)
                            + comma_seq(comma) + "\n"@,
                    )
                } else {
                    Err(HtmlError::BadEscape)
                }
            } else if has_colon(tag@) {
                Err(HtmlError::PrefixedName)
            } else {
                element_result(tag@, classes@, attrs@, children@, ind, trim, comma)
            }
        },
        _ => Ok(Seq::empty()),
    }
}

/// An ordinary element's builder call: the opening line, the class call,
/// the style calls, the generic attribute calls, the children clause, and
/// the closing line.
pub open spec fn element_result(
    tag: Seq<char>,
    classes: Seq<String>,
    attrs: Seq<Attr>,
    cs: Seq<Node>,
    ind: nat,
    trim: bool,
    comma: bool,
) -> Result<Seq<char>, HtmlError>
    decreases cs, 2int,
{
    match style_block(attrs, ind + 1) {
        Err(e) => Err(e),
        Ok(st) => match attrs_text(attrs, ind + 1) {
            Err(e) => Err(e),
            Ok(at) => match children_block(cs, ind + 1, trim) {
                Err(e) => Err(e),
                Ok(ch) => Ok(
                    indent_seq(ind) + "::dominator::html!(\""@ + escape_seq(tag) + "\", {\n"@
                        + class_text(classes, ind + 1) + st + at + ch + indent_seq(ind) + "})"@
                        + comma_seq(comma) + "\n"@,
                ),
            },
        },
    }
}

/// The children clause of an element: nothing when no child is visible; a
/// single-child call when exactly one is visible and it is not the escape
/// hatch; otherwise a children-list call.
pub open spec fn children_block(cs: Seq<Node>, ind: nat, trim: bool) -> Result<
    Seq<char>,
    HtmlError,
>
    decreases cs, 1int,
{
    if vis_count(cs, trim) == 0 {
        Ok(Seq::empty())
    } else if vis_count(cs, trim) == 1 && !single_is_escape(cs, trim) {
        match fmt_children(cs, ind + 1, trim, false) {
            Err(e) => Err(e),
            Ok(t) => Ok(indent_seq(ind) + ".child(\n"@ + t + indent_seq(ind) + ")\n"@),
        }
    } else {
        match fmt_children(cs, ind + 1, trim, false) {
            Err(e) => Err(e),
            Ok(t) => Ok(indent_seq(ind) + ".children([\n"@ + t + indent_seq(ind) + "])\n"@),
        }
    }
}

/// Each visible node of a child list as an expression, in order, every one
/// but the last followed by a comma; `later` says whether a visible
/// sibling follows the whole list.
pub open spec fn fmt_children(cs: Seq<Node>, ind: nat, trim: bool, later: bool) -> Result<
    Seq<char>,
    HtmlError,
>
    decreases cs, 0int,
{
    if cs.len() == 0 {
        Ok(Seq::empty())
    } else if visible(cs.last(), trim) {
        match fmt_children(cs.drop_last(), ind, trim, true) {
            Err(e) => Err(e),
            Ok(front) => match fmt_expr(cs.last(), ind, trim, later) {
                Err(e) => Err(e),
                Ok(t) => Ok(front + t),
            },
        }
    } else {
        fmt_children(cs.drop_last(), ind, trim, later)
    }
}

/// A whole Parsed Document: nothing when no top-level child is visible;
/// the one visible child unwrapped; two or more wrapped in a sequence
/// literal.
pub open spec fn fmt_doc(cs: Seq<Node>, trim: bool) -> Result<Seq<char>, HtmlError> {
    if vis_count(cs, trim) == 0 {
        Ok(Seq::empty())
    } else if vis_count(cs, trim) == 1 {
        fmt_children(cs, 0, trim, false)
    } else {
        match fmt_children(cs, 1, trim, false) {
            Err(e) => Err(e),
            Ok(t) => Ok("[\n"@ + t + "]\n"@),
        }
    }
}

/// With zero visible top-level children the emitted output is empty.
pub proof fn lemma_empty_doc(cs: Seq<Node>, trim: bool)
    requires
        vis_count(cs, trim) == 0,
    ensures
        fmt_doc(cs, trim) == Result::<Seq<char>, HtmlError>::Ok(Seq::<char>::empty()),
{
}

/// With exactly one visible top-level child the output is that child's
/// expression, not wrapped in a sequence literal.
pub proof fn lemma_single_doc_unwrapped(cs: Seq<Node>, trim: bool)
    requires
        vis_count(cs, trim) == 1,
    ensures
        fmt_doc(cs, trim) == fmt_children(cs, 0, trim, false),
{
}

/// With two or more visible top-level children the output is wrapped in a
/// sequence literal.
pub proof fn lemma_multi_doc_wrapped(cs: Seq<Node>, trim: bool)
    requires
        vis_count(cs, trim) >= 2,
    ensures
        match fmt_children(cs, 1, trim, false) {
            Ok(t) => fmt_doc(cs, trim) == Result::<Seq<char>, HtmlError>::Ok("[\n"@ + t + "]\n"@),
            Err(e) => fmt_doc(cs, trim) == Result::<Seq<char>, HtmlError>::Err(e),
        },
{
}

/// How many of the first `upto` children are visible.
fn vis_count_to(cs: &Vec<Node>, trim: bool, upto: usize) -> (r: usize)
    requires
        upto <= cs@.len(),
    ensures
        r as nat == vis_count(cs@.take(upto as int), trim),
        r <= upto,
{
    let mut cnt: usize = 0;
    let mut i: usize = 0;
    proof {
        assert(cs@.take(0) =~= Seq::<Node>::empty());
    }
    while i < upto
        invariant
            i <= upto <= cs@.len(),
            cnt <= i,
            cnt as nat == vis_count(cs@.take(i as int), trim),
        decreases upto - i,
    {
        proof {
            assert(cs@.take(i as int + 1).drop_last() =~= cs@.take(i as int));
            assert(cs@.take(i as int + 1).last() == cs@[i as int]);
        }
        if visible_exec(&cs[i], trim) {
            cnt = cnt + 1;
        }
        i = i + 1;
    }
    cnt
}

fn is_escape_exec(n: &Node) -> (r: bool)
    ensures
        r == is_escape(*n),
{
    match n {
        Node::Element { tag, .. } => {
            let esc = String::from_str("escape");
            tag.eq(&esc)
        },
        _ => false,
    }
}

fn single_is_escape_exec(cs: &Vec<Node>, trim: bool) -> (r: bool)
    ensures
        r == single_is_escape(cs@, trim),
{
    let mut i = cs.len();
    proof {
        assert(cs@.take(cs@.len() as int) =~= cs@);
    }
    while i > 0
        invariant
            i <= cs@.len(),
            single_is_escape(cs@, trim) == single_is_escape(cs@.take(i as int), trim),
        decreases i,
    {
        i = i - 1;
        proof {
            assert(cs@.take(i as int + 1).drop_last() =~= cs@.take(i as int));
            assert(cs@.take(i as int + 1).last() == cs@[i as int]);
        }
        if visible_exec(&cs[i], trim) {
            let cnt = vis_count_to(cs, trim, i);
            return cnt == 0 && is_escape_exec(&cs[i]);
        }
    }
    proof {
        assert(cs@.take(0) =~= Seq::<Node>::empty());
    }
    false
}

/// Extends an indent prefix by one level.
fn deeper(pad: &String, Ghost(ind): Ghost<nat>) -> (r: String)
    requires
        pad@ == indent_seq(ind),
    ensures
        r@ == indent_seq(ind + 1),
{
    let mut r = pad.clone();
    r.append("  ");
    proof {
        reveal_strlit("  ");
        assert("  "@ =~= seq![' ', ' ']);
        assert(r@ =~= indent_seq(ind + 1));
    }
    r
}

/// Formats one node as an expression, appending to `out`.
#[verifier::rlimit(100)]
fn fmt_expr_exec(
    n: Node,
    out: &mut String,
    pad: &String,
    Ghost(ind): Ghost<nat>,
    trim: bool,
    comma: bool,
) -> (r: Result<(), HtmlError>)
    requires
        pad@ == indent_seq(ind),
    ensures
        match fmt_expr(n, ind, trim, comma) {
            Ok(t) => r is Ok && final(out)@ == old(out)@ + t,
            Err(e) => r is Err && r->Err_0 == e,
        },
    decreases n, 2int,
{
    match n {
        Node::Text(s) => {
            out.append(pad.as_str());
            out.append("::dominator::text(\"");
            if trim {
                let tt = trim_str(s.as_str());
                push_escaped(out, tt.as_str());
            } else {
                push_escaped(out, s.as_str());
            }
            out.append("\")");
            if comma {
                out.push(',');
            }
            out.append("\n");
            proof {
                assert(out@ =~= old(out)@ + text_expr(s@, ind, trim, comma));
            }
            Ok(())
        },
        Node::Element { tag, classes, attrs, children } => {
            let esc = String::from_str("escape");
            if tag.eq(&esc) {
                if children.len() != 1 {
                    return Err(HtmlError::BadEscape);
                }
                let mut children = children;
                let ghost cs0 = children@;
                match children.pop() {
                    Some(Node::Text(s)) => {
                        proof {
                            assert(cs0[0] == Node::Text(s));
                        }
                        out.append(pad.as_str());
                        push_verbatim(out, s.as_str(), pad, Ghost(ind));
                        if comma {
                            out.push(',');
                        }
                        out.append("\n");
                        proof {
                            assert(out@ =~= old(out)@ + (indent_seq(ind) + verbatim_seq(
                                text_content(cs0[0]),
                                ind,
                            ) + comma_seq(comma) + "\n"@));
                        }
                        Ok(())
                    },
                    _ => Err(HtmlError::BadEscape),
                }
            } else if contains_colon(tag.as_str()) {
                Err(HtmlError::PrefixedName)
            } else {
                fmt_element_exec(tag, classes, attrs, children, out, pad, Ghost(ind), trim, comma)
            }
        },
        _ => {
            proof {
                assert(old(out)@ + Seq::<char>::empty() =~= old(out)@);
            }
            Ok(())
        },
    }
}

/// Emits an ordinary element's builder call, appending to `out`.
#[verifier::rlimit(100)]
#[verifier::spinoff_prover]
fn fmt_element_exec(
    tag: String,
    classes: Vec<String>,
    attrs: Vec<Attr>,
    children: Vec<Node>,
    out: &mut String,
    pad: &String,
    Ghost(ind): Ghost<nat>,
    trim: bool,
    comma: bool,
) -> (r: Result<(), HtmlError>)
    requires
        pad@ == indent_seq(ind),
    ensures
        match element_result(tag@, classes@, attrs@, children@, ind, trim, comma) {
            Ok(t) => r is Ok && final(out)@ == old(out)@ + t,
            Err(e) => r is Err && r->Err_0 == e,
        },
    decreases children@, 2int,
{
    let pad2 = deeper(pad, Ghost(ind));
    out.append(pad.as_str());
    out.append("::dominator::html!(\"");
    push_escaped(out, tag.as_str());
    out.append("\", {\n");
    push_classes(out, &classes, &pad2, Ghost(ind + 1));
    let ghost done = old(out)@ + indent_seq(ind) + "::dominator::html!(\""@ + escape_seq(tag@)
        + "\", {\n"@ + class_text(classes@, ind + 1);
    proof {
        assert(out@ =~= done);
    }
    match push_style_block(out, &attrs, &pad2, Ghost(ind + 1)) {
        Err(e) => {
            return Err(e);
        },
        Ok(_) => {},
    }
    let ghost done = done + style_block(attrs@, ind + 1)->Ok_0;
    proof {
        assert(out@ =~= done);
    }
    match push_attrs(out, &attrs, &pad2, Ghost(ind + 1)) {
        Err(e) => {
            return Err(e);
        },
        Ok(_) => {},
    }
    let ghost done = done + attrs_text(attrs@, ind + 1)->Ok_0;
    proof {
        assert(out@ =~= done);
    }
    match push_children_block(children, out, &pad2, Ghost(ind + 1), trim) {
        Err(e) => {
            return Err(e);
        },
        Ok(_) => {},
    }
    let ghost done = done + children_block(children@, ind + 1, trim)->Ok_0;
    proof {
        assert(out@ =~= done);
    }
    out.append(pad.as_str());
    out.append("})");
    if comma {
        out.push(',');
    }
    out.append("\n");
    proof {
        assert(out@ =~= done + indent_seq(ind) + "})"@ + comma_seq(comma) + "\n"@);
        match element_result(tag@, classes@, attrs@, children@, ind, trim, comma) {
            Ok(t) => {
                assert(out@ =~= old(out)@ + t);
            },
            Err(_) => {},
        }
    }
    Ok(())
}

/// Emits the children clause of an element, appending to `out`.
fn push_children_block(
    cs: Vec<Node>,
    out: &mut String,
    pad: &String,
    Ghost(ind): Ghost<nat>,
    trim: bool,
) -> (r: Result<(), HtmlError>)
    requires
        pad@ == indent_seq(ind),
    ensures
        match children_block(cs@, ind, trim) {
            Ok(t) => r is Ok && final(out)@ == old(out)@ + t,
            Err(e) => r is Err && r->Err_0 == e,
        },
    decreases cs@, 1int,
{
    proof {
        assert(cs@.take(cs@.len() as int) =~= cs@);
    }
    let cnt = vis_count_to(&cs, trim, cs.len());
    if cnt == 0 {
        proof {
            assert(old(out)@ + Seq::<char>::empty() =~= old(out)@);
        }
        return Ok(());
    }
    let single_esc = single_is_escape_exec(&cs, trim);
    let pad2 = deeper(pad, Ghost(ind));
    if cnt == 1 && !single_esc {
        out.append(pad.as_str());
        out.append(".child(\n");
        match fmt_children_exec(cs, out, &pad2, Ghost(ind + 1), trim, false) {
            Err(e) => {
                return Err(e);
            },
            Ok(_) => {},
        }
        out.append(pad.as_str());
        out.append(")\n");
        proof {
            match children_block(cs@, ind, trim) {
                Ok(t) => {
                    assert(out@ =~= old(out)@ + t);
                },
                Err(_) => {},
            }
        }
        Ok(())
    } else {
        out.append(pad.as_str());
        out.append(".children([\n");
        match fmt_children_exec(cs, out, &pad2, Ghost(ind + 1), trim, false) {
            Err(e) => {
                return Err(e);
            },
            Ok(_) => {},
        }
        out.append(pad.as_str());
        out.append("])\n");
        proof {
            match children_block(cs@, ind, trim) {
                Ok(t) => {
                    assert(out@ =~= old(out)@ + t);
                },
                Err(_) => {},
            }
        }
        Ok(())
    }
}

/// Formats each visible node of a child list, appending to `out`.
fn fmt_children_exec(
    cs: Vec<Node>,
    out: &mut String,
    pad: &String,
    Ghost(ind): Ghost<nat>,
    trim: bool,
    later: bool,
) -> (r: Result<(), HtmlError>)
    requires
        pad@ == indent_seq(ind),
    ensures
        match fmt_children(cs@, ind, trim, later) {
            Ok(t) => r is Ok && final(out)@ == old(out)@ + t,
            Err(e) => r is Err && r->Err_0 == e,
        },
    decreases cs@, 0int,
{
    let ghost orig = cs@;
    let mut cs = cs;
    match cs.pop() {
        None => {
            proof {
                assert(old(out)@ + Seq::<char>::empty() =~= old(out)@);
            }
            Ok(())
        },
        Some(last) => {
            proof {
                assert(decreases_to!(orig => orig.subrange(0, orig.len() - 1)));
                assert(cs@ =~= orig.subrange(0, orig.len() - 1));
            }
            if visible_exec(&last, trim) {
                match fmt_children_exec(cs, out, pad, Ghost(ind), trim, true) {
                    Err(e) => {
                        return Err(e);
                    },
                    Ok(_) => {},
                }
                proof {
                    assert(decreases_to!(orig => orig.last()));
                }
                let r = fmt_expr_exec(last, out, pad, Ghost(ind), trim, later);
                proof {
                    match fmt_children(orig, ind, trim, later) {
                        Ok(t) => {
                            assert(out@ =~= old(out)@ + t);
                        },
                        Err(_) => {},
                    }
                }
                r
            } else {
                fmt_children_exec(cs, out, pad, Ghost(ind), trim, later)
            }
        },
    }
}

// ---------------------------------------------------------------------------
// The document
// ---------------------------------------------------------------------------

/// A Parsed Document: the normalized top-level children of the fragment
/// root, and the trim flag under which it is formatted.
pub struct StaticHtml {
    pub children: Vec<Node>,
    pub trim: bool,
}

/// `out` is `inp` normalized: structural nodes detached everywhere, then
/// blank edge text nodes of every child list, the root's own included,
/// detached.
pub open spec fn normalized_rel(inp: Seq<Node>, out: Seq<Node>) -> bool {
    exists|mid: Seq<Node>|
        #[trigger] pass1_children(inp, mid) && pass2_each(edge_pruned(mid), out)
}

/// `out` is what the emitter holds for the parser's tree `raw`: class
/// lists derived from the class attributes, then the tree normalized.
pub open spec fn parsed_rel(raw: Seq<Node>, out: Seq<Node>) -> bool {
    exists|mid: Seq<Node>| #[trigger] classes_each(raw, mid) && normalized_rel(mid, out)
}

impl StaticHtml {
    /// Builds a document from the fragment root's children, normalizing
    /// them.
    pub fn from_nodes(children: Vec<Node>, trim: bool) -> (r: Self)
        ensures
            normalized_rel(children@, r.children@),
            r.trim == trim,
    {
        let c1 = pass1_vec(children);
        let ghost mid = c1@;
        let c1 = edge_prune_vec(c1);
        let c2 = pass2_vec(c1);
        proof {
            assert(pass1_children(children@, mid) && pass2_each(edge_pruned(mid), c2@));
        }
        StaticHtml { children: c2, trim }
    }

    /// Parses an HTML fragment, derives each element's class list from its
    /// class attribute, and normalizes the tree; errors reported by the
    /// external parser abort the file.
    pub fn from_str(input: &str, trim: bool) -> (r: Result<Self, HtmlError>)
        ensures
            match html_nodes_of(input@) {
                None => r is Err && r->Err_0 == HtmlError::Parse,
                Some(raw) => r is Ok && r->Ok_0.trim == trim && parsed_rel(raw, r->Ok_0.children@),
            },
    {
        match parse_html(input) {
            None => Err(HtmlError::Parse),
            Some(nodes) => {
                let ghost raw = nodes@;
                let withc = assign_classes_vec(nodes);
                let ghost mid = withc@;
                let d = StaticHtml::from_nodes(withc, trim);
                proof {
                    assert(classes_each(raw, mid) && normalized_rel(mid, d.children@));
                    assert(parsed_rel(raw, d.children@));
                }
                Ok(d)
            },
        }
    }

    /// Formats the whole document as builder-call text.
    pub fn gen_dominator(self) -> (r: Result<String, HtmlError>)
        ensures
            match fmt_doc(self.children@, self.trim) {
                Ok(t) => r is Ok && r->Ok_0@ == t,
                Err(e) => r is Err && r->Err_0 == e,
            },
    {
        proof {
            assert(self.children@.take(self.children@.len() as int) =~= self.children@);
        }
        let cnt = vis_count_to(&self.children, self.trim, self.children.len());
        let mut out = String::new();
        if cnt == 0 {
            return Ok(out);
        }
        if cnt == 1 {
            let pad0 = String::new();
            match fmt_children_exec(self.children, &mut out, &pad0, Ghost(0nat), self.trim, false) {
                Err(e) => Err(e),
                Ok(_) => Ok(out),
            }
        } else {
            out.append("[\n");
            let pad1 = crate::text::indent(1);
            match fmt_children_exec(self.children, &mut out, &pad1, Ghost(1nat), self.trim, false) {
                Err(e) => Err(e),
                Ok(_) => {
                    out.append("]\n");
                    proof {
                        match fmt_doc(self.children@, self.trim) {
                            Ok(t) => {
                                assert(out@ =~= t);
                            },
                            Err(_) => {},
                        }
                    }
                    Ok(out)
                },
            }
        }
    }
}

// ---------------------------------------------------------------------------
// Trusted boundary: scraper
// ---------------------------------------------------------------------------

#[verifier::external_type_specification]
#[verifier::external_body]
pub struct ExScraperHtml(scraper::Html);

#[verifier::external_type_specification]
#[verifier::external_body]
pub struct ExScraperElement(scraper::node::Element);

#[verifier::external_type_specification]
#[verifier::external_body]
pub struct ExEgoNodeId(ego_tree::NodeId);

/// The node tree that the HTML parser produces for a fragment: its
/// top-level nodes, each element's class list left empty for the library
/// to derive; nothing where the parser reported errors. A function of the
/// text alone.
pub uninterp spec fn html_nodes_of(s: Seq<char>) -> Option<Seq<Node>>;

/// Relies on scraper's Html::parse_fragment (html5ever fragment parsing,
/// with error recovery): the fragment's top-level nodes, found under the
/// synthetic html element, converted to the library's tree; nothing where
/// the parser reported errors. The parse is deterministic, so the result
/// is a function of the text alone.
#[verifier::external_body]
fn parse_html(input: &str) -> (r: Option<Vec<Node>>)
    ensures
        match r {
            None => html_nodes_of(input@) is None,
            Some(v) => html_nodes_of(input@) == Some(v@),
        },
{
    let doc = scraper::Html::parse_fragment(input);
    if !doc.errors.is_empty() {
        return None;
    }
    for c in doc.tree.root().children() {
        if c.value().is_element() {
            return Some(convert_children(&doc, c.id()));
        }
    }
    Some(Vec::new())
}

/// Relies on ego_tree's NodeRef::children: the node's children, in order,
/// each converted.
#[verifier::external_body]
fn convert_children(doc: &scraper::Html, id: ego_tree::NodeId) -> (r: Vec<Node>) {
    let mut out = Vec::new();
    if let Some(n) = doc.tree.get(id) {
        for c in n.children() {
            if let Some(k) = convert_node(doc, c.id()) {
                out.push(k);
            }
        }
    }
    out
}

/// Relies on scraper's Node: each variant renamed, moving its fields; the
/// document and fragment roots have no place below the root and convert to
/// nothing.
#[verifier::external_body]
fn convert_node(doc: &scraper::Html, id: ego_tree::NodeId) -> (r: Option<Node>) {
    match doc.tree.get(id)?.value() {
        scraper::Node::Element(e) => Some(convert_element(doc, id, e)),
        scraper::Node::Text(t) => Some(Node::Text(t.text.to_string())),
        scraper::Node::Comment(_) => Some(Node::Comment),
        scraper::Node::Doctype(_) => Some(Node::Doctype),
        scraper::Node::ProcessingInstruction(_) => Some(Node::Pi),
        _ => None,
    }
}

/// Relies on scraper's Element: its local tag name, its attribute
/// name/value pairs in the order scraper stores them (insertion order,
/// under scraper's deterministic feature), and its children. The class
/// list is left empty: the library derives it from the class attribute,
/// in document order, since scraper's own class list is sorted.
#[verifier::external_body]
fn convert_element(doc: &scraper::Html, id: ego_tree::NodeId, e: &scraper::node::Element) -> (r:
    Node) {
    Node::Element {
        tag: e.name().to_string(),
        classes: Vec::new(),
        attrs: e.attrs().map(|(k, v)| Attr { name: k.to_string(), value: v.to_string() }).collect(),
        children: convert_children(doc, id),
    }
}

} // verus!
