use vstd::prelude::*;
use vstd::string::*;
use crate::text::{dec_seq, escape_seq, indent_seq, push_dec, push_escaped, push_indent};

verus! {

// ---------------------------------------------------------------------------
// The event model
// ---------------------------------------------------------------------------

/// A container tag of the Markdown event stream. Tags that the emitter
/// accepts but never emits (footnote definitions, tables, emphasis, strong,
/// strikethrough) collapse into `Other`: they still open and close a nesting
/// level, but produce no text.
#[derive(Debug)]
pub enum MdTag {
    Paragraph,
    /// Heading level, 1 through 6.
    Heading(u8),
    BlockQuote,
    CodeBlock,
    /// A list; an ordered list carries the number of its first item.
    List(Option<u64>),
    Item,
    /// A link: destination and title.
    Link(String, String),
    /// An image: destination and title.
    Image(String, String),
    Other,
}

/// One event of the Markdown event stream. Leaf events that the emitter
/// drops (inline HTML, footnote references, soft and hard breaks) collapse
/// into `Other`.
#[derive(Debug)]
pub enum MdEvent {
    Start(MdTag),
    End(MdTag),
    Text(String),
    Code(String),
    Rule,
    TaskListMarker(bool),
    Other,
}

/// The error of the streaming formatter: an `End` event arrived while the
/// indent counter stood at zero, so the stream is unbalanced.
#[derive(Debug, Clone, Copy, PartialEq, Eq)]
pub enum MdError {
    Unbalanced,
}

impl MdError {
    /// A short description of the error.
    pub fn describe(&self) -> (r: &'static str)
        ensures
            r@ == "unbalanced event stream: an end event had no matching start event"@,
    {
        "unbalanced event stream: an end event had no matching start event"
    }
}

// ---------------------------------------------------------------------------
// Emission, as text
// ---------------------------------------------------------------------------

/// The tag name of the container opened for a heading level.
pub open spec fn heading_name(level: u8) -> Seq<char> {
    if level <= 1 { "h1"@ }
    else if level == 2 { "h2"@ }
    else if level == 3 { "h3"@ }
    else if level == 4 { "h4"@ }
    else if level == 5 { "h5"@ }
    else { "h6"@ }
}

/// The heading container name for a level 1 through 6.
pub fn conv_heading(level: u8) -> (r: &'static str)
    ensures
        r@ == heading_name(level),
{
    if level <= 1 { "h1" }
    else if level == 2 { "h2" }
    else if level == 3 { "h3" }
    else if level == 4 { "h4" }
    else if level == 5 { "h5" }
    else { "h6" }
}

/// An opening builder-call line for a container with the given tag name.
pub open spec fn md_open(name: Seq<char>, ind: nat) -> Seq<char> {
    indent_seq(ind) + ".child(::dominator::html!(\""@ + name + "\", {\n"@
}

/// A closing builder-call line.
pub open spec fn md_close(ind: nat) -> Seq<char> {
    indent_seq(ind) + "})\n"@
}

/// An attribute-call line.
pub open spec fn md_attr(name: Seq<char>, value: Seq<char>, ind: nat) -> Seq<char> {
    indent_seq(ind) + ".attr(\""@ + name + "\", \""@ + value + "\")\n"@
}

/// A text-call line.
pub open spec fn md_text_line(content: Seq<char>, ind: nat) -> Seq<char> {
    indent_seq(ind) + ".text(\""@ + content + "\")\n"@
}

/// The tag name of the container a start event opens.
pub open spec fn md_tag_name(t: MdTag) -> Seq<char> {
    match t {
        MdTag::Paragraph => "p"@,
        MdTag::Heading(l) => heading_name(l),
        MdTag::BlockQuote => "blockquote"@,
        MdTag::CodeBlock => "code"@,
        MdTag::List(_) => "ul"@,
        MdTag::Item => "li"@,
        MdTag::Link(_, _) => "a"@,
        MdTag::Image(_, _) => "img"@,
        MdTag::Other => Seq::empty(),
    }
}

/// The text emitted for a start event at the given indent level. An ordered
/// list is followed at once by its start-number attribute; links and images
/// carry their destination and title as attribute lines.
pub open spec fn md_start_text(t: MdTag, ind: nat) -> Seq<char> {
    match t {
        MdTag::Other => Seq::empty(),
        MdTag::List(Some(n)) => md_open("ul"@, ind) + md_attr(
            "start"@,
            dec_seq(n as nat),
            ind + 1,
        ),
        MdTag::Link(dest, title) => md_open("a"@, ind) + md_attr(
            "href"@,
            escape_seq(dest@),
            ind + 1,
        ) + md_attr("title"@, escape_seq(title@), ind + 1),
        MdTag::Image(dest, title) => md_open("img"@, ind) + md_attr(
            "src"@,
            escape_seq(dest@),
            ind + 1,
        ) + md_attr("title"@, escape_seq(title@), ind + 1),
        _ => md_open(md_tag_name(t), ind),
    }
}

/// The text emitted for an end event, at the post-decrement indent level.
pub open spec fn md_end_text(t: MdTag, ind: nat) -> Seq<char> {
    match t {
        MdTag::Other => Seq::empty(),
        _ => md_close(ind),
    }
}

/// The text emitted for a leaf event. An inline code span is a
/// self-contained code container wrapping one text line.
pub open spec fn md_leaf_text(e: MdEvent, ind: nat) -> Seq<char> {
    match e {
        MdEvent::Text(s) => md_text_line(escape_seq(s@), ind),
        MdEvent::Code(s) => md_open("code"@, ind) + md_text_line(escape_seq(s@), ind + 1)
            + md_close(ind),
        MdEvent::Rule => indent_seq(ind) + ".child(::dominator::html!(\"hr\"))"@,
        MdEvent::TaskListMarker(b) => md_text_line(if b { "\u{2611}"@ } else { "\u{2610}"@ }, ind),
        _ => Seq::empty(),
    }
}

/// One step of the streaming formatter: the indent level after the event
/// and the text it emits, or the unbalanced-stream error. Every start event
/// raises the counter and every end event lowers it, whether or not the tag
/// emits text.
pub open spec fn md_step(ind: nat, e: MdEvent) -> Result<(nat, Seq<char>), MdError> {
    match e {
        MdEvent::Start(t) => Ok(((ind + 1) as nat, md_start_text(t, ind))),
        MdEvent::End(t) => if ind == 0 {
            Err(MdError::Unbalanced)
        } else {
            Ok(((ind - 1) as nat, md_end_text(t, (ind - 1) as nat)))
        },
        _ => Ok((ind, md_leaf_text(e, ind))),
    }
}

/// The whole run of the streaming formatter over an event sequence: the
/// final indent level and the concatenated emitted text, or the first
/// unbalanced-stream error.
pub open spec fn md_run(events: Seq<MdEvent>, ind: nat) -> Result<(nat, Seq<char>), MdError>
    decreases events.len(),
{
    if events.len() == 0 {
        Ok((ind, Seq::empty()))
    } else {
        match md_step(ind, events[0]) {
            Err(e) => Err(e),
            Ok(p) => match md_run(events.drop_first(), p.0) {
                Err(e) => Err(e),
                Ok(q) => Ok((q.0, p.1 + q.1)),
            },
        }
    }
}

/// +1 for a start event, -1 for an end event, 0 for a leaf event.
pub open spec fn event_delta(e: MdEvent) -> int {
    match e {
        MdEvent::Start(_) => 1,
        MdEvent::End(_) => -1,
        _ => 0,
    }
}

/// Start events minus end events.
pub open spec fn net_starts(events: Seq<MdEvent>) -> int
    decreases events.len(),
{
    if events.len() == 0 {
        0
    } else {
        event_delta(events[0]) + net_starts(events.drop_first())
    }
}

/// An unbalanced stream is detected, and nothing else is: the run
/// succeeds exactly when no prefix of the stream would drive the indent
/// counter below zero.
pub proof fn lemma_run_ok_iff_counter_stays_nonnegative(events: Seq<MdEvent>, ind: nat)
    ensures
        md_run(events, ind) is Ok <==> (forall|i: int|
            0 <= i <= events.len() ==> ind + net_starts(#[trigger] events.take(i)) >= 0),
    decreases events.len(),
{
    if events.len() == 0 {
        assert(md_run(events, ind) is Ok);
        assert forall|i: int| 0 <= i <= events.len() implies ind + net_starts(
            #[trigger] events.take(i),
        ) >= 0 by {
            assert(events.take(i) =~= Seq::<MdEvent>::empty());
        }
    } else {
        let e = events[0];
        let rest = events.drop_first();
        assert(net_starts(Seq::<MdEvent>::empty()) == 0);
        assert forall|j: int| 0 <= j <= rest.len() implies net_starts(events.take(j + 1))
            == event_delta(e) + net_starts(#[trigger] rest.take(j)) by {
            assert(events.take(j + 1)[0] == e);
            assert(events.take(j + 1).drop_first() =~= rest.take(j));
        }
        match md_step(ind, e) {
            Ok(p) => {
                lemma_run_ok_iff_counter_stays_nonnegative(rest, p.0);
                assert(p.0 == ind + event_delta(e));
                if md_run(rest, p.0) is Ok {
                    assert forall|i: int| 0 <= i <= events.len() implies ind + net_starts(
                        #[trigger] events.take(i),
                    ) >= 0 by {
                        if i == 0 {
                            assert(events.take(0) =~= Seq::<MdEvent>::empty());
                            assert(net_starts(Seq::<MdEvent>::empty()) == 0);
                        } else {
                            assert(p.0 + net_starts(rest.take(i - 1)) >= 0);
                            assert(net_starts(events.take((i - 1) + 1)) == event_delta(e)
                                + net_starts(rest.take(i - 1)));
                        }
                    }
                } else {
                    let j = choose|j: int|
                        0 <= j <= rest.len() && p.0 + net_starts(#[trigger] rest.take(j)) < 0;
                    assert(net_starts(events.take(j + 1)) == event_delta(e) + net_starts(
                        rest.take(j),
                    ));
                    assert(ind + net_starts(events.take(j + 1)) < 0);
                }
            },
            Err(_) => {
                assert(events.take(1)[0] == e);
                assert(events.take(1).drop_first() =~= Seq::<MdEvent>::empty());
                assert(net_starts(events.take(1)) == event_delta(e) + net_starts(
                    Seq::<MdEvent>::empty(),
                ));
                assert(ind + net_starts(events.take(1)) < 0);
            },
        }
    }
}

/// An end event with no matching start event is detected at once: the run
/// of any stream that begins with an end event errs.
pub proof fn lemma_unbalanced_end_detected(events: Seq<MdEvent>, t: MdTag)
    requires
        events.len() > 0,
        events[0] == MdEvent::End(t),
    ensures
        md_run(events, 0) == Result::<(nat, Seq<char>), MdError>::Err(MdError::Unbalanced),
{
}

/// An ordered-list start event emits the list-open line immediately
/// followed by the start-number attribute line, before any further event.
pub proof fn lemma_ordered_list_start(ind: nat, n: u64)
    ensures
        md_step(ind, MdEvent::Start(MdTag::List(Some(n)))) == Result::<
            (nat, Seq<char>),
            MdError,
        >::Ok(
            (
                (ind + 1) as nat,
                md_open("ul"@, ind) + md_attr("start"@, dec_seq(n as nat), ind + 1),
            ),
        ),
{
}

// ---------------------------------------------------------------------------
// The streaming writer
// ---------------------------------------------------------------------------

/// The streaming formatter's state: the indent counter and the text
/// emitted so far.
pub struct StaticMarkdownWriter {
    pub indent: usize,
    pub out: String,
}

/// Appends an opening builder-call line.
fn push_md_open(out: &mut String, ind: usize, name: &str)
    ensures
        final(out)@ == old(out)@ + md_open(name@, ind as nat),
{
    push_indent(out, ind);
    out.append(".child(::dominator::html!(\"");
    out.append(name);
    out.append("\", {\n");
    proof {
        assert(out@ =~= old(out)@ + md_open(name@, ind as nat));
    }
}

/// Appends a closing builder-call line.
fn push_md_close(out: &mut String, ind: usize)
    ensures
        final(out)@ == old(out)@ + md_close(ind as nat),
{
    push_indent(out, ind);
    out.append("})\n");
    proof {
        assert(out@ =~= old(out)@ + md_close(ind as nat));
    }
}

/// Appends an attribute-call line with an escaped string value.
fn push_md_attr(out: &mut String, ind: usize, name: &str, value: &str)
    ensures
        final(out)@ == old(out)@ + md_attr(name@, escape_seq(value@), ind as nat),
{
    push_indent(out, ind);
    out.append(".attr(\"");
    out.append(name);
    out.append("\", \"");
    push_escaped(out, value);
    out.append("\")\n");
    proof {
        assert(out@ =~= old(out)@ + md_attr(name@, escape_seq(value@), ind as nat));
    }
}

/// Appends an attribute-call line with a decimal number value.
fn push_md_attr_num(out: &mut String, ind: usize, name: &str, value: u64)
    ensures
        final(out)@ == old(out)@ + md_attr(name@, dec_seq(value as nat), ind as nat),
{
    push_indent(out, ind);
    out.append(".attr(\"");
    out.append(name);
    out.append("\", \"");
    push_dec(out, value);
    out.append("\")\n");
    proof {
        assert(out@ =~= old(out)@ + md_attr(name@, dec_seq(value as nat), ind as nat));
    }
}

/// Appends a text-call line with an escaped string value.
fn push_md_text(out: &mut String, ind: usize, value: &str)
    ensures
        final(out)@ == old(out)@ + md_text_line(escape_seq(value@), ind as nat),
{
    push_indent(out, ind);
    out.append(".text(\"");
    push_escaped(out, value);
    out.append("\")\n");
    proof {
        assert(out@ =~= old(out)@ + md_text_line(escape_seq(value@), ind as nat));
    }
}

impl StaticMarkdownWriter {
    /// Emits the text of one start event and raises the indent counter.
    fn fmt_start_event(&mut self, t: &MdTag)
        requires
            old(self).indent < usize::MAX,
        ensures
            final(self).indent == old(self).indent + 1,
            final(self).out@ == old(self).out@ + md_start_text(*t, old(self).indent as nat),
    {
        let ghost ind = self.indent as nat;
        match t {
            MdTag::Other => {},
            MdTag::List(Some(n)) => {
                push_md_open(&mut self.out, self.indent, "ul");
                push_md_attr_num(&mut self.out, self.indent + 1, "start", *n);
                proof {
                    assert(self.out@ =~= old(self).out@ + md_start_text(*t, ind));
                }
            },
            MdTag::Link(dest, title) => {
                push_md_open(&mut self.out, self.indent, "a");
                push_md_attr(&mut self.out, self.indent + 1, "href", dest.as_str());
                push_md_attr(&mut self.out, self.indent + 1, "title", title.as_str());
                proof {
                    assert(self.out@ =~= old(self).out@ + md_start_text(*t, ind));
                }
            },
            MdTag::Image(dest, title) => {
                push_md_open(&mut self.out, self.indent, "img");
                push_md_attr(&mut self.out, self.indent + 1, "src", dest.as_str());
                push_md_attr(&mut self.out, self.indent + 1, "title", title.as_str());
                proof {
                    assert(self.out@ =~= old(self).out@ + md_start_text(*t, ind));
                }
            },
            _ => {
                let name = match t {
                    MdTag::Paragraph => "p",
                    MdTag::Heading(l) => conv_heading(*l),
                    MdTag::BlockQuote => "blockquote",
                    MdTag::CodeBlock => "code",
                    MdTag::List(_) => "ul",
                    MdTag::Item => "li",
                    _ => "",
                };
                push_md_open(&mut self.out, self.indent, name);
                proof {
                    assert(name@ == md_tag_name(*t));
                }
            },
        }
        self.indent = self.indent + 1;
    }

    /// Emits the closing line of one end event at the post-decrement indent
    /// level, or reports the unbalanced stream.
    fn fmt_end_event(&mut self, t: &MdTag) -> (r: Result<(), MdError>)
        ensures
            match md_step(old(self).indent as nat, MdEvent::End(*t)) {
                Ok(p) => r is Ok && final(self).indent as nat == p.0 && final(self).out@ == old(
                    self,
                ).out@ + p.1,
                Err(e) => r is Err && r->Err_0 == e && *final(self) == *old(self),
            },
    {
        if self.indent == 0 {
            return Err(MdError::Unbalanced);
        }
        self.indent = self.indent - 1;
        let ghost ind = self.indent as nat;
        match t {
            MdTag::Other => {},
            _ => {
                push_indent(&mut self.out, self.indent);
                self.out.append("})\n");
                proof {
                    assert(self.out@ =~= old(self).out@ + md_end_text(*t, ind));
                }
            },
        }
        Ok(())
    }

    /// Emits the text of one event and adjusts the indent counter.
    fn fmt_event(&mut self, e: &MdEvent) -> (r: Result<(), MdError>)
        requires
            old(self).indent < usize::MAX,
        ensures
            match md_step(old(self).indent as nat, *e) {
                Ok(p) => r is Ok && final(self).indent as nat == p.0 && final(self).out@ == old(
                    self,
                ).out@ + p.1,
                Err(er) => r is Err && r->Err_0 == er && *final(self) == *old(self),
            },
    {
        let ghost ind = self.indent as nat;
        match e {
            MdEvent::Start(t) => {
                self.fmt_start_event(t);
                Ok(())
            },
            MdEvent::End(t) => self.fmt_end_event(t),
            MdEvent::Text(s) => {
                push_md_text(&mut self.out, self.indent, s.as_str());
                Ok(())
            },
            MdEvent::Code(s) => {
                push_md_open(&mut self.out, self.indent, "code");
                push_md_text(&mut self.out, self.indent + 1, s.as_str());
                push_md_close(&mut self.out, self.indent);
                proof {
                    assert(self.out@ =~= old(self).out@ + md_leaf_text(*e, ind));
                }
                Ok(())
            },
            MdEvent::Rule => {
                push_indent(&mut self.out, self.indent);
                self.out.append(".child(::dominator::html!(\"hr\"))");
                proof {
                    assert(self.out@ =~= old(self).out@ + md_leaf_text(*e, ind));
                }
                Ok(())
            },
            MdEvent::TaskListMarker(b) => {
                push_indent(&mut self.out, self.indent);
                self.out.append(".text(\"");
                if *b {
                    self.out.append("\u{2611}");
                } else {
                    self.out.append("\u{2610}");
                }
                self.out.append("\")\n");
                proof {
                    assert(self.out@ =~= old(self).out@ + md_leaf_text(*e, ind));
                }
                Ok(())
            },
            MdEvent::Other => {
                Ok(())
            },
        }
    }

    /// Runs the streaming formatter over a whole event sequence.
    fn fmt(&mut self, events: &Vec<MdEvent>) -> (r: Result<(), MdError>)
        requires
            old(self).indent + events@.len() <= usize::MAX,
        ensures
            match md_run(events@, old(self).indent as nat) {
                Ok(p) => r is Ok && final(self).indent as nat == p.0 && final(self).out@ == old(
                    self,
                ).out@ + p.1,
                Err(e) => r is Err && r->Err_0 == e,
            },
    {
        let ghost full = events@;
        let ghost ind0 = old(self).indent as nat;
        let ghost out0 = old(self).out@;
        proof {
            assert(full.skip(0) =~= full);
        }
        let n = events.len();
        let mut i: usize = 0;
        while i < n
            invariant
                i <= n,
                n == events@.len(),
                full == events@,
                ind0 == old(self).indent as nat,
                out0 == old(self).out@,
                self.indent <= ind0 + i,
                md_run_wrap(full, ind0, out0) == md_run_wrap(
                    full.skip(i as int),
                    self.indent as nat,
                    self.out@,
                ),
                ind0 + events@.len() <= usize::MAX,
            decreases n - i,
        {
            let ghost pre_ind = self.indent as nat;
            let ghost pre_out = self.out@;
            proof {
                assert(full.skip(i as int).len() > 0);
                assert(full.skip(i as int)[0] == events@[i as int]);
                assert(full.skip(i as int).drop_first() =~= full.skip(i as int + 1));
            }
            let r = self.fmt_event(&events[i]);
            proof {
                let ev = full.skip(i as int)[0];
                match md_step(pre_ind, ev) {
                    Ok(p) => {
                        match md_run(full.skip(i as int + 1), p.0) {
                            Ok(q) => {
                                assert(pre_out + (p.1 + q.1) =~= (pre_out + p.1) + q.1);
                            },
                            Err(_) => {},
                        }
                    },
                    Err(_) => {},
                }
            }
            match r {
                Ok(_) => {},
                Err(e) => {
                    proof {
                        let ev = full.skip(i as int)[0];
                        assert(md_step(pre_ind, ev) == Result::<(nat, Seq<char>), MdError>::Err(e));
                        assert(md_run(full.skip(i as int), pre_ind) == Result::<
                            (nat, Seq<char>),
                            MdError,
                        >::Err(e));
                        assert(md_run_wrap(full, ind0, out0) == Result::<
                            (nat, Seq<char>),
                            MdError,
                        >::Err(e));
                        assert(md_run(full, ind0) == Result::<(nat, Seq<char>), MdError>::Err(e));
                    }
                    return Err(e);
                },
            }
            i = i + 1;
        }
        proof {
            assert(full.skip(n as int) =~= Seq::<MdEvent>::empty());
        }
        Ok(())
    }
}

/// The run's result with the given prefix prepended to its text.
pub open spec fn md_run_wrap(events: Seq<MdEvent>, ind: nat, prefix: Seq<char>) -> Result<
    (nat, Seq<char>),
    MdError,
> {
    match md_run(events, ind) {
        Ok(p) => Ok((p.0, prefix + p.1)),
        Err(e) => Err(e),
    }
}

// ---------------------------------------------------------------------------
// The public face: a parsed Markdown document
// ---------------------------------------------------------------------------

/// A Markdown document, parsed into its event stream.
pub struct StaticMarkdown {
    pub events: Vec<MdEvent>,
}

impl StaticMarkdown {
    /// Parses Markdown source text into an event stream.
    pub fn from_str(input: &str) -> (r: Self)
        ensures
            r.events@ == md_events_of(input@),
            md_run(r.events@, 0) is Ok,
    {
        StaticMarkdown { events: parse_markdown(input) }
    }

    /// Formats the whole event stream as builder-call text.
    pub fn generate_dominator(self) -> (r: Result<String, MdError>)
        ensures
            match md_run(self.events@, 0) {
                Ok(p) => r is Ok && r->Ok_0@ == p.1,
                Err(e) => r is Err && r->Err_0 == e,
            },
    {
        if self.events.len() > usize::MAX {
            return Err(MdError::Unbalanced);
        }
        let mut w = StaticMarkdownWriter { indent: 0, out: String::new() };
        match w.fmt(&self.events) {
            Ok(_) => Ok(w.out),
            Err(e) => Err(e),
        }
    }
}

// ---------------------------------------------------------------------------
// Trusted boundary: pulldown_cmark
// ---------------------------------------------------------------------------

#[verifier::external_type_specification]
#[verifier::external_body]
pub struct ExMdParserEvent<'a>(pulldown_cmark::Event<'a>);

#[verifier::external_type_specification]
#[verifier::external_body]
pub struct ExMdParserTag<'a>(pulldown_cmark::Tag<'a>);

#[verifier::external_type_specification]
#[verifier::external_body]
pub struct ExMdHeadingLevel(pulldown_cmark::HeadingLevel);

/// The event stream that the Markdown parser produces for a source text,
/// under this library's event model; a function of the text alone.
pub uninterp spec fn md_events_of(s: Seq<char>) -> Seq<MdEvent>;

/// Relies on pulldown_cmark's Parser::new_ext, with all extensions
/// enabled: a deterministic parse, so the result is a function of the text
/// alone; and on its documented guarantee that start and end events are
/// balanced, so the indent counter of a run over the stream never goes
/// below zero.
#[verifier::external_body]
fn parse_markdown(input: &str) -> (r: Vec<MdEvent>)
    ensures
        r@ == md_events_of(input@),
        md_run(r@, 0) is Ok,
{
    let parser = pulldown_cmark::Parser::new_ext(input, pulldown_cmark::Options::all());
    let mut out = Vec::new();
    for e in parser {
        out.push(convert_event(e));
    }
    out
}

/// Relies on pulldown_cmark's Event: renames each variant, moving its
/// fields; leaf events that the emitter drops map to Other.
#[verifier::external_body]
fn convert_event(e: pulldown_cmark::Event<'_>) -> (r: MdEvent) {
    match e {
        pulldown_cmark::Event::Start(t) => MdEvent::Start(convert_tag(t)),
        pulldown_cmark::Event::End(t) => MdEvent::End(convert_tag(t)),
        pulldown_cmark::Event::Text(s) => MdEvent::Text(s.into_string()),
        pulldown_cmark::Event::Code(s) => MdEvent::Code(s.into_string()),
        pulldown_cmark::Event::Rule => MdEvent::Rule,
        pulldown_cmark::Event::TaskListMarker(done) => MdEvent::TaskListMarker(done),
        _ => MdEvent::Other,
    }
}

/// Relies on pulldown_cmark's Tag: renames each emitted variant, moving its
/// fields; tags that the emitter drops map to Other.
#[verifier::external_body]
fn convert_tag(t: pulldown_cmark::Tag<'_>) -> (r: MdTag) {
    match t {
        pulldown_cmark::Tag::Paragraph => MdTag::Paragraph,
        pulldown_cmark::Tag::Heading(l, _, _) => MdTag::Heading(heading_number(l)),
        pulldown_cmark::Tag::BlockQuote => MdTag::BlockQuote,
        pulldown_cmark::Tag::CodeBlock(_) => MdTag::CodeBlock,
        pulldown_cmark::Tag::List(n) => MdTag::List(n),
        pulldown_cmark::Tag::Item => MdTag::Item,
        pulldown_cmark::Tag::Link(_, d, t) => MdTag::Link(d.into_string(), t.into_string()),
        pulldown_cmark::Tag::Image(_, d, t) => MdTag::Image(d.into_string(), t.into_string()),
        _ => MdTag::Other,
    }
}

/// Relies on pulldown_cmark's HeadingLevel: its six values are the numbers
/// 1 through 6.
#[verifier::external_body]
fn heading_number(l: pulldown_cmark::HeadingLevel) -> (r: u8) {
    l as u8
}

} // verus!
