use vstd::prelude::*;

pub mod dom;
pub mod html;
pub mod markdown;
pub mod text;

pub use html::StaticHtml;
pub use markdown::StaticMarkdown;

verus! {

/// Converts HTML and Markdown source text into `dominator` builder-call
/// source fragments.
///
/// Escaping is best-effort: the output has not been audited and should not
/// be used on untrusted input.
pub struct Convertor {
    pub path: String,
    pub trim_html: bool,
}

impl Convertor {
    pub fn new(path: String) -> (r: Self)
        ensures
            r.path == path,
            r.trim_html == false,
    {
        Convertor { path, trim_html: false }
    }

    pub fn trim_html(self, yes: bool) -> (r: Self)
        ensures
            r.path == self.path,
            r.trim_html == yes,
    {
        Convertor { trim_html: yes, ..self }
    }
}

// ---------------------------------------------------------------------------
// Extension dispatch and output naming
// ---------------------------------------------------------------------------

/// Which emitter handles a file, by its extension.
#[derive(Debug, Clone, Copy, PartialEq, Eq, Structural)]
pub enum FileKind {
    Html,
    Markdown,
    Other,
}

/// The extension of a path: the characters after the last `.` of its final
/// component; none for a path without a dot there, or whose final
/// component starts with the dot.
pub open spec fn path_ext(s: Seq<char>) -> Option<Seq<char>>
    decreases s.len(),
{
    if s.len() == 0 {
        None
    } else if s.last() == '/' {
        None
    } else if s.last() == '.' {
        if s.len() == 1 || s[s.len() - 2] == '/' {
            None
        } else {
            Some(Seq::empty())
        }
    } else {
        match path_ext(s.drop_last()) {
            None => None,
            Some(e) => Some(e.push(s.last())),
        }
    }
}

/// An extension with the rest of the final component put back.
pub open spec fn ext_wrap(o: Option<Seq<char>>, suffix: Seq<char>) -> Option<Seq<char>> {
    match o {
        None => None,
        Some(e) => Some(e + suffix),
    }
}

/// The character position where the path's extension starts, if it has
/// one.
fn find_ext_start(s: &str) -> (r: Option<usize>)
    ensures
        match path_ext(s@) {
            None => r is None,
            Some(e) => r is Some && r->0 <= s@.len() && r->0 as int == s@.len() - e.len() && e
                == s@.skip(s@.len() - e.len()),
        },
{
    let n = s.unicode_len();
    let mut i: usize = n;
    proof {
        assert(s@.take(n as int) =~= s@);
        assert(s@.skip(n as int) =~= Seq::<char>::empty());
        match path_ext(s@) {
            Some(e) => {
                assert(e + Seq::<char>::empty() =~= e);
            },
            None => {},
        }
    }
    while i > 0
        invariant
            i <= n,
            n == s@.len(),
            path_ext(s@) == ext_wrap(path_ext(s@.take(i as int)), s@.skip(i as int)),
        decreases i,
    {
        let c = s.get_char(i - 1);
        proof {
            assert(s@.take(i as int).last() == s@[i - 1]);
            assert(s@.take(i as int).drop_last() =~= s@.take(i - 1));
        }
        if c == '.' {
            if i == 1 || s.get_char(i - 2) == '/' {
                proof {
                    if i >= 2 {
                        assert(s@.take(i as int)[i - 2] == s@[i - 2]);
                    }
                }
                return None;
            }
            proof {
                assert(s@.take(i as int)[i - 2] == s@[i - 2]);
                assert(Seq::<char>::empty() + s@.skip(i as int) =~= s@.skip(i as int));
                assert(s@.skip(i as int).len() == n - i);
            }
            return Some(i);
        }
        if c == '/' {
            return None;
        }
        i = i - 1;
        proof {
            match path_ext(s@.take(i as int)) {
                None => {},
                Some(e) => {
                    assert(e.push(s@[i as int]) + s@.skip(i + 1) =~= e + s@.skip(i as int));
                },
            }
        }
    }
    proof {
        assert(s@.take(0) =~= Seq::<char>::empty());
    }
    None
}

/// The emitter a path is routed to: `html` and `htm` files to the HTML
/// emitter, `md` files to the Markdown emitter, everything else skipped.
pub open spec fn classify_spec(s: Seq<char>) -> FileKind {
    match path_ext(s) {
        Some(e) => if e == "html"@ || e == "htm"@ {
            FileKind::Html
        } else if e == "md"@ {
            FileKind::Markdown
        } else {
            FileKind::Other
        },
        None => FileKind::Other,
    }
}

/// Routes a path to an emitter by its extension.
pub fn classify_path(name: &str) -> (k: FileKind)
    ensures
        k == classify_spec(name@),
{
    match find_ext_start(name) {
        None => FileKind::Other,
        Some(i) => {
            let n = name.unicode_len();
            let e = name.substring_char(i, n);
            let es = String::from_str(e);
            let eh = String::from_str("html");
            let eh2 = String::from_str("htm");
            let em = String::from_str("md");
            if es.eq(&eh) || es.eq(&eh2) {
                FileKind::Html
            } else if es.eq(&em) {
                FileKind::Markdown
            } else {
                FileKind::Other
            }
        },
    }
}

/// The output file's path: the extension replaced by the generated-source
/// suffix `rs.inc`; a path without an extension gets the suffix appended.
pub open spec fn out_name_spec(s: Seq<char>) -> Seq<char> {
    match path_ext(s) {
        None => s + ".rs.inc"@,
        Some(e) => s.take(s.len() - e.len()) + "rs.inc"@,
    }
}

/// The output file name for an input file name.
pub fn out_name(name: &str) -> (r: String)
    ensures
        r@ == out_name_spec(name@),
{
    match find_ext_start(name) {
        None => {
            let mut r = String::from_str(name);
            r.append(".rs.inc");
            r
        },
        Some(i) => {
            let stem = name.substring_char(0, i);
            let mut r = String::from_str(stem);
            r.append("rs.inc");
            proof {
                assert(stem@ =~= name@.take(i as int));
            }
            r
        },
    }
}

} // verus!
