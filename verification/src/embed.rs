//! Embeds: a titled card with named fields and an optional link, rendered
//! both as plain text and as HTML for a notice message.
use vstd::prelude::*;

use crate::html::{escape, push_escaped};
use crate::text::{join_strings, join_with, law_join_appends_last, push_str};

verus! {

/// What an embed holds.
pub struct EmbedView {
    pub title: Seq<char>,
    pub fields: Seq<(Seq<char>, Seq<char>)>,
    pub url: Option<Seq<char>>,
    pub url_text: Option<Seq<char>>,
}

/// Builds an embed: a title, `name: value` fields in the order they were
/// added, and an optional link with an optional link text.
pub struct EmbedBuilder {
    title: String,
    fields: Vec<(String, String)>,
    url: Option<String>,
    url_text: Option<String>,
}

/// The view of an optional string.
pub open spec fn opt_view(o: Option<String>) -> Option<Seq<char>> {
    match o {
        Some(s) => Some(s@),
        None => None,
    }
}

/// The view of a field.
pub open spec fn field_view(f: (String, String)) -> (Seq<char>, Seq<char>) {
    (f.0@, f.1@)
}

impl View for EmbedBuilder {
    type V = EmbedView;

    closed spec fn view(&self) -> EmbedView {
        EmbedView {
            title: self.title@,
            fields: self.fields@.map_values(|f: (String, String)| field_view(f)),
            url: opt_view(self.url),
            url_text: opt_view(self.url_text),
        }
    }
}

/// A field as a line of plain text: `name: value`.
pub open spec fn plain_field(f: (Seq<char>, Seq<char>)) -> Seq<char> {
    f.0 + ": "@ + f.1
}

/// The plain-text rendering: the title, an em dash, then the fields
/// separated by ` | `.
pub open spec fn plain_text(e: EmbedView) -> Seq<char> {
    e.title + " \u{2014} "@ + join_with(e.fields.map_values(|f: (Seq<char>, Seq<char>)| plain_field(f)), " | "@)
}

/// A field in HTML: the escaped name and a colon in bold, a space, then the
/// escaped value.
pub open spec fn html_field(f: (Seq<char>, Seq<char>)) -> Seq<char> {
    "<strong>"@ + escape(f.0) + ":</strong> "@ + escape(f.1)
}

/// The link in HTML, after a line break; its text is `View URL` unless one
/// was given.
pub open spec fn html_link(url: Option<Seq<char>>, url_text: Option<Seq<char>>) -> Seq<char> {
    match url {
        Some(u) => {
            let text = match url_text {
                Some(t) => t,
                None => "View URL"@,
            };
            "<br><a href=\""@ + escape(u) + "\">"@ + escape(text) + "</a>"@
        },
        None => Seq::empty(),
    }
}

/// The HTML rendering: a block quote holding the bold title, a line break,
/// the fields separated by line breaks, then the link if there is one.
pub open spec fn html_text(e: EmbedView) -> Seq<char> {
    "<blockquote><strong>"@ + escape(e.title) + "</strong><br>"@ + join_with(
        e.fields.map_values(|f: (Seq<char>, Seq<char>)| html_field(f)),
        "<br>"@,
    ) + html_link(e.url, e.url_text) + "</blockquote>"@
}

impl EmbedBuilder {
    /// A new embed with the given title, no fields and no link.
    pub fn with_title(title: String) -> (r: Self)
        ensures
            r@ == (EmbedView { title: title@, fields: Seq::empty(), url: None, url_text: None }),
    {
        let r = EmbedBuilder { title, fields: Vec::new(), url: None, url_text: None };
        assert(r@.fields =~= Seq::<(Seq<char>, Seq<char>)>::empty());
        r
    }

    /// Replaces the title.
    pub fn title(self, title: String) -> (r: Self)
        ensures
            r@ == (EmbedView { title: title@, ..self@ }),
    {
        let mut s = self;
        s.title = title;
        s
    }

    /// Adds a field after the existing ones.
    pub fn field(self, field_name: String, field_value: String) -> (r: Self)
        ensures
            r@ == (EmbedView { fields: self@.fields.push((field_name@, field_value@)), ..self@ }),
    {
        let mut s = self;
        s.fields.push((field_name, field_value));
        assert(s@.fields =~= self@.fields.push((field_name@, field_value@)));
        s
    }

    /// Sets the link.
    pub fn url(self, url: String) -> (r: Self)
        ensures
            r@ == (EmbedView { url: Some(url@), ..self@ }),
    {
        let mut s = self;
        s.url = Some(url);
        s
    }

    /// Sets the text of the link.
    pub fn url_text(self, url_text: String) -> (r: Self)
        ensures
            r@ == (EmbedView { url_text: Some(url_text@), ..self@ }),
    {
        let mut s = self;
        s.url_text = Some(url_text);
        s
    }

    /// The embed as plain text.
    pub fn to_plain(&self) -> (r: String)
        ensures
            r@ == plain_text(self@),
    {
        let n = self.fields.len();
        let mut lines: Vec<String> = Vec::new();
        for i in 0..n
            invariant
                n == self.fields@.len(),
                lines@.len() == i,
                forall|k: int|
                    0 <= k < i ==> #[trigger] lines@[k]@ == plain_field(
                        field_view(self.fields@[k]),
                    ),
        {
            let mut line = String::new();
            push_str(&mut line, self.fields[i].0.as_str());
            push_str(&mut line, ": ");
            push_str(&mut line, self.fields[i].1.as_str());
            lines.push(line);
        }
        let joined = join_strings(&lines, " | ");
        proof {
            assert(lines@.map_values(|p: String| p@) =~= self@.fields.map_values(
                |f: (Seq<char>, Seq<char>)| plain_field(f),
            ));
        }
        let mut out = String::new();
        push_str(&mut out, self.title.as_str());
        push_str(&mut out, " \u{2014} ");
        push_str(&mut out, joined.as_str());
        assert(out@ =~= plain_text(self@));
        out
    }

    /// The embed as HTML.
    pub fn to_html(&self) -> (r: String)
        ensures
            r@ == html_text(self@),
    {
        let mut out = String::new();
        push_str(&mut out, "<blockquote><strong>");
        push_escaped(&mut out, self.title.as_str());
        push_str(&mut out, "</strong><br>");
        let ghost head = out@;
        let ghost parts = self@.fields.map_values(|f: (Seq<char>, Seq<char>)| html_field(f));
        let n = self.fields.len();
        for i in 0..n
            invariant
                n == self.fields@.len(),
                parts == self@.fields.map_values(|f: (Seq<char>, Seq<char>)| html_field(f)),
                out@ == head + join_with(parts.take(i as int), "<br>"@),
        {
            assert(parts.take(i + 1).drop_last() =~= parts.take(i as int));
            if i != 0 {
                push_str(&mut out, "<br>");
            }
            push_str(&mut out, "<strong>");
            push_escaped(&mut out, self.fields[i].0.as_str());
            push_str(&mut out, ":</strong> ");
            push_escaped(&mut out, self.fields[i].1.as_str());
            proof {
                assert(parts[i as int] == html_field(field_view(self.fields@[i as int])));
                if i == 0 {
                    assert(parts.take(1)[0] == parts[0]);
                    assert(out@ =~= head + join_with(parts.take(1), "<br>"@));
                } else {
                    assert(out@ =~= head + join_with(parts.take(i + 1), "<br>"@));
                }
            }
        }
        assert(parts.take(n as int) =~= parts);
        let ghost body = out@;
        match &self.url {
            Some(u) => {
                push_str(&mut out, "<br><a href=\"");
                push_escaped(&mut out, u.as_str());
                push_str(&mut out, "\">");
                match &self.url_text {
                    Some(t) => push_escaped(&mut out, t.as_str()),
                    None => push_escaped(&mut out, "View URL"),
                }
                push_str(&mut out, "</a>");
                assert(out@ =~= body + html_link(self@.url, self@.url_text));
            },
            None => {
                assert(out@ =~= body + html_link(self@.url, self@.url_text));
            },
        }
        push_str(&mut out, "</blockquote>");
        assert(out@ =~= html_text(self@));
        out
    }
}

/// Law: a field added to an embed is rendered in HTML after all the fields
/// before it: the HTML up to the link gains a line break (when there were
/// fields already) and the new field, and the link and the end stay.
pub proof fn law_html_renders_every_field(e: EmbedView, f: (Seq<char>, Seq<char>))
    ensures
        ({
            let t = html_link(e.url, e.url_text) + "</blockquote>"@;
            let h = html_text(e);
            let added = html_text(EmbedView { fields: e.fields.push(f), ..e });
            &&& t.len() <= h.len()
            &&& h.subrange(h.len() - t.len(), h.len() as int) == t
            &&& added == h.subrange(0, h.len() - t.len()) + (if e.fields.len() > 0 {
                "<br>"@
            } else {
                Seq::empty()
            }) + html_field(f) + t
        }),
{
    let parts = e.fields.map_values(|g: (Seq<char>, Seq<char>)| html_field(g));
    let e2 = EmbedView { fields: e.fields.push(f), ..e };
    assert(e2.fields.map_values(|g: (Seq<char>, Seq<char>)| html_field(g)) =~= parts.push(
        html_field(f),
    ));
    law_join_appends_last(parts, "<br>"@, html_field(f));
    let t = html_link(e.url, e.url_text) + "</blockquote>"@;
    let p = "<blockquote><strong>"@ + escape(e.title) + "</strong><br>"@ + join_with(parts, "<br>"@);
    assert(html_text(e) =~= p + t);
    assert((p + t).subrange(p.len() as int, (p + t).len() as int) =~= t);
    assert((p + t).subrange(0, p.len() as int) =~= p);
    if e.fields.len() > 0 {
        assert(html_text(e2) =~= p + "<br>"@ + html_field(f) + t);
    } else {
        assert(html_text(e2) =~= p + Seq::<char>::empty() + html_field(f) + t);
    }
}

/// Law: a field added to an embed is rendered in plain text after all the
/// fields before it, separated by ` | ` when there were fields already.
pub proof fn law_plain_renders_every_field(e: EmbedView, f: (Seq<char>, Seq<char>))
    ensures
        plain_text(EmbedView { fields: e.fields.push(f), ..e }) == plain_text(e) + (if e.fields.len()
            > 0 {
            " | "@
        } else {
            Seq::empty()
        }) + plain_field(f),
{
    let parts = e.fields.map_values(|g: (Seq<char>, Seq<char>)| plain_field(g));
    let e2 = EmbedView { fields: e.fields.push(f), ..e };
    assert(e2.fields.map_values(|g: (Seq<char>, Seq<char>)| plain_field(g)) =~= parts.push(
        plain_field(f),
    ));
    law_join_appends_last(parts, " | "@, plain_field(f));
    if e.fields.len() > 0 {
        assert(plain_text(e2) =~= plain_text(e) + " | "@ + plain_field(f));
    } else {
        assert(join_with(parts, " | "@) =~= Seq::<char>::empty());
        assert(plain_text(e2) =~= plain_text(e) + Seq::<char>::empty() + plain_field(f));
    }
}

} // verus!
