//! Escaping of text for HTML element content and attribute values.
use vstd::prelude::*;

use crate::text::{chars_of, push_char, push_str};

verus! {

/// What one character of text becomes in HTML: `&`, `<`, `>` and `"`
/// become entities, every other character stays as it is.
pub open spec fn escape_char(c: char) -> Seq<char> {
    if c == '&' {
        seq!['&', 'a', 'm', 'p', ';']
    } else if c == '<' {
        seq!['&', 'l', 't', ';']
    } else if c == '>' {
        seq!['&', 'g', 't', ';']
    } else if c == '"' {
        seq!['&', 'q', 'u', 'o', 't', ';']
    } else {
        seq![c]
    }
}

/// `s` escaped for HTML, character by character.
pub open spec fn escape(s: Seq<char>) -> Seq<char>
    decreases s.len(),
{
    if s.len() == 0 {
        Seq::empty()
    } else {
        escape(s.drop_last()) + escape_char(s.last())
    }
}

/// Appends `t`, escaped for HTML, to `out`.
pub fn push_escaped(out: &mut String, t: &str)
    ensures
        final(out)@ == old(out)@ + escape(t@),
{
    let cs = chars_of(t);
    let n = cs.len();
    let ghost start = out@;
    for i in 0..n
        invariant
            n == cs@.len(),
            cs@ == t@,
            out@ == start + escape(cs@.take(i as int)),
    {
        let c = cs[i];
        let ghost before = out@;
        if c == '&' {
            push_str(out, "&amp;");
            proof {
                reveal_strlit("&amp;");
            }
        } else if c == '<' {
            push_str(out, "&lt;");
            proof {
                reveal_strlit("&lt;");
            }
        } else if c == '>' {
            push_str(out, "&gt;");
            proof {
                reveal_strlit("&gt;");
            }
        } else if c == '"' {
            push_str(out, "&quot;");
            proof {
                reveal_strlit("&quot;");
            }
        } else {
            push_char(out, c);
        }
        proof {
            assert(out@ =~= before + escape_char(c));
            assert(cs@.take(i + 1).drop_last() =~= cs@.take(i as int));
            assert(out@ =~= start + escape(cs@.take(i + 1)));
        }
    }
    assert(cs@.take(n as int) =~= t@);
}

/// `t` escaped for HTML.
pub fn escape_html(t: &str) -> (r: String)
    ensures
        r@ == escape(t@),
{
    let mut out = String::new();
    push_escaped(&mut out, t);
    assert(out@ =~= escape(t@));
    out
}

/// Law: escaped text holds none of the characters that open or close markup
/// (`<`, `>`) or end an attribute value (`"`).
pub proof fn law_escaped_text_has_no_markup(s: Seq<char>)
    ensures
        forall|i: int|
            0 <= i < escape(s).len() ==> {
                let c = #[trigger] escape(s)[i];
                c != '<' && c != '>' && c != '"'
            },
    decreases s.len(),
{
    if s.len() > 0 {
        law_escaped_text_has_no_markup(s.drop_last());
        let a = escape(s.drop_last());
        let b = escape_char(s.last());
        assert forall|i: int| 0 <= i < escape(s).len() implies {
            let c = #[trigger] escape(s)[i];
            c != '<' && c != '>' && c != '"'
        } by {
            if i < a.len() {
                assert(escape(s)[i] == a[i]);
            } else {
                assert(escape(s)[i] == b[i - a.len()]);
            }
        }
    }
}

/// Law: text without any of `&`, `<`, `>`, `"` is left as it is.
pub proof fn law_plain_text_unchanged(s: Seq<char>)
    requires
        forall|i: int|
            0 <= i < s.len() ==> {
                let c = #[trigger] s[i];
                c != '&' && c != '<' && c != '>' && c != '"'
            },
    ensures
        escape(s) == s,
    decreases s.len(),
{
    if s.len() > 0 {
        let p = s.drop_last();
        assert forall|i: int| 0 <= i < p.len() implies {
            let c = #[trigger] p[i];
            c != '&' && c != '<' && c != '>' && c != '"'
        } by {
            assert(p[i] == s[i]);
        }
        law_plain_text_unchanged(p);
        assert(s[s.len() - 1] == s.last());
        assert(escape(s) =~= s);
    }
}

} // verus!
