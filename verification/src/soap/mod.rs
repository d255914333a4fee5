//! SOAP 1.1 support for the upstream parts-availability backend.
//!
//! Each operation lives in its own submodule with its own request/response types
//! and its own `build_request` / `parse_response` pair. Shared pieces — the
//! envelope-level fault, XML escaping, and the service namespaces — live here.

use vstd::prelude::*;

use crate::error::IlsError;
use crate::text::chars_of;

pub mod availability;
pub mod government;

verus! {

pub const SERVICE_NS: &'static str = "http://namespace.ilsmart.com/v2";

pub const MS_ARRAYS_NS: &'static str = "http://schemas.microsoft.com/2003/10/Serialization/Arrays";

/// The escaped form of one character.
pub open spec fn escape_char(c: char) -> Seq<char> {
    if c == '&' {
        "&amp;"@
    } else if c == '<' {
        "&lt;"@
    } else if c == '>' {
        "&gt;"@
    } else if c == '"' {
        "&quot;"@
    } else if c == '\'' {
        "&apos;"@
    } else {
        seq![c]
    }
}

/// Every character replaced by its escaped form.
pub open spec fn xml_escaped(s: Seq<char>) -> Seq<char>
    decreases s.len(),
{
    if s.len() == 0 {
        seq![]
    } else {
        xml_escaped(s.drop_last()) + escape_char(s.last())
    }
}

/// Escape the five XML special characters. Used for all user-provided values
/// that are spliced into a request body.
pub fn xml_escape(input: &str) -> (out: String)
    ensures
        out@ == xml_escaped(input@),
{
    let chars = chars_of(input);
    let mut out = String::new();
    let mut i: usize = 0;
    while i < chars.len()
        invariant
            i <= chars.len(),
            chars@ == input@,
            out@ == xml_escaped(chars@.take(i as int)),
        decreases chars.len() - i,
    {
        let c = chars[i];
        assert(chars@.take(i + 1).drop_last() =~= chars@.take(i as int));
        if c == '&' {
            out.append("&amp;");
        } else if c == '<' {
            out.append("&lt;");
        } else if c == '>' {
            out.append("&gt;");
        } else if c == '"' {
            out.append("&quot;");
        } else if c == '\'' {
            out.append("&apos;");
        } else {
            crate::text::push_char(&mut out, c);
        }
        i = i + 1;
    }
    assert(chars@.take(chars.len() as int) =~= chars@);
    out
}

/// A SOAP 1.1 envelope-level fault (as opposed to the service-level `<Faults>`
/// collection that some operations return inside their own response body).
#[derive(Debug)]
pub struct SoapFault {
    pub faultcode: Option<String>,
    pub faultstring: Option<String>,
}

/// The text of an optional string, empty when absent.
pub open spec fn text_or_empty(s: Option<String>) -> Seq<char> {
    match s {
        Some(t) => t@,
        None => seq![],
    }
}

/// An owned copy of an optional string, empty when absent.
fn unwrap_or_empty(s: Option<String>) -> (r: String)
    ensures
        r@ == text_or_empty(s),
{
    match s {
        Some(t) => t,
        None => String::new(),
    }
}

/// Converts an envelope-level fault into `IlsError::SoapFault`.
pub fn fault_to_error(fault: SoapFault) -> (e: IlsError)
    ensures
        e matches IlsError::SoapFault { code, message } && code@ == text_or_empty(fault.faultcode)
            && message@ == text_or_empty(fault.faultstring),
{
    IlsError::SoapFault {
        code: unwrap_or_empty(fault.faultcode),
        message: unwrap_or_empty(fault.faultstring),
    }
}

/// Decoding of the five predefined entities (and nothing else), left to right.
pub open spec fn xml_unescaped(t: Seq<char>) -> Seq<char>
    decreases t.len(),
{
    if t.len() == 0 {
        t
    } else if t.len() >= 5 && t.take(5) == "&amp;"@ {
        seq!['&'] + xml_unescaped(t.skip(5))
    } else if t.len() >= 4 && t.take(4) == "&lt;"@ {
        seq!['<'] + xml_unescaped(t.skip(4))
    } else if t.len() >= 4 && t.take(4) == "&gt;"@ {
        seq!['>'] + xml_unescaped(t.skip(4))
    } else if t.len() >= 6 && t.take(6) == "&quot;"@ {
        seq!['"'] + xml_unescaped(t.skip(6))
    } else if t.len() >= 6 && t.take(6) == "&apos;"@ {
        seq!['\''] + xml_unescaped(t.skip(6))
    } else {
        seq![t[0]] + xml_unescaped(t.skip(1))
    }
}

proof fn lemma_escaped_front(s: Seq<char>)
    requires
        s.len() > 0,
    ensures
        xml_escaped(s) == escape_char(s[0]) + xml_escaped(s.drop_first()),
    decreases s.len(),
{
    if s.len() == 1 {
        assert(s.drop_last() =~= Seq::<char>::empty());
        assert(s.drop_first() =~= Seq::<char>::empty());
        assert(xml_escaped(s.drop_first()) =~= Seq::<char>::empty());
        assert(xml_escaped(s) =~= escape_char(s[0]));
    } else {
        lemma_escaped_front(s.drop_last());
        assert(s.drop_last().drop_first() =~= s.drop_first().drop_last());
        assert(s.drop_first().last() == s.last());
        assert(xml_escaped(s) =~= escape_char(s[0]) + xml_escaped(s.drop_first()));
    }
}

proof fn lemma_unescape_step(c: char, rest: Seq<char>)
    ensures
        xml_unescaped(escape_char(c) + rest) == seq![c] + xml_unescaped(rest),
{
    reveal_strlit("&amp;");
    reveal_strlit("&lt;");
    reveal_strlit("&gt;");
    reveal_strlit("&quot;");
    reveal_strlit("&apos;");
    let t = escape_char(c) + rest;
    let n = escape_char(c).len() as int;
    assert(t.take(n) =~= escape_char(c));
    assert(t.skip(n) =~= rest);
    if c == '&' {
    } else if c == '<' {
        if t.len() >= 5 {
            assert(t.take(5)[1] != "&amp;"@[1]);
        }
    } else if c == '>' {
        if t.len() >= 5 {
            assert(t.take(5)[1] != "&amp;"@[1]);
        }
        assert(t.take(4)[1] != "&lt;"@[1]);
    } else if c == '"' {
        assert(escape_char(c) == "&quot;"@);
        assert(t.take(5)[1] != "&amp;"@[1]);
        assert(t.take(4)[1] != "&lt;"@[1]);
        assert(t.take(4)[1] != "&gt;"@[1]);
    } else if c == '\'' {
        assert(t.take(5)[2] != "&amp;"@[2]);
        assert(t.take(4)[1] != "&lt;"@[1]);
        assert(t.take(4)[1] != "&gt;"@[1]);
        assert(t.take(6)[1] != "&quot;"@[1]);
    } else {
        if t.len() >= 5 {
            assert(t.take(5)[0] != "&amp;"@[0]);
        }
        if t.len() >= 4 {
            assert(t.take(4)[0] != "&lt;"@[0]);
            assert(t.take(4)[0] != "&gt;"@[0]);
        }
        if t.len() >= 6 {
            assert(t.take(6)[0] != "&quot;"@[0]);
            assert(t.take(6)[0] != "&apos;"@[0]);
        }
    }
}

/// Escaping is reversible: decoding the five entities gives back the input.
pub proof fn lemma_escape_roundtrip(s: Seq<char>)
    ensures
        xml_unescaped(xml_escaped(s)) == s,
    decreases s.len(),
{
    if s.len() == 0 {
        assert(xml_escaped(s) =~= Seq::<char>::empty());
    } else {
        lemma_escaped_front(s);
        lemma_escape_roundtrip(s.drop_first());
        lemma_unescape_step(s[0], xml_escaped(s.drop_first()));
        assert(seq![s[0]] + s.drop_first() =~= s);
    }
}

/// Escaped text holds no `<`, `>`, `"` or `'`.
pub proof fn lemma_escaped_has_no_markup(s: Seq<char>)
    ensures
        forall|i: int|
            0 <= i < xml_escaped(s).len() ==> {
                let c = #[trigger] xml_escaped(s)[i];
                c != '<' && c != '>' && c != '"' && c != '\''
            },
    decreases s.len(),
{
    reveal_strlit("&amp;");
    reveal_strlit("&lt;");
    reveal_strlit("&gt;");
    reveal_strlit("&quot;");
    reveal_strlit("&apos;");
    if s.len() > 0 {
        lemma_escaped_has_no_markup(s.drop_last());
        let a = xml_escaped(s.drop_last());
        let b = escape_char(s.last());
        assert forall|i: int| 0 <= i < xml_escaped(s).len() implies ({
            let c = #[trigger] xml_escaped(s)[i];
            c != '<' && c != '>' && c != '"' && c != '\''
        }) by {
            if i < a.len() {
                assert(xml_escaped(s)[i] == a[i]);
            } else {
                assert(xml_escaped(s)[i] == b[i - a.len()]);
            }
        }
    }
}


/// `s` holds no `<`, `>`, `"` or `'`.
pub open spec fn has_no_markup(s: Seq<char>) -> bool {
    forall|k: int| 0 <= k < s.len() ==> #[trigger] s[k] != '<' && s[k] != '>' && s[k] != '"' && s[k] != '\''
}

/// `doc` holds an element opened by `open` and closed by `close` whose text holds
/// no markup character and decodes back to `value`.
pub open spec fn holds_text_element(doc: Seq<char>, open: Seq<char>, close: Seq<char>, value: Seq<char>) -> bool {
    exists|i: int, j: int|
        open.len() <= i <= j && j + close.len() <= doc.len() && doc.subrange(i - open.len(), i) == open
            && doc.subrange(j, j + close.len()) == close && has_no_markup(doc.subrange(i, j))
            && #[trigger] xml_unescaped(doc.subrange(i, j)) == value
}

/// Text placed between two tags in escaped form makes an element whose text
/// decodes back to it.
pub proof fn lemma_escaped_element(pre: Seq<char>, open: Seq<char>, value: Seq<char>, close: Seq<char>, post: Seq<char>)
    ensures
        holds_text_element(pre + open + xml_escaped(value) + close + post, open, close, value),
{
    let e = xml_escaped(value);
    let doc = pre + open + e + close + post;
    let i: int = pre.len() + open.len() as int;
    let j: int = i + e.len();
    assert(doc.subrange(i - open.len(), i) =~= open);
    assert(doc.subrange(i, j) =~= e);
    assert(doc.subrange(j, j + close.len()) =~= close);
    lemma_escape_roundtrip(value);
    lemma_escaped_has_no_markup(value);
    assert forall|k: int| 0 <= k < e.len() implies #[trigger] e[k] != '<' && e[k] != '>' && e[k] != '"'
        && e[k] != '\'' by {
        let c = xml_escaped(value)[k];
    }
    assert(has_no_markup(doc.subrange(i, j)));
    assert(xml_unescaped(doc.subrange(i, j)) == value);
}

} // verus!
