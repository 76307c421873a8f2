//! The English phrase of a single condition.

use crate::model::{SipHeader, SipHeaderView, SptView, SPT};
use crate::text::{decimal, decimal_string, join, joined};
use vstd::prelude::*;

verus! {

/// How a session case code reads: the four known codes by name, any other
/// code as "session case" followed by its number.
pub open spec fn session_case_text(code: u8) -> Seq<char> {
    if code == 0 {
        "mobile originated"@
    } else if code == 1 {
        "mobile terminated"@
    } else if code == 2 {
        "mobile originated unregistered"@
    } else if code == 3 {
        "mobile terminated unregistered"@
    } else {
        "session case "@ + decimal(code as nat)
    }
}

/// The clause of a method.
pub open spec fn method_clause(method: Seq<char>) -> Seq<char> {
    "method is "@ + method
}

/// The clause of a session case code.
pub open spec fn session_case_clause(code: u8) -> Seq<char> {
    "session case is "@ + session_case_text(code)
}

/// The clause of an extension.
pub open spec fn extension_clause(extension: Seq<char>) -> Seq<char> {
    "extension is "@ + extension
}

/// The clause of a request URI.
pub open spec fn request_uri_clause(uri: Seq<char>) -> Seq<char> {
    "request URI is "@ + uri
}

/// The clause of a SIP header: its name and its content, each in double
/// quotes.
pub open spec fn sip_header_clause(h: SipHeaderView) -> Seq<char> {
    "\""@ + h.header + "\" header with \""@ + h.content + "\" value"@
}

/// The clauses of a condition, one for each attribute that is present, in
/// the fixed order method, session case, extension, request URI, SIP header.
/// An empty extension gives no clause.
pub open spec fn clauses(c: SptView) -> Seq<Seq<char>> {
    let method = match c.method {
        Some(m) => seq![method_clause(m)],
        None => seq![],
    };
    let session_case = match c.session_case {
        Some(code) => seq![session_case_clause(code)],
        None => seq![],
    };
    let extension = match c.extension {
        Some(e) if e.len() > 0 => seq![extension_clause(e)],
        _ => seq![],
    };
    let request_uri = match c.request_uri {
        Some(u) => seq![request_uri_clause(u)],
        None => seq![],
    };
    let sip_header = match c.sip_header {
        Some(h) => seq![sip_header_clause(h)],
        None => seq![],
    };
    method + session_case + extension + request_uri + sip_header
}

/// The phrase of a condition: its clauses joined by "and", wrapped in
/// `not (..)` when the condition is negated. A condition without clauses has
/// the empty phrase, or `not ()`.
pub open spec fn phrase(c: SptView) -> Seq<char> {
    let body = joined(clauses(c), " and "@);
    if c.negated {
        "not ("@ + body + ")"@
    } else {
        body
    }
}

/// Describes a session case code.
pub fn session_case_description(code: u8) -> (text: String)
    ensures
        text@ == session_case_text(code),
{
    match code {
        0 => "mobile originated".to_owned(),
        1 => "mobile terminated".to_owned(),
        2 => "mobile originated unregistered".to_owned(),
        3 => "mobile terminated unregistered".to_owned(),
        _ => {
            let mut text = "session case ".to_owned();
            text.append(decimal_string(code).as_str());
            text
        },
    }
}

/// A label followed by a value.
fn labelled(label: &str, value: &str) -> (text: String)
    ensures
        text@ == label@ + value@,
{
    let mut text = label.to_owned();
    text.append(value);
    text
}

impl SipHeader {
    /// The clause that names the header and its content.
    pub fn clause(&self) -> (text: String)
        ensures
            text@ == sip_header_clause(self@),
    {
        let mut text = "\"".to_owned();
        text.append(self.header.as_str());
        text.append("\" header with \"");
        text.append(self.content.as_str());
        text.append("\" value");
        text
    }
}

impl SPT {
    /// The clauses of the attributes that are present, in their fixed order.
    pub fn clauses(&self) -> (parts: Vec<String>)
        ensures
            parts.deep_view() == clauses(self@),
    {
        let mut parts: Vec<String> = Vec::new();
        let ghost mut done: Seq<Seq<char>> = seq![];
        assert(parts.deep_view() =~= done);
        if let Some(method) = &self.method {
            parts.push(labelled("method is ", method.as_str()));
            proof {
                done = done.push(method_clause(method@));
            }
            assert(parts.deep_view() =~= done);
        }
        if let Some(code) = self.session_case {
            let description = session_case_description(code);
            parts.push(labelled("session case is ", description.as_str()));
            proof {
                done = done.push(session_case_clause(code));
            }
            assert(parts.deep_view() =~= done);
        }
        if let Some(extension) = &self.extension {
            if !extension.as_str().is_empty() {
                parts.push(labelled("extension is ", extension.as_str()));
                proof {
                    done = done.push(extension_clause(extension@));
                }
                assert(parts.deep_view() =~= done);
            }
        }
        if let Some(uri) = &self.request_uri {
            parts.push(labelled("request URI is ", uri.as_str()));
            proof {
                done = done.push(request_uri_clause(uri@));
            }
            assert(parts.deep_view() =~= done);
        }
        if let Some(header) = &self.sip_header {
            parts.push(header.clause());
            proof {
                done = done.push(sip_header_clause(header@));
            }
            assert(parts.deep_view() =~= done);
        }
        assert(done =~= clauses(self@));
        parts
    }

    /// Phrases the condition in English.
    pub fn to_english(&self) -> (text: String)
        ensures
            text@ == phrase(self@),
    {
        let parts = self.clauses();
        let body = join(&parts, " and ");
        if self.is_negated() {
            let mut text = "not (".to_owned();
            text.append(body.as_str());
            text.append(")");
            text
        } else {
            body
        }
    }
}

/// The condition without its negation.
pub open spec fn unnegated(c: SptView) -> SptView {
    SptView { negated: false, ..c }
}

/// The condition without its extension.
pub open spec fn without_extension(c: SptView) -> SptView {
    SptView { extension: None, ..c }
}

/// Negation wraps the phrase: a negated condition reads as `not (..)` around
/// what it would say without the negation.
pub proof fn lemma_negation_wraps(c: SptView)
    requires
        c.negated,
    ensures
        phrase(c) == "not ("@ + phrase(unnegated(c)) + ")"@,
{
}

/// An empty extension is suppressed: the condition reads as if it had no
/// extension at all.
pub proof fn lemma_empty_extension_suppressed(c: SptView)
    requires
        c.extension == Some(Seq::<char>::empty()),
    ensures
        phrase(c) == phrase(without_extension(c)),
{
}

} // verus!
