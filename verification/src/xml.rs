//! XML documents and XPath queries, through libxml2.

use vstd::prelude::*;
use crate::error::VirtLintError;
use crate::numbers::chars_of;
use libxml::parser::{Parser, XmlParseError};
use libxml::tree::Document;
use libxml::xpath::Context;

verus! {

#[verifier::external_type_specification]
#[verifier::external_body]
pub struct ExDocument(Document);

#[verifier::external_type_specification]
#[verifier::external_body]
pub struct ExXmlParseError(XmlParseError);

/// Whether libxml2's parser, as `libxml::parser::Parser::default()` sets it
/// up (XML, recovering from errors), makes a document of `text`.
pub uninterp spec fn xml_parses(text: Seq<char>) -> bool;

/// The text content of each node that libxml2 selects by `xpath` in the
/// document parsed from `xml`, in document order; `None` where libxml2 fails
/// to evaluate the expression.
pub uninterp spec fn xpath_select(xml: Seq<char>, xpath: Seq<char>) -> Option<Seq<Seq<char>>>;

/// `s` holds no NUL character.
pub open spec fn no_nul(s: Seq<char>) -> bool {
    forall|i: int| 0 <= i < s.len() ==> s[i] != '\0'
}

/// Whether `s` holds no NUL character.
pub fn has_no_nul(s: &str) -> (r: bool)
    ensures
        r == no_nul(s@),
{
    let c = chars_of(s);
    let mut i: usize = 0;
    while i < c.len()
        invariant
            c@ == s@,
            i <= c@.len(),
            forall|k: int| 0 <= k < i ==> c@[k] != '\0',
        decreases c@.len() - i,
    {
        if c[i] == '\0' {
            return false;
        }
        i = i + 1;
    }
    true
}

/// A parsed XML document together with the text it was parsed from.
pub struct XmlDoc {
    doc: Document,
    text: Ghost<Seq<char>>,
}

impl View for XmlDoc {
    type V = Seq<char>;

    closed spec fn view(&self) -> Seq<char> {
        self.text@
    }
}

/// Parses `text` with `libxml::parser::Parser::parse_string` under the
/// default (XML) parser. Claimed: it succeeds exactly where `xml_parses`
/// holds of the text, and the document keeps the text as its view. libxml2
/// decides that; nothing here restates its grammar.
#[verifier::external_body]
fn parse_xml_raw(text: &str) -> (r: Result<XmlDoc, XmlParseError>)
    ensures
        r is Ok <==> xml_parses(text@),
        r matches Ok(d) ==> d@ == text@,
{
    match Parser::default().parse_string(text) {
        Ok(doc) => Ok(XmlDoc { doc, text: Ghost(text@) }),
        Err(e) => Err(e),
    }
}

/// Evaluates `xpath` on the document with `libxml::xpath::Context::new` and
/// `Context::evaluate`, and takes `Node::get_content` of each selected node.
/// Claimed: the result is `xpath_select` of the document's text and the
/// expression, and no returned string holds a NUL (`get_content` reads a C
/// string). `evaluate` panics on an expression with a NUL, hence the
/// `requires`. Left unsaid: `Context::new` also fails when libxml2 cannot
/// allocate the context; the wrapper then returns `None` too, which the
/// claim counts as a failed evaluation.
#[verifier::external_body]
pub(crate) fn xpath_nodes_raw(doc: &XmlDoc, xpath: &str) -> (r: Option<Vec<String>>)
    requires
        no_nul(xpath@),
    ensures
        r matches Some(v) ==> xpath_select(doc@, xpath@) == Some(v.deep_view()),
        r is None <==> xpath_select(doc@, xpath@) is None,
        r matches Some(v) ==> forall|i: int| 0 <= i < v@.len() ==> no_nul(#[trigger] v@[i]@),
{
    let ctxt = Context::new(&doc.doc).ok()?;
    let obj = ctxt.evaluate(xpath).ok()?;
    Some(obj.get_nodes_as_vec().iter().map(|n| n.get_content()).collect())
}

/// Parses an XML document; `XmlParse` where libxml2 makes no document of the
/// text.
pub fn parse_xml(text: &str) -> (r: Result<XmlDoc, VirtLintError>)
    ensures
        r is Ok <==> xml_parses(text@),
        r matches Ok(d) ==> d@ == text@,
        r matches Err(e) ==> e is XmlParse,
{
    match parse_xml_raw(text) {
        Ok(d) => Ok(d),
        Err(_) => Err(VirtLintError::XmlParse),
    }
}

/// What a query hands a validator script: the node texts where the
/// expression selects at least one node, and `None` where it selects none
/// or cannot be evaluated.
pub open spec fn spec_nodeset_or_none(sel: Option<Seq<Seq<char>>>) -> Option<Seq<Seq<char>>> {
    match sel {
        Some(v) => if v.len() > 0 {
            Some(v)
        } else {
            None
        },
        None => None,
    }
}

/// The text of every node that `xpath` selects in `doc`; `None` where it
/// selects no node or cannot be evaluated.
pub fn xpath_eval_nodeset_or_none(doc: &XmlDoc, xpath: &str) -> (r: Option<Vec<String>>)
    requires
        no_nul(xpath@),
    ensures
        r matches Some(v) ==> spec_nodeset_or_none(xpath_select(doc@, xpath@)) == Some(
            v.deep_view(),
        ),
        r is None <==> spec_nodeset_or_none(xpath_select(doc@, xpath@)) is None,
        r matches Some(v) ==> v@.len() > 0,
{
    match xpath_nodes_raw(doc, xpath) {
        Some(v) => {
            if v.len() > 0 {
                Some(v)
            } else {
                None
            }
        },
        None => None,
    }
}

/// The first of the node texts that an XPath query gives, if it gives any.
pub open spec fn spec_first_node(sel: Option<Seq<Seq<char>>>) -> Option<Seq<char>> {
    match sel {
        Some(v) => if v.len() > 0 {
            Some(v[0])
        } else {
            None
        },
        None => None,
    }
}

/// The text of the first node that `xpath` selects in `doc`; `None` where it
/// selects none or cannot be evaluated.
pub fn xpath_eval_or_none(doc: &XmlDoc, xpath: &str) -> (r: Option<String>)
    requires
        no_nul(xpath@),
    ensures
        r matches Some(s) ==> spec_first_node(xpath_select(doc@, xpath@)) == Some(s@),
        r is None <==> spec_first_node(xpath_select(doc@, xpath@)) is None,
        r matches Some(s) ==> no_nul(s@),
{
    match xpath_nodes_raw(doc, xpath) {
        Some(v) => {
            if v.len() > 0 {
                let s = v[0].clone();
                Some(s)
            } else {
                None
            }
        },
        None => None,
    }
}

/// The texts of the nodes that `xpath` selects in the document `xml`, as a
/// validator script asks for them: a list where there is a document, it
/// parses, and the expression selects at least one node; `None` otherwise.
pub fn query_xml(xml: Option<&str>, xpath: &str) -> (r: Option<Vec<String>>)
    requires
        (xml matches Some(x) && xml_parses(x@)) ==> no_nul(xpath@),
    ensures
        r matches Some(v) ==> v@.len() > 0,
        match xml {
            None => r is None,
            Some(x) => if !xml_parses(x@) {
                r is None
            } else {
                match spec_nodeset_or_none(xpath_select(x@, xpath@)) {
                    None => r is None,
                    Some(s) => r matches Some(v) && v.deep_view() == s,
                }
            },
        },
{
    match xml {
        None => None,
        Some(x) => match parse_xml(x) {
            Ok(doc) => xpath_eval_nodeset_or_none(&doc, xpath),
            Err(_) => None,
        },
    }
}

/// `query_xml` where it can run; `None` where the document parses and the
/// expression holds a NUL, which libxml2's evaluation cannot take.
pub fn try_query_xml(xml: Option<&str>, xpath: &str) -> (r: Option<Option<Vec<String>>>)
    ensures
        r is None <==> (xml matches Some(x) && xml_parses(x@) && !no_nul(xpath@)),
        r matches Some(q) ==> match xml {
            None => q is None,
            Some(x) => if !xml_parses(x@) {
                q is None
            } else {
                match spec_nodeset_or_none(xpath_select(x@, xpath@)) {
                    None => q is None,
                    Some(s) => q matches Some(v) && v.deep_view() == s,
                }
            },
        },
{
    if let Some(x) = xml {
        if parse_xml(x).is_ok() && !has_no_nul(xpath) {
            return None;
        }
    }
    Some(query_xml(xml, xpath))
}

} // verus!
