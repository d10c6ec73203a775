//! Manifest rewrite rules: explicit stylesheet paths pass through unchanged,
//! and each element-removal XPath expression becomes a minimal
//! identity-transform stylesheet with one empty template for the matching
//! nodes. Order of appearance is kept: later rewrites apply to the output of
//! earlier ones and do not commute in general.

use vstd::prelude::*;

verus! {

/// One manifest-rewrite request, in command-line order.
pub enum RewriteInput {
    /// An explicit stylesheet path.
    Stylesheet(String),
    /// An XPath expression whose matching elements are to be removed.
    DropElements(String),
}

/// One rewrite rule handed on: an existing stylesheet file, or generated
/// stylesheet text still to be written to a uniquely named temporary file.
pub enum RewriteRule {
    /// Path of a stylesheet supplied by the user.
    File(String),
    /// Text of a generated stylesheet.
    Generated(String),
}

/// Generated stylesheet text up to the removal expression.
pub open spec fn xslt_prefix() -> Seq<char> {
    "<?xml version=\"1.0\" encoding=\"utf-8\"?>\n  <xsl:stylesheet version=\"1.0\"\n     xmlns:xsl=\"http://www.w3.org/1999/XSL/Transform\"\n     xmlns:mpd=\"urn:mpeg:dash:schema:mpd:2011\">\n  <xsl:template match=\"@*|node()\">\n    <xsl:copy><xsl:apply-templates select=\"@*|node()\"/></xsl:copy></xsl:template>\n  <xsl:template match=\""@
}

/// Generated stylesheet text after the removal expression.
pub open spec fn xslt_suffix() -> Seq<char> {
    "\" />\n</xsl:stylesheet>"@
}

/// The identity-transform stylesheet whose one non-identity template matches
/// `xpath` and emits nothing for it.
pub fn xslt_for_xpath(xpath: &str) -> (r: String)
    ensures
        r@ == xslt_prefix() + xpath@ + xslt_suffix(),
{
    let mut s =
        "<?xml version=\"1.0\" encoding=\"utf-8\"?>\n  <xsl:stylesheet version=\"1.0\"\n     xmlns:xsl=\"http://www.w3.org/1999/XSL/Transform\"\n     xmlns:mpd=\"urn:mpeg:dash:schema:mpd:2011\">\n  <xsl:template match=\"@*|node()\">\n    <xsl:copy><xsl:apply-templates select=\"@*|node()\"/></xsl:copy></xsl:template>\n  <xsl:template match=\"".to_owned();
    s.append(xpath);
    s.append("\" />\n</xsl:stylesheet>");
    s
}

/// The rule owed to one request.
pub open spec fn rule_matches(inp: RewriteInput, r: RewriteRule) -> bool {
    match (inp, r) {
        (RewriteInput::Stylesheet(p), RewriteRule::File(q)) => p@ == q@,
        (RewriteInput::DropElements(x), RewriteRule::Generated(t)) => t@ == xslt_prefix() + x@
            + xslt_suffix(),
        _ => false,
    }
}

/// Turns the rewrite requests into rules, one for one and in the same order.
pub fn plan_rewrites(inputs: &Vec<RewriteInput>) -> (r: Vec<RewriteRule>)
    ensures
        r@.len() == inputs@.len(),
        forall|i: int| 0 <= i < inputs@.len() ==> rule_matches(inputs@[i], #[trigger] r@[i]),
{
    let n = inputs.len();
    let mut out: Vec<RewriteRule> = Vec::new();
    let mut i: usize = 0;
    while i < n
        invariant
            i <= n,
            n == inputs@.len(),
            out@.len() == i,
            forall|j: int| 0 <= j < i ==> rule_matches(inputs@[j], #[trigger] out@[j]),
        decreases n - i,
    {
        let rule = match &inputs[i] {
            RewriteInput::Stylesheet(p) => RewriteRule::File(p.clone()),
            RewriteInput::DropElements(x) => RewriteRule::Generated(xslt_for_xpath(x.as_str())),
        };
        out.push(rule);
        i += 1;
    }
    out
}

} // verus!
