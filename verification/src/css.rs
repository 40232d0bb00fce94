//! Inlining a document's `<style>` rules into element `style=` attributes.

use vstd::prelude::*;

use css_inline::{CSSInliner, InlineError};

verus! {

#[verifier::external_type_specification]
#[verifier::external_body]
pub struct ExInlineError(InlineError);

/// Why CSS inlining failed.
pub enum InlineCssError {
    /// A stylesheet file named by the document was missing.
    MissingStyleSheet(String),
    /// An input-output error.
    Io,
    /// A syntax error or an unsupported selector in the CSS.
    Parse(String),
}

/// The document that css-inline produces from `html` with remote stylesheet loading set
/// to `load_remote` and `<link>` tags kept or dropped as `keep_links` says.
pub uninterp spec fn css_inlined(html: Seq<char>, load_remote: bool, keep_links: bool) -> Seq<char>;

/// Runs `css_inline::CSSInliner::inline` with remote stylesheet loading off and `<link>`
/// tags kept as `keep_links` says. With remote loading off no stylesheet is fetched, and
/// the only other failures are write errors on the in-memory output buffer, which a
/// `Vec<u8>` never reports: the call succeeds, with a document that is a function of its
/// arguments, which the contract names. What that document looks like it does not state.
#[verifier::external_body]
fn run_css_inliner(html: &str, load_remote: bool, keep_links: bool) -> (r: Result<
    String,
    InlineError,
>)
    requires
        !load_remote,
    ensures
        r is Ok,
        r matches Ok(s) ==> s@ == css_inlined(html@, load_remote, keep_links),
{
    let options = CSSInliner::options().load_remote_stylesheets(load_remote);
    options.keep_link_tags(keep_links).build().inline(html)
}

/// Tells the variants of `css_inline::InlineError` apart, keeping the missing path and the
/// parse message; nothing is stated of which variant a given error is.
#[verifier::external_body]
fn classify_inline_error(e: InlineError) -> InlineCssError {
    match e {
        InlineError::MissingStyleSheet { path } => InlineCssError::MissingStyleSheet(path),
        InlineError::IO(_) => InlineCssError::Io,
        InlineError::ParseError(message) => InlineCssError::Parse(message.into_owned()),
    }
}

/// Inline a document's `<style>` rules into element `style=` attributes and drop the
/// `<style>` tag, so the rendered HTML keeps its styling in email clients that ignore
/// embedded stylesheets. No remote or filesystem stylesheet loading is performed, and
/// `<link>` tags are dropped.
pub fn inline_css(html: &str) -> (r: Result<String, InlineCssError>)
    ensures
        r is Ok,
        r matches Ok(s) ==> s@ == css_inlined(html@, false, false),
{
    match run_css_inliner(html, false, false) {
        Ok(s) => Ok(s),
        Err(e) => Err(classify_inline_error(e)),
    }
}

} // verus!
