//! Addresses of the pages that the shell's windows load from the server.

use vstd::prelude::*;

verus! {

/// Whether `url::Url::parse` accepts a text as an absolute URL.
pub uninterp spec fn spec_url_parses(text: Seq<char>) -> bool;

/// The ASCII serialization of the origin of the URL that `url::Url::parse`
/// reads from a text.
pub uninterp spec fn spec_url_origin(text: Seq<char>) -> Seq<char>;

/// Calls `url::Url::parse` and reports whether it succeeded.
///
/// Trusted: the result is the named outcome of the parser on this text.
#[verifier::external_body]
fn url_parses(text: &str) -> (res: bool)
    ensures
        res == spec_url_parses(text@),
{
    url::Url::parse(text).is_ok()
}

/// Calls `url::Url::parse`, then `Url::origin` and
/// `Origin::ascii_serialization` on the result.
///
/// Trusted: there is an origin exactly when the text parses, and it is the
/// named serialization of that text's origin.
#[verifier::external_body]
pub(crate) fn url_origin(text: &str) -> (res: Option<String>)
    ensures
        res is Some <==> spec_url_parses(text@),
        res matches Some(o) ==> o@ == spec_url_origin(text@),
{
    match url::Url::parse(text) {
        Ok(parsed) => Some(parsed.origin().ascii_serialization()),
        Err(_) => None,
    }
}

/// The message for an address that does not parse.
pub open spec fn invalid_url_message() -> Seq<char> {
    "ungueltige URL"@
}

/// `text` if it parses as a URL, else the invalid-URL message.
pub open spec fn checked_url(text: Seq<char>) -> Result<Seq<char>, Seq<char>> {
    if spec_url_parses(text) {
        Ok(text)
    } else {
        Err(invalid_url_message())
    }
}

fn check_url(text: String) -> (res: Result<String, String>)
    ensures
        match res {
            Ok(u) => checked_url(text@) == Ok::<Seq<char>, Seq<char>>(u@),
            Err(e) => checked_url(text@) == Err::<Seq<char>, Seq<char>>(e@),
        },
{
    if url_parses(text.as_str()) {
        Ok(text)
    } else {
        Err(String::from_str("ungueltige URL"))
    }
}

/// The server's main application page.
pub open spec fn app_page(server: Seq<char>) -> Seq<char> {
    server + "/app/"@
}

/// The page of the floating voice indicator.
pub open spec fn indicator_page(server: Seq<char>) -> Seq<char> {
    server + "/app/#/indicator"@
}

/// The page of the popup `id`.
pub open spec fn popup_page(server: Seq<char>, id: Seq<char>) -> Seq<char> {
    server + "/app/#/popup?id="@ + id
}

/// The application page of `server`, checked to be a valid URL.
pub fn app_page_url(server: &str) -> (res: Result<String, String>)
    ensures
        match res {
            Ok(u) => checked_url(app_page(server@)) == Ok::<Seq<char>, Seq<char>>(u@),
            Err(e) => checked_url(app_page(server@)) == Err::<Seq<char>, Seq<char>>(e@),
        },
{
    let mut text = String::from_str(server);
    text.append("/app/");
    check_url(text)
}

/// The indicator page of `server`, checked to be a valid URL.
pub fn indicator_page_url(server: &str) -> (res: Result<String, String>)
    ensures
        match res {
            Ok(u) => checked_url(indicator_page(server@)) == Ok::<Seq<char>, Seq<char>>(u@),
            Err(e) => checked_url(indicator_page(server@)) == Err::<Seq<char>, Seq<char>>(e@),
        },
{
    let mut text = String::from_str(server);
    text.append("/app/#/indicator");
    check_url(text)
}

/// The page of popup `id` on `server`, checked to be a valid URL.
pub fn popup_page_url(server: &str, id: &str) -> (res: Result<String, String>)
    ensures
        match res {
            Ok(u) => checked_url(popup_page(server@, id@)) == Ok::<Seq<char>, Seq<char>>(u@),
            Err(e) => checked_url(popup_page(server@, id@)) == Err::<Seq<char>, Seq<char>>(e@),
        },
{
    let mut text = String::from_str(server);
    text.append("/app/#/popup?id=");
    text.append(id);
    check_url(text)
}

} // verus!
