//! The client configuration and the requests it addresses: endpoints,
//! query strings and the authorization header.

use vstd::prelude::*;
use crate::text::{decimal, decimal_text, strip_slashes, trim_trailing_slashes};

verus! {

/// What `urlencoding::encode` makes of a text.
pub uninterp spec fn url_encoded(s: Seq<char>) -> Seq<char>;

/// What base64 encoding with the standard alphabet and padding makes of a
/// text's UTF-8 bytes.
pub uninterp spec fn base64_encoded(s: Seq<char>) -> Seq<char>;

/// Relies on urlencoding::encode: percent-encodes every byte of the UTF-8
/// text except alphanumerics and `-`, `_`, `.`, `~`.
#[verifier::external_body]
fn percent_encode(s: &str) -> (r: String)
    ensures
        r@ == url_encoded(s@),
{
    urlencoding::encode(s).into_owned()
}

/// Relies on base64's `STANDARD` engine (`Engine::encode`): the padded
/// standard-alphabet encoding of the text's UTF-8 bytes. It panics only
/// where the encoded length overflows `usize`, which the bound rules out.
#[verifier::external_body]
fn base64_standard(s: &str) -> (r: String)
    requires
        s@.len() <= usize::MAX / 8,
    ensures
        r@ == base64_encoded(s@),
{
    base64::Engine::encode(&base64::engine::general_purpose::STANDARD, s)
}

/// Where the search endpoint's query strings ask for expansions.
pub open spec fn expand_suffix() -> Seq<char> {
    "&expand=content.space,content.metadata.labels,content.version"@
}

/// Connection settings for the remote service.
pub struct ClientConfig {
    base_url: String,
    username: String,
    token: String,
}

impl ClientConfig {
    /// The service's address, without trailing slashes.
    pub closed spec fn base(&self) -> Seq<char> {
        self.base_url@
    }

    pub closed spec fn user(&self) -> Seq<char> {
        self.username@
    }

    pub closed spec fn secret(&self) -> Seq<char> {
        self.token@
    }

    /// Settings for the service at `base_url`; trailing slashes are dropped.
    pub fn new(base_url: String, username: String, token: String) -> (r: ClientConfig)
        ensures
            r.base() == strip_slashes(base_url@),
            r.user() == username@,
            r.secret() == token@,
    {
        let base = String::from_str(trim_trailing_slashes(base_url.as_str()));
        ClientConfig { base_url: base, username, token }
    }

    /// The service's address.
    pub fn base_url(&self) -> (r: &str)
        ensures
            r@ == self.base(),
    {
        self.base_url.as_str()
    }

    /// The first batch of a query: `limit` results per batch.
    pub fn search_url(&self, cql: &str, limit: usize) -> (r: String)
        ensures
            r@ == self.base() + "/wiki/rest/api/search?cql="@ + url_encoded(cql@) + "&limit="@
                + decimal(limit as nat) + expand_suffix(),
    {
        let mut s = String::from_str(self.base_url.as_str());
        s.append("/wiki/rest/api/search?cql=");
        let q = percent_encode(cql);
        s.append(q.as_str());
        s.append("&limit=");
        let n = decimal_text(limit as u64);
        s.append(n.as_str());
        s.append("&expand=content.space,content.metadata.labels,content.version");
        s
    }

    /// The batch behind a continuation link the service handed out.
    pub fn next_url(&self, next: &str) -> (r: String)
        ensures
            r@ == self.base() + "/wiki"@ + next@,
    {
        let mut s = String::from_str(self.base_url.as_str());
        s.append("/wiki");
        s.append(next);
        s
    }

    /// The label list of a page.
    pub fn labels_url(&self, page_id: &str) -> (r: String)
        ensures
            r@ == self.base() + "/wiki/rest/api/content/"@ + page_id@ + "/label"@,
    {
        let mut s = String::from_str(self.base_url.as_str());
        s.append("/wiki/rest/api/content/");
        s.append(page_id);
        s.append("/label");
        s
    }

    /// One label of a page, for its removal.
    pub fn label_url(&self, page_id: &str, tag: &str) -> (r: String)
        ensures
            r@ == self.base() + "/wiki/rest/api/content/"@ + page_id@ + "/label"@ + "?name="@ + url_encoded(tag@),
    {
        let mut s = self.labels_url(page_id);
        s.append("?name=");
        let t = percent_encode(tag);
        s.append(t.as_str());
        s
    }

    /// The HTTP Basic authorization header value.
    pub fn auth_header(&self) -> (r: String)
        requires
            self.user().len() + self.secret().len() < usize::MAX / 8,
        ensures
            r@ == "Basic "@ + base64_encoded(self.user() + ":"@ + self.secret()),
    {
        let mut creds = String::from_str(self.username.as_str());
        creds.append(":");
        creds.append(self.token.as_str());
        proof {
            reveal_strlit(":");
        }
        let encoded = base64_standard(creds.as_str());
        let mut s = String::from_str("Basic ");
        s.append(encoded.as_str());
        s
    }
}

} // verus!
