//! The REST client's own logic: the URLs it requests, the header it
//! authenticates with, and what it makes of each answer.
use vstd::prelude::*;
use crate::config::{Config, ConfigError};
use crate::text::{concatenate, views};
use crate::json::{JsonValue, JsonView, parse_json, parsed_json};

verus! {

broadcast use vstd::string::group_string_axioms;

/// The path below which the server offers its REST API.
pub const API_PREFIX: &'static str = "api/v2.2";

/// Why a request did not give a usable answer.
#[derive(Debug)]
pub enum HttpError {
    /// The request could not be sent or its answer could not be read; the
    /// text says why.
    Transport(String),
    /// A GET of `url` was answered with a status outside 200..=299.
    Status { url: String, status: u16, body: String },
    /// A POST to `url` was answered with a status in 400..=499.
    Rejected { url: String, body: String },
    /// A GET of `url` was answered with a body that is not JSON.
    NotJson { url: String, error: serde_json::Error },
}

/// A status in 200..=299, as `StatusCode::is_success` tests it.
pub open spec fn spec_is_success(status: u16) -> bool {
    200 <= status <= 299
}

/// A status in 400..=499, as `StatusCode::is_client_error` tests it.
pub open spec fn spec_is_client_error(status: u16) -> bool {
    400 <= status <= 499
}

/// Whether `status` reports success (200..=299).
pub fn is_success(status: u16) -> (r: bool)
    ensures
        r == spec_is_success(status),
{
    200 <= status && status <= 299
}

/// Whether `status` reports a client error (400..=499).
pub fn is_client_error(status: u16) -> (r: bool)
    ensures
        r == spec_is_client_error(status),
{
    400 <= status && status <= 499
}

/// A client of the server's REST API.
#[derive(Clone)]
pub struct Client {
    cfg: Config,
    prefix: &'static str,
}

impl Client {
    /// The settings the client was made with.
    pub closed spec fn settings(&self) -> Config {
        self.cfg
    }

    /// The path of the REST API on the server.
    pub closed spec fn api_prefix(&self) -> Seq<char> {
        self.prefix@
    }

    /// A client for the settings `cfg`, which are first validated.
    pub fn from_config(cfg: Config) -> (r: Result<Client, ConfigError>)
        ensures
            r is Ok <==> cfg.check() is Ok,
            r matches Ok(c) ==> c.settings() == cfg && c.api_prefix() == API_PREFIX@,
            r matches Err(e) ==> cfg.check() == Err::<(), ConfigError>(e),
    {
        match cfg.validate() {
            Ok(()) => Ok(Client { cfg, prefix: API_PREFIX }),
            Err(e) => Err(e),
        }
    }

    /// The address of `url` below the API: `https://{server}/{prefix}/{url}`.
    pub open spec fn spec_url(&self, url: Seq<char>) -> Seq<char> {
        seq!['h', 't', 't', 'p', 's', ':', '/', '/'] + self.settings().url@ + seq!['/']
            + self.api_prefix() + seq!['/'] + url
    }

    /// The address of `url` below the API.
    pub fn build_url(&self, url: &str) -> (r: String)
        ensures
            r@ == self.spec_url(url@),
    {
        proof {
            reveal_strlit("https://");
            reveal_strlit("/");
        }
        let mut r = concatenate("https://", self.cfg.url.as_str());
        r.append("/");
        r.append(self.prefix);
        r.append("/");
        r.append(url);
        assert(r@ =~= self.spec_url(url@));
        r
    }

    /// The value of the `Authorization` header: `Bearer {token}`.
    pub fn authorization(&self) -> (r: String)
        ensures
            r@ == seq!['B', 'e', 'a', 'r', 'e', 'r', ' '] + self.settings().token@,
    {
        proof {
            reveal_strlit("Bearer ");
        }
        concatenate("Bearer ", self.cfg.token.as_str())
    }

    /// What a GET of `url` gives, from the status and body of its answer:
    /// the body on success, else an error that names `url`, the status and the
    /// body.
    pub fn get(&self, url: &str, status: u16, body: String) -> (r: Result<String, HttpError>)
        ensures
            spec_is_success(status) ==> r == Ok::<String, HttpError>(body),
            !spec_is_success(status) ==> (r matches Err(HttpError::Status { url: u, status: s, body: b })
                && u@ == url@ && s == status && b == body),
    {
        if is_success(status) {
            Ok(body)
        } else {
            Err(HttpError::Status { url: url.to_owned(), status, body })
        }
    }

    /// The JSON document that a GET of `url` gives, from the status and body
    /// of its answer: the parsed body on success, else the error of `get`, or
    /// an error naming `url` where the body is not JSON.
    pub fn get_json(&self, url: &str, status: u16, body: String) -> (r: Result<
        JsonValue,
        HttpError,
    >)
        ensures
            !spec_is_success(status) ==> (r matches Err(HttpError::Status { url: u, status: s, body: b })
                && u@ == url@ && s == status && b == body),
            spec_is_success(status) && parsed_json(body@) is Some ==> (r matches Ok(v)
                && parsed_json(body@) == Some(v.view())),
            spec_is_success(status) && parsed_json(body@) is None ==> (r matches Err(
                HttpError::NotJson { url: u, .. },
            ) && u@ == url@),
    {
        let body = self.get(url, status, body)?;
        match parse_json(body.as_str()) {
            Ok(v) => Ok(v),
            Err(error) => Err(HttpError::NotJson { url: url.to_owned(), error }),
        }
    }

    /// What a POST to `url` gives, from the status and body of its answer:
    /// an error that names the full address and the body on a client error,
    /// else the body.
    pub fn post(&self, url: &str, status: u16, body: String) -> (r: Result<String, HttpError>)
        ensures
            !spec_is_client_error(status) ==> r == Ok::<String, HttpError>(body),
            spec_is_client_error(status) ==> (r matches Err(HttpError::Rejected { url: u, body: b })
                && u@ == self.spec_url(url@) && b == body),
    {
        if is_client_error(status) {
            Err(HttpError::Rejected { url: self.build_url(url), body })
        } else {
            Ok(body)
        }
    }
}

/// The text made of a chain of error messages, outermost first, where each
/// message after the first is the source of the one before it. An error
/// without a source gives the empty text; otherwise its message, followed by
/// `": "` and the text of its source where that text is not empty.
pub open spec fn chain_text(messages: Seq<Seq<char>>) -> Seq<char>
    decreases messages.len(),
{
    if messages.len() <= 1 {
        Seq::empty()
    } else {
        let rest = chain_text(messages.drop_first());
        if rest.len() == 0 {
            messages[0]
        } else {
            messages[0] + seq![':', ' '] + rest
        }
    }
}

/// The text of a chain is empty exactly when every message but the innermost
/// is empty, and otherwise begins with the outermost message.
pub proof fn lemma_chain_text(messages: Seq<Seq<char>>)
    ensures
        chain_text(messages).len() == 0 <==> forall|i: int|
            0 <= i < messages.len() - 1 ==> (#[trigger] messages[i]).len() == 0,
        messages.len() >= 2 ==> chain_text(messages).subrange(0, messages[0].len() as int)
            == messages[0],
    decreases messages.len(),
{
    if messages.len() >= 2 {
        let rest = messages.drop_first();
        lemma_chain_text(rest);
        let t = chain_text(rest);
        if t.len() == 0 {
            assert forall|i: int| 0 <= i < messages.len() - 1 && i > 0 implies (
            #[trigger] messages[i]).len() == 0 by {
                assert(messages[i] == rest[i - 1]);
            }
            assert(chain_text(messages) == messages[0]);
            assert(messages[0].subrange(0, messages[0].len() as int) =~= messages[0]);
        } else {
            let k = choose|i: int| 0 <= i < rest.len() - 1 && (#[trigger] rest[i]).len() != 0;
            assert(messages[k + 1] == rest[k]);
            assert(chain_text(messages) == messages[0] + seq![':', ' '] + t);
            assert((messages[0] + seq![':', ' '] + t).subrange(0, messages[0].len() as int)
                =~= messages[0]);
        }
    }
}

/// The text of an error and its chain of sources; `messages[0]` is the
/// error's own message and `messages[i + 1]` that of the source of
/// `messages[i]`.
pub fn extract_errors_chain(messages: &Vec<String>) -> (r: String)
    ensures
        r@ == chain_text(views(messages@)),
{
    let n = messages.len();
    let ghost ms = views(messages@);
    let mut r = String::new();
    if n == 0 {
        return r;
    }
    let mut i: usize = n - 1;
    assert(chain_text(ms.subrange(i as int, n as int)) == Seq::<char>::empty());
    while i > 0
        invariant
            i < n,
            n == messages@.len(),
            ms == views(messages@),
            r@ == chain_text(ms.subrange(i as int, n as int)),
        decreases i,
    {
        let k = i - 1;
        let ghost sub = ms.subrange(k as int, n as int);
        assert(sub.drop_first() =~= ms.subrange(i as int, n as int));
        assert(sub[0] == messages@[k as int]@);
        if r.as_str().is_empty() {
            r = messages[k].clone();
        } else {
            proof {
                reveal_strlit(": ");
            }
            let mut m = concatenate(messages[k].as_str(), ": ");
            m.append(r.as_str());
            r = m;
            assert(r@ =~= chain_text(sub));
        }
        i = k;
    }
    assert(ms.subrange(0, n as int) =~= ms);
    r
}

} // verus!
