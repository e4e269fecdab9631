//! Walking a paginated listing of the REST API, one page per request.
use vstd::prelude::*;
use crate::http::{Client, HttpError};
use crate::json::JsonValue;
use crate::text::{concatenate, contains_char, decimal, decimal_string, digit};

verus! {

broadcast use vstd::string::group_string_axioms;

/// A page of a listing could not be fetched.
#[derive(Debug)]
pub struct PaginationError {
    /// The page that was asked for.
    pub page: u32,
    /// The listing's address below the API.
    pub suburl: String,
    /// Why the request failed.
    pub cause: HttpError,
}

/// The pages of a listing, fetched in order from page 1 until a page comes
/// back empty.
pub struct PaginationRequest {
    client: Client,
    suburl: String,
    page: u32,
}

/// `suburl` with the query parameter `param` added: after `&` where `suburl`
/// already holds a query (a `?`), else after `?`.
pub open spec fn with_param_spec(suburl: Seq<char>, param: Seq<char>) -> Seq<char> {
    suburl + (if suburl.contains('?') {
        seq!['&']
    } else {
        seq!['?']
    }) + param
}

/// The address of page `page` of the listing at `suburl`.
pub open spec fn page_url(suburl: Seq<char>, page: nat) -> Seq<char> {
    with_param_spec(suburl, seq!['p', 'a', 'g', 'e', '='] + decimal(page))
}

impl PaginationRequest {
    /// The client the pages are fetched with.
    pub closed spec fn spec_client(&self) -> Client {
        self.client
    }

    /// The listing's address below the API.
    pub closed spec fn spec_suburl(&self) -> Seq<char> {
        self.suburl@
    }

    /// The page that the next request asks for.
    pub closed spec fn spec_page(&self) -> u32 {
        self.page
    }

    /// The listing at `suburl`, starting at page 1.
    pub fn new(client: Client, suburl: &str) -> (r: PaginationRequest)
        ensures
            r.spec_client() == client,
            r.spec_suburl() == suburl@,
            r.spec_page() == 1,
    {
        PaginationRequest { client, suburl: suburl.to_owned(), page: 1 }
    }

    /// The client the pages are fetched with.
    pub fn client(&self) -> (r: &Client)
        ensures
            *r == self.spec_client(),
    {
        &self.client
    }

    /// The page that the next request asks for.
    pub fn page(&self) -> (r: u32)
        ensures
            r == self.spec_page(),
    {
        self.page
    }

    /// The listing's address with the query parameter `param` added.
    pub fn with_param(&self, param: &str) -> (r: String)
        ensures
            r@ == with_param_spec(self.spec_suburl(), param@),
    {
        let sep = if contains_char(self.suburl.as_str(), '?') {
            proof {
                reveal_strlit("&");
            }
            "&"
        } else {
            proof {
                reveal_strlit("?");
            }
            "?"
        };
        let mut r = concatenate(self.suburl.as_str(), sep);
        r.append(param);
        r
    }

    /// The address that the next request asks for.
    pub fn next_url(&self) -> (r: String)
        ensures
            r@ == page_url(self.spec_suburl(), self.spec_page() as nat),
    {
        proof {
            reveal_strlit("page=");
        }
        let number = decimal_string(self.page);
        let param = concatenate("page=", number.as_str());
        self.with_param(param.as_str())
    }

    /// Takes the answer to the request for `next_url()`. A failed request
    /// gives its error and leaves the position unchanged, so that asking again
    /// asks for the same page. An answer moves on to the next page; it gives
    /// its items, or `None` where the page is empty, which ends the listing.
    pub fn next(&mut self, response: Result<JsonValue, HttpError>) -> (r: Option<
        Result<Vec<JsonValue>, PaginationError>,
    >)
        requires
            response matches Ok(v) ==> v is Array && old(self).spec_page() < u32::MAX,
        ensures
            response matches Err(e) ==> {
                &&& *final(self) == *old(self)
                &&& r matches Some(Err(err))
                &&& err.page == old(self).spec_page()
                &&& err.suburl@ == old(self).spec_suburl()
                &&& err.cause == e
            },
            response matches Ok(JsonValue::Array(items)) ==> {
                &&& final(self).spec_page() == old(self).spec_page() + 1
                &&& final(self).spec_suburl() == old(self).spec_suburl()
                &&& final(self).spec_client() == old(self).spec_client()
                &&& items@.len() == 0 ==> r is None
                &&& items@.len() > 0 ==> r == Some(
                    Ok::<Vec<JsonValue>, PaginationError>(items),
                )
            },
    {
        match response {
            Err(cause) => Some(
                Err(PaginationError { page: self.page, suburl: self.suburl.clone(), cause }),
            ),
            Ok(value) => {
                self.page = self.page + 1;
                match value {
                    JsonValue::Array(items) => {
                        if items.len() == 0 {
                            None
                        } else {
                            Some(Ok(items))
                        }
                    },
                    _ => None,
                }
            },
        }
    }
}

/// Adding a query parameter keeps the address and puts the parameter at the
/// end, after one separator: `&` where the address already has a query (a
/// `?`), else `?`; either way the result has a query.
pub proof fn lemma_with_param(suburl: Seq<char>, param: Seq<char>)
    ensures
        ({
            let r = with_param_spec(suburl, param);
            &&& r.len() == suburl.len() + 1 + param.len()
            &&& r.subrange(0, suburl.len() as int) == suburl
            &&& r[suburl.len() as int] == if suburl.contains('?') {
                '&'
            } else {
                '?'
            }
            &&& r.skip((suburl.len() + 1) as int) == param
            &&& r.contains('?')
        }),
{
    let r = with_param_spec(suburl, param);
    assert(r.subrange(0, suburl.len() as int) =~= suburl);
    assert(r.skip((suburl.len() + 1) as int) =~= param);
    if suburl.contains('?') {
        let i = choose|i: int| 0 <= i < suburl.len() && suburl[i] == '?';
        assert(r[i] == '?');
    } else {
        assert(r[suburl.len() as int] == '?');
    }
}

/// `decimal(n)` ends with the last digit of `n`, after the decimal of `n / 10`.
proof fn lemma_decimal_shape(n: nat)
    ensures
        decimal(n).len() >= 1,
        decimal(n).last() == digit(n % 10),
        n >= 10 ==> decimal(n).drop_last() == decimal(n / 10) && decimal(n).len() >= 2,
        n < 10 ==> decimal(n).len() == 1,
    decreases n,
{
    if n >= 10 {
        lemma_decimal_shape(n / 10);
        assert(decimal(n).drop_last() =~= decimal(n / 10));
    }
}

/// Different numbers have different decimal representations.
pub proof fn lemma_decimal_injective(a: nat, b: nat)
    requires
        decimal(a) == decimal(b),
    ensures
        a == b,
    decreases a,
{
    lemma_decimal_shape(a);
    lemma_decimal_shape(b);
    assert(digit(a % 10) == digit(b % 10));
    assert(a % 10 == b % 10);
    if a >= 10 && b >= 10 {
        lemma_decimal_injective(a / 10, b / 10);
    }
}

/// Each page of a listing is asked for at an address of its own, so no two
/// requests of one walk ask for the same page.
pub proof fn lemma_page_urls_distinct(suburl: Seq<char>, p: nat, q: nat)
    requires
        p != q,
    ensures
        page_url(suburl, p) != page_url(suburl, q),
{
    let head = suburl + (if suburl.contains('?') {
        seq!['&']
    } else {
        seq!['?']
    }) + seq!['p', 'a', 'g', 'e', '='];
    assert(page_url(suburl, p) =~= head + decimal(p));
    assert(page_url(suburl, q) =~= head + decimal(q));
    if page_url(suburl, p) == page_url(suburl, q) {
        assert(decimal(p) =~= (head + decimal(p)).skip(head.len() as int));
        assert(decimal(q) =~= (head + decimal(q)).skip(head.len() as int));
        lemma_decimal_injective(p, q);
    }
}

} // verus!
