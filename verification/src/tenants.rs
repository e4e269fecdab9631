//! Tenants: how one tenant of the listing is shown, and finding a tenant's
//! id by its name.
use vstd::prelude::*;
use crate::http;
use crate::json::{
    JsonValue, JsonView, get_str, lemma_object_view, items_view, lemma_array_view, members_view,
};
use crate::text::{padded, pad_right, str_eq, concatenate, column_at, column_width, lemma_column};

verus! {

broadcast use vstd::string::group_string_axioms;

/// Whether a tenant of the listing can be shown: an object whose `id` and
/// `name` are strings.
pub open spec fn listable(v: JsonView) -> bool {
    v is Object && v.has_str("id"@) && v.has_str("name"@)
}

/// The line that shows a tenant: its id and name in columns of 38 and 50
/// characters.
pub open spec fn tenant_row(v: JsonView) -> Seq<char> {
    padded(v.str_member("id"@), 38) + " "@ + padded(v.str_member("name"@), 50)
}

/// The heading of the tenant listing.
pub open spec fn tenant_header() -> Seq<char> {
    padded("ID"@, 38) + " "@ + padded("NAME"@, 50)
}

/// A tenant's line shows its id in a column of 38 characters, a space, and
/// its name in a column of 50; a longer value widens its column.
pub proof fn lemma_tenant_columns(v: JsonView)
    ensures
        ({
            let row = tenant_row(v);
            let a = column_width(v.str_member("id"@), 38);
            &&& row.len() == a + 1 + column_width(v.str_member("name"@), 50)
            &&& column_at(row, 0, v.str_member("id"@), 38)
            &&& row[a] == ' '
            &&& column_at(row, a + 1, v.str_member("name"@), 50)
        }),
{
    reveal_strlit(" ");
    let sp = " "@;
    assert(sp =~= seq![' ']);
    let pi = padded(v.str_member("id"@), 38);
    let pn = padded(v.str_member("name"@), 50);
    let row = tenant_row(v);
    let e = Seq::<char>::empty();
    assert(row =~= e + pi + (sp + pn));
    lemma_column(e, v.str_member("id"@), 38, sp + pn);
    assert(row =~= (pi + sp) + pn + e);
    lemma_column(pi + sp, v.str_member("name"@), 50, e);
    assert(row[pi.len() as int] == ' ');
}

/// The heading printed above the first listed tenant.
pub fn list_header() -> (r: String)
    ensures
        r@ == tenant_header(),
{
    let mut r = pad_right("ID", 38);
    r.append(" ");
    r.append(pad_right("NAME", 50).as_str());
    r
}

/// The id of the first tenant of `tenants` named `name`, if any.
pub open spec fn first_named(tenants: Seq<JsonView>, name: Seq<char>) -> Option<Seq<char>>
    decreases tenants.len(),
{
    if tenants.len() == 0 {
        None
    } else if tenants[0].str_member("name"@) == name {
        Some(tenants[0].str_member("id"@))
    } else {
        first_named(tenants.drop_first(), name)
    }
}

/// Whether the search for `name` can read `tenants`: each tenant up to the
/// first one named `name` is an object with a string `name`, and that one
/// has a string `id`.
pub open spec fn searchable(tenants: Seq<JsonView>, name: Seq<char>) -> bool
    decreases tenants.len(),
{
    if tenants.len() == 0 {
        true
    } else {
        &&& tenants[0] is Object
        &&& tenants[0].has_str("name"@)
        &&& if tenants[0].str_member("name"@) == name {
            tenants[0].has_str("id"@)
        } else {
            searchable(tenants.drop_first(), name)
        }
    }
}

/// Whether the answer to the search for `name` can be read: an array of
/// tenants that `searchable` accepts.
pub open spec fn readable_answer(response: JsonView, name: Seq<char>) -> bool {
    response matches JsonView::Array(tenants) && searchable(tenants, name)
}

/// The search by name finds only a tenant whose name is exactly the one
/// searched for: where it finds an id, some tenant has exactly that name and
/// that id and no tenant before it has that name; where it finds none, no
/// tenant has that name.
pub proof fn lemma_first_named(tenants: Seq<JsonView>, name: Seq<char>)
    ensures
        first_named(tenants, name) matches Some(id) ==> exists|k: int|
            0 <= k < tenants.len() && #[trigger] tenants[k].str_member("name"@) == name
                && tenants[k].str_member("id"@) == id && forall|j: int|
                0 <= j < k ==> tenants[j].str_member("name"@) != name,
        first_named(tenants, name) is None ==> forall|k: int|
            0 <= k < tenants.len() ==> #[trigger] tenants[k].str_member("name"@) != name,
    decreases tenants.len(),
{
    if tenants.len() > 0 {
        let rest = tenants.drop_first();
        lemma_first_named(rest, name);
        if tenants[0].str_member("name"@) == name {
            assert(tenants[0].str_member("name"@) == name);
        } else {
            match first_named(rest, name) {
                Some(id) => {
                    let k = choose|k: int|
                        0 <= k < rest.len() && #[trigger] rest[k].str_member("name"@) == name
                            && rest[k].str_member("id"@) == id && forall|j: int|
                            0 <= j < k ==> rest[j].str_member("name"@) != name;
                    assert(tenants[k + 1] == rest[k]);
                    assert forall|j: int| 0 <= j < k + 1 implies tenants[j].str_member("name"@)
                        != name by {
                        if j > 0 {
                            assert(tenants[j] == rest[j - 1]);
                        }
                    }
                    assert(tenants[k + 1].str_member("name"@) == name);
                },
                None => {
                    assert forall|k: int| 0 <= k < tenants.len() implies #[trigger] tenants[k].str_member(
                        "name"@,
                    ) != name by {
                        if k > 0 {
                            assert(tenants[k] == rest[k - 1]);
                        }
                    }
                },
            }
        }
    }
}

/// An answer is readable for any name when every tenant in it is an object
/// with a string name and a string id.
pub proof fn lemma_well_formed_answer_readable(tenants: Seq<JsonView>, name: Seq<char>)
    requires
        forall|k: int|
            0 <= k < tenants.len() ==> (#[trigger] tenants[k]) is Object && tenants[k].has_str(
                "name"@,
            ) && tenants[k].has_str("id"@),
    ensures
        searchable(tenants, name),
    decreases tenants.len(),
{
    if tenants.len() > 0 {
        let rest = tenants.drop_first();
        assert forall|k: int| 0 <= k < rest.len() implies (#[trigger] rest[k]) is Object && rest[k].has_str(
            "name"@,
        ) && rest[k].has_str("id"@) by {
            assert(rest[k] == tenants[k + 1]);
        }
        lemma_well_formed_answer_readable(rest, name);
        assert(tenants[0] is Object);
    }
}

/// A client for the tenants of the server.
pub struct Client {
    client: http::Client,
}

impl Client {
    /// The REST client that requests are made with.
    pub closed spec fn spec_client(&self) -> http::Client {
        self.client
    }

    /// A tenants client that makes its requests with `client`.
    pub fn new(client: http::Client) -> (r: Client)
        ensures
            r.spec_client() == client,
    {
        Client { client }
    }

    /// The REST client that requests are made with.
    pub fn client(&self) -> (r: &http::Client)
        ensures
            *r == self.spec_client(),
    {
        &self.client
    }

    /// The address of the tenant listing below the API.
    pub fn listing_url(&self) -> (r: &'static str)
        ensures
            r@ == "tenants"@,
    {
        "tenants"
    }

    /// Whether the tenant can be shown.
    pub fn is_listable(&self, tenant: &JsonValue) -> (r: bool)
        ensures
            r == listable(tenant.view()),
    {
        match tenant {
            JsonValue::Object(fields) => {
                proof {
                    lemma_object_view(*fields);
                }
                get_str(fields, "id").is_some() && get_str(fields, "name").is_some()
            },
            _ => false,
        }
    }

    /// The line that shows `tenant`.
    pub fn tenant_line(&self, tenant: &JsonValue) -> (r: String)
        requires
            listable(tenant.view()),
        ensures
            r@ == tenant_row(tenant.view()),
    {
        match tenant {
            JsonValue::Object(fields) => {
                proof {
                    lemma_object_view(*fields);
                }
                let id = match get_str(fields, "id") { Some(s) => s.as_str(), None => "" };
                let name = match get_str(fields, "name") { Some(s) => s.as_str(), None => "" };
                let mut r = pad_right(id, 38);
                r.append(" ");
                r.append(pad_right(name, 50).as_str());
                r
            },
            _ => String::new(),
        }
    }

    /// The address below the API that searches the tenants by `name`.
    pub fn find_by_name_url(&self, name: &str) -> (r: String)
        ensures
            r@ == "tenants?name="@ + name@,
    {
        concatenate("tenants?name=", name)
    }

    /// Whether the answer to the search for `name` can be read.
    pub fn is_readable_answer(&self, name: &str, response: &JsonValue) -> (r: bool)
        ensures
            r == readable_answer(response.view(), name@),
    {
        match response {
            JsonValue::Array(items) => {
                proof {
                    lemma_array_view(*items);
                }
                let ghost tv = items_view(items@);
                let n = items.len();
                let mut i: usize = 0;
                assert(tv.subrange(0, n as int) =~= tv);
                while i < n
                    invariant
                        i <= n,
                        n == items@.len(),
                        tv == items_view(items@),
                        response.view() == JsonView::Array(tv),
                        searchable(tv, name@) == searchable(tv.subrange(i as int, n as int), name@),
                    decreases n - i,
                {
                    let ghost rest = tv.subrange(i as int, n as int);
                    assert(rest[0] == tv[i as int]);
                    assert(rest.drop_first() =~= tv.subrange(i + 1, n as int));
                    assert(tv[i as int] == items@[i as int].view());
                    match &items[i] {
                        JsonValue::Object(fields) => {
                            proof {
                                lemma_object_view(*fields);
                                assert(tv[i as int] == items@[i as int].view());
                                assert(tv[i as int] == JsonView::Object(members_view(fields@)));
                            }
                            match get_str(fields, "name") {
                                Some(found) => {
                                    if str_eq(found.as_str(), name) {
                                        return get_str(fields, "id").is_some();
                                    }
                                },
                                None => {
                                    return false;
                                },
                            }
                        },
                        _ => {
                            return false;
                        },
                    }
                    i += 1;
                }
                assert(tv.subrange(n as int, n as int).len() == 0);
                true
            },
            _ => false,
        }
    }

    /// The id of the first tenant named `name` in `response`, the answer to
    /// the search at `find_by_name_url(name)`.
    pub fn find_by_name(&self, name: &str, response: &JsonValue) -> (r: Option<String>)
        requires
            readable_answer(response.view(), name@),
        ensures
            r is Some <==> first_named(response.view()->Array_0, name@) is Some,
            r matches Some(id) ==> first_named(response.view()->Array_0, name@) == Some(id@),
    {
        match response {
            JsonValue::Array(items) => {
                proof {
                    lemma_array_view(*items);
                }
                let ghost tv = items_view(items@);
                let n = items.len();
                let mut i: usize = 0;
                assert(tv.subrange(0, n as int) =~= tv);
                while i < n
                    invariant
                        i <= n,
                        n == items@.len(),
                        tv == items_view(items@),
                        response.view() == JsonView::Array(tv),
                        searchable(tv.subrange(i as int, n as int), name@),
                        first_named(tv, name@) == first_named(tv.subrange(i as int, n as int), name@),
                    decreases n - i,
                {
                    let ghost rest = tv.subrange(i as int, n as int);
                    assert(rest[0] == tv[i as int]);
                    assert(rest.drop_first() =~= tv.subrange(i + 1, n as int));
                    assert(tv[i as int] == items@[i as int].view());
                    match &items[i] {
                        JsonValue::Object(fields) => {
                            proof {
                                lemma_object_view(*fields);
                                assert(tv[i as int] == items@[i as int].view());
                                assert(tv[i as int] == JsonView::Object(members_view(fields@)));
                            }
                            match get_str(fields, "name") {
                                Some(found) => {
                                    if str_eq(found.as_str(), name) {
                                        return match get_str(fields, "id") {
                                            Some(id) => Some(id.clone()),
                                            None => None,
                                        };
                                    }
                                },
                                None => {},
                            }
                        },
                        _ => {},
                    }
                    i += 1;
                }
                None
            },
            _ => None,
        }
    }
}

} // verus!
