//! Services: how one service of the listing is shown.
use vstd::prelude::*;
use crate::http;
use crate::json::{JsonValue, JsonView, get_str, lemma_object_view};
use crate::text::{padded, pad_right, str_eq, concatenate, column_at, column_width, lemma_column};

verus! {

broadcast use vstd::string::group_string_axioms;

/// The colour a service's status is shown in.
#[derive(Debug, Clone, Copy, PartialEq, Eq, Structural)]
pub enum StatusColor {
    Blue,
    Green,
    Red,
    Yellow,
    /// Used for the status `grey`.
    Black,
}

/// The colour for a status: `blue`, `green`, `red` and `yellow` are shown in
/// their own colour and `grey` in black; there is none for any other status.
pub open spec fn status_color(status: Seq<char>) -> Option<StatusColor> {
    if status == "blue"@ {
        Some(StatusColor::Blue)
    } else if status == "green"@ {
        Some(StatusColor::Green)
    } else if status == "red"@ {
        Some(StatusColor::Red)
    } else if status == "yellow"@ {
        Some(StatusColor::Yellow)
    } else if status == "grey"@ {
        Some(StatusColor::Black)
    } else {
        None
    }
}

/// No two statuses share a colour, and only `blue`, `green`, `red`,
/// `yellow` and `grey` have one.
pub proof fn lemma_status_colors(a: Seq<char>, b: Seq<char>)
    ensures
        status_color(a) is Some && status_color(a) == status_color(b) ==> a == b,
        status_color(a) is Some ==> a == "blue"@ || a == "green"@ || a == "red"@ || a == "yellow"@
            || a == "grey"@,
{
    reveal_strlit("blue");
    reveal_strlit("green");
    reveal_strlit("red");
    reveal_strlit("yellow");
    reveal_strlit("grey");
    assert("blue"@ != "green"@) by {
        assert("blue"@.len() != "green"@.len());
    }
    assert("blue"@ != "red"@) by {
        assert("blue"@.len() != "red"@.len());
    }
    assert("blue"@ != "yellow"@) by {
        assert("blue"@.len() != "yellow"@.len());
    }
    assert("blue"@ != "grey"@) by {
        assert("blue"@[0] != "grey"@[0]);
    }
    assert("green"@ != "red"@) by {
        assert("green"@.len() != "red"@.len());
    }
    assert("green"@ != "yellow"@) by {
        assert("green"@.len() != "yellow"@.len());
    }
    assert("green"@ != "grey"@) by {
        assert("green"@.len() != "grey"@.len());
    }
    assert("red"@ != "yellow"@) by {
        assert("red"@.len() != "yellow"@.len());
    }
    assert("red"@ != "grey"@) by {
        assert("red"@.len() != "grey"@.len());
    }
    assert("yellow"@ != "grey"@) by {
        assert("yellow"@.len() != "grey"@.len());
    }
}

/// Whether the status `color_name` has a colour.
pub fn has_color(color_name: &str) -> (r: bool)
    ensures
        r == status_color(color_name@) is Some,
{
    str_eq(color_name, "blue") || str_eq(color_name, "green") || str_eq(color_name, "red")
        || str_eq(color_name, "yellow") || str_eq(color_name, "grey")
}

/// The colour for the status `color_name`, which must be one that has a
/// colour.
pub fn colorize(color_name: &str) -> (r: StatusColor)
    requires
        status_color(color_name@) is Some,
    ensures
        Some(r) == status_color(color_name@),
{
    if str_eq(color_name, "blue") {
        StatusColor::Blue
    } else if str_eq(color_name, "green") {
        StatusColor::Green
    } else if str_eq(color_name, "red") {
        StatusColor::Red
    } else if str_eq(color_name, "yellow") {
        StatusColor::Yellow
    } else {
        StatusColor::Black
    }
}

/// Whether a service can be shown: an object whose `name`, `kind`, `id`,
/// `fqdn`, `status` and `tenantName` are strings, with a status that has a
/// colour.
pub open spec fn listable(v: JsonView) -> bool {
    &&& v is Object
    &&& v.has_str("id"@)
    &&& v.has_str("fqdn"@)
    &&& v.has_str("name"@)
    &&& v.has_str("status"@)
    &&& v.has_str("kind"@)
    &&& v.has_str("tenantName"@)
    &&& status_color(v.str_member("status"@)) is Some
}

/// The line that shows a service, in three parts so that the status can be
/// coloured: the text before the status, the status padded to its column,
/// and the text after it.
#[derive(Debug)]
pub struct ServiceLine {
    pub before: String,
    pub status: String,
    pub color: StatusColor,
    pub after: String,
}

/// The text before the status: name, kind, id and FQDN in columns of 20, 10,
/// 38 and 15 characters, each followed by a space.
pub open spec fn service_head(v: JsonView) -> Seq<char> {
    padded(v.str_member("name"@), 20) + " "@ + padded(v.str_member("kind"@), 10) + " "@ + padded(
        v.str_member("id"@),
        38,
    ) + " "@ + padded(v.str_member("fqdn"@), 15) + " "@
}

/// The text before a service's status shows, in this order and each followed
/// by one space, its name in a column of 20 characters, its kind in one of 10,
/// its id in one of 38 and its FQDN in one of 15; a longer value widens its
/// column.
pub proof fn lemma_service_columns(v: JsonView)
    ensures
        ({
            let head = service_head(v);
            let name = v.str_member("name"@);
            let kind = v.str_member("kind"@);
            let id = v.str_member("id"@);
            let fqdn = v.str_member("fqdn"@);
            let a = column_width(name, 20);
            let b = column_width(kind, 10);
            let c = column_width(id, 38);
            let d = column_width(fqdn, 15);
            &&& head.len() == a + b + c + d + 4
            &&& column_at(head, 0, name, 20)
            &&& head[a] == ' '
            &&& column_at(head, a + 1, kind, 10)
            &&& head[a + 1 + b] == ' '
            &&& column_at(head, a + b + 2, id, 38)
            &&& head[a + b + 2 + c] == ' '
            &&& column_at(head, a + b + c + 3, fqdn, 15)
            &&& head[a + b + c + 3 + d] == ' '
        }),
{
    reveal_strlit(" ");
    let sp = " "@;
    assert(sp =~= seq![' ']);
    let name = v.str_member("name"@);
    let kind = v.str_member("kind"@);
    let id = v.str_member("id"@);
    let fqdn = v.str_member("fqdn"@);
    let pn = padded(name, 20);
    let pk = padded(kind, 10);
    let pi = padded(id, 38);
    let pf = padded(fqdn, 15);
    let head = service_head(v);
    let e = Seq::<char>::empty();
    assert(head =~= e + pn + (sp + pk + sp + pi + sp + pf + sp));
    lemma_column(e, name, 20, sp + pk + sp + pi + sp + pf + sp);
    assert(head =~= (pn + sp) + pk + (sp + pi + sp + pf + sp));
    lemma_column(pn + sp, kind, 10, sp + pi + sp + pf + sp);
    assert(head =~= (pn + sp + pk + sp) + pi + (sp + pf + sp));
    lemma_column(pn + sp + pk + sp, id, 38, sp + pf + sp);
    assert(head =~= (pn + sp + pk + sp + pi + sp) + pf + sp);
    lemma_column(pn + sp + pk + sp + pi + sp, fqdn, 15, sp);
    assert(head[pn.len() as int] == ' ');
    assert(head[(pn.len() + 1 + pk.len()) as int] == ' ');
    assert(head[(pn.len() + pk.len() + 2 + pi.len()) as int] == ' ');
    assert(head[(pn.len() + pk.len() + pi.len() + 3 + pf.len()) as int] == ' ');
}

/// The heading printed above the first listed service; the same as that
/// of the asset listing.
pub fn list_header() -> (r: String)
    ensures
        r@ == crate::assets::fqdn_header(),
{
    crate::assets::list_header()
}

/// A client for the services of the server.
pub struct Client {
    client: http::Client,
}

impl Client {
    /// The REST client that requests are made with.
    pub closed spec fn spec_client(&self) -> http::Client {
        self.client
    }

    /// A services client that makes its requests with `client`.
    pub fn new(client: http::Client) -> (r: Client)
        ensures
            r.spec_client() == client,
    {
        Client { client }
    }

    /// The REST client that requests are made with.
    pub fn client(&self) -> (r: &http::Client)
        ensures
            *r == self.spec_client(),
    {
        &self.client
    }

    /// The address of the service listing below the API.
    pub fn listing_url(&self) -> (r: &'static str)
        ensures
            r@ == "services"@,
    {
        "services"
    }

    /// Whether the service can be shown.
    pub fn is_listable(&self, service: &JsonValue) -> (r: bool)
        ensures
            r == listable(service.view()),
    {
        match service {
            JsonValue::Object(fields) => {
                proof {
                    lemma_object_view(*fields);
                }
                let basic = get_str(fields, "id").is_some() && get_str(fields, "fqdn").is_some()
                    && get_str(fields, "name").is_some() && get_str(fields, "kind").is_some()
                    && get_str(fields, "tenantName").is_some();
                match get_str(fields, "status") {
                    Some(s) => basic && has_color(s.as_str()),
                    None => false,
                }
            },
            _ => false,
        }
    }

    /// The line that shows `service`; its status is padded to 8 characters
    /// and its tenant, after a space, to 10.
    pub fn service_line(&self, service: &JsonValue) -> (r: ServiceLine)
        requires
            listable(service.view()),
        ensures
            r.before@ == service_head(service.view()),
            r.status@ == padded(service.view().str_member("status"@), 8),
            Some(r.color) == status_color(service.view().str_member("status"@)),
            r.after@ == " "@ + padded(service.view().str_member("tenantName"@), 10),
            column_at(r.status@, 0, service.view().str_member("status"@), 8),
            r.status@.len() == column_width(service.view().str_member("status"@), 8),
            r.after@[0] == ' ',
            column_at(r.after@, 1, service.view().str_member("tenantName"@), 10),
            r.after@.len() == 1 + column_width(service.view().str_member("tenantName"@), 10),
    {
        proof {
            reveal_strlit(" ");
            let sv = service.view();
            lemma_column(Seq::empty(), sv.str_member("status"@), 8, Seq::empty());
            assert(Seq::<char>::empty() + padded(sv.str_member("status"@), 8) + Seq::<char>::empty()
                =~= padded(sv.str_member("status"@), 8));
            lemma_column(" "@, sv.str_member("tenantName"@), 10, Seq::empty());
            assert(" "@ + padded(sv.str_member("tenantName"@), 10) + Seq::<char>::empty() =~= " "@
                + padded(sv.str_member("tenantName"@), 10));
        }
        match service {
            JsonValue::Object(fields) => {
                proof {
                    lemma_object_view(*fields);
                }
                let name = match get_str(fields, "name") { Some(s) => s.as_str(), None => "" };
                let kind = match get_str(fields, "kind") { Some(s) => s.as_str(), None => "" };
                let id = match get_str(fields, "id") { Some(s) => s.as_str(), None => "" };
                let fqdn = match get_str(fields, "fqdn") { Some(s) => s.as_str(), None => "" };
                let status = match get_str(fields, "status") { Some(s) => s.as_str(), None => "" };
                let tenant = match get_str(fields, "tenantName") {
                    Some(s) => s.as_str(),
                    None => "",
                };
                let mut before = pad_right(name, 20);
                before.append(" ");
                before.append(pad_right(kind, 10).as_str());
                before.append(" ");
                before.append(pad_right(id, 38).as_str());
                before.append(" ");
                before.append(pad_right(fqdn, 15).as_str());
                before.append(" ");
                let color = colorize(status);
                let after = concatenate(" ", pad_right(tenant, 10).as_str());
                ServiceLine { before, status: pad_right(status, 8), color, after }
            },
            _ => ServiceLine {
                before: String::new(),
                status: String::new(),
                color: StatusColor::Black,
                after: String::new(),
            },
        }
    }
}

} // verus!
