//! Assets: how one record of the asset listing is shown, and the import
//! request built from command-line fields or from a JSON document.
use vstd::prelude::*;
use crate::http;
use crate::json::{
    JsonValue, JsonView, member_of, members_view, items_view, with_member, get_member,
    insert_member, lemma_object_view, lemma_array_view, all_strs, str_texts, are_all_strs,
    string_texts, get_str, lemma_other_member_unchanged, lemma_member_set, parse_json, parsed_json,
};
use crate::text::{
    has_prefix, split_on, views, split, strip_prefix, joined, join, padded, pad_right, owned,
    concatenate, lemma_join_split, trim_end, trimmed_end, column_at, column_width, lemma_column,
};

verus! {

broadcast use vstd::string::group_string_axioms;

/// What an import from the input that needs a tenant and has none is answered.
pub const NOT_SPECIFIED_TENANT_MSG: &'static str =
    "tenant is not specified, please specify it like this 'kc assets import tenant=Main ...'";

/// Why no import request could be built.
#[derive(Debug)]
pub enum ImportError {
    /// No field was given.
    NoFields,
    /// The first field does not start with `name=`; it is kept here.
    NameNotFirst(String),
    /// A field with none of the known prefixes; it is kept here.
    UnknownField(String),
    /// The assets need a tenant and none was given.
    TenantNotSpecified,
    /// The input is neither a JSON array nor a JSON object.
    UnrecognizedData,
    /// The input is not JSON.
    NotJson(serde_json::Error),
}

/// The model of an [`ImportError`].
pub enum ImportFailure {
    NoFields,
    NameNotFirst(Seq<char>),
    UnknownField(Seq<char>),
    TenantNotSpecified,
    UnrecognizedData,
    NotJson,
}

impl View for ImportError {
    type V = ImportFailure;

    open spec fn view(&self) -> ImportFailure {
        match self {
            ImportError::NoFields => ImportFailure::NoFields,
            ImportError::NameNotFirst(f) => ImportFailure::NameNotFirst(f@),
            ImportError::UnknownField(f) => ImportFailure::UnknownField(f@),
            ImportError::TenantNotSpecified => ImportFailure::TenantNotSpecified,
            ImportError::UnrecognizedData => ImportFailure::UnrecognizedData,
            ImportError::NotJson(_) => ImportFailure::NotJson,
        }
    }
}

/// The model of the outcome of an import request.
pub open spec fn outcome_view(r: Result<JsonValue, ImportError>) -> Result<JsonView, ImportFailure> {
    match r {
        Ok(v) => Ok(v.view()),
        Err(e) => Err(e.view()),
    }
}

/// What a command-line field sets, by its prefix.
pub enum FieldKind {
    /// `name=...`: starts a new asset with this name.
    Name(Seq<char>),
    /// `owner=...`
    Owner(Seq<char>),
    /// `ipAddresses=a,b,...`
    IpAddresses(Seq<char>),
    /// `fqdn=a,b,...`
    Fqdn(Seq<char>),
    /// Any other field.
    Unknown,
}

/// The kind of the field `f` and the text after its prefix.
pub open spec fn field_kind(f: Seq<char>) -> FieldKind {
    if has_prefix(f, "name="@) {
        FieldKind::Name(f.skip("name="@.len() as int))
    } else if has_prefix(f, "owner="@) {
        FieldKind::Owner(f.skip("owner="@.len() as int))
    } else if has_prefix(f, "ipAddresses="@) {
        FieldKind::IpAddresses(f.skip("ipAddresses="@.len() as int))
    } else if has_prefix(f, "fqdn="@) {
        FieldKind::Fqdn(f.skip("fqdn="@.len() as int))
    } else {
        FieldKind::Unknown
    }
}

/// Strings as JSON string values.
pub open spec fn str_values(parts: Seq<Seq<char>>) -> Seq<JsonView> {
    parts.map_values(|p: Seq<char>| JsonView::Str(p))
}

/// A comma-separated list as a JSON array of strings.
pub open spec fn comma_list(text: Seq<char>) -> JsonView {
    JsonView::Array(str_values(split_on(text, ',')))
}

/// Assets read so far from the fields: the finished ones, and the members of
/// the one being read, if any.
pub struct ImportState {
    pub done: Seq<JsonView>,
    pub current: Option<Seq<(Seq<char>, JsonView)>>,
}

/// Reads one more field.
pub open spec fn import_step(st: ImportState, f: Seq<char>) -> Result<ImportState, ImportFailure> {
    match field_kind(f) {
        FieldKind::Name(n) => Ok(
            ImportState {
                done: match st.current {
                    Some(members) => st.done.push(JsonView::Object(members)),
                    None => st.done,
                },
                current: Some(seq![("name"@, JsonView::Str(n))]),
            },
        ),
        kind => match st.current {
            None => Err(ImportFailure::NameNotFirst(f)),
            Some(members) => match kind {
                FieldKind::Owner(o) => Ok(
                    ImportState {
                        done: st.done,
                        current: Some(with_member(members, "owner"@, JsonView::Str(o))),
                    },
                ),
                FieldKind::IpAddresses(list) => Ok(
                    ImportState {
                        done: st.done,
                        current: Some(with_member(members, "ipAddresses"@, comma_list(list))),
                    },
                ),
                FieldKind::Fqdn(list) => Ok(
                    ImportState {
                        done: st.done,
                        current: Some(with_member(members, "fqdn"@, comma_list(list))),
                    },
                ),
                _ => Err(ImportFailure::UnknownField(f)),
            },
        },
    }
}

/// Reads the fields in order, stopping at the first refused one.
pub open spec fn import_fold(fields: Seq<Seq<char>>) -> Result<ImportState, ImportFailure>
    decreases fields.len(),
{
    if fields.len() == 0 {
        Ok(ImportState { done: Seq::empty(), current: None })
    } else {
        match import_fold(fields.drop_last()) {
            Err(e) => Err(e),
            Ok(st) => import_step(st, fields.last()),
        }
    }
}

/// All the assets of a state.
pub open spec fn all_assets(st: ImportState) -> Seq<JsonView> {
    match st.current {
        Some(members) => st.done.push(JsonView::Object(members)),
        None => st.done,
    }
}

/// The model of an optional string.
pub open spec fn opt_view(s: Option<String>) -> Option<Seq<char>> {
    match s {
        Some(t) => Some(t@),
        None => None,
    }
}

/// The import request body for the assets: its `tenantID` is the tenant,
/// and it has none where no tenant is given.
pub open spec fn request_body(tenant: Option<Seq<char>>, assets: JsonView) -> JsonView {
    match tenant {
        Some(t) => JsonView::Object(seq![("tenantID"@, JsonView::Str(t)), ("assets"@, assets)]),
        None => JsonView::Object(seq![("assets"@, assets)]),
    }
}

/// The request that imports the assets described by the command-line
/// `fields`, for the tenant `tenant` where one is given.
pub open spec fn fields_request(tenant: Option<Seq<char>>, fields: Seq<Seq<char>>) -> Result<
    JsonView,
    ImportFailure,
> {
    if fields.len() == 0 {
        Err(ImportFailure::NoFields)
    } else {
        match import_fold(fields) {
            Err(e) => Err(e),
            Ok(st) => Ok(request_body(tenant, JsonView::Array(all_assets(st)))),
        }
    }
}

/// The request that imports the JSON document `data` read from the input:
/// an array is a list of assets and needs a tenant; an object with an
/// `assets` member is a whole request, whose `tenantID` the given tenant
/// sets; any other object is a single asset and needs a tenant.
pub open spec fn input_request(tenant: Option<Seq<char>>, data: JsonView) -> Result<
    JsonView,
    ImportFailure,
> {
    match data {
        JsonView::Array(_) => match tenant {
            Some(t) => Ok(request_body(Some(t), data)),
            None => Err(ImportFailure::TenantNotSpecified),
        },
        JsonView::Object(fields) => if member_of(fields, "assets"@) is Some {
            match tenant {
                Some(t) => Ok(JsonView::Object(with_member(fields, "tenantID"@, JsonView::Str(t)))),
                None => Ok(data),
            }
        } else {
            match tenant {
                Some(t) => Ok(request_body(Some(t), JsonView::Array(seq![data]))),
                None => Err(ImportFailure::TenantNotSpecified),
            }
        },
        _ => Err(ImportFailure::UnrecognizedData),
    }
}

/// The assets of a state as they are held while reading.
pub open spec fn state_of(done: Seq<JsonValue>, current: Option<Vec<(String, JsonValue)>>) -> ImportState {
    ImportState {
        done: items_view(done),
        current: match current {
            Some(members) => Some(members_view(members@)),
            None => None,
        },
    }
}

/// Once a field is refused, reading stops: the outcome of all the fields is
/// that of the first `k`.
proof fn lemma_fold_stops(fields: Seq<Seq<char>>, k: int)
    requires
        0 <= k <= fields.len(),
        import_fold(fields.take(k)) is Err,
    ensures
        import_fold(fields) == import_fold(fields.take(k)),
    decreases fields.len(),
{
    if fields.len() == k {
        assert(fields.take(k) =~= fields);
    } else {
        assert(fields.drop_last().take(k) =~= fields.take(k));
        lemma_fold_stops(fields.drop_last(), k);
    }
}

/// Whether each field has a known prefix.
pub open spec fn all_known(fields: Seq<Seq<char>>) -> bool {
    forall|i: int| 0 <= i < fields.len() ==> !(field_kind(#[trigger] fields[i]) is Unknown)
}

/// Whether the fields can be read: there is one, the first starts an asset,
/// and each has a known prefix.
pub open spec fn fields_readable(fields: Seq<Seq<char>>) -> bool {
    fields.len() > 0 && field_kind(fields[0]) is Name && all_known(fields)
}

/// The names given by the `name=` fields, in order.
pub open spec fn given_names(fields: Seq<Seq<char>>) -> Seq<Seq<char>>
    decreases fields.len(),
{
    if fields.len() == 0 {
        Seq::empty()
    } else {
        let earlier = given_names(fields.drop_last());
        match field_kind(fields.last()) {
            FieldKind::Name(n) => earlier.push(n),
            _ => earlier,
        }
    }
}

/// The name member of each asset.
pub open spec fn asset_names(assets: Seq<JsonView>) -> Seq<Seq<char>> {
    assets.map_values(|a: JsonView| a.str_member("name"@))
}

/// Whether each asset is an object with a string name.
pub open spec fn all_named(assets: Seq<JsonView>) -> bool {
    forall|i: int| 0 <= i < assets.len() ==> (#[trigger] assets[i]).has_str("name"@) && assets[i] is Object
}

/// Setting a member other than `name` of the asset being read keeps every
/// asset named as it was.
proof fn lemma_set_other_member(st: ImportState, key: Seq<char>, value: JsonView)
    requires
        st.current is Some,
        key != "name"@,
        all_named(all_assets(st)),
    ensures
        ({
            let st2 = ImportState {
                done: st.done,
                current: Some(with_member(st.current->0, key, value)),
            };
            &&& all_named(all_assets(st2))
            &&& asset_names(all_assets(st2)) == asset_names(all_assets(st))
        }),
{
    let members = st.current->0;
    let st2 = ImportState { done: st.done, current: Some(with_member(members, key, value)) };
    lemma_other_member_unchanged(members, key, value, "name"@);
    let last = st.done.len() as int;
    assert(all_assets(st)[last] == JsonView::Object(members));
    assert(all_assets(st)[last].has_str("name"@));
    assert forall|i: int| 0 <= i < all_assets(st2).len() implies (#[trigger] all_assets(st2)[i]).has_str(
        "name"@,
    ) && all_assets(st2)[i] is Object by {
        if i < last {
            assert(all_assets(st2)[i] == all_assets(st)[i]);
        }
    }
    assert(asset_names(all_assets(st2)) =~= asset_names(all_assets(st)));
}

/// Readable fields give one asset per `name=` field, named by it.
proof fn lemma_fold_ok(fields: Seq<Seq<char>>)
    requires
        fields_readable(fields),
    ensures
        import_fold(fields) is Ok,
        import_fold(fields)->Ok_0.current is Some,
        all_named(all_assets(import_fold(fields)->Ok_0)),
        asset_names(all_assets(import_fold(fields)->Ok_0)) == given_names(fields),
    decreases fields.len(),
{
    reveal_strlit("name");
    reveal_strlit("owner");
    reveal_strlit("ipAddresses");
    reveal_strlit("fqdn");
    let p = fields.drop_last();
    let f = fields.last();
    assert(!(field_kind(f) is Unknown)) by {
        assert(f == fields[fields.len() - 1]);
    }
    assert("owner"@ != "name"@) by {
        assert("owner"@.len() != "name"@.len());
    }
    assert("fqdn"@ != "name"@) by {
        assert("fqdn"@[0] != "name"@[0]);
    }
    assert("ipAddresses"@ != "name"@) by {
        assert("ipAddresses"@.len() != "name"@.len());
    }
    if fields.len() == 1 {
        assert(p =~= Seq::<Seq<char>>::empty());
        assert(f == fields[0]);
        let n = field_kind(f)->Name_0;
        let init = ImportState { done: Seq::empty(), current: None };
        assert(import_fold(p) == Ok::<ImportState, ImportFailure>(init));
        assert(import_fold(fields) == import_step(init, f));
        assert(given_names(p) == Seq::<Seq<char>>::empty());
        assert(given_names(fields) =~= seq![n]);
        let st = import_fold(fields)->Ok_0;
        assert(all_assets(st) =~= seq![JsonView::Object(seq![("name"@, JsonView::Str(n))])]);
        assert(JsonView::Object(seq![("name"@, JsonView::Str(n))]).get("name"@) == Some(
            JsonView::Str(n),
        ));
        assert(asset_names(all_assets(st)) =~= given_names(fields));
        assert(all_named(all_assets(st)));
    } else {
        assert(p[0] == fields[0]);
        assert forall|i: int| 0 <= i < p.len() implies !(field_kind(#[trigger] p[i]) is Unknown) by {
            assert(p[i] == fields[i]);
        }
        lemma_fold_ok(p);
        let st = import_fold(p)->Ok_0;
        let members = st.current->0;
        let st2 = import_fold(fields)->Ok_0;
        assert(all_assets(st) == st.done.push(JsonView::Object(members)));
        let last = all_assets(st).len() - 1;
        assert(all_assets(st)[last] == JsonView::Object(members));
        assert(all_assets(st)[last].has_str("name"@));
        assert(member_of(members, "name"@) matches Some(JsonView::Str(_)));
        match field_kind(f) {
            FieldKind::Name(n) => {
                let fresh = JsonView::Object(seq![("name"@, JsonView::Str(n))]);
                assert(fresh.get("name"@) == Some(JsonView::Str(n)));
                assert(all_assets(st2) =~= all_assets(st).push(fresh));
                assert forall|i: int| 0 <= i < all_assets(st2).len() implies (#[trigger] all_assets(
                    st2,
                )[i]).has_str("name"@) && all_assets(st2)[i] is Object by {
                    if i < last {
                        assert(all_assets(st2)[i] == all_assets(st)[i]);
                    }
                }
                assert(asset_names(all_assets(st2)) =~= asset_names(all_assets(st)).push(n));
            },
            FieldKind::Owner(o) => {
                lemma_set_other_member(st, "owner"@, JsonView::Str(o));
            },
            FieldKind::IpAddresses(l) => {
                lemma_set_other_member(st, "ipAddresses"@, comma_list(l));
            },
            FieldKind::Fqdn(l) => {
                lemma_set_other_member(st, "fqdn"@, comma_list(l));
            },
            FieldKind::Unknown => {},
        }
    }
}

/// The position, among the assets, of the asset that field `k` belongs to:
/// one less than the number of `name=` fields up to and including it.
pub open spec fn asset_of(fields: Seq<Seq<char>>, k: int) -> int {
    given_names(fields.take(k + 1)).len() - 1
}

/// The member other than the name that a field sets on its asset, if any.
spec fn member_set(f: Seq<char>) -> Option<(Seq<char>, JsonView)> {
    match field_kind(f) {
        FieldKind::Owner(o) => Some(("owner"@, JsonView::Str(o))),
        FieldKind::IpAddresses(l) => Some(("ipAddresses"@, comma_list(l))),
        FieldKind::Fqdn(l) => Some(("fqdn"@, comma_list(l))),
        _ => None,
    }
}

/// The prefixes and member keys of the fields differ from each other.
proof fn lemma_distinct_literals()
    ensures
        "name="@[0] == 'n' && "owner="@[0] == 'o' && "ipAddresses="@[0] == 'i' && "fqdn="@[0]
            == 'f',
        "name="@.len() > 0 && "owner="@.len() > 0 && "ipAddresses="@.len() > 0 && "fqdn="@.len()
            > 0,
        "owner"@ != "name"@ && "ipAddresses"@ != "name"@ && "fqdn"@ != "name"@,
        "owner"@ != "ipAddresses"@ && "owner"@ != "fqdn"@ && "ipAddresses"@ != "fqdn"@,
{
    reveal_strlit("name=");
    reveal_strlit("owner=");
    reveal_strlit("ipAddresses=");
    reveal_strlit("fqdn=");
    reveal_strlit("name");
    reveal_strlit("owner");
    reveal_strlit("ipAddresses");
    reveal_strlit("fqdn");
    assert("owner"@.len() != "name"@.len());
    assert("ipAddresses"@.len() != "name"@.len());
    assert("fqdn"@[0] != "name"@[0]);
    assert("owner"@.len() != "ipAddresses"@.len());
    assert("owner"@.len() != "fqdn"@.len());
    assert("ipAddresses"@.len() != "fqdn"@.len());
}

/// A text with a prefix starts with the prefix's first character.
proof fn lemma_prefix_first(f: Seq<char>, p: Seq<char>)
    requires
        has_prefix(f, p),
        p.len() > 0,
    ensures
        f.len() > 0 && f[0] == p[0],
{
    assert(f.subrange(0, p.len() as int)[0] == f[0]);
}

/// The fields up to any point of readable fields are readable.
proof fn lemma_prefix_readable(fields: Seq<Seq<char>>, m: int)
    requires
        fields_readable(fields),
        1 <= m <= fields.len(),
    ensures
        fields_readable(fields.take(m)),
{
    assert(fields.take(m)[0] == fields[0]);
    assert forall|i: int| 0 <= i < fields.take(m).len() implies !(field_kind(
        #[trigger] fields.take(m)[i],
    ) is Unknown) by {
        assert(fields.take(m)[i] == fields[i]);
    }
}

/// There are as many assets as `name=` fields.
proof fn lemma_asset_count(fields: Seq<Seq<char>>)
    requires
        fields_readable(fields),
    ensures
        all_assets(import_fold(fields)->Ok_0).len() == given_names(fields).len(),
{
    lemma_fold_ok(fields);
    assert(asset_names(all_assets(import_fold(fields)->Ok_0)).len() == all_assets(
        import_fold(fields)->Ok_0,
    ).len());
}

/// A member set by field `k` keeps its value through the fields up to `m`
/// where no later field of the same asset sets that member again.
proof fn lemma_member_kept(fields: Seq<Seq<char>>, k: int, m: int, key: Seq<char>, value: JsonView)
    requires
        fields_readable(fields),
        0 < k < m <= fields.len(),
        member_set(fields[k]) == Some((key, value)),
        forall|j: int|
            k < j < m && asset_of(fields, j) == asset_of(fields, k) ==> !(member_set(
                #[trigger] fields[j],
            ) matches Some((k2, _)) && k2 == key),
    ensures
        0 <= asset_of(fields, k) < all_assets(import_fold(fields.take(m))->Ok_0).len(),
        all_assets(import_fold(fields.take(m))->Ok_0)[asset_of(fields, k)].get(key) == Some(value),
    decreases m,
{
    lemma_distinct_literals();
    let p = fields.take(m);
    let q = fields.take(m - 1);
    lemma_prefix_readable(fields, m);
    lemma_prefix_readable(fields, m - 1);
    lemma_fold_ok(q);
    lemma_asset_count(p);
    lemma_asset_count(q);
    assert(p.drop_last() =~= q);
    assert(p.last() == fields[m - 1]);
    let stq = import_fold(q)->Ok_0;
    let st = import_fold(p)->Ok_0;
    let f = fields[m - 1];
    assert(import_fold(p) == import_step(stq, f));
    assert(!(field_kind(f) is Unknown)) by {
        assert(fields[m - 1] == f);
    }
    let cur = stq.current->0;
    assert(all_assets(stq) == stq.done.push(JsonView::Object(cur)));
    let i = asset_of(fields, k);
    if m == k + 1 {
        assert(fields.take(k + 1) == p);
        match field_kind(f) {
            FieldKind::Name(_) => {},
            FieldKind::Unknown => {},
            _ => {
                lemma_member_set(cur, key, value);
                assert(all_assets(st) == stq.done.push(JsonView::Object(with_member(cur, key, value))));
                assert(given_names(p) == given_names(q));
                assert(i == stq.done.len());
            },
        }
    } else {
        lemma_member_kept(fields, k, m - 1, key, value);
        match field_kind(f) {
            FieldKind::Name(n) => {
                let fresh = JsonView::Object(seq![("name"@, JsonView::Str(n))]);
                assert(all_assets(st) == all_assets(stq).push(fresh));
                assert(all_assets(st)[i] == all_assets(stq)[i]);
            },
            FieldKind::Unknown => {},
            _ => {
                let (key2, value2) = member_set(f)->0;
                let updated = JsonView::Object(with_member(cur, key2, value2));
                assert(all_assets(st) == stq.done.push(updated));
                if i < stq.done.len() {
                    assert(all_assets(st)[i] == all_assets(stq)[i]);
                } else {
                    assert(given_names(p) == given_names(q));
                    assert(asset_of(fields, m - 1) == asset_of(fields, k));
                    assert(key2 != key);
                    lemma_other_member_unchanged(cur, key2, value2, key);
                }
            },
        }
    }
}

/// The assets of the request built from readable fields, and the member that
/// field `k` set on its asset, where no later field of the same asset sets it
/// again.
proof fn lemma_member_in_request(
    tenant: Option<Seq<char>>,
    fields: Seq<Seq<char>>,
    k: int,
    key: Seq<char>,
    value: JsonView,
)
    requires
        fields_readable(fields),
        0 < k < fields.len(),
        member_set(fields[k]) == Some((key, value)),
        forall|j: int|
            k < j < fields.len() && asset_of(fields, j) == asset_of(fields, k) ==> !(member_set(
                #[trigger] fields[j],
            ) matches Some((k2, _)) && k2 == key),
    ensures
        fields_request(tenant, fields) matches Ok(req) && req.get("assets"@) matches Some(
            JsonView::Array(assets),
        ) && 0 <= asset_of(fields, k) < assets.len() && assets[asset_of(fields, k)].get(key) == Some(
            value,
        ),
{
    lemma_member_kept(fields, k, fields.len() as int, key, value);
    assert(fields.take(fields.len() as int) =~= fields);
    lemma_fold_ok(fields);
    lemma_request_body(tenant, JsonView::Array(all_assets(import_fold(fields)->Ok_0)));
}

/// The member that a field with one of the setting prefixes sets.
proof fn lemma_setting_field(f: Seq<char>)
    ensures
        has_prefix(f, "owner="@) ==> member_set(f) == Some(
            ("owner"@, JsonView::Str(f.skip("owner="@.len() as int))),
        ),
        has_prefix(f, "ipAddresses="@) ==> member_set(f) == Some(
            ("ipAddresses"@, comma_list(f.skip("ipAddresses="@.len() as int))),
        ),
        has_prefix(f, "fqdn="@) ==> member_set(f) == Some(
            ("fqdn"@, comma_list(f.skip("fqdn="@.len() as int))),
        ),
        member_set(f) matches Some((k2, _)) && k2 == "owner"@ ==> has_prefix(f, "owner="@),
        member_set(f) matches Some((k2, _)) && k2 == "ipAddresses"@ ==> has_prefix(
            f,
            "ipAddresses="@,
        ),
        member_set(f) matches Some((k2, _)) && k2 == "fqdn"@ ==> has_prefix(f, "fqdn="@),
        has_prefix(f, "owner="@) || has_prefix(f, "ipAddresses="@) || has_prefix(f, "fqdn="@)
            ==> !has_prefix(f, "name="@),
{
    lemma_distinct_literals();
    if has_prefix(f, "name="@) {
        lemma_prefix_first(f, "name="@);
        if has_prefix(f, "owner="@) {
            lemma_prefix_first(f, "owner="@);
        }
        if has_prefix(f, "ipAddresses="@) {
            lemma_prefix_first(f, "ipAddresses="@);
        }
        if has_prefix(f, "fqdn="@) {
            lemma_prefix_first(f, "fqdn="@);
        }
    }
    if has_prefix(f, "owner="@) {
        lemma_prefix_first(f, "owner="@);
        if has_prefix(f, "ipAddresses="@) {
            lemma_prefix_first(f, "ipAddresses="@);
        }
        if has_prefix(f, "fqdn="@) {
            lemma_prefix_first(f, "fqdn="@);
        }
    }
    if has_prefix(f, "ipAddresses="@) {
        lemma_prefix_first(f, "ipAddresses="@);
        if has_prefix(f, "fqdn="@) {
            lemma_prefix_first(f, "fqdn="@);
        }
    }
}

/// A field `fqdn=t` gives its asset the FQDNs that are the pieces of `t`
/// between commas (`fqdn=a,b` gives the two names `a` and `b`), unless a
/// later `fqdn=` field of the same asset replaces them.
pub proof fn lemma_fqdn_member(tenant: Option<Seq<char>>, fields: Seq<Seq<char>>, k: int)
    requires
        fields_readable(fields),
        0 <= k < fields.len(),
        has_prefix(fields[k], "fqdn="@),
        forall|j: int|
            k < j < fields.len() && asset_of(fields, j) == asset_of(fields, k) ==> !has_prefix(
                #[trigger] fields[j],
                "fqdn="@,
            ),
    ensures
        fields_request(tenant, fields) matches Ok(req) && req.get("assets"@) matches Some(
            JsonView::Array(assets),
        ) && 0 <= asset_of(fields, k) < assets.len() && assets[asset_of(fields, k)].get("fqdn"@)
            == Some(
            JsonView::Array(
                split_on(fields[k].skip("fqdn="@.len() as int), ',').map_values(
                    |p: Seq<char>| JsonView::Str(p),
                ),
            ),
        ),
{
    lemma_setting_field(fields[k]);
    lemma_setting_field(fields[0]);
    assert(k > 0);
    assert forall|j: int|
        k < j < fields.len() && asset_of(fields, j) == asset_of(fields, k) implies !(member_set(
            #[trigger] fields[j],
        ) matches Some((k2, _)) && k2 == "fqdn"@) by {
        lemma_setting_field(fields[j]);
    }
    lemma_member_in_request(
        tenant,
        fields,
        k,
        "fqdn"@,
        comma_list(fields[k].skip("fqdn="@.len() as int)),
    );
}

/// A field `ipAddresses=t` gives its asset the addresses that are the pieces
/// of `t` between commas, unless a later `ipAddresses=` field of the same
/// asset replaces them.
pub proof fn lemma_ip_addresses_member(tenant: Option<Seq<char>>, fields: Seq<Seq<char>>, k: int)
    requires
        fields_readable(fields),
        0 <= k < fields.len(),
        has_prefix(fields[k], "ipAddresses="@),
        forall|j: int|
            k < j < fields.len() && asset_of(fields, j) == asset_of(fields, k) ==> !has_prefix(
                #[trigger] fields[j],
                "ipAddresses="@,
            ),
    ensures
        fields_request(tenant, fields) matches Ok(req) && req.get("assets"@) matches Some(
            JsonView::Array(assets),
        ) && 0 <= asset_of(fields, k) < assets.len() && assets[asset_of(fields, k)].get(
            "ipAddresses"@,
        ) == Some(
            JsonView::Array(
                split_on(fields[k].skip("ipAddresses="@.len() as int), ',').map_values(
                    |p: Seq<char>| JsonView::Str(p),
                ),
            ),
        ),
{
    lemma_setting_field(fields[k]);
    lemma_setting_field(fields[0]);
    assert(k > 0);
    assert forall|j: int|
        k < j < fields.len() && asset_of(fields, j) == asset_of(fields, k) implies !(member_set(
            #[trigger] fields[j],
        ) matches Some((k2, _)) && k2 == "ipAddresses"@) by {
        lemma_setting_field(fields[j]);
    }
    lemma_member_in_request(
        tenant,
        fields,
        k,
        "ipAddresses"@,
        comma_list(fields[k].skip("ipAddresses="@.len() as int)),
    );
}

/// A field `owner=t` gives its asset the owner `t`, unless a later `owner=`
/// field of the same asset replaces it.
pub proof fn lemma_owner_member(tenant: Option<Seq<char>>, fields: Seq<Seq<char>>, k: int)
    requires
        fields_readable(fields),
        0 <= k < fields.len(),
        has_prefix(fields[k], "owner="@),
        forall|j: int|
            k < j < fields.len() && asset_of(fields, j) == asset_of(fields, k) ==> !has_prefix(
                #[trigger] fields[j],
                "owner="@,
            ),
    ensures
        fields_request(tenant, fields) matches Ok(req) && req.get("assets"@) matches Some(
            JsonView::Array(assets),
        ) && 0 <= asset_of(fields, k) < assets.len() && assets[asset_of(fields, k)].get("owner"@)
            == Some(JsonView::Str(fields[k].skip("owner="@.len() as int))),
{
    lemma_setting_field(fields[k]);
    lemma_setting_field(fields[0]);
    assert(k > 0);
    assert forall|j: int|
        k < j < fields.len() && asset_of(fields, j) == asset_of(fields, k) implies !(member_set(
            #[trigger] fields[j],
        ) matches Some((k2, _)) && k2 == "owner"@) by {
        lemma_setting_field(fields[j]);
    }
    lemma_member_in_request(
        tenant,
        fields,
        k,
        "owner"@,
        JsonView::Str(fields[k].skip("owner="@.len() as int)),
    );
}

/// The import request from command-line fields is built exactly when there
/// is a field, the first starts an asset with `name=`, and every field has a
/// known prefix, whether or not a tenant is given. The request then names
/// the tenant where one is given, and holds one asset per `name=` field, in
/// the order of the fields, each named by its field.
pub proof fn lemma_fields_request(tenant: Option<Seq<char>>, fields: Seq<Seq<char>>)
    ensures
        fields_request(tenant, fields) is Ok <==> fields_readable(fields),
        fields_request(tenant, fields) matches Ok(req) ==> {
            &&& req.get("tenantID"@) == match tenant {
                Some(t) => Some(JsonView::Str(t)),
                None => None,
            }
            &&& req.get("assets"@) matches Some(JsonView::Array(assets))
            &&& all_named(assets)
            &&& asset_names(assets) == given_names(fields)
        },
{
    if fields_readable(fields) {
        lemma_fold_ok(fields);
        let assets = JsonView::Array(all_assets(import_fold(fields)->Ok_0));
        lemma_request_body(tenant, assets);
    } else if fields.len() > 0 {
        if !(field_kind(fields[0]) is Name) {
            lemma_name_not_first(tenant, fields);
        } else {
            let k = choose|k: int| 0 <= k < fields.len() && field_kind(fields[k]) is Unknown;
            lemma_first_unknown_exists(fields, k);
            let j = choose|j: int|
                0 <= j < fields.len() && field_kind(fields[j]) is Unknown && forall|i: int|
                    0 <= i < j ==> !(field_kind(#[trigger] fields[i]) is Unknown);
            lemma_unknown_field(tenant, fields, j);
        }
    }
}

/// The members of a request body.
proof fn lemma_request_body(tenant: Option<Seq<char>>, assets: JsonView)
    ensures
        request_body(tenant, assets).get("tenantID"@) == match tenant {
            Some(t) => Some(JsonView::Str(t)),
            None => None,
        },
        request_body(tenant, assets).get("assets"@) == Some(assets),
{
    reveal_strlit("tenantID");
    reveal_strlit("assets");
    assert("tenantID"@ != "assets"@) by {
        assert("tenantID"@.len() != "assets"@.len());
    }
    let last = seq![("assets"@, assets)];
    assert(last.drop_first() =~= Seq::<(Seq<char>, JsonView)>::empty());
    assert(member_of(last, "tenantID"@) == member_of(last.drop_first(), "tenantID"@));
    match tenant {
        Some(t) => {
            let m = seq![("tenantID"@, JsonView::Str(t)), ("assets"@, assets)];
            assert(m.drop_first() =~= last);
            assert(member_of(m, "assets"@) == member_of(m.drop_first(), "assets"@));
        },
        None => {},
    }
}

/// An import from the input names the tenant where one is given. Without a
/// tenant, only a whole request (an object with an `assets` member) is
/// accepted, and it is sent as it was read; arrays and single assets are
/// refused, and anything else is refused whether or not a tenant is given.
pub proof fn lemma_input_request(tenant: Option<Seq<char>>, data: JsonView)
    ensures
        tenant matches Some(t) ==> (input_request(tenant, data) matches Ok(req) ==> req.get(
            "tenantID"@,
        ) == Some(JsonView::Str(t))),
        tenant is None ==> (input_request(tenant, data) is Ok <==> data.get("assets"@) is Some),
        tenant is None && input_request(tenant, data) is Ok ==> input_request(tenant, data)
            == Ok::<JsonView, ImportFailure>(data),
        !(data is Array || data is Object) ==> input_request(tenant, data) == Err::<
            JsonView,
            ImportFailure,
        >(ImportFailure::UnrecognizedData),
        tenant is Some && data is Array ==> (input_request(tenant, data) matches Ok(req)
            && req.get("assets"@) == Some(data)),
        tenant is Some && data is Object && data.get("assets"@) is None ==> (input_request(
            tenant,
            data,
        ) matches Ok(req) && req.get("assets"@) == Some(JsonView::Array(seq![data]))),
        tenant is Some && data.get("assets"@) is Some ==> (input_request(tenant, data) matches Ok(
            req,
        ) && forall|key: Seq<char>| key != "tenantID"@ ==> #[trigger] req.get(key) == data.get(key)),
{
    match tenant {
        Some(t) => {
            lemma_request_body(Some(t), data);
            lemma_request_body(Some(t), JsonView::Array(seq![data]));
            match data {
                JsonView::Object(fields) => {
                    lemma_member_set(fields, "tenantID"@, JsonView::Str(t));
                    assert forall|key: Seq<char>| key != "tenantID"@ implies member_of(
                        with_member(fields, "tenantID"@, JsonView::Str(t)),
                        key,
                    ) == member_of(fields, key) by {
                        lemma_other_member_unchanged(fields, "tenantID"@, JsonView::Str(t), key);
                    }
                },
                _ => {},
            }
        },
        None => {},
    }
}

/// Among fields with an unknown one there is a first unknown one.
proof fn lemma_first_unknown_exists(fields: Seq<Seq<char>>, k: int)
    requires
        0 <= k < fields.len(),
        field_kind(fields[k]) is Unknown,
    ensures
        exists|j: int|
            0 <= j < fields.len() && field_kind(fields[j]) is Unknown && forall|i: int|
                0 <= i < j ==> !(field_kind(#[trigger] fields[i]) is Unknown),
    decreases k,
{
    if exists|i: int| 0 <= i < k && field_kind(fields[i]) is Unknown {
        let i = choose|i: int| 0 <= i < k && field_kind(fields[i]) is Unknown;
        lemma_first_unknown_exists(fields, i);
    } else {
        assert forall|i: int| 0 <= i < k implies !(field_kind(#[trigger] fields[i]) is Unknown) by {}
    }
}

/// Fields whose first one does not start with `name=` are refused with that
/// field.
pub proof fn lemma_name_not_first(tenant: Option<Seq<char>>, fields: Seq<Seq<char>>)
    requires
        fields.len() > 0,
        !(field_kind(fields[0]) is Name),
    ensures
        fields_request(tenant, fields) == Err::<JsonView, ImportFailure>(
            ImportFailure::NameNotFirst(fields[0]),
        ),
{
    let t = fields.take(1);
    let init = ImportState { done: Seq::empty(), current: None };
    assert(t.drop_last() =~= Seq::<Seq<char>>::empty());
    assert(t.last() == fields[0]);
    assert(import_fold(t.drop_last()) == Ok::<ImportState, ImportFailure>(init));
    assert(import_fold(t) == import_step(init, fields[0]));
    lemma_fold_stops(fields, 1);
}

/// Fields that start an asset are refused with their first field of unknown
/// prefix, where there is one.
pub proof fn lemma_unknown_field(tenant: Option<Seq<char>>, fields: Seq<Seq<char>>, k: int)
    requires
        0 <= k < fields.len(),
        field_kind(fields[0]) is Name,
        field_kind(fields[k]) is Unknown,
        forall|i: int| 0 <= i < k ==> !(field_kind(#[trigger] fields[i]) is Unknown),
    ensures
        fields_request(tenant, fields) == Err::<JsonView, ImportFailure>(
            ImportFailure::UnknownField(fields[k]),
        ),
{
    let before = fields.take(k);
    assert(k > 0);
    assert(before[0] == fields[0]);
    assert forall|i: int| 0 <= i < before.len() implies !(field_kind(#[trigger] before[i]) is Unknown) by {
        assert(before[i] == fields[i]);
    }
    lemma_fold_ok(before);
    assert(fields.take(k + 1).drop_last() =~= before);
    assert(fields.take(k + 1).last() == fields[k]);
    lemma_fold_stops(fields, k + 1);
}

/// The texts of a comma-separated list, joined again with commas, give the
/// list back.
pub proof fn lemma_comma_list_round_trip(text: Seq<char>)
    ensures
        comma_list(text) matches JsonView::Array(items) && all_strs(items) && joined(
            str_texts(items),
            seq![','],
        ) == text,
{
    lemma_join_split(text, ',');
    let items = str_values(split_on(text, ','));
    assert(str_texts(items) =~= split_on(text, ','));
}

/// The strings as JSON string values.
fn string_values(parts: &Vec<String>) -> (r: Vec<JsonValue>)
    ensures
        items_view(r@) == str_values(views(parts@)),
{
    let mut r: Vec<JsonValue> = Vec::new();
    let n = parts.len();
    let mut i: usize = 0;
    while i < n
        invariant
            i <= n,
            n == parts@.len(),
            r@.len() == i,
            items_view(r@) == str_values(views(parts@)).take(i as int),
        decreases n - i,
    {
        let ghost before = r@;
        let item = parts[i].clone();
        r.push(JsonValue::Str(item));
        assert(views(parts@)[i as int] == parts@[i as int]@);
        assert(r@[i as int].view() == JsonView::Str(parts@[i as int]@));
        assert(items_view(r@) =~= str_values(views(parts@)).take(i + 1));
        i += 1;
    }
    assert(str_values(views(parts@)).take(n as int) =~= str_values(views(parts@)));
    r
}

/// A comma-separated list as a JSON array of strings.
fn comma_list_value(text: &str) -> (r: JsonValue)
    ensures
        r.view() == comma_list(text@),
{
    let parts = split(text, ',');
    let items = string_values(&parts);
    proof {
        lemma_array_view(items);
    }
    JsonValue::Array(items)
}

/// The import request body for the tenant, where one is given, and the
/// assets.
fn request_value(tenant: Option<String>, assets: JsonValue) -> (r: JsonValue)
    ensures
        r.view() == request_body(opt_view(tenant), assets.view()),
{
    let ghost av = assets.view();
    let ghost tv = opt_view(tenant);
    let mut members: Vec<(String, JsonValue)> = Vec::new();
    match tenant {
        Some(t) => {
            members.push((owned("tenantID"), JsonValue::Str(t)));
        },
        None => {},
    }
    members.push((owned("assets"), assets));
    proof {
        lemma_object_view(members);
        assert(members_view(members@) =~= request_body(tv, av)->Object_0);
    }
    JsonValue::Object(members)
}

/// A record of the asset listing could not be shown.
#[derive(Debug)]
pub enum ListError {
    /// The record has neither an `id` nor an `fqdn`; the line that held it
    /// is kept here.
    Unrecognized(String),
    /// The line is not JSON.
    NotJson(serde_json::Error),
    /// The record is not one that `listable` accepts; the line that held it
    /// is kept here.
    Unexpected(String),
}

/// Whether a record of the asset listing can be shown: it is an object, and
/// where it has an `id` or an `fqdn` it has a string `id`, an array of
/// strings `fqdn` and a string `name`.
pub open spec fn listable(v: JsonView) -> bool {
    &&& v is Object
    &&& (v.get("id"@) is Some || v.get("fqdn"@) is Some) ==> {
        &&& v.has_str("id"@)
        &&& v.get("fqdn"@) matches Some(JsonView::Array(items)) && all_strs(items)
        &&& v.has_str("name"@)
    }
}

/// The FQDNs column: the names joined by `", "`, or `-` where there are none.
pub open spec fn fqdn_text(items: Seq<JsonView>) -> Seq<char> {
    if items.len() == 0 {
        "-"@
    } else {
        joined(str_texts(items), ", "@)
    }
}

/// The line that shows an asset: its id and name in columns of 38 and 50
/// characters, then its FQDNs.
pub open spec fn asset_row(v: JsonView) -> Seq<char> {
    padded(v.str_member("id"@), 38) + " "@ + padded(v.str_member("name"@), 50) + " "@ + fqdn_text(
        v.get("fqdn"@)->0->Array_0,
    )
}

/// Every object with a string `id`, a string `name` and an array of strings
/// `fqdn` (the empty array included) can be shown.
pub proof fn lemma_listable_records(v: JsonView)
    requires
        v is Object,
        v.has_str("id"@),
        v.has_str("name"@),
        v.get("fqdn"@) matches Some(JsonView::Array(items)) && forall|i: int|
            0 <= i < items.len() ==> (#[trigger] items[i]) is Str,
    ensures
        listable(v),
{
}

/// The line of an asset shows its id in a column of 38 characters, a space,
/// its name in a column of 50, a space, and then its FQDNs joined by `", "`,
/// or `-` where it has none.
pub proof fn lemma_asset_columns(v: JsonView)
    requires
        v.get("fqdn"@) is Some,
        v.get("fqdn"@)->0 is Array,
    ensures
        ({
            let row = asset_row(v);
            let items = v.get("fqdn"@)->0->Array_0;
            let a = column_width(v.str_member("id"@), 38);
            let b = column_width(v.str_member("name"@), 50);
            &&& column_at(row, 0, v.str_member("id"@), 38)
            &&& row[a] == ' '
            &&& column_at(row, a + 1, v.str_member("name"@), 50)
            &&& row[a + 1 + b] == ' '
            &&& row.skip(a + b + 2) == if items.len() == 0 {
                seq!['-']
            } else {
                joined(items.map_values(|x: JsonView| x->Str_0), seq![',', ' '])
            }
        }),
{
    reveal_strlit(" ");
    reveal_strlit("-");
    reveal_strlit(", ");
    let sp = " "@;
    assert(sp =~= seq![' ']);
    let items = v.get("fqdn"@)->0->Array_0;
    let pi = padded(v.str_member("id"@), 38);
    let pn = padded(v.str_member("name"@), 50);
    let tail = fqdn_text(items);
    let row = asset_row(v);
    let e = Seq::<char>::empty();
    assert(row =~= e + pi + (sp + pn + sp + tail));
    lemma_column(e, v.str_member("id"@), 38, sp + pn + sp + tail);
    assert(row =~= (pi + sp) + pn + (sp + tail));
    lemma_column(pi + sp, v.str_member("name"@), 50, sp + tail);
    assert(row[pi.len() as int] == ' ');
    assert(row[(pi.len() + 1 + pn.len()) as int] == ' ');
    assert(row.skip((pi.len() + pn.len() + 2) as int) =~= tail);
    assert(", "@ =~= seq![',', ' ']);
    assert("-"@ =~= seq!['-']);
    assert(str_texts(items) =~= items.map_values(|x: JsonView| x->Str_0));
}

/// The heading of a listing of ids and names, with the FQDN column.
pub open spec fn fqdn_header() -> Seq<char> {
    padded("ID"@, 38) + " "@ + padded("NAME"@, 50) + " FQDN"@
}

/// The heading printed above the first listed record.
pub fn list_header() -> (r: String)
    ensures
        r@ == fqdn_header(),
{
    let mut r = pad_right("ID", 38);
    r.append(" ");
    let name = pad_right("NAME", 50);
    r.append(name.as_str());
    r.append(" FQDN");
    r
}

/// Whether the record can be shown.
pub fn is_listable(asset: &JsonValue) -> (r: bool)
    ensures
        r == listable(asset.view()),
{
    match asset {
        JsonValue::Object(fields) => {
            proof {
                lemma_object_view(*fields);
            }
            if get_member(fields, "id").is_none() && get_member(fields, "fqdn").is_none() {
                return true;
            }
            let fqdn_ok = match get_member(fields, "fqdn") {
                Some(JsonValue::Array(items)) => {
                    proof {
                        lemma_array_view(*items);
                    }
                    are_all_strs(items)
                },
                _ => false,
            };
            get_str(fields, "id").is_some() && fqdn_ok && get_str(fields, "name").is_some()
        },
        _ => false,
    }
}

/// A client for the assets of the server.
pub struct Client {
    client: http::Client,
}

impl Client {
    /// The REST client that requests are made with.
    pub closed spec fn spec_client(&self) -> http::Client {
        self.client
    }

    /// An assets client that makes its requests with `client`.
    pub fn new(client: http::Client) -> (r: Client)
        ensures
            r.spec_client() == client,
    {
        Client { client }
    }

    /// The REST client that requests are made with.
    pub fn client(&self) -> (r: &http::Client)
        ensures
            *r == self.spec_client(),
    {
        &self.client
    }

    /// The address below the API that streams the asset listing, one
    /// record per line.
    pub fn listing_url(&self) -> (r: &'static str)
        ensures
            r@ == "assets?stream="@,
    {
        "assets?stream="
    }

    /// The address below the API that import requests are posted to.
    pub fn import_url(&self) -> (r: &'static str)
        ensures
            r@ == "assets/import"@,
    {
        "assets/import"
    }

    /// The line that shows the record `asset` of the listing, read from
    /// `line`; a record with neither an `id` nor an `fqdn` is refused with
    /// that line.
    pub fn asset_line(&self, asset: &JsonValue, line: &str) -> (r: Result<String, ListError>)
        requires
            listable(asset.view()),
        ensures
            asset.view().get("id"@) is None && asset.view().get("fqdn"@) is None ==> (r matches Err(
                ListError::Unrecognized(l),
            ) && l@ == line@),
            asset.view().get("id"@) is Some || asset.view().get("fqdn"@) is Some ==> (r matches Ok(
                s,
            ) && s@ == asset_row(asset.view())),
    {
        match asset {
            JsonValue::Object(fields) => {
                proof {
                    lemma_object_view(*fields);
                }
                if get_member(fields, "id").is_none() && get_member(fields, "fqdn").is_none() {
                    return Err(ListError::Unrecognized(owned(line)));
                }
                let id = match get_str(fields, "id") {
                    Some(s) => s.as_str(),
                    None => "",
                };
                let name = match get_str(fields, "name") {
                    Some(s) => s.as_str(),
                    None => "",
                };
                let fqdns = match get_member(fields, "fqdn") {
                    Some(JsonValue::Array(items)) => {
                        proof {
                            lemma_array_view(*items);
                        }
                        if items.len() == 0 {
                            owned("-")
                        } else {
                            let texts = string_texts(items);
                            join(&texts, ", ")
                        }
                    },
                    _ => String::new(),
                };
                let mut r = pad_right(id, 38);
                r.append(" ");
                let n = pad_right(name, 50);
                r.append(n.as_str());
                r.append(" ");
                r.append(fqdns.as_str());
                Ok(r)
            },
            _ => Err(ListError::Unrecognized(owned(line))),
        }
    }

    /// The line that shows the record held by `line`, a line of the asset
    /// listing, read as JSON without its trailing white space. A line that is
    /// not JSON, or whose record cannot be shown, is refused; so is a record
    /// with neither an `id` nor an `fqdn`, with the line.
    pub fn row_of_line(&self, line: &str) -> (r: Result<String, ListError>)
        ensures
            parsed_json(trimmed_end(line@)) is None ==> r matches Err(ListError::NotJson(_)),
            parsed_json(trimmed_end(line@)) matches Some(v) ==> {
                &&& !listable(v) ==> (r matches Err(ListError::Unexpected(l)) && l@ == line@)
                &&& listable(v) && v.get("id"@) is None && v.get("fqdn"@) is None ==> (r matches Err(
                    ListError::Unrecognized(l),
                ) && l@ == line@)
                &&& listable(v) && (v.get("id"@) is Some || v.get("fqdn"@) is Some) ==> (r matches Ok(
                    row,
                ) && row@ == asset_row(v))
            },
    {
        let text = trim_end(line);
        match parse_json(text.as_str()) {
            Err(e) => Err(ListError::NotJson(e)),
            Ok(asset) => {
                if is_listable(&asset) {
                    self.asset_line(&asset, line)
                } else {
                    Err(ListError::Unexpected(owned(line)))
                }
            },
        }
    }

    /// The request that imports the assets described by the command-line
    /// `fields`, for `tenant_id` where one is given (the request then has
    /// no `tenantID`). Each `name=` field starts an asset; the
    /// `owner=`, `ipAddresses=` and `fqdn=` fields after it set its members,
    /// the last two as lists split at commas; a later field of the same kind
    /// replaces an earlier one.
    pub fn import_from_fields(&self, tenant_id: Option<String>, fields: &Vec<String>) -> (r: Result<
        JsonValue,
        ImportError,
    >)
        ensures
            outcome_view(r) == fields_request(opt_view(tenant_id), views(fields@)),
    {
        let n = fields.len();
        if n == 0 {
            return Err(ImportError::NoFields);
        }
        let ghost fv = views(fields@);
        let mut assets: Vec<JsonValue> = Vec::new();
        let mut asset: Option<Vec<(String, JsonValue)>> = None;
        let mut i: usize = 0;
        assert(fv.take(0) =~= Seq::<Seq<char>>::empty());
        assert(items_view(assets@) =~= Seq::<JsonView>::empty());
        while i < n
            invariant
                i <= n,
                n == fields@.len(),
                fv == views(fields@),
                import_fold(fv.take(i as int)) == Ok::<ImportState, ImportFailure>(
                    state_of(assets@, asset),
                ),
            decreases n - i,
        {
            let field = fields[i].as_str();
            let ghost f = field@;
            assert(fv.take(i + 1).drop_last() =~= fv.take(i as int));
            assert(fv.take(i + 1).last() == f);
            let ghost before = state_of(assets@, asset);
            match strip_prefix(field, "name=") {
                Some(name) => {
                    let ghost nv = name@;
                    match asset {
                        Some(members) => {
                            proof {
                                lemma_object_view(members);
                            }
                            assets.push(JsonValue::Object(members));
                            assert(items_view(assets@) =~= before.done.push(
                                JsonView::Object(before.current->0),
                            ));
                        },
                        None => {},
                    }
                    let mut members: Vec<(String, JsonValue)> = Vec::new();
                    members.push((owned("name"), JsonValue::Str(name)));
                    assert(members_view(members@) =~= seq![("name"@, JsonView::Str(nv))]);
                    asset = Some(members);
                },
                None => {
                    match asset {
                        None => {
                            proof {
                                lemma_fold_stops(fv, i as int + 1);
                            }
                            return Err(ImportError::NameNotFirst(fields[i].clone()));
                        },
                        Some(mut members) => {
                            match strip_prefix(field, "owner=") {
                                Some(owner) => {
                                    insert_member(&mut members, owned("owner"), JsonValue::Str(owner));
                                },
                                None => {
                                    match strip_prefix(field, "ipAddresses=") {
                                        Some(list) => {
                                            insert_member(
                                                &mut members,
                                                owned("ipAddresses"),
                                                comma_list_value(list.as_str()),
                                            );
                                        },
                                        None => {
                                            match strip_prefix(field, "fqdn=") {
                                                Some(list) => {
                                                    insert_member(
                                                        &mut members,
                                                        owned("fqdn"),
                                                        comma_list_value(list.as_str()),
                                                    );
                                                },
                                                None => {
                                                    proof {
                                                        lemma_fold_stops(fv, i as int + 1);
                                                    }
                                                    return Err(
                                                        ImportError::UnknownField(fields[i].clone()),
                                                    );
                                                },
                                            }
                                        },
                                    }
                                },
                            }
                            asset = Some(members);
                        },
                    }
                },
            }
            i += 1;
        }
        assert(fv.take(n as int) =~= fv);
        let ghost st = state_of(assets@, asset);
        match asset {
            Some(members) => {
                proof {
                    lemma_object_view(members);
                }
                assets.push(JsonValue::Object(members));
            },
            None => {},
        }
        assert(items_view(assets@) =~= all_assets(st));
        proof {
            lemma_array_view(assets);
        }
        Ok(request_value(tenant_id, JsonValue::Array(assets)))
    }

    /// The request that imports the JSON document in `text`, read from the
    /// input, for `tenant_id` where one is given; a text that is not JSON is
    /// refused.
    pub fn import_from_text(&self, tenant_id: Option<String>, text: &str) -> (r: Result<
        JsonValue,
        ImportError,
    >)
        ensures
            parsed_json(text@) is None ==> r matches Err(ImportError::NotJson(_)),
            parsed_json(text@) matches Some(d) ==> outcome_view(r) == input_request(
                opt_view(tenant_id),
                d,
            ),
    {
        match parse_json(text) {
            Err(e) => Err(ImportError::NotJson(e)),
            Ok(data) => self.import_from_input(tenant_id, data),
        }
    }

    /// The request that imports the JSON document `data` read from the
    /// input, for `tenant_id` where one is given.
    pub fn import_from_input(&self, tenant_id: Option<String>, data: JsonValue) -> (r: Result<
        JsonValue,
        ImportError,
    >)
        ensures
            outcome_view(r) == input_request(opt_view(tenant_id), data.view()),
    {
        let ghost dv = data.view();
        match data {
            JsonValue::Array(items) => match tenant_id {
                Some(t) => {
                    let v = JsonValue::Array(items);
                    Ok(request_value(Some(t), v))
                },
                None => Err(ImportError::TenantNotSpecified),
            },
            JsonValue::Object(mut fields) => {
                proof {
                    lemma_object_view(fields);
                }
                let has_assets = get_member(&fields, "assets").is_some();
                if has_assets {
                    match tenant_id {
                        Some(t) => {
                            insert_member(&mut fields, owned("tenantID"), JsonValue::Str(t));
                            proof {
                                lemma_object_view(fields);
                            }
                            Ok(JsonValue::Object(fields))
                        },
                        None => Ok(JsonValue::Object(fields)),
                    }
                } else {
                    match tenant_id {
                        Some(t) => {
                            let mut one: Vec<JsonValue> = Vec::new();
                            one.push(JsonValue::Object(fields));
                            proof {
                                lemma_array_view(one);
                                assert(items_view(one@) =~= seq![dv]);
                            }
                            Ok(request_value(Some(t), JsonValue::Array(one)))
                        },
                        None => Err(ImportError::TenantNotSpecified),
                    }
                }
            },
            _ => Err(ImportError::UnrecognizedData),
        }
    }
}

} // verus!
