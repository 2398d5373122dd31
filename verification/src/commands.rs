use vstd::prelude::*;
use vstd::string::*;

use crate::client::{trim_end_slashes, trim_trailing_slashes, BMO_BASE};
use crate::json::{display_text, json_display, json_of_text, parse_json_text, lemma_object_view, members_view, views, Json, JsonV};
use crate::text::{
    decimal, ends_with, has_prefix, has_suffix, split_lines, split_lines_str, strings_view, strip_prefix,
    trim, trim_str, u64_to_decimal,
};

verus! {

// ---------------------------------------------------------------------
// Helpers
// ---------------------------------------------------------------------

/// The models of a list of (name, value) text pairs.
pub open spec fn params_view(v: Seq<(String, String)>) -> Seq<(Seq<char>, Seq<char>)> {
    v.map_values(|p: (String, String)| (p.0@, p.1@))
}

fn push_pair(v: &mut Vec<(String, String)>, k: &str, val: &str)
    ensures
        params_view(final(v)@) == params_view(old(v)@).push((k@, val@)),
{
    v.push((k.to_owned(), val.to_owned()));
    assert(params_view(v@) =~= params_view(old(v)@).push((k@, val@)));
}

/// The text of a string value, or `d` for any other value.
pub open spec fn text_or(j: JsonV, d: Seq<char>) -> Seq<char> {
    match j.as_str() {
        Some(s) => s,
        None => d,
    }
}

/// The text of a string value, or `d` (`j` is `None` for null).
fn str_or<'a>(j: Option<&'a Json>, d: &'a str) -> (r: &'a str)
    ensures
        r@ == text_or(
            match j {
                Some(v) => v@,
                None => JsonV::Null,
            },
            d@,
        ),
{
    match j {
        Some(v) => match v.as_str() {
            Some(s) => s.as_str(),
            None => d,
        },
        None => d,
    }
}

fn get_in<'a>(j: Option<&'a Json>, key: &str) -> (r: Option<&'a Json>)
    ensures
        match r {
            Some(v) => v@ == (match j {
                Some(a) => a@.get(key@),
                None => JsonV::Null,
            }),
            None => (match j {
                Some(a) => a@.get(key@),
                None => JsonV::Null,
            }) == JsonV::Null,
        },
{
    match j {
        Some(a) => a.get(key),
        None => {
            assert(JsonV::Null.get(key@) == JsonV::Null);
            None
        },
    }
}

/// The statuses of an open bug.
pub open spec fn open_statuses() -> Seq<Seq<char>> {
    seq!["UNCONFIRMED"@, "NEW"@, "ASSIGNED"@, "REOPENED"@]
}

fn push_open_statuses(v: &mut Vec<(String, String)>)
    ensures
        params_view(final(v)@) == params_view(old(v)@) + open_statuses().map_values(
            |s: Seq<char>| ("bug_status"@, s),
        ),
{
    push_pair(v, "bug_status", "UNCONFIRMED");
    push_pair(v, "bug_status", "NEW");
    push_pair(v, "bug_status", "ASSIGNED");
    push_pair(v, "bug_status", "REOPENED");
    assert(params_view(v@) =~= params_view(old(v)@) + open_statuses().map_values(
        |s: Seq<char>| ("bug_status"@, s),
    ));
}

fn push_all(v: &mut Vec<(String, String)>, k: &str, vals: &[String])
    ensures
        params_view(final(v)@) == params_view(old(v)@) + strings_view(vals@).map_values(
            |s: Seq<char>| (k@, s),
        ),
{
    let mut i: usize = 0;
    while i < vals.len()
        invariant
            i <= vals@.len(),
            params_view(v@) == params_view(old(v)@) + strings_view(vals@.take(i as int)).map_values(
                |s: Seq<char>| (k@, s),
            ),
        decreases vals@.len() - i,
    {
        push_pair(v, k, vals[i].as_str());
        assert(strings_view(vals@.take(i + 1)).map_values(|s: Seq<char>| (k@, s)) =~= strings_view(
            vals@.take(i as int),
        ).map_values(|s: Seq<char>| (k@, s)).push((k@, vals@[i as int]@)));
        i = i + 1;
    }
    assert(vals@.take(vals@.len() as int) =~= vals@);
}

// ---------------------------------------------------------------------
// Search parameters
// ---------------------------------------------------------------------

/// The query of a summary search, or with `full_text`, of a search in
/// summaries or comments.
pub open spec fn text_match_params(query: Seq<char>, full_text: bool) -> Seq<(Seq<char>, Seq<char>)> {
    if full_text {
        seq![
            ("f1"@, "OP"@),
            ("j1"@, "OR"@),
            ("f2"@, "short_desc"@),
            ("o2"@, "substring"@),
            ("v2"@, query),
            ("f3"@, "longdesc"@),
            ("o3"@, "substring"@),
            ("v3"@, query),
            ("f4"@, "CP"@),
        ]
    } else {
        seq![("f1"@, "short_desc"@), ("o1"@, "substring"@), ("v1"@, query)]
    }
}

/// The parameters of a search: the advanced query format and the limit,
/// the text match, the open statuses unless `all_statuses`, a `component`
/// for each component, and the product if one is given.
pub open spec fn search_params(
    query: Seq<char>,
    components: Seq<Seq<char>>,
    product: Option<Seq<char>>,
    limit: u32,
    full_text: bool,
    all_statuses: bool,
) -> Seq<(Seq<char>, Seq<char>)> {
    seq![("query_format"@, "advanced"@), ("limit"@, decimal(limit as nat))] + text_match_params(
        query,
        full_text,
    ) + (if all_statuses {
        Seq::empty()
    } else {
        open_statuses().map_values(|s: Seq<char>| ("bug_status"@, s))
    }) + components.map_values(|c: Seq<char>| ("component"@, c)) + (match product {
        Some(p) => seq![("product"@, p)],
        None => Seq::empty(),
    })
}

/// The parameters of a bug search for `query`.
pub fn build_search_params(
    query: &str,
    components: &[String],
    product: Option<&str>,
    limit: u32,
    full_text: bool,
    all_statuses: bool,
) -> (r: Vec<(String, String)>)
    ensures
        params_view(r@) == search_params(
            query@,
            strings_view(components@),
            match product {
                Some(p) => Some(p@),
                None => None,
            },
            limit,
            full_text,
            all_statuses,
        ),
{
    let mut params: Vec<(String, String)> = Vec::new();
    push_pair(&mut params, "query_format", "advanced");
    let lim = u64_to_decimal(limit as u64);
    push_pair(&mut params, "limit", lim.as_str());
    let ghost p0 = params_view(params@);
    if full_text {
        push_pair(&mut params, "f1", "OP");
        push_pair(&mut params, "j1", "OR");
        push_pair(&mut params, "f2", "short_desc");
        push_pair(&mut params, "o2", "substring");
        push_pair(&mut params, "v2", query);
        push_pair(&mut params, "f3", "longdesc");
        push_pair(&mut params, "o3", "substring");
        push_pair(&mut params, "v3", query);
        push_pair(&mut params, "f4", "CP");
    } else {
        push_pair(&mut params, "f1", "short_desc");
        push_pair(&mut params, "o1", "substring");
        push_pair(&mut params, "v1", query);
    }
    assert(params_view(params@) =~= p0 + text_match_params(query@, full_text));
    let ghost p1 = params_view(params@);
    if !all_statuses {
        push_open_statuses(&mut params);
    } else {
        assert(params_view(params@) =~= p1 + Seq::<(Seq<char>, Seq<char>)>::empty());
    }
    push_all(&mut params, "component", components);
    let ghost p3 = params_view(params@);
    match product {
        Some(p) => push_pair(&mut params, "product", p),
        None => {},
    }
    assert(params_view(params@) =~= search_params(
        query@,
        strings_view(components@),
        match product {
            Some(p) => Some(p@),
            None => None,
        },
        limit,
        full_text,
        all_statuses,
    ));
    params
}


// ---------------------------------------------------------------------
// Field update bodies
// ---------------------------------------------------------------------

/// `{"add": items}`.
pub open spec fn add_list(items: JsonV) -> JsonV {
    JsonV::Object(seq![("add"@, items)])
}

/// String values of texts.
pub open spec fn str_values(s: Seq<Seq<char>>) -> Seq<JsonV> {
    s.map_values(|t: Seq<char>| JsonV::Str(t))
}

/// Number values of integers.
pub open spec fn num_values(s: Seq<u64>) -> Seq<JsonV> {
    s.map_values(|n: u64| JsonV::Number(decimal(n as nat)))
}

/// A string value of a text, if any.
pub open spec fn opt_str(o: Option<Seq<char>>) -> Option<JsonV> {
    match o {
        Some(t) => Some(JsonV::Str(t)),
        None => None,
    }
}

/// A member `name: v` when there is a value.
pub open spec fn opt_member(name: Seq<char>, v: Option<JsonV>) -> Seq<(Seq<char>, JsonV)> {
    match v {
        Some(x) => seq![(name, x)],
        None => Seq::empty(),
    }
}

/// A member `name: {"add": items}` when there are items.
pub open spec fn list_member(name: Seq<char>, items: Seq<JsonV>) -> Seq<(Seq<char>, JsonV)> {
    if items.len() > 0 {
        seq![(name, add_list(JsonV::Array(items)))]
    } else {
        Seq::empty()
    }
}

/// The members of a field update: `blocks` and `cc` additions when there
/// are any, `dupe_of` when given, `keywords` additions when there are any,
/// then `priority`, `resolution`, `severity` and `status` when given (in
/// name order).
pub open spec fn update_members(
    priority: Option<Seq<char>>,
    severity: Option<Seq<char>>,
    status: Option<Seq<char>>,
    resolution: Option<Seq<char>>,
    dupe_of: Option<u64>,
    blocks_add: Seq<u64>,
    keywords_add: Seq<Seq<char>>,
    cc_add: Seq<Seq<char>>,
) -> Seq<(Seq<char>, JsonV)> {
    list_member("blocks"@, num_values(blocks_add)) + list_member("cc"@, str_values(cc_add)) + opt_member(
        "dupe_of"@,
        match dupe_of {
            Some(n) => Some(JsonV::Number(decimal(n as nat))),
            None => None,
        },
    ) + list_member("keywords"@, str_values(keywords_add)) + opt_member("priority"@, opt_str(priority))
        + opt_member("resolution"@, opt_str(resolution)) + opt_member("severity"@, opt_str(severity))
        + opt_member("status"@, opt_str(status))
}

/// The members of a field update that marks no duplicate.
pub open spec fn set_fields_members(
    priority: Option<Seq<char>>,
    severity: Option<Seq<char>>,
    status: Option<Seq<char>>,
    resolution: Option<Seq<char>>,
    blocks_add: Seq<u64>,
    keywords_add: Seq<Seq<char>>,
    cc_add: Seq<Seq<char>>,
) -> Seq<(Seq<char>, JsonV)> {
    update_members(priority, severity, status, resolution, None, blocks_add, keywords_add, cc_add)
}

/// The model of an optional text.
pub open spec fn opt_text(o: Option<&str>) -> Option<Seq<char>> {
    match o {
        Some(t) => Some(t@),
        None => None,
    }
}

fn push_member(m: &mut Vec<(String, Json)>, name: &str, v: Json)
    ensures
        members_view(final(m)@) == members_view(old(m)@).push((name@, v@)),
{
    m.push((name.to_owned(), v));
    assert(members_view(m@) =~= members_view(old(m)@).push((name@, v@)));
}

fn push_opt_str(m: &mut Vec<(String, Json)>, name: &str, o: Option<&str>)
    ensures
        members_view(final(m)@) == members_view(old(m)@) + opt_member(name@, opt_str(opt_text(o))),
{
    match o {
        Some(t) => {
            push_member(m, name, Json::from_str(t));
            assert(members_view(m@) =~= members_view(old(m)@) + opt_member(name@, opt_str(opt_text(o))));
        },
        None => {
            assert(members_view(m@) =~= members_view(old(m)@) + opt_member(name@, opt_str(opt_text(o))));
        },
    }
}

fn push_add_list(m: &mut Vec<(String, Json)>, name: &str, items: Vec<Json>)
    ensures
        members_view(final(m)@) == members_view(old(m)@) + list_member(name@, views(items@)),
{
    if items.len() > 0 {
        let ghost iv = views(items@);
        let arr = Json::Array(items);
        proof {
            crate::json::lemma_array_view(items);
        }
        let mut inner: Vec<(String, Json)> = Vec::new();
        push_member(&mut inner, "add", arr);
        let obj = Json::Object(inner);
        proof {
            lemma_object_view(inner);
            assert(members_view(inner@) =~= seq![("add"@, JsonV::Array(iv))]);
        }
        push_member(m, name, obj);
        assert(members_view(m@) =~= members_view(old(m)@) + list_member(name@, iv));
    } else {
        assert(members_view(m@) =~= members_view(old(m)@) + list_member(name@, views(items@)));
    }
}

fn u64_values(items: &[u64]) -> (r: Vec<Json>)
    ensures
        views(r@) == num_values(items@),
{
    let mut out: Vec<Json> = Vec::new();
    let mut i: usize = 0;
    while i < items.len()
        invariant
            i <= items@.len(),
            out@.len() == i,
            forall|k: int| 0 <= k < i ==> (#[trigger] out@[k])@ == JsonV::Number(decimal(items@[k] as nat)),
        decreases items@.len() - i,
    {
        out.push(Json::Number(u64_to_decimal(items[i])));
        i = i + 1;
    }
    assert(views(out@) =~= num_values(items@));
    out
}

fn string_values(items: &[String]) -> (r: Vec<Json>)
    ensures
        views(r@) == str_values(strings_view(items@)),
{
    let mut out: Vec<Json> = Vec::new();
    let mut i: usize = 0;
    while i < items.len()
        invariant
            i <= items@.len(),
            out@.len() == i,
            forall|k: int| 0 <= k < i ==> (#[trigger] out@[k])@ == JsonV::Str(items@[k]@),
        decreases items@.len() - i,
    {
        out.push(Json::Str(items[i].clone()));
        i = i + 1;
    }
    assert(views(out@) =~= str_values(strings_view(items@)));
    out
}

/// The body of a field update that may also mark the bug a duplicate of
/// `dupe_of` (an object with its members in name order).
pub fn build_fields_update(
    priority: Option<&str>,
    severity: Option<&str>,
    status: Option<&str>,
    resolution: Option<&str>,
    dupe_of: Option<u64>,
    blocks_add: &[u64],
    keywords_add: &[String],
    cc_add: &[String],
) -> (r: Json)
    ensures
        r@ == JsonV::Object(
            update_members(
                opt_text(priority),
                opt_text(severity),
                opt_text(status),
                opt_text(resolution),
                dupe_of,
                blocks_add@,
                strings_view(keywords_add@),
                strings_view(cc_add@),
            ),
        ),
        keywords_add@.len() > 0 ==> (r@.get("keywords"@).get("add"@).as_array() matches Some(a) && a.len()
            == keywords_add@.len() && forall|i: int| 0 <= i < a.len() ==> a[i] == JsonV::Str((#[trigger] keywords_add@[i])@)),
        cc_add@.len() > 0 ==> (r@.get("cc"@).get("add"@).as_array() matches Some(a) && a.len() == cc_add@.len()
            && forall|i: int| 0 <= i < a.len() ==> a[i] == JsonV::Str((#[trigger] cc_add@[i])@)),
        blocks_add@.len() > 0 ==> (r@.get("blocks"@).get("add"@).as_array() matches Some(a) && a.len()
            == blocks_add@.len() && forall|i: int| 0 <= i < a.len() ==> a[i] == JsonV::Number(
            decimal(#[trigger] blocks_add@[i] as nat),
        )),
{
    proof {
        law_fields_update(
            opt_text(priority),
            opt_text(severity),
            opt_text(status),
            opt_text(resolution),
            dupe_of,
            blocks_add@,
            strings_view(keywords_add@),
            strings_view(cc_add@),
        );
    }
    let mut m: Vec<(String, Json)> = Vec::new();
    push_add_list(&mut m, "blocks", u64_values(blocks_add));
    push_add_list(&mut m, "cc", string_values(cc_add));
    let ghost before = members_view(m@);
    match dupe_of {
        Some(n) => push_member(&mut m, "dupe_of", Json::Number(u64_to_decimal(n))),
        None => {},
    }
    assert(members_view(m@) =~= before + opt_member(
        "dupe_of"@,
        match dupe_of {
            Some(n) => Some(JsonV::Number(decimal(n as nat))),
            None => None,
        },
    ));
    push_add_list(&mut m, "keywords", string_values(keywords_add));
    push_opt_str(&mut m, "priority", priority);
    push_opt_str(&mut m, "resolution", resolution);
    push_opt_str(&mut m, "severity", severity);
    push_opt_str(&mut m, "status", status);
    proof {
        lemma_object_view(m);
        assert(members_view(m@) =~= update_members(
            opt_text(priority),
            opt_text(severity),
            opt_text(status),
            opt_text(resolution),
            dupe_of,
            blocks_add@,
            strings_view(keywords_add@),
            strings_view(cc_add@),
        ));
    }
    Json::Object(m)
}

/// The body of a field update (an object with its members in name order).
pub fn build_set_fields_body(
    priority: Option<&str>,
    severity: Option<&str>,
    status: Option<&str>,
    resolution: Option<&str>,
    blocks_add: &[u64],
    keywords_add: &[String],
    cc_add: &[String],
) -> (r: Json)
    ensures
        r@ == JsonV::Object(
            set_fields_members(
                opt_text(priority),
                opt_text(severity),
                opt_text(status),
                opt_text(resolution),
                blocks_add@,
                strings_view(keywords_add@),
                strings_view(cc_add@),
            ),
        ),
{
    build_fields_update(priority, severity, status, resolution, None, blocks_add, keywords_add, cc_add)
}

/// The names of a field update's members, in order (none for a value that
/// is not an object).
pub open spec fn update_names(body: JsonV) -> Seq<Seq<char>> {
    match body {
        JsonV::Object(ms) => ms.map_values(|p: (Seq<char>, JsonV)| p.0),
        _ => Seq::empty(),
    }
}

/// The names of a field update's members, in order: what the update
/// changes.
pub fn update_field_names(body: &Json) -> (r: Vec<String>)
    ensures
        strings_view(r@) == update_names(body@),
{
    let mut out: Vec<String> = Vec::new();
    match body {
        Json::Object(m) => {
            proof {
                lemma_object_view(*m);
            }
            let mut i: usize = 0;
            while i < m.len()
                invariant
                    i <= m@.len(),
                    body@ == JsonV::Object(members_view(m@)),
                    out@.len() == i,
                    forall|k: int| 0 <= k < i ==> (#[trigger] out@[k])@ == m@[k].0@,
                decreases m@.len() - i,
            {
                out.push(m[i].0.clone());
                i = i + 1;
            }
            assert(strings_view(out@) =~= update_names(body@));
        },
        _ => {
            assert(strings_view(out@) =~= update_names(body@));
        },
    }
    out
}

/// Whether a field update changes anything: it has a member. A request is
/// sent only then; otherwise there is nothing to update.
pub fn has_updates(body: &Json) -> (r: bool)
    ensures
        r == (update_names(body@).len() > 0),
{
    match body {
        Json::Object(m) => {
            proof {
                lemma_object_view(*m);
            }
            m.len() > 0
        },
        _ => false,
    }
}

/// A field of a draft given as a text that is neither empty nor "null".
pub open spec fn draft_text(draft: JsonV, field: Seq<char>) -> Option<Seq<char>> {
    match draft.get(field).as_str() {
        Some(s) => if s.len() > 0 && s != "null"@ {
            Some(s)
        } else {
            None
        },
        None => None,
    }
}

/// The members of the field update a draft asks for: `blocks`, `cc` and
/// `keywords` additions from non-empty `blocks_add`, `cc_add` and
/// `keywords_add` arrays, then `priority`, `resolution`, `severity` and
/// `status` from texts that are neither empty nor "null".
pub open spec fn apply_members(draft: JsonV) -> Seq<(Seq<char>, JsonV)> {
    list_member("blocks"@, draft.get("blocks_add"@).array_or_empty()) + list_member(
        "cc"@,
        draft.get("cc_add"@).array_or_empty(),
    ) + list_member("keywords"@, draft.get("keywords_add"@).array_or_empty()) + opt_member(
        "priority"@,
        opt_str(draft_text(draft, "priority"@)),
    ) + opt_member("resolution"@, opt_str(draft_text(draft, "resolution"@))) + opt_member(
        "severity"@,
        opt_str(draft_text(draft, "severity"@)),
    ) + opt_member("status"@, opt_str(draft_text(draft, "status"@)))
}

fn draft_field<'a>(draft: &'a Json, field: &str) -> (r: Option<&'a str>)
    ensures
        opt_text(r) == draft_text(draft@, field@),
{
    match draft.get(field) {
        Some(v) => match v.as_str() {
            Some(s) => {
                if s.as_str().unicode_len() > 0 && !crate::text::str_eq(s.as_str(), "null") {
                    Some(s.as_str())
                } else {
                    None
                }
            },
            None => None,
        },
        None => None,
    }
}

fn copy_elems(j: Option<&Json>) -> (r: Vec<Json>)
    ensures
        views(r@) == (match j {
            Some(v) => v@,
            None => JsonV::Null,
        }).array_or_empty(),
{
    let mut out: Vec<Json> = Vec::new();
    match j {
        Some(v) => match v.as_array() {
            Some(a) => {
                let mut i: usize = 0;
                while i < a.len()
                    invariant
                        i <= a@.len(),
                        out@.len() == i,
                        forall|k: int| 0 <= k < i ==> (#[trigger] out@[k])@ == a@[k]@,
                    decreases a@.len() - i,
                {
                    out.push(a[i].duplicate());
                    i = i + 1;
                }
                assert(views(out@) =~= views(a@));
            },
            None => {
                assert(views(out@) =~= Seq::<JsonV>::empty());
            },
        },
        None => {
            assert(views(out@) =~= Seq::<JsonV>::empty());
        },
    }
    out
}

/// The body of the field update a draft asks for (an object with its
/// members in name order).
pub fn build_apply_field_body(draft: &Json) -> (r: Json)
    ensures
        r@ == JsonV::Object(apply_members(draft@)),
{
    let mut m: Vec<(String, Json)> = Vec::new();
    push_add_list(&mut m, "blocks", copy_elems(draft.get("blocks_add")));
    push_add_list(&mut m, "cc", copy_elems(draft.get("cc_add")));
    push_add_list(&mut m, "keywords", copy_elems(draft.get("keywords_add")));
    push_opt_str(&mut m, "priority", draft_field(draft, "priority"));
    push_opt_str(&mut m, "resolution", draft_field(draft, "resolution"));
    push_opt_str(&mut m, "severity", draft_field(draft, "severity"));
    push_opt_str(&mut m, "status", draft_field(draft, "status"));
    proof {
        lemma_object_view(m);
        assert(members_view(m@) =~= apply_members(draft@));
    }
    Json::Object(m)
}


// ---------------------------------------------------------------------
// Text shown to the user
// ---------------------------------------------------------------------

/// `Real Name <login>` of a whoami answer, `?` standing for a missing part.
pub open spec fn whoami_text(val: JsonV) -> Seq<char> {
    text_or(val.get("real_name"@), "?"@) + " <"@ + text_or(val.get("name"@), "?"@) + ">"@
}

/// `Real Name <login>` of a whoami answer.
pub fn format_whoami(val: &Json) -> (r: String)
    ensures
        r@ == whoami_text(val@),
{
    let mut out = str_or(val.get("real_name"), "?").to_owned();
    out.append(" <");
    out.append(str_or(val.get("name"), "?"));
    out.append(">");
    out
}

/// The first line of a bug's header: `Bug id: summary`, with `id_text` the
/// text shown for the id.
pub open spec fn header_title(bug: JsonV, id_text: Seq<char>) -> Seq<char> {
    "Bug "@ + id_text + ": "@ + text_or(bug.get("summary"@), "?"@) + "\n"@
}

/// The status line of a bug's header.
pub open spec fn header_status(bug: JsonV) -> Seq<char> {
    "  Status:   "@ + text_or(bug.get("status"@), "?"@) + " "@ + text_or(bug.get("resolution"@), Seq::empty())
        + "\n"@
}

/// The priority line of a bug's header.
pub open spec fn header_priority(bug: JsonV) -> Seq<char> {
    "  Priority: "@ + text_or(bug.get("priority"@), "?"@) + "  Severity: "@ + text_or(bug.get("severity"@), "?"@)
        + "\n"@
}

/// The assignee line of a bug's header.
pub open spec fn header_assignee(bug: JsonV) -> Seq<char> {
    "  Assigned: "@ + text_or(bug.get("assigned_to"@), "?"@) + "\n"@
}

/// The creator line of a bug's header.
pub open spec fn header_creator(bug: JsonV) -> Seq<char> {
    "  Creator:  "@ + text_or(bug.get("creator"@), "?"@) + " ("@ + text_or(
        bug.get("creator_detail"@).get("real_name"@),
        "?"@,
    ) + ")\n"@
}

/// The QA line of a bug's header, when its QA whiteboard is not empty.
pub open spec fn header_qa(bug: JsonV) -> Seq<char> {
    let qa = text_or(bug.get("cf_qa_whiteboard"@), Seq::empty());
    if qa.len() > 0 {
        "  QA:       "@ + qa + "\n"@
    } else {
        Seq::empty()
    }
}

/// The header of a bug: id and summary, status and resolution, priority
/// and severity, assignee, creator, and the QA whiteboard when it is not
/// empty, one line each; `id_text` is the text shown for the id.
pub open spec fn bug_header_text(bug: JsonV, id_text: Seq<char>) -> Seq<char> {
    header_title(bug, id_text) + header_status(bug) + header_priority(bug) + header_assignee(bug) + header_creator(bug)
        + header_qa(bug)
}

fn title_line(bug: &Json, id_text: &str) -> (r: String)
    ensures
        r@ == header_title(bug@, id_text@),
{
    let mut out = "Bug ".to_owned();
    out.append(id_text);
    out.append(": ");
    out.append(str_or(bug.get("summary"), "?"));
    out.append("\n");
    assert(out@ =~= header_title(bug@, id_text@));
    out
}

/// The JSON text serde_json shows for a value (`j` is `None` for null).
fn shown_text(j: Option<&Json>) -> (r: String)
    ensures
        r@ == json_display(
            match j {
                Some(v) => v@,
                None => JsonV::Null,
            },
        ),
{
    match j {
        Some(v) => display_text(v),
        None => display_text(&Json::Null),
    }
}

fn status_line(bug: &Json) -> (r: String)
    ensures
        r@ == header_status(bug@),
{
    proof {
        reveal_strlit("");
        assert(""@ =~= Seq::<char>::empty());
    }
    let mut out = "  Status:   ".to_owned();
    out.append(str_or(bug.get("status"), "?"));
    out.append(" ");
    out.append(str_or(bug.get("resolution"), ""));
    out.append("\n");
    assert(out@ =~= header_status(bug@));
    out
}

fn priority_line(bug: &Json) -> (r: String)
    ensures
        r@ == header_priority(bug@),
{
    let mut out = "  Priority: ".to_owned();
    out.append(str_or(bug.get("priority"), "?"));
    out.append("  Severity: ");
    out.append(str_or(bug.get("severity"), "?"));
    out.append("\n");
    assert(out@ =~= header_priority(bug@));
    out
}

fn assignee_line(bug: &Json) -> (r: String)
    ensures
        r@ == header_assignee(bug@),
{
    let mut out = "  Assigned: ".to_owned();
    out.append(str_or(bug.get("assigned_to"), "?"));
    out.append("\n");
    assert(out@ =~= header_assignee(bug@));
    out
}

fn creator_line(bug: &Json) -> (r: String)
    ensures
        r@ == header_creator(bug@),
{
    let mut out = "  Creator:  ".to_owned();
    out.append(str_or(bug.get("creator"), "?"));
    out.append(" (");
    out.append(str_or(get_in(bug.get("creator_detail"), "real_name"), "?"));
    out.append(")\n");
    proof {
        assert(JsonV::Null.get("real_name"@) == JsonV::Null);
    }
    assert(out@ =~= header_creator(bug@));
    out
}

fn qa_line(bug: &Json) -> (r: String)
    ensures
        r@ == header_qa(bug@),
{
    proof {
        reveal_strlit("");
        assert(""@ =~= Seq::<char>::empty());
    }
    let qa = str_or(bug.get("cf_qa_whiteboard"), "");
    if qa.unicode_len() > 0 {
        let mut out = "  QA:       ".to_owned();
        out.append(qa);
        out.append("\n");
        assert(out@ =~= header_qa(bug@));
        out
    } else {
        String::new()
    }
}

/// The header of a bug, showing `id_text` for its id.
pub fn format_bug_header_with_id(bug: &Json, id_text: &str) -> (r: String)
    ensures
        r@ == bug_header_text(bug@, id_text@),
{
    let mut out = title_line(bug, id_text);
    out.append(status_line(bug).as_str());
    out.append(priority_line(bug).as_str());
    out.append(assignee_line(bug).as_str());
    out.append(creator_line(bug).as_str());
    out.append(qa_line(bug).as_str());
    out
}

/// The header of a bug, its id shown as serde_json shows the value.
pub fn format_bug_header(bug: &Json) -> (r: String)
    ensures
        r@ == bug_header_text(bug@, json_display(bug@.get("id"@))),
{
    let id = shown_text(bug.get("id"));
    format_bug_header_with_id(bug, id.as_str())
}

/// The text of one comment in a thread: a blank line, `[time] creator:`
/// and the comment's text.
pub open spec fn comment_text(c: JsonV) -> Seq<char> {
    "\n\n["@ + text_or(c.get("creation_time"@), "?"@) + "] "@ + text_or(c.get("creator"@), "?"@) + ":\n"@
        + text_or(c.get("text"@), Seq::empty())
}

/// The texts of the first `n` comments.
pub open spec fn comments_text(cs: Seq<JsonV>, n: int) -> Seq<char>
    decreases n,
{
    if n <= 0 || n > cs.len() {
        Seq::empty()
    } else {
        comments_text(cs, n - 1) + comment_text(cs[n - 1])
    }
}

/// A comment thread: its count, then each comment.
pub open spec fn thread_text(cs: Seq<JsonV>) -> Seq<char> {
    "\n--- "@ + decimal(cs.len()) + " comment(s) ---"@ + comments_text(cs, cs.len() as int)
}

fn comment_block(c: &Json) -> (r: String)
    ensures
        r@ == comment_text(c@),
{
    proof {
        reveal_strlit("");
        assert(""@ =~= Seq::<char>::empty());
    }
    let mut out = "\n\n[".to_owned();
    out.append(str_or(c.get("creation_time"), "?"));
    out.append("] ");
    out.append(str_or(c.get("creator"), "?"));
    out.append(":\n");
    out.append(str_or(c.get("text"), ""));
    assert(out@ =~= comment_text(c@));
    out
}

/// A comment thread, in full.
pub fn format_comments(comments: &[Json]) -> (r: String)
    ensures
        r@ == thread_text(views(comments@)),
{
    proof {
        reveal_strlit("");
        assert(""@ =~= Seq::<char>::empty());
    }
    let ghost cs = views(comments@);
    let mut out = "\n--- ".to_owned();
    let n = u64_to_decimal(comments.len() as u64);
    out.append(n.as_str());
    out.append(" comment(s) ---");
    let ghost head = out@;
    let mut i: usize = 0;
    while i < comments.len()
        invariant
            i <= comments@.len(),
            cs == views(comments@),
            out@ == head + comments_text(cs, i as int),
        decreases comments@.len() - i,
    {
        let c = &comments[i];
        assert(cs[i as int] == c@);
        let block = comment_block(c);
        out.append(block.as_str());
        assert(comments_text(cs, i + 1) == comments_text(cs, i as int) + comment_text(cs[i as int]));
        i = i + 1;
        assert(out@ =~= head + comments_text(cs, i as int));
    }
    assert(out@ =~= thread_text(cs));
    out
}

/// The line of a search result: `Bug id: [status priority] summary`, with
/// 0, `?`, `--` and `?` for a missing id, status, priority and summary.
pub open spec fn search_line_text(bug: JsonV) -> Seq<char> {
    let id: u64 = match bug.get("id"@).as_u64() {
        Some(n) => n,
        None => 0,
    };
    "Bug "@ + decimal(id as nat) + ": ["@ + text_or(bug.get("status"@), "?"@) + " "@ + text_or(
        bug.get("priority"@),
        "--"@,
    ) + "] "@ + text_or(bug.get("summary"@), "?"@)
}

/// The line of a search result.
pub fn search_line(bug: &Json) -> (r: String)
    ensures
        r@ == search_line_text(bug@),
{
    let id: u64 = match bug.get("id") {
        Some(v) => match v.as_u64() {
            Some(n) => n,
            None => 0,
        },
        None => 0,
    };
    let mut out = "Bug ".to_owned();
    out.append(u64_to_decimal(id).as_str());
    out.append(": [");
    out.append(str_or(bug.get("status"), "?"));
    out.append(" ");
    out.append(str_or(bug.get("priority"), "--"));
    out.append("] ");
    out.append(str_or(bug.get("summary"), "?"));
    assert(out@ =~= search_line_text(bug@));
    out
}

// ---------------------------------------------------------------------
// Configuration
// ---------------------------------------------------------------------

/// The API key a line of the secrets file sets: the line, trimmed and with
/// an `export ` prefix dropped, is `BUGZILLA_BOT_API_KEY=` followed by a
/// non-empty key.
pub open spec fn key_in_line(line: Seq<char>) -> Option<Seq<char>> {
    let t = trim(line);
    let kv = if has_prefix(t, "export "@) {
        t.subrange("export "@.len() as int, t.len() as int)
    } else {
        t
    };
    if has_prefix(kv, "BUGZILLA_BOT_API_KEY="@) && kv.len() > "BUGZILLA_BOT_API_KEY="@.len() {
        Some(kv.subrange("BUGZILLA_BOT_API_KEY="@.len() as int, kv.len() as int))
    } else {
        None
    }
}

/// The key set by the first line that sets one.
pub open spec fn first_key(lines: Seq<Seq<char>>) -> Option<Seq<char>>
    decreases lines.len(),
{
    if lines.len() == 0 {
        None
    } else {
        match key_in_line(lines[0]) {
            Some(k) => Some(k),
            None => first_key(lines.drop_first()),
        }
    }
}

/// The API key a secrets file sets, if any. Each line is trimmed before it
/// is read, so splitting at line feeds reads the same keys as splitting at
/// line endings (`\r\n` or `\n`) would.
pub open spec fn secrets_key(content: Seq<char>) -> Option<Seq<char>> {
    first_key(split_lines(content))
}

fn key_of_line(line: &str) -> (r: Option<&str>)
    ensures
        opt_text(r) == key_in_line(line@),
{
    let t = trim_str(line);
    let kv = match strip_prefix(t, "export ") {
        Some(rest) => rest,
        None => t,
    };
    match strip_prefix(kv, "BUGZILLA_BOT_API_KEY=") {
        Some(val) => {
            if val.unicode_len() > 0 {
                Some(val)
            } else {
                None
            }
        },
        None => None,
    }
}

/// The API key a secrets file sets: the first line of the form
/// `[export ]BUGZILLA_BOT_API_KEY=<key>` with a non-empty key.
pub fn parse_secrets(content: &str) -> (r: Option<String>)
    ensures
        match r {
            Some(k) => secrets_key(content@) == Some(k@),
            None => secrets_key(content@) is None,
        },
{
    let lines = split_lines_str(content);
    let ghost ls = strings_view(lines@);
    let mut i: usize = 0;
    assert(ls.subrange(0, ls.len() as int) =~= ls);
    while i < lines.len()
        invariant
            i <= lines@.len(),
            ls == strings_view(lines@),
            ls == split_lines(content@),
            first_key(ls) == first_key(ls.subrange(i as int, ls.len() as int)),
        decreases lines@.len() - i,
    {
        let ghost rest = ls.subrange(i as int, ls.len() as int);
        assert(rest[0] == lines@[i as int]@);
        assert(rest.drop_first() =~= ls.subrange(i + 1, ls.len() as int));
        match key_of_line(lines[i].as_str()) {
            Some(k) => {
                return Some(k.to_owned());
            },
            None => {},
        }
        i = i + 1;
    }
    None
}

/// The API key to use: a non-empty key from the environment, else the key
/// the secrets file sets (`secrets` is its content, if it could be read).
pub open spec fn chosen_key(env_key: Option<Seq<char>>, secrets: Option<Seq<char>>) -> Option<Seq<char>> {
    match env_key {
        Some(k) if k.len() > 0 => Some(k),
        _ => match secrets {
            Some(c) => secrets_key(c),
            None => None,
        },
    }
}

/// The API key to use: a non-empty key from the environment, else the key
/// the secrets file sets.
pub fn choose_api_key(env_key: Option<&str>, secrets: Option<&str>) -> (r: Option<String>)
    ensures
        match r {
            Some(k) => chosen_key(opt_text(env_key), opt_text(secrets)) == Some(k@),
            None => chosen_key(opt_text(env_key), opt_text(secrets)) is None,
        },
{
    match env_key {
        Some(k) => {
            if k.unicode_len() > 0 {
                return Some(k.to_owned());
            }
        },
        None => {},
    }
    match secrets {
        Some(c) => parse_secrets(c),
        None => None,
    }
}

/// The REST root a setup answer names: the default when the answer is
/// empty, else the answer without trailing slashes, with `/rest` added when
/// it does not end so.
pub open spec fn base_url_of(answer: Seq<char>) -> Seq<char> {
    if answer.len() == 0 {
        BMO_BASE@
    } else {
        let t = trim_trailing_slashes(answer);
        if has_suffix(t, "/rest"@) {
            t
        } else {
            t + "/rest"@
        }
    }
}

/// The REST root a setup answer names.
pub fn normalize_base_url(answer: &str) -> (r: String)
    ensures
        r@ == base_url_of(answer@),
{
    if answer.unicode_len() == 0 {
        return BMO_BASE.to_owned();
    }
    let t = trim_end_slashes(answer);
    if ends_with(t, "/rest") {
        t.to_owned()
    } else {
        let mut u = t.to_owned();
        u.append("/rest");
        u
    }
}

/// What setup does next about the API key.
#[derive(Debug, PartialEq, Eq)]
pub enum KeyStep {
    /// Writes were not asked for: no key is needed.
    ReadOnly,
    /// Writes were asked for: ask for the key.
    AskKey,
    /// The key given is empty: setup stops, a key being required.
    KeyRequired,
    /// Verify this key with the server, then save it.
    Verify(String),
}

/// What setup does next about the API key, given the answer to "Enable write
/// operations? [y/N]" and, once asked, the key given (`None` before it is
/// asked).
pub fn setup_key_step(write_answer: &str, key_answer: Option<&str>) -> (r: KeyStep)
    ensures
        !(write_answer@ == "y"@ || write_answer@ == "Y"@) ==> r == KeyStep::ReadOnly,
        (write_answer@ == "y"@ || write_answer@ == "Y"@) ==> match key_answer {
            None => r == KeyStep::AskKey,
            Some(k) => if k@.len() == 0 {
                r == KeyStep::KeyRequired
            } else {
                r matches KeyStep::Verify(s) && s@ == k@
            },
        },
{
    if !is_yes(write_answer) {
        return KeyStep::ReadOnly;
    }
    match key_answer {
        None => KeyStep::AskKey,
        Some(k) => if k.unicode_len() == 0 {
            KeyStep::KeyRequired
        } else {
            KeyStep::Verify(k.to_owned())
        },
    }
}

/// The content of the secrets file for `api_key`.
pub fn secrets_file_text(api_key: &str) -> (r: String)
    ensures
        r@ == "export BUGZILLA_BOT_API_KEY="@ + api_key@ + "\n"@,
{
    let mut t = "export BUGZILLA_BOT_API_KEY=".to_owned();
    t.append(api_key);
    t.append("\n");
    t
}


// ---------------------------------------------------------------------
// Fetching the triage queue
// ---------------------------------------------------------------------

/// The components a fetch covers when none are named.
pub open spec fn triage_components() -> Seq<Seq<char>> {
    seq![
        "Audio/Video"@,
        "Audio/Video: cubeb"@,
        "Audio/Video: GMP"@,
        "Audio/Video: MediaStreamGraph"@,
        "Audio/Video: Playback"@,
        "Audio/Video: Recording"@,
        "Web Audio"@,
        "Audio/Video: Web Codecs"@,
    ]
}

/// The query of the triage queue filed from `start` (inclusive) to `end`
/// (exclusive): unassigned, not meta, severity not set, defects only, not
/// security bugs.
pub open spec fn triage_query(start: Seq<char>, end: Seq<char>) -> Seq<(Seq<char>, Seq<char>)> {
    seq![
        ("query_format"@, "advanced"@),
        ("emailassigned_to1"@, "1"@),
        ("email1"@, "nobody@mozilla.org"@),
        ("emailtype1"@, "exact"@),
        ("keywords_type"@, "nowords"@),
        ("keywords"@, "meta"@),
        ("f1"@, "OP"@),
        ("f2"@, "creation_ts"@),
        ("o2"@, "changedafter"@),
        ("v2"@, start),
        ("f3"@, "creation_ts"@),
        ("o3"@, "changedafter"@),
        ("n3"@, "1"@),
        ("v3"@, end),
        ("f4"@, "CP"@),
        ("f5"@, "bug_severity"@),
        ("o5"@, "equals"@),
        ("v5"@, "--"@),
        ("f6"@, "bug_type"@),
        ("o6"@, "equals"@),
        ("v6"@, "defect"@),
        ("f9"@, "bug_group"@),
        ("o9"@, "notsubstring"@),
        ("v9"@, "core-security"@),
    ]
}

/// The parameters of a triage fetch: the triage query, a `component` for
/// each component (the default set when none are named), and the open
/// statuses.
pub open spec fn fetch_params(start: Seq<char>, end: Seq<char>, components: Seq<Seq<char>>) -> Seq<
    (Seq<char>, Seq<char>),
> {
    let comps = if components.len() == 0 {
        triage_components()
    } else {
        components
    };
    triage_query(start, end) + comps.map_values(|c: Seq<char>| ("component"@, c)) + open_statuses().map_values(
        |s: Seq<char>| ("bug_status"@, s),
    )
}

fn push_triage_query(v: &mut Vec<(String, String)>, start: &str, end: &str)
    ensures
        params_view(final(v)@) == params_view(old(v)@) + triage_query(start@, end@),
{
    push_pair(v, "query_format", "advanced");
    push_pair(v, "emailassigned_to1", "1");
    push_pair(v, "email1", "nobody@mozilla.org");
    push_pair(v, "emailtype1", "exact");
    push_pair(v, "keywords_type", "nowords");
    push_pair(v, "keywords", "meta");
    push_pair(v, "f1", "OP");
    push_pair(v, "f2", "creation_ts");
    push_pair(v, "o2", "changedafter");
    push_pair(v, "v2", start);
    push_pair(v, "f3", "creation_ts");
    push_pair(v, "o3", "changedafter");
    push_pair(v, "n3", "1");
    push_pair(v, "v3", end);
    push_pair(v, "f4", "CP");
    push_pair(v, "f5", "bug_severity");
    push_pair(v, "o5", "equals");
    push_pair(v, "v5", "--");
    push_pair(v, "f6", "bug_type");
    push_pair(v, "o6", "equals");
    push_pair(v, "v6", "defect");
    push_pair(v, "f9", "bug_group");
    push_pair(v, "o9", "notsubstring");
    push_pair(v, "v9", "core-security");
    assert(params_view(v@) =~= params_view(old(v)@) + triage_query(start@, end@));
}

fn default_components() -> (r: Vec<String>)
    ensures
        strings_view(r@) == triage_components(),
{
    let mut c: Vec<String> = Vec::new();
    c.push("Audio/Video".to_owned());
    c.push("Audio/Video: cubeb".to_owned());
    c.push("Audio/Video: GMP".to_owned());
    c.push("Audio/Video: MediaStreamGraph".to_owned());
    c.push("Audio/Video: Playback".to_owned());
    c.push("Audio/Video: Recording".to_owned());
    c.push("Web Audio".to_owned());
    c.push("Audio/Video: Web Codecs".to_owned());
    assert(strings_view(c@) =~= triage_components());
    c
}

/// The parameters of a fetch of the triage queue filed from `start`
/// (inclusive) to `end` (exclusive) in `components` (the default set when
/// none are named).
pub fn build_fetch_params(start: &str, end: &str, components: &[String]) -> (r: Vec<(String, String)>)
    ensures
        params_view(r@) == fetch_params(start@, end@, strings_view(components@)),
        sole_value(params_view(r@), "f9"@, "bug_group"@),
        sole_value(params_view(r@), "o9"@, "notsubstring"@),
        sole_value(params_view(r@), "v9"@, "core-security"@),
        sole_value(params_view(r@), "v2"@, start@),
        sole_value(params_view(r@), "v3"@, end@),
{
    proof {
        law_fetch_triage_query(start@, end@, strings_view(components@));
    }
    let mut params: Vec<(String, String)> = Vec::new();
    push_triage_query(&mut params, start, end);
    if components.len() == 0 {
        let d = default_components();
        push_all(&mut params, "component", d.as_slice());
    } else {
        push_all(&mut params, "component", components);
    }
    push_open_statuses(&mut params);
    assert(params_view(params@) =~= fetch_params(start@, end@, strings_view(components@)));
    params
}

/// The Monday that starts the week of `day`, with days numbered from the
/// Common Era as chrono numbers them (day 1, 1 January of year 1, is a
/// Monday).
pub open spec fn monday_of(day: int) -> int {
    day - (day - 1) % 7
}

/// The week of `day` (days numbered from the Common Era, day 1 a Monday):
/// its Monday and the Monday after.
pub fn week_bounds(day: i32) -> (r: (i32, i32))
    requires
        i32::MIN + 7 <= day <= i32::MAX - 7,
    ensures
        r.0 <= day < r.0 + 7,
        (r.0 - 1) % 7 == 0,
        r.1 == r.0 + 7,
        r.0 == monday_of(day as int),
{
    let back = (day - 1).checked_rem_euclid(7).unwrap();
    assert(0 <= back < 7 && (day - back - 1) % 7 == 0) by (nonlinear_arith)
        requires
            back == (day - 1) % 7,
    ;
    let monday = day - back;
    (monday, monday + 7)
}

/// The text chrono's `NaiveDate` shows (`%Y-%m-%d`) for the day of this
/// number counted from the Common Era, if chrono holds such a day.
pub uninterp spec fn ce_day_text(day: i32) -> Option<Seq<char>>;

/// Calls `chrono::NaiveDate::from_num_days_from_ce_opt` and shows the date
/// it gives with `to_string`. Claimed: the result is `ce_day_text` of the
/// number (a function of the number alone); `None` when chrono holds no
/// such day.
#[verifier::external_body]
fn day_text(day: i32) -> (r: Option<String>)
    ensures
        match r {
            Some(s) => ce_day_text(day) == Some(s@),
            None => ce_day_text(day) is None,
        },
{
    match chrono::NaiveDate::from_num_days_from_ce_opt(day) {
        Some(d) => Some(d.to_string()),
        None => None,
    }
}

/// The date range of a fetch: `start` and `end` when given, else the Monday
/// of the week of `today` and the Monday after, as chrono shows those days.
pub open spec fn fetch_range(start: Option<Seq<char>>, end: Option<Seq<char>>, today: int) -> Option<
    (Seq<char>, Seq<char>),
> {
    let monday = monday_of(today);
    let s = match start {
        Some(t) => Some(t),
        None => ce_day_text(monday as i32),
    };
    let e = match end {
        Some(t) => Some(t),
        None => ce_day_text((monday + 7) as i32),
    };
    match (s, e) {
        (Some(a), Some(b)) => Some((a, b)),
        _ => None,
    }
}

fn text_or_day(t: Option<&str>, day: i32) -> (r: Option<String>)
    ensures
        match r {
            Some(s) => (match t {
                Some(x) => Some(x@),
                None => ce_day_text(day),
            }) == Some(s@),
            None => t is None && ce_day_text(day) is None,
        },
{
    match t {
        Some(x) => Some(x.to_owned()),
        None => day_text(day),
    }
}

/// The date range of a fetch: `start` and `end` when given, else the Monday
/// of the week of `today` (a day number from the Common Era) and the Monday
/// after; `None` when chrono holds no such day.
pub fn fetch_dates(start: Option<&str>, end: Option<&str>, today: i32) -> (r: Option<(String, String)>)
    requires
        i32::MIN + 7 <= today <= i32::MAX - 7,
    ensures
        match r {
            Some(p) => fetch_range(opt_text(start), opt_text(end), today as int) == Some((p.0@, p.1@)),
            None => fetch_range(opt_text(start), opt_text(end), today as int) is None,
        },
{
    let (monday, next) = week_bounds(today);
    let s = text_or_day(start, monday);
    let e = text_or_day(end, next);
    match (s, e) {
        (Some(a), Some(b)) => Some((a, b)),
        _ => None,
    }
}

/// Lexicographic order of texts by character code (the order of `str`
/// comparison, as UTF-8 keeps code point order).
pub open spec fn text_le(a: Seq<char>, b: Seq<char>) -> bool
    decreases a.len(),
{
    if a.len() == 0 {
        true
    } else if b.len() == 0 {
        false
    } else if (a[0] as u32) != (b[0] as u32) {
        (a[0] as u32) < (b[0] as u32)
    } else {
        text_le(a.drop_first(), b.drop_first())
    }
}

proof fn lemma_text_le_total(a: Seq<char>, b: Seq<char>)
    ensures
        text_le(a, b) || text_le(b, a),
    decreases a.len(),
{
    if a.len() > 0 && b.len() > 0 && (a[0] as u32) == (b[0] as u32) {
        lemma_text_le_total(a.drop_first(), b.drop_first());
    }
}

proof fn lemma_text_le_trans(a: Seq<char>, b: Seq<char>, c: Seq<char>)
    requires
        text_le(a, b),
        text_le(b, c),
    ensures
        text_le(a, c),
    decreases a.len(),
{
    if a.len() > 0 && b.len() > 0 && c.len() > 0 && (a[0] as u32) == (b[0] as u32) && (b[0] as u32) == (c[0] as u32) {
        lemma_text_le_trans(a.drop_first(), b.drop_first(), c.drop_first());
    }
}

/// Whether `a` comes before or with `b` in text order.
pub fn text_le_str(a: &str, b: &str) -> (r: bool)
    ensures
        r == text_le(a@, b@),
{
    let n = a.unicode_len();
    let m = b.unicode_len();
    let mut i: usize = 0;
    assert(a@.skip(0) =~= a@);
    assert(b@.skip(0) =~= b@);
    while i < n && i < m
        invariant
            i <= n,
            i <= m,
            n == a@.len(),
            m == b@.len(),
            text_le(a@, b@) == text_le(a@.skip(i as int), b@.skip(i as int)),
        decreases n - i,
    {
        let x = a.get_char(i);
        let y = b.get_char(i);
        assert(a@.skip(i as int)[0] == x);
        assert(b@.skip(i as int)[0] == y);
        if (x as u32) != (y as u32) {
            return (x as u32) < (y as u32);
        }
        assert(a@.skip(i as int).drop_first() =~= a@.skip(i + 1));
        assert(b@.skip(i as int).drop_first() =~= b@.skip(i + 1));
        i = i + 1;
    }
    assert(a@.skip(i as int).len() == n - i);
    assert(b@.skip(i as int).len() == m - i);
    i == n
}

/// The creation time of a bug as text, or the empty text.
pub open spec fn creation_key(b: JsonV) -> Seq<char> {
    text_or(b.get("creation_time"@), Seq::empty())
}

/// Whether bugs come in order of creation time.
pub open spec fn sorted_by_creation(s: Seq<JsonV>) -> bool {
    forall|i: int, j: int| 0 <= i < j < s.len() ==> text_le(creation_key(#[trigger] s[i]), creation_key(#[trigger] s[j]))
}

/// Whether `output` is `input` rearranged by `p` (the place in `input` of
/// each bug of `output`) into order of creation time, bugs of equal
/// creation time keeping their order.
pub open spec fn stable_arrangement(input: Seq<JsonV>, output: Seq<JsonV>, p: Seq<int>) -> bool {
    &&& p.len() == input.len()
    &&& output.len() == input.len()
    &&& forall|k: int| 0 <= k < p.len() ==> 0 <= #[trigger] p[k] < input.len() && output[k] == input[p[k]]
    &&& forall|k: int, l: int| 0 <= k < l < p.len() ==> #[trigger] p[k] != #[trigger] p[l]
    &&& sorted_by_creation(output)
    &&& forall|k: int, l: int|
        0 <= k < l < p.len() && creation_key(#[trigger] output[k]) == creation_key(#[trigger] output[l]) ==> p[k] < p[l]
}

fn key_of(b: &Json) -> (r: &str)
    ensures
        r@ == creation_key(b@),
{
    proof {
        reveal_strlit("");
        assert(""@ =~= Seq::<char>::empty());
    }
    str_or(b.get("creation_time"), "")
}

/// The bugs in order of creation time, bugs of equal creation time keeping
/// their order (a stable sort).
pub fn sort_by_creation_time(bugs: &[Json]) -> (r: Vec<Json>)
    ensures
        exists|p: Seq<int>| stable_arrangement(views(bugs@), views(r@), p),
{
    let ghost input = views(bugs@);
    let mut out: Vec<Json> = Vec::new();
    let ghost mut p: Seq<int> = Seq::empty();
    let mut i: usize = 0;
    while i < bugs.len()
        invariant
            i <= bugs@.len(),
            input == views(bugs@),
            out@.len() == i,
            p.len() == i,
            forall|k: int| 0 <= k < p.len() ==> 0 <= #[trigger] p[k] < i && out@[k]@ == input[p[k]],
            forall|k: int, l: int| 0 <= k < l < p.len() ==> #[trigger] p[k] != #[trigger] p[l],
            sorted_by_creation(views(out@)),
            forall|k: int, l: int|
                0 <= k < l < p.len() && creation_key(#[trigger] views(out@)[k]) == creation_key(
                    #[trigger] views(out@)[l],
                ) ==> p[k] < p[l],
        decreases bugs@.len() - i,
    {
        let x = &bugs[i];
        let kx = key_of(x);
        let ghost ov = views(out@);
        let mut pos: usize = 0;
        while pos < out.len() && text_le_str(key_of(&out[pos]), kx)
            invariant
                pos <= out@.len(),
                ov == views(out@),
                forall|k: int| 0 <= k < pos ==> text_le(creation_key(#[trigger] ov[k]), kx@),
            decreases out@.len() - pos,
        {
            pos = pos + 1;
        }
        let ghost xv = x@;
        assert(creation_key(xv) == kx@);
        proof {
            if pos < ov.len() {
                lemma_text_le_total(creation_key(ov[pos as int]), kx@);
            }
        }
        out.insert(pos, x.duplicate());
        let ghost nv = views(out@);
        assert(nv =~= ov.insert(pos as int, xv));
        let ghost np = p.insert(pos as int, i as int);
        proof {
            assert forall|a: int, b: int| 0 <= a < b < nv.len() implies text_le(
                creation_key(#[trigger] nv[a]),
                creation_key(#[trigger] nv[b]),
            ) by {
                if b < pos {
                    assert(nv[a] == ov[a] && nv[b] == ov[b]);
                } else if b == pos {
                    assert(nv[a] == ov[a]);
                } else if a == pos {
                    assert(nv[b] == ov[b - 1]);
                    if b - 1 > pos {
                        assert(text_le(creation_key(ov[pos as int]), creation_key(ov[b - 1])));
                        lemma_text_le_trans(kx@, creation_key(ov[pos as int]), creation_key(ov[b - 1]));
                    }
                } else if a < pos {
                    assert(nv[a] == ov[a] && nv[b] == ov[b - 1]);
                } else {
                    assert(nv[a] == ov[a - 1] && nv[b] == ov[b - 1]);
                }
            }
            assert forall|k: int| 0 <= k < np.len() implies 0 <= #[trigger] np[k] < i + 1 && out@[k]@
                == input[np[k]] by {
                if k < pos {
                    assert(np[k] == p[k] && nv[k] == ov[k]);
                } else if k > pos {
                    assert(np[k] == p[k - 1] && nv[k] == ov[k - 1]);
                }
            }
            assert forall|a: int, b: int| 0 <= a < b < np.len() implies #[trigger] np[a] != #[trigger] np[b] by {
                if a < pos && b < pos {
                } else if a == pos {
                    assert(np[b] == p[b - 1]);
                } else if b == pos {
                    assert(np[a] == p[a]);
                } else if a < pos {
                    assert(np[a] == p[a] && np[b] == p[b - 1]);
                } else {
                    assert(np[a] == p[a - 1] && np[b] == p[b - 1]);
                }
            }
            assert forall|a: int, b: int|
                0 <= a < b < np.len() && creation_key(#[trigger] nv[a]) == creation_key(#[trigger] nv[b]) implies np[a]
                < np[b] by {
                if a < pos && b < pos {
                    assert(nv[a] == ov[a] && nv[b] == ov[b]);
                } else if b == pos {
                    assert(np[a] == p[a]);
                } else if a == pos {
                    assert(nv[b] == ov[b - 1]);
                    if b - 1 > pos {
                        assert(text_le(creation_key(ov[pos as int]), creation_key(ov[b - 1])));
                    }
                    assert(false);
                } else if a < pos {
                    assert(nv[a] == ov[a] && nv[b] == ov[b - 1]);
                    assert(np[a] == p[a] && np[b] == p[b - 1]);
                } else {
                    assert(nv[a] == ov[a - 1] && nv[b] == ov[b - 1]);
                    assert(np[a] == p[a - 1] && np[b] == p[b - 1]);
                }
            }
        }
        proof {
            p = np;
        }
        i = i + 1;
    }
    assert(stable_arrangement(input, views(out@), p));
    out
}


// ---------------------------------------------------------------------
// Request bodies
// ---------------------------------------------------------------------

/// The body that posts a comment: `{"comment": text}`.
pub fn comment_body(text: &str) -> (r: Json)
    ensures
        r@ == JsonV::Object(seq![("comment"@, JsonV::Str(text@))]),
{
    let mut m: Vec<(String, Json)> = Vec::new();
    push_member(&mut m, "comment", Json::from_str(text));
    proof {
        lemma_object_view(m);
        assert(members_view(m@) =~= seq![("comment"@, JsonV::Str(text@))]);
    }
    Json::Object(m)
}

/// An open needinfo flag for `email`.
pub open spec fn ni_flag(email: Seq<char>) -> JsonV {
    JsonV::Object(seq![("name"@, JsonV::Str("needinfo"@)), ("requestee"@, JsonV::Str(email)), ("status"@, JsonV::Str("?"@))])
}

/// The body that sets needinfo flags for the emails: `{"flags": [...]}`.
pub open spec fn ni_flags_body(emails: Seq<Seq<char>>) -> JsonV {
    JsonV::Object(seq![("flags"@, JsonV::Array(emails.map_values(|e: Seq<char>| ni_flag(e))))])
}

fn ni_flag_json(email: &str) -> (r: Json)
    ensures
        r@ == ni_flag(email@),
{
    let mut m: Vec<(String, Json)> = Vec::new();
    push_member(&mut m, "name", Json::from_str("needinfo"));
    push_member(&mut m, "requestee", Json::from_str(email));
    push_member(&mut m, "status", Json::from_str("?"));
    proof {
        lemma_object_view(m);
        assert(members_view(m@) =~= seq![
            ("name"@, JsonV::Str("needinfo"@)),
            ("requestee"@, JsonV::Str(email@)),
            ("status"@, JsonV::Str("?"@)),
        ]);
    }
    Json::Object(m)
}

/// The body that sets needinfo flags for the emails, all in one request.
pub fn needinfo_flags_body(emails: &[String]) -> (r: Json)
    ensures
        r@ == ni_flags_body(strings_view(emails@)),
{
    let mut flags: Vec<Json> = Vec::new();
    let mut i: usize = 0;
    while i < emails.len()
        invariant
            i <= emails@.len(),
            flags@.len() == i,
            forall|k: int| 0 <= k < i ==> (#[trigger] flags@[k])@ == ni_flag(emails@[k]@),
        decreases emails@.len() - i,
    {
        flags.push(ni_flag_json(emails[i].as_str()));
        i = i + 1;
    }
    let ghost fv = views(flags@);
    assert(fv =~= strings_view(emails@).map_values(|e: Seq<char>| ni_flag(e)));
    proof {
        crate::json::lemma_array_view(flags);
    }
    let mut m: Vec<(String, Json)> = Vec::new();
    push_member(&mut m, "flags", Json::Array(flags));
    proof {
        lemma_object_view(m);
        assert(members_view(m@) =~= seq![("flags"@, JsonV::Array(fv))]);
    }
    Json::Object(m)
}

// ---------------------------------------------------------------------
// Applying a draft
// ---------------------------------------------------------------------

/// What applying a draft does, in order: post the comment (if any), update
/// the fields (if the update has members), and watch the bug and set the
/// needinfo flags (if the draft names targets).
pub struct ApplyPlan {
    /// The bug the draft is for.
    pub bug_id: u64,
    /// The comment to post.
    pub comment: Option<String>,
    /// The field update (an object).
    pub fields: Json,
    /// The title and needinfo targets of the bug to watch.
    pub watch: Option<(String, Vec<String>)>,
}

/// The bug a draft is for: its `bug_id`, or `id` when it has none.
pub open spec fn draft_bug_id(draft: JsonV, id: u64) -> u64 {
    match draft.get("bug_id"@).as_u64() {
        Some(n) => n,
        None => id,
    }
}

/// The comment of a draft, when it is a non-empty text.
pub open spec fn draft_comment(draft: JsonV) -> Option<Seq<char>> {
    match draft.get("comment"@).as_str() {
        Some(s) => if s.len() > 0 {
            Some(s)
        } else {
            None
        },
        None => None,
    }
}

/// Whether a plan is the one for `draft` (opened for bug `id`).
pub open spec fn plans(plan: ApplyPlan, draft: JsonV, id: u64) -> bool {
    let targets = draft.get("ni_targets"@).array_or_empty();
    &&& plan.bug_id == draft_bug_id(draft, id)
    &&& (match plan.comment {
        Some(c) => Some(c@),
        None => None,
    }) == draft_comment(draft)
    &&& plan.fields@ == JsonV::Object(apply_members(draft))
    &&& (targets.len() > 0) == (plan.watch is Some)
    &&& plan.watch matches Some(w) ==> w.0@ == text_or(draft.get("title"@), "?"@) && strings_view(w.1@)
        == crate::watchlist::strings_in(targets)
}

/// The plan of applying a draft opened for bug `id`.
pub fn plan_apply(draft: &Json, id: u64) -> (r: ApplyPlan)
    ensures
        plans(r, draft@, id),
        (r.watch is Some) <==> (draft@.get("ni_targets"@).as_array() matches Some(a) && a.len() > 0),
        (r.comment is Some) <==> (draft@.get("comment"@).as_str() matches Some(s) && s.len() > 0),
        r.bug_id == (match draft@.get("bug_id"@).as_u64() {
            Some(n) => n,
            None => id,
        }),
{
    let bug_id = match draft.get("bug_id") {
        Some(v) => match v.as_u64() {
            Some(n) => n,
            None => id,
        },
        None => id,
    };
    let comment = match draft.get("comment") {
        Some(v) => match v.as_str() {
            Some(s) => if s.as_str().unicode_len() > 0 {
                Some(s.clone())
            } else {
                None
            },
            None => None,
        },
        None => None,
    };
    let fields = build_apply_field_body(draft);
    let empty: Vec<Json> = Vec::new();
    let targets_j = match draft.get("ni_targets") {
        Some(v) => match v.as_array() {
            Some(a) => a,
            None => &empty,
        },
        None => &empty,
    };
    assert(views(empty@) =~= Seq::<JsonV>::empty());
    let watch = if targets_j.len() > 0 {
        let title = str_or(draft.get("title"), "?").to_owned();
        let targets = crate::watchlist::string_elements(targets_j.as_slice());
        Some((title, targets))
    } else {
        None
    };
    let plan = ApplyPlan { bug_id, comment, fields, watch };
    proof {
        law_plan_apply(plan, draft@, id);
    }
    plan
}


/// The plan of applying a draft given as JSON text, opened for bug `id`;
/// `None` when the text is not JSON.
pub fn plan_apply_text(text: &str, id: u64) -> (r: Option<ApplyPlan>)
    ensures
        match json_of_text(text@) {
            Some(d) => r matches Some(p) && plans(p, d, id),
            None => r is None,
        },
{
    match parse_json_text(text) {
        Some(draft) => Some(plan_apply(&draft, id)),
        None => None,
    }
}

/// The texts shown for a draft's JSON fields in its summary.
pub struct DraftShown {
    pub bug_id: String,
    pub ni_targets: String,
    pub priority: String,
    pub severity: String,
    pub blocks_add: String,
    pub keywords_add: String,
    pub cc_add: String,
}

/// The title line of a draft's summary.
pub open spec fn draft_title_line(draft: JsonV, bug_id: Seq<char>) -> Seq<char> {
    "--- Draft for bug "@ + bug_id + ": "@ + text_or(draft.get("title"@), "?"@) + " ---\n"@
}

/// The comment lines of a draft's summary.
pub open spec fn draft_comment_lines(draft: JsonV) -> Seq<char> {
    "Comment:\n"@ + text_or(draft.get("comment"@), Seq::empty()) + "\n"@
}

/// The summary of a draft shown before it is applied: a title line with the
/// text shown for its bug id and its title, its comment, then a line of the
/// needinfo targets and one of the fields, each as the texts given show it.
pub open spec fn draft_summary_text(
    draft: JsonV,
    bug_id: Seq<char>,
    ni_targets: Seq<char>,
    priority: Seq<char>,
    severity: Seq<char>,
    blocks_add: Seq<char>,
    keywords_add: Seq<char>,
    cc_add: Seq<char>,
) -> Seq<char> {
    draft_title_line(draft, bug_id) + draft_comment_lines(draft) + "NI targets: "@ + ni_targets + "\n"@
        + "Fields: priority="@ + priority + ", severity="@ + severity + ", blocks_add="@ + blocks_add
        + ", keywords_add="@ + keywords_add + ", cc_add="@ + cc_add + "\n"@
}

/// The summary of a draft, its JSON fields shown by the texts of `shown`.
pub fn draft_summary_with(draft: &Json, shown: &DraftShown) -> (r: String)
    ensures
        r@ == draft_summary_text(
            draft@,
            shown.bug_id@,
            shown.ni_targets@,
            shown.priority@,
            shown.severity@,
            shown.blocks_add@,
            shown.keywords_add@,
            shown.cc_add@,
        ),
{
    proof {
        reveal_strlit("");
        assert(""@ =~= Seq::<char>::empty());
    }
    let mut out = "--- Draft for bug ".to_owned();
    out.append(shown.bug_id.as_str());
    out.append(": ");
    out.append(str_or(draft.get("title"), "?"));
    out.append(" ---\n");
    out.append("Comment:\n");
    out.append(str_or(draft.get("comment"), ""));
    out.append("\n");
    out.append("NI targets: ");
    out.append(shown.ni_targets.as_str());
    out.append("\n");
    out.append("Fields: priority=");
    out.append(shown.priority.as_str());
    out.append(", severity=");
    out.append(shown.severity.as_str());
    out.append(", blocks_add=");
    out.append(shown.blocks_add.as_str());
    out.append(", keywords_add=");
    out.append(shown.keywords_add.as_str());
    out.append(", cc_add=");
    out.append(shown.cc_add.as_str());
    out.append("\n");
    assert(out@ =~= draft_summary_text(
        draft@,
        shown.bug_id@,
        shown.ni_targets@,
        shown.priority@,
        shown.severity@,
        shown.blocks_add@,
        shown.keywords_add@,
        shown.cc_add@,
    ));
    out
}

/// The summary of a draft shown before it is applied: its bug and title,
/// comment, needinfo targets and fields, the JSON fields shown as
/// serde_json shows them.
pub fn draft_summary(draft: &Json) -> (r: String)
    ensures
        r@ == draft_summary_text(
            draft@,
            json_display(draft@.get("bug_id"@)),
            json_display(draft@.get("ni_targets"@)),
            json_display(draft@.get("priority"@)),
            json_display(draft@.get("severity"@)),
            json_display(draft@.get("blocks_add"@)),
            json_display(draft@.get("keywords_add"@)),
            json_display(draft@.get("cc_add"@)),
        ),
{
    let shown = DraftShown {
        bug_id: shown_text(draft.get("bug_id")),
        ni_targets: shown_text(draft.get("ni_targets")),
        priority: shown_text(draft.get("priority")),
        severity: shown_text(draft.get("severity")),
        blocks_add: shown_text(draft.get("blocks_add")),
        keywords_add: shown_text(draft.get("keywords_add")),
        cc_add: shown_text(draft.get("cc_add")),
    };
    draft_summary_with(draft, &shown)
}

/// Whether an answer to "Apply? [y/N]" agrees: it is `y` in either case
/// (the only texts whose lower case is `y`).
pub fn is_yes(answer: &str) -> (r: bool)
    ensures
        r == (answer@ == "y"@ || answer@ == "Y"@),
{
    crate::text::str_eq(answer, "y") || crate::text::str_eq(answer, "Y")
}


// ---------------------------------------------------------------------
// Laws
// ---------------------------------------------------------------------

/// The pairs of `s` whose name is not `k`, in order.
pub open spec fn drop_key(s: Seq<(Seq<char>, Seq<char>)>, k: Seq<char>) -> Seq<(Seq<char>, Seq<char>)>
    decreases s.len(),
{
    if s.len() == 0 {
        s
    } else {
        let r = drop_key(s.drop_last(), k);
        if s.last().0 == k {
            r
        } else {
            r.push(s.last())
        }
    }
}

proof fn lemma_drop_key_add(a: Seq<(Seq<char>, Seq<char>)>, b: Seq<(Seq<char>, Seq<char>)>, k: Seq<char>)
    ensures
        drop_key(a + b, k) == drop_key(a, k) + drop_key(b, k),
    decreases b.len(),
{
    if b.len() == 0 {
        assert(a + b =~= a);
        assert(drop_key(a, k) + drop_key(b, k) =~= drop_key(a, k));
    } else {
        lemma_drop_key_add(a, b.drop_last(), k);
        assert((a + b).drop_last() =~= a + b.drop_last());
        assert((a + b).last() == b.last());
        if b.last().0 != k {
            assert(drop_key(a, k) + drop_key(b.drop_last(), k).push(b.last()) =~= (drop_key(a, k) + drop_key(
                b.drop_last(),
                k,
            )).push(b.last()));
        }
    }
}

proof fn lemma_drop_key_keeps(s: Seq<(Seq<char>, Seq<char>)>, k: Seq<char>)
    requires
        forall|i: int| 0 <= i < s.len() ==> (#[trigger] s[i]).0 != k,
    ensures
        drop_key(s, k) == s,
    decreases s.len(),
{
    if s.len() > 0 {
        assert(s.last() == s[s.len() - 1]);
        lemma_drop_key_keeps(s.drop_last(), k);
        assert(s.drop_last().push(s.last()) =~= s);
    }
}

proof fn lemma_drop_key_drops(s: Seq<(Seq<char>, Seq<char>)>, k: Seq<char>)
    requires
        forall|i: int| 0 <= i < s.len() ==> (#[trigger] s[i]).0 == k,
    ensures
        drop_key(s, k) == Seq::<(Seq<char>, Seq<char>)>::empty(),
    decreases s.len(),
{
    if s.len() > 0 {
        assert(s.last() == s[s.len() - 1]);
        lemma_drop_key_drops(s.drop_last(), k);
    }
}

proof fn lemma_keys_differ(a: Seq<char>, b: Seq<char>, i: int)
    requires
        0 <= i < a.len(),
        i < b.len(),
        a[i] != b[i],
    ensures
        a != b,
{
}

/// Searching all statuses is searching open bugs without the status
/// filter, and a search in no product is a search in a product without the
/// product filter: the parameters of one are those of the other with the
/// `bug_status` pairs, or the `product` pair, taken out.
pub proof fn law_search_filters_removable(
    query: Seq<char>,
    components: Seq<Seq<char>>,
    product: Option<Seq<char>>,
    limit: u32,
    full_text: bool,
    all_statuses: bool,
)
    ensures
        drop_key(search_params(query, components, product, limit, full_text, false), "bug_status"@) == search_params(
            query,
            components,
            product,
            limit,
            full_text,
            true,
        ),
        drop_key(search_params(query, components, product, limit, full_text, all_statuses), "product"@)
            == search_params(query, components, None, limit, full_text, all_statuses),
{
    reveal_strlit("query_format");
    reveal_strlit("limit");
    reveal_strlit("f1");
    reveal_strlit("j1");
    reveal_strlit("f2");
    reveal_strlit("o2");
    reveal_strlit("v2");
    reveal_strlit("f3");
    reveal_strlit("o3");
    reveal_strlit("v3");
    reveal_strlit("f4");
    reveal_strlit("o1");
    reveal_strlit("v1");
    reveal_strlit("bug_status");
    reveal_strlit("component");
    reveal_strlit("product");
    let bs = "bug_status"@;
    let pr = "product"@;
    let head = seq![("query_format"@, "advanced"@), ("limit"@, decimal(limit as nat))];
    let tm = text_match_params(query, full_text);
    let st = open_statuses().map_values(|s: Seq<char>| ("bug_status"@, s));
    let cp = components.map_values(|c: Seq<char>| ("component"@, c));
    let pp = match product {
        Some(p) => seq![("product"@, p)],
        None => Seq::<(Seq<char>, Seq<char>)>::empty(),
    };
    // No fixed name but `bug_status` is `bug_status`, and none but `product` is `product`.
    lemma_keys_differ("query_format"@, bs, 0);
    lemma_keys_differ("limit"@, bs, 0);
    lemma_keys_differ("component"@, bs, 0);
    lemma_keys_differ("product"@, bs, 0);
    lemma_keys_differ("query_format"@, pr, 0);
    lemma_keys_differ("limit"@, pr, 0);
    lemma_keys_differ("component"@, pr, 0);
    lemma_keys_differ("bug_status"@, pr, 0);
    assert forall|i: int| 0 <= i < tm.len() implies (#[trigger] tm[i]).0 != bs && tm[i].0 != pr by {
        let n = tm[i].0;
        assert(n.len() == 2);
        assert(bs.len() != 2 && pr.len() != 2);
    }
    assert forall|i: int| 0 <= i < head.len() implies (#[trigger] head[i]).0 != bs && head[i].0 != pr by {}
    assert forall|i: int| 0 <= i < cp.len() implies (#[trigger] cp[i]).0 != bs && cp[i].0 != pr by {}
    assert forall|i: int| 0 <= i < st.len() implies (#[trigger] st[i]).0 == bs && st[i].0 != pr by {}
    assert forall|i: int| 0 <= i < pp.len() implies (#[trigger] pp[i]).0 != bs && pp[i].0 == pr by {}
    lemma_drop_key_keeps(head, bs);
    lemma_drop_key_keeps(tm, bs);
    lemma_drop_key_keeps(cp, bs);
    lemma_drop_key_keeps(pp, bs);
    lemma_drop_key_drops(st, bs);
    lemma_drop_key_keeps(head, pr);
    lemma_drop_key_keeps(tm, pr);
    lemma_drop_key_keeps(cp, pr);
    lemma_drop_key_keeps(st, pr);
    lemma_drop_key_drops(pp, pr);
    let e = Seq::<(Seq<char>, Seq<char>)>::empty();
    lemma_drop_key_keeps(e, pr);
    // Statuses.
    lemma_drop_key_add(head + tm + st + cp, pp, bs);
    lemma_drop_key_add(head + tm + st, cp, bs);
    lemma_drop_key_add(head + tm, st, bs);
    lemma_drop_key_add(head, tm, bs);
    assert(search_params(query, components, product, limit, full_text, false) == head + tm + st + cp + pp);
    assert(search_params(query, components, product, limit, full_text, true) =~= head + tm + cp + pp);
    assert(head + tm + e + cp + pp =~= head + tm + cp + pp);
    // Product.
    let sx = if all_statuses {
        e
    } else {
        st
    };
    assert forall|i: int| 0 <= i < sx.len() implies (#[trigger] sx[i]).0 != pr by {
        assert(sx[i] == st[i]);
    }
    lemma_drop_key_keeps(sx, pr);
    lemma_drop_key_add(head + tm + sx + cp, pp, pr);
    lemma_drop_key_add(head + tm + sx, cp, pr);
    lemma_drop_key_add(head + tm, sx, pr);
    lemma_drop_key_add(head, tm, pr);
    assert(search_params(query, components, product, limit, full_text, all_statuses) == head + tm + sx + cp + pp);
    assert(search_params(query, components, None, limit, full_text, all_statuses) =~= head + tm + sx + cp + e);
    assert(head + tm + sx + cp + e =~= head + tm + sx + cp);
}

/// Whether the only value `p` gives the name `k` is `v`: some pair is
/// `(k, v)`, and every pair named `k` has the value `v`.
pub open spec fn sole_value(p: Seq<(Seq<char>, Seq<char>)>, k: Seq<char>, v: Seq<char>) -> bool {
    &&& p.contains((k, v))
    &&& forall|i: int| 0 <= i < p.len() && (#[trigger] p[i]).0 == k ==> p[i].1 == v
}

/// Each name of the triage query with the value it has there.
spec fn triage_rule(pair: (Seq<char>, Seq<char>), start: Seq<char>, end: Seq<char>) -> bool {
    &&& (pair.0 == "query_format"@ ==> pair.1 == "advanced"@)
    &&& (pair.0 == "emailassigned_to1"@ ==> pair.1 == "1"@)
    &&& (pair.0 == "email1"@ ==> pair.1 == "nobody@mozilla.org"@)
    &&& (pair.0 == "emailtype1"@ ==> pair.1 == "exact"@)
    &&& (pair.0 == "keywords_type"@ ==> pair.1 == "nowords"@)
    &&& (pair.0 == "keywords"@ ==> pair.1 == "meta"@)
    &&& (pair.0 == "f1"@ ==> pair.1 == "OP"@)
    &&& (pair.0 == "f2"@ ==> pair.1 == "creation_ts"@)
    &&& (pair.0 == "o2"@ ==> pair.1 == "changedafter"@)
    &&& (pair.0 == "v2"@ ==> pair.1 == start)
    &&& (pair.0 == "f3"@ ==> pair.1 == "creation_ts"@)
    &&& (pair.0 == "o3"@ ==> pair.1 == "changedafter"@)
    &&& (pair.0 == "n3"@ ==> pair.1 == "1"@)
    &&& (pair.0 == "v3"@ ==> pair.1 == end)
    &&& (pair.0 == "f4"@ ==> pair.1 == "CP"@)
    &&& (pair.0 == "f5"@ ==> pair.1 == "bug_severity"@)
    &&& (pair.0 == "o5"@ ==> pair.1 == "equals"@)
    &&& (pair.0 == "v5"@ ==> pair.1 == "--"@)
    &&& (pair.0 == "f6"@ ==> pair.1 == "bug_type"@)
    &&& (pair.0 == "o6"@ ==> pair.1 == "equals"@)
    &&& (pair.0 == "v6"@ ==> pair.1 == "defect"@)
    &&& (pair.0 == "f9"@ ==> pair.1 == "bug_group"@)
    &&& (pair.0 == "o9"@ ==> pair.1 == "notsubstring"@)
    &&& (pair.0 == "v9"@ ==> pair.1 == "core-security"@)
}

/// The names of the triage query, with what tells them apart.
proof fn lemma_name_facts()
    ensures
        "query_format"@.len() == 12 && "query_format"@[0] == 'q' && "query_format"@[1] == 'u',
        "emailassigned_to1"@.len() == 17 && "emailassigned_to1"@[0] == 'e' && "emailassigned_to1"@[1] == 'm',
        "email1"@.len() == 6 && "email1"@[0] == 'e' && "email1"@[1] == 'm',
        "emailtype1"@.len() == 10 && "emailtype1"@[0] == 'e' && "emailtype1"@[1] == 'm',
        "keywords_type"@.len() == 13 && "keywords_type"@[0] == 'k' && "keywords_type"@[1] == 'e',
        "keywords"@.len() == 8 && "keywords"@[0] == 'k' && "keywords"@[1] == 'e',
        "f1"@.len() == 2 && "f1"@[0] == 'f' && "f1"@[1] == '1',
        "f2"@.len() == 2 && "f2"@[0] == 'f' && "f2"@[1] == '2',
        "o2"@.len() == 2 && "o2"@[0] == 'o' && "o2"@[1] == '2',
        "v2"@.len() == 2 && "v2"@[0] == 'v' && "v2"@[1] == '2',
        "f3"@.len() == 2 && "f3"@[0] == 'f' && "f3"@[1] == '3',
        "o3"@.len() == 2 && "o3"@[0] == 'o' && "o3"@[1] == '3',
        "n3"@.len() == 2 && "n3"@[0] == 'n' && "n3"@[1] == '3',
        "v3"@.len() == 2 && "v3"@[0] == 'v' && "v3"@[1] == '3',
        "f4"@.len() == 2 && "f4"@[0] == 'f' && "f4"@[1] == '4',
        "f5"@.len() == 2 && "f5"@[0] == 'f' && "f5"@[1] == '5',
        "o5"@.len() == 2 && "o5"@[0] == 'o' && "o5"@[1] == '5',
        "v5"@.len() == 2 && "v5"@[0] == 'v' && "v5"@[1] == '5',
        "f6"@.len() == 2 && "f6"@[0] == 'f' && "f6"@[1] == '6',
        "o6"@.len() == 2 && "o6"@[0] == 'o' && "o6"@[1] == '6',
        "v6"@.len() == 2 && "v6"@[0] == 'v' && "v6"@[1] == '6',
        "f9"@.len() == 2 && "f9"@[0] == 'f' && "f9"@[1] == '9',
        "o9"@.len() == 2 && "o9"@[0] == 'o' && "o9"@[1] == '9',
        "v9"@.len() == 2 && "v9"@[0] == 'v' && "v9"@[1] == '9',
        "component"@.len() == 9 && "component"@[0] == 'c' && "component"@[1] == 'o',
        "bug_status"@.len() == 10 && "bug_status"@[0] == 'b' && "bug_status"@[1] == 'u',
{
    reveal_strlit("query_format");
    reveal_strlit("emailassigned_to1");
    reveal_strlit("email1");
    reveal_strlit("emailtype1");
    reveal_strlit("keywords_type");
    reveal_strlit("keywords");
    reveal_strlit("f1");
    reveal_strlit("f2");
    reveal_strlit("o2");
    reveal_strlit("v2");
    reveal_strlit("f3");
    reveal_strlit("o3");
    reveal_strlit("n3");
    reveal_strlit("v3");
    reveal_strlit("f4");
    reveal_strlit("f5");
    reveal_strlit("o5");
    reveal_strlit("v5");
    reveal_strlit("f6");
    reveal_strlit("o6");
    reveal_strlit("v6");
    reveal_strlit("f9");
    reveal_strlit("o9");
    reveal_strlit("v9");
    reveal_strlit("component");
    reveal_strlit("bug_status");
}

proof fn lemma_triage_rule(start: Seq<char>, end: Seq<char>)
    ensures
        forall|i: int| 0 <= i < triage_query(start, end).len() ==> #[trigger] triage_rule(triage_query(start, end)[i], start, end),
        forall|i: int| 0 <= i < triage_query(start, end).len() ==> (#[trigger] triage_query(start, end)[i]).0 != "component"@
            && triage_query(start, end)[i].0 != "bug_status"@,
{
    lemma_name_facts();
    let tq = triage_query(start, end);
    assert forall|i: int| 0 <= i < tq.len() implies #[trigger] triage_rule(tq[i], start, end) && tq[i].0 != "component"@
        && tq[i].0 != "bug_status"@ by {
        if i == 0 {
            assert(tq[0] == ("query_format"@, "advanced"@));
        } else if i == 1 {
            assert(tq[1] == ("emailassigned_to1"@, "1"@));
        } else if i == 2 {
            assert(tq[2] == ("email1"@, "nobody@mozilla.org"@));
        } else if i == 3 {
            assert(tq[3] == ("emailtype1"@, "exact"@));
        } else if i == 4 {
            assert(tq[4] == ("keywords_type"@, "nowords"@));
        } else if i == 5 {
            assert(tq[5] == ("keywords"@, "meta"@));
        } else if i == 6 {
            assert(tq[6] == ("f1"@, "OP"@));
        } else if i == 7 {
            assert(tq[7] == ("f2"@, "creation_ts"@));
        } else if i == 8 {
            assert(tq[8] == ("o2"@, "changedafter"@));
        } else if i == 9 {
            assert(tq[9] == ("v2"@, start));
        } else if i == 10 {
            assert(tq[10] == ("f3"@, "creation_ts"@));
        } else if i == 11 {
            assert(tq[11] == ("o3"@, "changedafter"@));
        } else if i == 12 {
            assert(tq[12] == ("n3"@, "1"@));
        } else if i == 13 {
            assert(tq[13] == ("v3"@, end));
        } else if i == 14 {
            assert(tq[14] == ("f4"@, "CP"@));
        } else if i == 15 {
            assert(tq[15] == ("f5"@, "bug_severity"@));
        } else if i == 16 {
            assert(tq[16] == ("o5"@, "equals"@));
        } else if i == 17 {
            assert(tq[17] == ("v5"@, "--"@));
        } else if i == 18 {
            assert(tq[18] == ("f6"@, "bug_type"@));
        } else if i == 19 {
            assert(tq[19] == ("o6"@, "equals"@));
        } else if i == 20 {
            assert(tq[20] == ("v6"@, "defect"@));
        } else if i == 21 {
            assert(tq[21] == ("f9"@, "bug_group"@));
        } else if i == 22 {
            assert(tq[22] == ("o9"@, "notsubstring"@));
        } else if i == 23 {
            assert(tq[23] == ("v9"@, "core-security"@));
        }
    }
}

/// The triage fetch asks for unassigned (`nobody@mozilla.org`), non-meta,
/// untriaged (severity `--`) defects filed from `start` (inclusive) to `end`
/// (exclusive), leaving out bugs in the `core-security` group; in the
/// components named (the default set when none are), with an open status.
/// Each condition's value is the only one its name has.
pub proof fn law_fetch_triage_query(start: Seq<char>, end: Seq<char>, components: Seq<Seq<char>>)
    ensures
        ({
            let p = fetch_params(start, end, components);
            let comps = if components.len() == 0 {
                triage_components()
            } else {
                components
            };
            &&& sole_value(p, "query_format"@, "advanced"@)
            &&& sole_value(p, "emailassigned_to1"@, "1"@)
            &&& sole_value(p, "email1"@, "nobody@mozilla.org"@)
            &&& sole_value(p, "emailtype1"@, "exact"@)
            &&& sole_value(p, "keywords_type"@, "nowords"@)
            &&& sole_value(p, "keywords"@, "meta"@)
            &&& sole_value(p, "f1"@, "OP"@)
            &&& sole_value(p, "f2"@, "creation_ts"@)
            &&& sole_value(p, "o2"@, "changedafter"@)
            &&& sole_value(p, "v2"@, start)
            &&& sole_value(p, "f3"@, "creation_ts"@)
            &&& sole_value(p, "o3"@, "changedafter"@)
            &&& sole_value(p, "n3"@, "1"@)
            &&& sole_value(p, "v3"@, end)
            &&& sole_value(p, "f4"@, "CP"@)
            &&& sole_value(p, "f5"@, "bug_severity"@)
            &&& sole_value(p, "o5"@, "equals"@)
            &&& sole_value(p, "v5"@, "--"@)
            &&& sole_value(p, "f6"@, "bug_type"@)
            &&& sole_value(p, "o6"@, "equals"@)
            &&& sole_value(p, "v6"@, "defect"@)
            &&& sole_value(p, "f9"@, "bug_group"@)
            &&& sole_value(p, "o9"@, "notsubstring"@)
            &&& sole_value(p, "v9"@, "core-security"@)
            &&& forall|c: Seq<char>| comps.contains(c) ==> p.contains(("component"@, c))
            &&& forall|i: int| 0 <= i < p.len() && (#[trigger] p[i]).0 == "component"@ ==> comps.contains(p[i].1)
            &&& forall|s: Seq<char>| open_statuses().contains(s) ==> p.contains(("bug_status"@, s))
            &&& forall|i: int| 0 <= i < p.len() && (#[trigger] p[i]).0 == "bug_status"@ ==> open_statuses().contains(p[i].1)
        }),
{
    lemma_triage_rule(start, end);
    lemma_name_facts();
    let tq = triage_query(start, end);
    let comps = if components.len() == 0 {
        triage_components()
    } else {
        components
    };
    let cp = comps.map_values(|c: Seq<char>| ("component"@, c));
    let st = open_statuses().map_values(|s: Seq<char>| ("bug_status"@, s));
    let p = fetch_params(start, end, components);
    assert(p == tq + cp + st);
    assert forall|i: int| 0 <= i < p.len() implies (i < tq.len() ==> p[i] == tq[i]) && (tq.len() <= i < tq.len()
        + cp.len() ==> p[i] == cp[i - tq.len()]) && (tq.len() + cp.len() <= i ==> p[i] == st[i - tq.len() - cp.len()])
        by {}
    assert forall|i: int| 0 <= i < p.len() implies #[trigger] triage_rule(p[i], start, end) by {
        if i < tq.len() {
            assert(triage_rule(tq[i], start, end));
        } else if i < tq.len() + cp.len() {
            assert(p[i].0 == "component"@);
        } else {
            assert(p[i].0 == "bug_status"@);
        }
    }
    assert(p[0] == tq[0] && tq[0] == ("query_format"@, "advanced"@));
    assert(p[1] == tq[1] && tq[1] == ("emailassigned_to1"@, "1"@));
    assert(p[2] == tq[2] && tq[2] == ("email1"@, "nobody@mozilla.org"@));
    assert(p[3] == tq[3] && tq[3] == ("emailtype1"@, "exact"@));
    assert(p[4] == tq[4] && tq[4] == ("keywords_type"@, "nowords"@));
    assert(p[5] == tq[5] && tq[5] == ("keywords"@, "meta"@));
    assert(p[6] == tq[6] && tq[6] == ("f1"@, "OP"@));
    assert(p[7] == tq[7] && tq[7] == ("f2"@, "creation_ts"@));
    assert(p[8] == tq[8] && tq[8] == ("o2"@, "changedafter"@));
    assert(p[9] == tq[9] && tq[9] == ("v2"@, start));
    assert(p[10] == tq[10] && tq[10] == ("f3"@, "creation_ts"@));
    assert(p[11] == tq[11] && tq[11] == ("o3"@, "changedafter"@));
    assert(p[12] == tq[12] && tq[12] == ("n3"@, "1"@));
    assert(p[13] == tq[13] && tq[13] == ("v3"@, end));
    assert(p[14] == tq[14] && tq[14] == ("f4"@, "CP"@));
    assert(p[15] == tq[15] && tq[15] == ("f5"@, "bug_severity"@));
    assert(p[16] == tq[16] && tq[16] == ("o5"@, "equals"@));
    assert(p[17] == tq[17] && tq[17] == ("v5"@, "--"@));
    assert(p[18] == tq[18] && tq[18] == ("f6"@, "bug_type"@));
    assert(p[19] == tq[19] && tq[19] == ("o6"@, "equals"@));
    assert(p[20] == tq[20] && tq[20] == ("v6"@, "defect"@));
    assert(p[21] == tq[21] && tq[21] == ("f9"@, "bug_group"@));
    assert(p[22] == tq[22] && tq[22] == ("o9"@, "notsubstring"@));
    assert(p[23] == tq[23] && tq[23] == ("v9"@, "core-security"@));
    assert forall|c: Seq<char>| comps.contains(c) implies p.contains(("component"@, c)) by {
        let j = choose|j: int| 0 <= j < comps.len() && comps[j] == c;
        assert(p[tq.len() + j] == cp[j]);
    }
    assert forall|i: int| 0 <= i < p.len() && (#[trigger] p[i]).0 == "component"@ implies comps.contains(p[i].1) by {
        if i < tq.len() {
            assert(tq[i].0 != "component"@);
        } else if i < tq.len() + cp.len() {
            assert(comps[i - tq.len()] == p[i].1);
        } else {
            assert(p[i].0 == "bug_status"@);
            assert("bug_status"@.len() != "component"@.len());
        }
    }
    assert forall|s: Seq<char>| open_statuses().contains(s) implies p.contains(("bug_status"@, s)) by {
        let j = choose|j: int| 0 <= j < open_statuses().len() && open_statuses()[j] == s;
        assert(p[tq.len() + cp.len() + j] == st[j]);
    }
    assert forall|i: int| 0 <= i < p.len() && (#[trigger] p[i]).0 == "bug_status"@ implies open_statuses().contains(
        p[i].1,
    ) by {
        if i < tq.len() {
            assert(tq[i].0 != "bug_status"@);
        } else if i < tq.len() + cp.len() {
            assert(p[i].0 == "component"@);
            assert("bug_status"@.len() != "component"@.len());
        } else {
            assert(open_statuses()[i - tq.len() - cp.len()] == p[i].1);
        }
    }
}

/// What applying a draft does, in terms of the draft: the bug is watched
/// (and its needinfo flags set) exactly when `ni_targets` is an array with
/// at least one element, and then for all the targets, in order, when they
/// are all strings, under the draft's title (`?` without one); the comment
/// is posted exactly when it is a non-empty text, and it is that text; the
/// bug is the draft's `bug_id` when that is a number, else the one opened.
pub proof fn law_plan_apply(plan: ApplyPlan, draft: JsonV, id: u64)
    requires
        plans(plan, draft, id),
    ensures
        (plan.watch is Some) <==> (draft.get("ni_targets"@).as_array() matches Some(a) && a.len() > 0),
        plan.watch matches Some(w) ==> (draft.get("title"@).as_str() matches Some(t) ==> w.0@ == t),
        plan.watch matches Some(w) ==> (draft.get("title"@).as_str() is None ==> w.0@ == "?"@),
        plan.watch matches Some(w) ==> match draft.get("ni_targets"@).as_array() {
            Some(a) => (forall|k: int| 0 <= k < a.len() ==> (#[trigger] a[k]) is Str) ==> (w.1@.len() == a.len()
                && forall|k: int| 0 <= k < a.len() ==> a[k] == JsonV::Str((#[trigger] w.1@[k])@)),
            None => true,
        },
        (plan.comment is Some) <==> (draft.get("comment"@).as_str() matches Some(s) && s.len() > 0),
        plan.comment matches Some(c) ==> draft.get("comment"@).as_str() == Some(c@),
        plan.bug_id == (match draft.get("bug_id"@).as_u64() {
            Some(n) => n,
            None => id,
        }),
{
    match draft.get("ni_targets"@).as_array() {
        Some(a) => {
            assert(draft.get("ni_targets"@).array_or_empty() == a);
            if plan.watch is Some && (forall|k: int| 0 <= k < a.len() ==> (#[trigger] a[k]) is Str) {
                let w = plan.watch->0;
                crate::watchlist::lemma_strings_in_all(a);
                assert(strings_view(w.1@) == crate::watchlist::strings_in(a));
                assert forall|k: int| 0 <= k < a.len() implies a[k] == JsonV::Str((#[trigger] w.1@[k])@) by {
                    assert(strings_view(w.1@)[k] == w.1@[k]@);
                }
            }
        },
        None => {},
    }
}

proof fn lemma_member_concat(a: Seq<(Seq<char>, JsonV)>, b: Seq<(Seq<char>, JsonV)>, k: Seq<char>)
    ensures
        crate::json::last_member(a + b, k) == (match crate::json::last_member(b, k) {
            Some(v) => Some(v),
            None => crate::json::last_member(a, k),
        }),
    decreases b.len(),
{
    if b.len() == 0 {
        assert(a + b =~= a);
    } else {
        lemma_member_concat(a, b.drop_last(), k);
        assert((a + b).drop_last() =~= a + b.drop_last());
        assert((a + b).last() == b.last());
    }
}

proof fn lemma_member_single(name: Seq<char>, v: JsonV, k: Seq<char>)
    ensures
        crate::json::last_member(seq![(name, v)], k) == (if name == k {
            Some(v)
        } else {
            None::<JsonV>
        }),
{
    let s = seq![(name, v)];
    assert(s.drop_last() =~= Seq::<(Seq<char>, JsonV)>::empty());
    assert(s.last() == (name, v));
    assert(crate::json::last_member(s.drop_last(), k) is None);
}

proof fn lemma_field_names()
    ensures
        "blocks"@.len() == 6 && "blocks"@[0] == 'b',
        "cc"@.len() == 2 && "cc"@[0] == 'c',
        "dupe_of"@.len() == 7 && "dupe_of"@[0] == 'd',
        "keywords"@.len() == 8 && "keywords"@[0] == 'k',
        "priority"@.len() == 8 && "priority"@[0] == 'p',
        "resolution"@.len() == 10 && "resolution"@[0] == 'r',
        "severity"@.len() == 8 && "severity"@[0] == 's',
        "status"@.len() == 6 && "status"@[0] == 's',
        "add"@.len() == 3 && "add"@[0] == 'a',
{
    reveal_strlit("blocks");
    reveal_strlit("cc");
    reveal_strlit("dupe_of");
    reveal_strlit("keywords");
    reveal_strlit("priority");
    reveal_strlit("resolution");
    reveal_strlit("severity");
    reveal_strlit("status");
    reveal_strlit("add");
}

proof fn lemma_opt_member(name: Seq<char>, v: Option<JsonV>, k: Seq<char>)
    ensures
        crate::json::last_member(opt_member(name, v), k) == (if name == k {
            v
        } else {
            None::<JsonV>
        }),
{
    match v {
        Some(x) => lemma_member_single(name, x, k),
        None => {},
    }
}

proof fn lemma_list_member(name: Seq<char>, items: Seq<JsonV>, k: Seq<char>)
    ensures
        crate::json::last_member(list_member(name, items), k) == (if name == k && items.len() > 0 {
            Some(add_list(JsonV::Array(items)))
        } else {
            None::<JsonV>
        }),
{
    if items.len() > 0 {
        lemma_member_single(name, add_list(JsonV::Array(items)), k);
    }
}

/// A field update holds each given field under its own name and nothing for
/// a field not given: each text as a string, the duplicate's number, and
/// each list of additions as `{"add": [...]}` with every item given, in
/// order.
pub proof fn law_fields_update(
    priority: Option<Seq<char>>,
    severity: Option<Seq<char>>,
    status: Option<Seq<char>>,
    resolution: Option<Seq<char>>,
    dupe_of: Option<u64>,
    blocks_add: Seq<u64>,
    keywords_add: Seq<Seq<char>>,
    cc_add: Seq<Seq<char>>,
)
    ensures
        ({
            let body = JsonV::Object(
                update_members(priority, severity, status, resolution, dupe_of, blocks_add, keywords_add, cc_add),
            );
            &&& body.member("priority"@) == (match priority {
                Some(p) => Some(JsonV::Str(p)),
                None => None,
            })
            &&& body.member("severity"@) == (match severity {
                Some(p) => Some(JsonV::Str(p)),
                None => None,
            })
            &&& body.member("status"@) == (match status {
                Some(p) => Some(JsonV::Str(p)),
                None => None,
            })
            &&& body.member("resolution"@) == (match resolution {
                Some(p) => Some(JsonV::Str(p)),
                None => None,
            })
            &&& body.member("dupe_of"@) == (match dupe_of {
                Some(n) => Some(JsonV::Number(decimal(n as nat))),
                None => None,
            })
            &&& (body.member("keywords"@) is None <==> keywords_add.len() == 0)
            &&& keywords_add.len() > 0 ==> (body.get("keywords"@).get("add"@).as_array() matches Some(a) && a.len()
                == keywords_add.len() && forall|i: int| 0 <= i < a.len() ==> a[i] == JsonV::Str(#[trigger] keywords_add[i]))
            &&& (body.member("cc"@) is None <==> cc_add.len() == 0)
            &&& cc_add.len() > 0 ==> (body.get("cc"@).get("add"@).as_array() matches Some(a) && a.len() == cc_add.len()
                && forall|i: int| 0 <= i < a.len() ==> a[i] == JsonV::Str(#[trigger] cc_add[i]))
            &&& (body.member("blocks"@) is None <==> blocks_add.len() == 0)
            &&& blocks_add.len() > 0 ==> (body.get("blocks"@).get("add"@).as_array() matches Some(a) && a.len()
                == blocks_add.len() && forall|i: int| 0 <= i < a.len() ==> a[i] == JsonV::Number(
                decimal(#[trigger] blocks_add[i] as nat),
            ))
        }),
{
    lemma_field_names();
    let dv = match dupe_of {
        Some(n) => Some(JsonV::Number(decimal(n as nat))),
        None => None,
    };
    let p1 = list_member("blocks"@, num_values(blocks_add));
    let p2 = list_member("cc"@, str_values(cc_add));
    let p3 = opt_member("dupe_of"@, dv);
    let p4 = list_member("keywords"@, str_values(keywords_add));
    let p5 = opt_member("priority"@, opt_str(priority));
    let p6 = opt_member("resolution"@, opt_str(resolution));
    let p7 = opt_member("severity"@, opt_str(severity));
    let p8 = opt_member("status"@, opt_str(status));
    let ms = update_members(priority, severity, status, resolution, dupe_of, blocks_add, keywords_add, cc_add);
    assert(ms == p1 + p2 + p3 + p4 + p5 + p6 + p7 + p8);
    lemma_field_names();
    let add = "add"@;
    lemma_member_single(add, JsonV::Array(str_values(keywords_add)), add);
    lemma_member_single(add, JsonV::Array(str_values(cc_add)), add);
    lemma_member_single(add, JsonV::Array(num_values(blocks_add)), add);
    let k = "blocks"@;
    lemma_member_concat(p1 + p2 + p3 + p4 + p5 + p6 + p7, p8, k);
    lemma_member_concat(p1 + p2 + p3 + p4 + p5 + p6, p7, k);
    lemma_member_concat(p1 + p2 + p3 + p4 + p5, p6, k);
    lemma_member_concat(p1 + p2 + p3 + p4, p5, k);
    lemma_member_concat(p1 + p2 + p3, p4, k);
    lemma_member_concat(p1 + p2, p3, k);
    lemma_member_concat(p1, p2, k);
    lemma_list_member("blocks"@, num_values(blocks_add), k);
    lemma_list_member("cc"@, str_values(cc_add), k);
    lemma_opt_member("dupe_of"@, dv, k);
    lemma_list_member("keywords"@, str_values(keywords_add), k);
    lemma_opt_member("priority"@, opt_str(priority), k);
    lemma_opt_member("resolution"@, opt_str(resolution), k);
    lemma_opt_member("severity"@, opt_str(severity), k);
    lemma_opt_member("status"@, opt_str(status), k);
    assert(JsonV::Object(ms).member(k) == crate::json::last_member(ms, k));
    let k = "cc"@;
    lemma_member_concat(p1 + p2 + p3 + p4 + p5 + p6 + p7, p8, k);
    lemma_member_concat(p1 + p2 + p3 + p4 + p5 + p6, p7, k);
    lemma_member_concat(p1 + p2 + p3 + p4 + p5, p6, k);
    lemma_member_concat(p1 + p2 + p3 + p4, p5, k);
    lemma_member_concat(p1 + p2 + p3, p4, k);
    lemma_member_concat(p1 + p2, p3, k);
    lemma_member_concat(p1, p2, k);
    lemma_list_member("blocks"@, num_values(blocks_add), k);
    lemma_list_member("cc"@, str_values(cc_add), k);
    lemma_opt_member("dupe_of"@, dv, k);
    lemma_list_member("keywords"@, str_values(keywords_add), k);
    lemma_opt_member("priority"@, opt_str(priority), k);
    lemma_opt_member("resolution"@, opt_str(resolution), k);
    lemma_opt_member("severity"@, opt_str(severity), k);
    lemma_opt_member("status"@, opt_str(status), k);
    assert(JsonV::Object(ms).member(k) == crate::json::last_member(ms, k));
    let k = "dupe_of"@;
    lemma_member_concat(p1 + p2 + p3 + p4 + p5 + p6 + p7, p8, k);
    lemma_member_concat(p1 + p2 + p3 + p4 + p5 + p6, p7, k);
    lemma_member_concat(p1 + p2 + p3 + p4 + p5, p6, k);
    lemma_member_concat(p1 + p2 + p3 + p4, p5, k);
    lemma_member_concat(p1 + p2 + p3, p4, k);
    lemma_member_concat(p1 + p2, p3, k);
    lemma_member_concat(p1, p2, k);
    lemma_list_member("blocks"@, num_values(blocks_add), k);
    lemma_list_member("cc"@, str_values(cc_add), k);
    lemma_opt_member("dupe_of"@, dv, k);
    lemma_list_member("keywords"@, str_values(keywords_add), k);
    lemma_opt_member("priority"@, opt_str(priority), k);
    lemma_opt_member("resolution"@, opt_str(resolution), k);
    lemma_opt_member("severity"@, opt_str(severity), k);
    lemma_opt_member("status"@, opt_str(status), k);
    assert(JsonV::Object(ms).member(k) == crate::json::last_member(ms, k));
    let k = "keywords"@;
    lemma_member_concat(p1 + p2 + p3 + p4 + p5 + p6 + p7, p8, k);
    lemma_member_concat(p1 + p2 + p3 + p4 + p5 + p6, p7, k);
    lemma_member_concat(p1 + p2 + p3 + p4 + p5, p6, k);
    lemma_member_concat(p1 + p2 + p3 + p4, p5, k);
    lemma_member_concat(p1 + p2 + p3, p4, k);
    lemma_member_concat(p1 + p2, p3, k);
    lemma_member_concat(p1, p2, k);
    lemma_list_member("blocks"@, num_values(blocks_add), k);
    lemma_list_member("cc"@, str_values(cc_add), k);
    lemma_opt_member("dupe_of"@, dv, k);
    lemma_list_member("keywords"@, str_values(keywords_add), k);
    lemma_opt_member("priority"@, opt_str(priority), k);
    lemma_opt_member("resolution"@, opt_str(resolution), k);
    lemma_opt_member("severity"@, opt_str(severity), k);
    lemma_opt_member("status"@, opt_str(status), k);
    assert(JsonV::Object(ms).member(k) == crate::json::last_member(ms, k));
    let k = "priority"@;
    lemma_member_concat(p1 + p2 + p3 + p4 + p5 + p6 + p7, p8, k);
    lemma_member_concat(p1 + p2 + p3 + p4 + p5 + p6, p7, k);
    lemma_member_concat(p1 + p2 + p3 + p4 + p5, p6, k);
    lemma_member_concat(p1 + p2 + p3 + p4, p5, k);
    lemma_member_concat(p1 + p2 + p3, p4, k);
    lemma_member_concat(p1 + p2, p3, k);
    lemma_member_concat(p1, p2, k);
    lemma_list_member("blocks"@, num_values(blocks_add), k);
    lemma_list_member("cc"@, str_values(cc_add), k);
    lemma_opt_member("dupe_of"@, dv, k);
    lemma_list_member("keywords"@, str_values(keywords_add), k);
    lemma_opt_member("priority"@, opt_str(priority), k);
    lemma_opt_member("resolution"@, opt_str(resolution), k);
    lemma_opt_member("severity"@, opt_str(severity), k);
    lemma_opt_member("status"@, opt_str(status), k);
    assert(JsonV::Object(ms).member(k) == crate::json::last_member(ms, k));
    let k = "resolution"@;
    lemma_member_concat(p1 + p2 + p3 + p4 + p5 + p6 + p7, p8, k);
    lemma_member_concat(p1 + p2 + p3 + p4 + p5 + p6, p7, k);
    lemma_member_concat(p1 + p2 + p3 + p4 + p5, p6, k);
    lemma_member_concat(p1 + p2 + p3 + p4, p5, k);
    lemma_member_concat(p1 + p2 + p3, p4, k);
    lemma_member_concat(p1 + p2, p3, k);
    lemma_member_concat(p1, p2, k);
    lemma_list_member("blocks"@, num_values(blocks_add), k);
    lemma_list_member("cc"@, str_values(cc_add), k);
    lemma_opt_member("dupe_of"@, dv, k);
    lemma_list_member("keywords"@, str_values(keywords_add), k);
    lemma_opt_member("priority"@, opt_str(priority), k);
    lemma_opt_member("resolution"@, opt_str(resolution), k);
    lemma_opt_member("severity"@, opt_str(severity), k);
    lemma_opt_member("status"@, opt_str(status), k);
    assert(JsonV::Object(ms).member(k) == crate::json::last_member(ms, k));
    let k = "severity"@;
    lemma_member_concat(p1 + p2 + p3 + p4 + p5 + p6 + p7, p8, k);
    lemma_member_concat(p1 + p2 + p3 + p4 + p5 + p6, p7, k);
    lemma_member_concat(p1 + p2 + p3 + p4 + p5, p6, k);
    lemma_member_concat(p1 + p2 + p3 + p4, p5, k);
    lemma_member_concat(p1 + p2 + p3, p4, k);
    lemma_member_concat(p1 + p2, p3, k);
    lemma_member_concat(p1, p2, k);
    lemma_list_member("blocks"@, num_values(blocks_add), k);
    lemma_list_member("cc"@, str_values(cc_add), k);
    lemma_opt_member("dupe_of"@, dv, k);
    lemma_list_member("keywords"@, str_values(keywords_add), k);
    lemma_opt_member("priority"@, opt_str(priority), k);
    lemma_opt_member("resolution"@, opt_str(resolution), k);
    lemma_opt_member("severity"@, opt_str(severity), k);
    lemma_opt_member("status"@, opt_str(status), k);
    assert(JsonV::Object(ms).member(k) == crate::json::last_member(ms, k));
    let k = "status"@;
    lemma_member_concat(p1 + p2 + p3 + p4 + p5 + p6 + p7, p8, k);
    lemma_member_concat(p1 + p2 + p3 + p4 + p5 + p6, p7, k);
    lemma_member_concat(p1 + p2 + p3 + p4 + p5, p6, k);
    lemma_member_concat(p1 + p2 + p3 + p4, p5, k);
    lemma_member_concat(p1 + p2 + p3, p4, k);
    lemma_member_concat(p1 + p2, p3, k);
    lemma_member_concat(p1, p2, k);
    lemma_list_member("blocks"@, num_values(blocks_add), k);
    lemma_list_member("cc"@, str_values(cc_add), k);
    lemma_opt_member("dupe_of"@, dv, k);
    lemma_list_member("keywords"@, str_values(keywords_add), k);
    lemma_opt_member("priority"@, opt_str(priority), k);
    lemma_opt_member("resolution"@, opt_str(resolution), k);
    lemma_opt_member("severity"@, opt_str(severity), k);
    lemma_opt_member("status"@, opt_str(status), k);
    assert(JsonV::Object(ms).member(k) == crate::json::last_member(ms, k));
}

/// A field update has no members exactly when nothing is given: then there
/// is nothing to update.
pub proof fn law_set_fields_empty(
    priority: Option<Seq<char>>,
    severity: Option<Seq<char>>,
    status: Option<Seq<char>>,
    resolution: Option<Seq<char>>,
    blocks_add: Seq<u64>,
    keywords_add: Seq<Seq<char>>,
    cc_add: Seq<Seq<char>>,
)
    ensures
        set_fields_members(priority, severity, status, resolution, blocks_add, keywords_add, cc_add).len() == 0
            <==> (priority is None && severity is None && status is None && resolution is None && blocks_add.len()
            == 0 && keywords_add.len() == 0 && cc_add.len() == 0),
{
}

proof fn lemma_no_trailing_slash(s: Seq<char>)
    requires
        s.len() > 0,
        s.last() != '/',
    ensures
        trim_trailing_slashes(s) == s,
{
}

/// The REST root setup derives ends with `/rest`, and deriving it again
/// from that root gives the same root.
pub proof fn law_base_url_idempotent(answer: Seq<char>)
    ensures
        has_suffix(base_url_of(answer), "/rest"@),
        base_url_of(base_url_of(answer)) == base_url_of(answer),
{
    reveal_strlit("/rest");
    reveal_strlit("https://bugzilla.mozilla.org/rest");
    let r = base_url_of(answer);
    if answer.len() == 0 {
        assert(r == "https://bugzilla.mozilla.org/rest"@);
        assert(r.subrange(r.len() - 5, r.len() as int) =~= "/rest"@);
    } else {
        let t = trim_trailing_slashes(answer);
        if !has_suffix(t, "/rest"@) {
            assert((t + "/rest"@).subrange((t + "/rest"@).len() - 5, (t + "/rest"@).len() as int) =~= "/rest"@);
        }
    }
    assert(r.len() >= 5);
    assert(r.last() == r.subrange(r.len() - 5, r.len() as int)[4]);
    lemma_no_trailing_slash(r);
}

proof fn lemma_split_without_newline(s: Seq<char>)
    requires
        !s.contains('\n'),
    ensures
        split_lines(s) == seq![s],
    decreases s.len(),
{
    if s.len() > 0 {
        let d = s.drop_last();
        assert(!d.contains('\n')) by {
            if d.contains('\n') {
                let i = choose|i: int| 0 <= i < d.len() && d[i] == '\n';
                assert(s[i] == '\n');
            }
        }
        lemma_split_without_newline(d);
        assert(s.last() != '\n') by {
            assert(s[s.len() - 1] == s.last());
        }
        assert(d.push(s.last()) =~= s);
        assert(seq![d].update(0, d.push(s.last())) =~= seq![s]);
    } else {
        assert(s =~= Seq::<char>::empty());
    }
}

/// The secrets file setup writes for a key gives that key back: the key is
/// not empty, holds no line feed and does not end in whitespace.
pub proof fn law_secrets_round_trip(key: Seq<char>)
    requires
        key.len() > 0,
        !key.contains('\n'),
        !crate::text::white_space(key.last()),
    ensures
        secrets_key("export BUGZILLA_BOT_API_KEY="@ + key + "\n"@) == Some(key),
{
    reveal_strlit("export BUGZILLA_BOT_API_KEY=");
    reveal_strlit("export ");
    reveal_strlit("BUGZILLA_BOT_API_KEY=");
    reveal_strlit("\n");
    let head = "export BUGZILLA_BOT_API_KEY="@;
    let line = head + key;
    assert(!line.contains('\n')) by {
        if line.contains('\n') {
            let i = choose|i: int| 0 <= i < line.len() && line[i] == '\n';
            if i >= head.len() {
                assert(key[i - head.len()] == '\n');
            }
        }
    }
    lemma_split_without_newline(line);
    let content = line + "\n"@;
    assert(content =~= line.push('\n'));
    assert(content.drop_last() =~= line);
    assert(split_lines(content) == seq![line, Seq::<char>::empty()]);
    assert(line[0] == 'e');
    assert(!crate::text::white_space('e'));
    assert(crate::text::trim_start(line) == line);
    assert(line.last() == key.last());
    assert(crate::text::trim_end(line) == line);
    assert(trim(line) == line);
    assert(line.subrange(0, "export "@.len() as int) =~= "export "@);
    let kv = line.subrange("export "@.len() as int, line.len() as int);
    assert(kv =~= "BUGZILLA_BOT_API_KEY="@ + key);
    assert(kv.subrange(0, "BUGZILLA_BOT_API_KEY="@.len() as int) =~= "BUGZILLA_BOT_API_KEY="@);
    assert(kv.subrange("BUGZILLA_BOT_API_KEY="@.len() as int, kv.len() as int) =~= key);
    assert(key_in_line(line) == Some(key));
}

} // verus!
