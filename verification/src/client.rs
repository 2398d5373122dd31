use vstd::prelude::*;
use vstd::string::*;

use crate::json::{lemma_object_view, members_view, views, Json, JsonV};
use crate::text::{decimal, push_char, u64_to_decimal};

verus! {

/// The REST root of Mozilla's Bugzilla.
pub const BMO_BASE: &'static str = "https://bugzilla.mozilla.org/rest";

/// `s` without its trailing slashes.
pub open spec fn trim_trailing_slashes(s: Seq<char>) -> Seq<char>
    decreases s.len(),
{
    if s.len() > 0 && s.last() == '/' {
        trim_trailing_slashes(s.drop_last())
    } else {
        s
    }
}

/// `s` without its leading slashes.
pub open spec fn trim_leading_slashes(s: Seq<char>) -> Seq<char>
    decreases s.len(),
{
    if s.len() > 0 && s[0] == '/' {
        trim_leading_slashes(s.drop_first())
    } else {
        s
    }
}

/// `s` without its trailing slashes.
pub fn trim_end_slashes<'a>(s: &'a str) -> (r: &'a str)
    ensures
        r@ == trim_trailing_slashes(s@),
{
    let n = s.unicode_len();
    let mut j: usize = n;
    assert(s@.subrange(0, n as int) =~= s@);
    while j > 0 && s.get_char(j - 1) == '/'
        invariant
            j <= n,
            n == s@.len(),
            trim_trailing_slashes(s@) == trim_trailing_slashes(s@.subrange(0, j as int)),
        decreases j,
    {
        assert(s@.subrange(0, j as int).drop_last() =~= s@.subrange(0, j - 1));
        j = j - 1;
    }
    s.substring_char(0, j)
}

/// `s` without its leading slashes.
pub fn trim_start_slashes<'a>(s: &'a str) -> (r: &'a str)
    ensures
        r@ == trim_leading_slashes(s@),
{
    let n = s.unicode_len();
    let mut i: usize = 0;
    assert(s@.subrange(0, n as int) =~= s@);
    while i < n && s.get_char(i) == '/'
        invariant
            i <= n,
            n == s@.len(),
            trim_leading_slashes(s@) == trim_leading_slashes(s@.subrange(i as int, n as int)),
        decreases n - i,
    {
        assert(s@.subrange(i as int, n as int).drop_first() =~= s@.subrange(i + 1, n as int));
        i = i + 1;
    }
    s.substring_char(i, n)
}

/// A client of a Bugzilla REST API: where it sends requests and the API key,
/// if any, that it sends with them.
pub struct BmoClient {
    api_key: Option<String>,
    base: String,
}

impl BmoClient {
    /// The API key the client sends, if any.
    pub closed spec fn key(self) -> Option<Seq<char>> {
        match self.api_key {
            Some(k) => Some(k@),
            None => None,
        }
    }

    /// The REST root the client sends requests to.
    pub closed spec fn base_url(self) -> Seq<char> {
        self.base@
    }

    fn build(api_key: Option<String>, base: &str) -> (c: Self)
        ensures
            c.key() == (match api_key {
                Some(k) => Some(k@),
                None => None::<Seq<char>>,
            }),
            c.base_url() == trim_trailing_slashes(base@),
    {
        BmoClient { api_key, base: trim_end_slashes(base).to_owned() }
    }

    /// A client of Mozilla's Bugzilla that sends `api_key`.
    pub fn new(api_key: &str) -> (c: Self)
        ensures
            c.key() == Some(api_key@),
            c.base_url() == trim_trailing_slashes(BMO_BASE@),
    {
        Self::new_with_base(api_key, BMO_BASE)
    }

    /// A client of the API at `base` (trailing slashes dropped) that sends
    /// `api_key`.
    pub fn new_with_base(api_key: &str, base: &str) -> (c: Self)
        ensures
            c.key() == Some(api_key@),
            c.base_url() == trim_trailing_slashes(base@),
    {
        Self::build(Some(api_key.to_owned()), base)
    }

    /// A client of Mozilla's Bugzilla that sends no API key: it reads public
    /// bugs only.
    pub fn anonymous() -> (c: Self)
        ensures
            c.key() is None,
            c.base_url() == trim_trailing_slashes(BMO_BASE@),
    {
        Self::anonymous_with_base(BMO_BASE)
    }

    /// A client of the API at `base` (trailing slashes dropped) that sends no
    /// API key.
    pub fn anonymous_with_base(base: &str) -> (c: Self)
        ensures
            c.key() is None,
            c.base_url() == trim_trailing_slashes(base@),
    {
        Self::build(None, base)
    }

    /// Whether an API key is attached (write-capable, private bugs visible).
    pub fn is_authenticated(&self) -> (r: bool)
        ensures
            r == self.key() is Some,
    {
        self.api_key.is_some()
    }

    /// The header that carries the API key, as (name, value); none for an
    /// anonymous client.
    pub fn auth_header(&self) -> (r: Option<(String, String)>)
        ensures
            match self.key() {
                Some(k) => r matches Some(h) && h.0@ == "X-BUGZILLA-API-KEY"@ && h.1@ == k,
                None => r is None,
            },
    {
        match &self.api_key {
            Some(k) => Some(("X-BUGZILLA-API-KEY".to_owned(), k.clone())),
            None => None,
        }
    }

    /// The URL of `path` under the client's REST root: the root, one slash,
    /// and the path without its leading slashes.
    pub fn url(&self, path: &str) -> (r: String)
        ensures
            r@ == self.base_url() + seq!['/'] + trim_leading_slashes(path@),
    {
        let mut u = self.base.clone();
        push_char(&mut u, '/');
        u.append(trim_start_slashes(path));
        u
    }
}

/// The path of a bug.
pub open spec fn bug_path_text(bug_id: u64) -> Seq<char> {
    "/bug/"@ + decimal(bug_id as nat)
}

/// The path of a bug: `/bug/{id}`.
pub fn bug_path(bug_id: u64) -> (r: String)
    ensures
        r@ == bug_path_text(bug_id),
{
    let mut p = "/bug/".to_owned();
    let id = u64_to_decimal(bug_id);
    p.append(id.as_str());
    p
}

/// The path of a bug's comments: `/bug/{id}/comment`.
pub fn comments_path(bug_id: u64) -> (r: String)
    ensures
        r@ == bug_path_text(bug_id) + "/comment"@,
{
    let mut p = bug_path(bug_id);
    p.append("/comment");
    p
}

/// The query that fetches a bug with its flags: `include_fields=_default,flags`.
pub fn bug_query() -> (r: Vec<(String, String)>)
    ensures
        r@.len() == 1,
        r@[0].0@ == "include_fields"@,
        r@[0].1@ == "_default,flags"@,
{
    let mut q: Vec<(String, String)> = Vec::new();
    q.push(("include_fields".to_owned(), "_default,flags".to_owned()));
    q
}

/// The bug of a bug response: `bugs[0]` of the response.
pub open spec fn bug_of(resp: JsonV) -> JsonV {
    resp.get("bugs"@).at(0)
}

/// The comments of a comments response for `bug_id`: `bugs[id].comments`.
pub open spec fn comments_of(resp: JsonV, bug_id: u64) -> JsonV {
    resp.get("bugs"@).get(decimal(bug_id as nat)).get("comments"@)
}

/// The data of a bug: an object with its `bug`, and, when the comments were
/// fetched, its `comments`.
pub open spec fn bug_data(bug_id: u64, bug_resp: JsonV, comments_resp: Option<JsonV>) -> JsonV {
    match comments_resp {
        None => JsonV::Object(seq![("bug"@, bug_of(bug_resp))]),
        Some(c) => JsonV::Object(seq![("bug"@, bug_of(bug_resp)), ("comments"@, comments_of(c, bug_id))]),
    }
}

fn copy_or_null(j: Option<&Json>) -> (r: Json)
    ensures
        r@ == (match j {
            Some(v) => v@,
            None => JsonV::Null,
        }),
{
    match j {
        Some(v) => v.duplicate(),
        None => Json::Null,
    }
}

fn element<'a>(j: Option<&'a Json>, i: usize) -> (r: Option<&'a Json>)
    ensures
        match r {
            Some(v) => v@ == (match j {
                Some(a) => a@.at(i as int),
                None => JsonV::Null,
            }),
            None => (match j {
                Some(a) => a@.at(i as int),
                None => JsonV::Null,
            }) == JsonV::Null,
        },
{
    match j {
        Some(a) => match a.as_array() {
            Some(v) => if i < v.len() {
                assert(views(v@)[i as int] == v@[i as int]@);
                Some(&v[i])
            } else {
                None
            },
            None => None,
        },
        None => None,
    }
}

fn member_of<'a>(j: Option<&'a Json>, key: &str) -> (r: Option<&'a Json>)
    ensures
        match r {
            Some(v) => v@ == (match j {
                Some(a) => a@.get(key@),
                None => JsonV::Null,
            }),
            None => (match j {
                Some(a) => a@.get(key@),
                None => JsonV::Null,
            }) == JsonV::Null,
        },
{
    match j {
        Some(a) => a.get(key),
        None => {
            assert(JsonV::Null.get(key@) == JsonV::Null);
            None
        },
    }
}

/// Puts a bug's data together from the bug response and, when comments were
/// fetched, the comments response.
pub fn assemble_bug(bug_id: u64, bug_resp: &Json, comments_resp: Option<&Json>) -> (r: Json)
    ensures
        r@ == bug_data(bug_id, bug_resp@, match comments_resp {
            Some(c) => Some(c@),
            None => None,
        }),
{
    proof {
        assert(forall|k: Seq<char>| #[trigger] JsonV::Null.get(k) == JsonV::Null);
        assert(forall|i: int| #[trigger] JsonV::Null.at(i) == JsonV::Null);
    }
    let bug = copy_or_null(element(bug_resp.get("bugs"), 0));
    assert(bug@ == bug_of(bug_resp@));
    let mut m: Vec<(String, Json)> = Vec::new();
    m.push(("bug".to_owned(), bug));
    match comments_resp {
        Some(c) => {
            let id = u64_to_decimal(bug_id);
            let comments = copy_or_null(member_of(member_of(c.get("bugs"), id.as_str()), "comments"));
            assert(comments@ == comments_of(c@, bug_id));
            m.push(("comments".to_owned(), comments));
            assert(members_view(m@) =~= seq![("bug"@, bug_of(bug_resp@)), ("comments"@, comments_of(c@, bug_id))]);
        },
        None => {
            assert(members_view(m@) =~= seq![("bug"@, bug_of(bug_resp@))]);
        },
    }
    proof {
        lemma_object_view(m);
        assert(JsonV::Null.get("comments"@) == JsonV::Null);
    }
    let r = Json::Object(m);
    assert(r@ =~= bug_data(bug_id, bug_resp@, match comments_resp {
        Some(c) => Some(c@),
        None => None,
    }));
    r
}

/// The bugs of a search response: its `bugs` array, or none.
pub fn search_results(resp: &Json) -> (r: Vec<Json>)
    ensures
        views(r@) == resp@.get("bugs"@).array_or_empty(),
{
    let mut out: Vec<Json> = Vec::new();
    match resp.get("bugs") {
        Some(b) => match b.as_array() {
            Some(v) => {
                let mut i: usize = 0;
                while i < v.len()
                    invariant
                        i <= v@.len(),
                        out@.len() == i,
                        forall|k: int| 0 <= k < i ==> (#[trigger] out@[k])@ == v@[k]@,
                    decreases v@.len() - i,
                {
                    out.push(v[i].duplicate());
                    i = i + 1;
                }
                assert(views(out@) =~= views(v@));
            },
            None => {
                assert(views(out@) =~= Seq::<JsonV>::empty());
            },
        },
        None => {
            assert(views(out@) =~= Seq::<JsonV>::empty());
        },
    }
    out
}

} // verus!
