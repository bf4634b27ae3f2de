//! `POST /v2/search` replies: the v2 envelope `{ success, data: { web, news, images },
//! creditsUsed, id }` around what the search engine found.
//!
//! The envelope never looks inside the results it carries, so their types are parameters: `R` a
//! web or news result, `I` an image result, `U` the usage report of the model legs.

use vstd::prelude::*;
use vstd::string::StringExecFns;

use crate::error::{CrwError, CrwResult, ErrorView};
use crate::json::Json;
use crate::search_request;
use crate::search_request::normalize_search_body;

verus! {

/// What the engine found: one list, or one per source.
pub enum SearchData<R, I> {
    Flat(Vec<R>),
    Grouped(SearchGroups<R, I>),
}

/// What the engine found, source by source.
pub struct SearchGroups<R, I> {
    pub web: Option<Vec<R>>,
    pub news: Option<Vec<R>>,
    pub images: Option<Vec<I>>,
}

/// What a search gave: the results, and what the model legs used if any ran.
pub struct SearchResponseData<R, I, U> {
    pub results: SearchData<R, I>,
    pub llm_usage: Option<U>,
}

/// The results as the envelope groups them.
#[derive(Debug)]
pub struct V2SearchData<R, I> {
    pub web: Option<Vec<R>>,
    pub news: Option<Vec<R>>,
    pub images: Option<Vec<I>>,
}

/// The envelope.
#[derive(Debug)]
pub struct V2SearchResponse<R, I, U> {
    pub success: bool,
    pub data: V2SearchData<R, I>,
    pub credits_used: u32,
    pub id: String,
    /// Token usage for the LLM legs this search ran (summaries, answer).
    pub llm_usage: Option<U>,
}

impl<R, I> Default for V2SearchData<R, I> {
    /// No group at all.
    fn default() -> (r: Self)
        ensures
            r == (V2SearchData::<R, I> { web: None, news: None, images: None }),
    {
        V2SearchData { web: None, news: None, images: None }
    }
}

/// How results are grouped: one list counts as web results.
pub open spec fn shaped<R, I>(results: SearchData<R, I>) -> V2SearchData<R, I> {
    match results {
        SearchData::Flat(v) => V2SearchData { web: Some(v), news: None, images: None },
        SearchData::Grouped(g) => V2SearchData { web: g.web, news: g.news, images: g.images },
    }
}

/// Groups the results for the envelope.
pub fn shape<R, I>(results: SearchData<R, I>) -> (r: V2SearchData<R, I>)
    ensures
        r == shaped(results),
{
    match results {
        SearchData::Flat(v) => V2SearchData { web: Some(v), news: None, images: None },
        SearchData::Grouped(g) => V2SearchData { web: g.web, news: g.news, images: g.images },
    }
}

/// Whether `r` is the envelope around what a search gave: the results grouped, the usage handed
/// on, no credits used. A search that gave nothing has no group and no usage.
pub open spec fn answers<R, I, U>(
    found: Option<SearchResponseData<R, I, U>>,
    r: V2SearchResponse<R, I, U>,
) -> bool {
    &&& r.success
    &&& r.credits_used == 0
    &&& match found {
        Some(d) => r.data == shaped(d.results) && r.llm_usage == d.llm_usage,
        None => r.data == (V2SearchData::<R, I> { web: None, news: None, images: None })
            && r.llm_usage is None,
    }
}

/// The envelope around what a search gave, under the id `id`.
pub fn search_response<R, I, U>(found: Option<SearchResponseData<R, I, U>>, id: String) -> (r:
    V2SearchResponse<R, I, U>)
    ensures
        answers(found, r),
        r.id == id,
{
    let (data, llm_usage) = match found {
        Some(d) => (shape(d.results), d.llm_usage),
        None => (V2SearchData::default(), None),
    };
    V2SearchResponse { success: true, data, credits_used: 0, id, llm_usage }
}

/// A lower-case hexadecimal digit.
pub open spec fn is_hex(c: char) -> bool {
    '0' <= c <= '9' || 'a' <= c <= 'f'
}

/// Whether `s` is a version 4 UUID as text: groups of 8, 4, 4, 4 and 12 lower-case hexadecimal
/// digits, the third starting with the version, the fourth with the variant.
pub open spec fn is_uuid_v4(s: Seq<char>) -> bool {
    &&& s.len() == 36
    &&& forall|i: int|
        0 <= i < 36 ==> if i == 8 || i == 13 || i == 18 || i == 23 {
            #[trigger] s[i] == '-'
        } else {
            is_hex(s[i])
        }
    &&& s[14] == '4'
    &&& s[19] == '8' || s[19] == '9' || s[19] == 'a' || s[19] == 'b'
}

/// `uuid::Uuid::new_v4`, as text. Claimed of it: the text has the form of a version 4 UUID, what
/// ever the random bits are. That no two are alike is left to chance. It panics if the operating
/// system has no random bits to give.
#[verifier::external_body]
fn random_id() -> (r: String)
    ensures
        is_uuid_v4(r@),
{
    uuid::Uuid::new_v4().to_string()
}

/// Answers a search: the envelope around what it gave, under a fresh id.
pub fn search<R, I, U>(found: Option<SearchResponseData<R, I, U>>) -> (r: V2SearchResponse<R, I, U>)
    ensures
        answers(found, r),
        is_uuid_v4(r.id@),
{
    search_response(found, random_id())
}

/// The refusal of a search body that does not say what a search needs, for the reason `detail`.
pub fn invalid_search_request(detail: &str) -> (r: CrwError)
    ensures
        r@ == ErrorView::InvalidRequest("Invalid search request: "@ + detail@),
{
    CrwError::InvalidRequest("Invalid search request: ".to_owned().concat(detail))
}

/// Decides on the body of a request: rewritten into the form that the engine reads, or handed back
/// as the rejection it is where it could not be read at all.
pub fn on_body<J>(body: Result<Json, J>) -> (r: Result<Json, J>)
    ensures
        match body {
            Ok(raw) => r matches Ok(v) && v@ == search_request::normalized(raw@),
            Err(rejection) => r == Err::<Json, J>(rejection),
        },
{
    match body {
        Ok(raw) => Ok(normalize_search_body(raw)),
        Err(rejection) => Err(rejection),
    }
}

/// What comes after a request has been read.
pub enum SearchStep<Q> {
    /// The engine has to run it.
    Run(Q),
    /// It is refused, and the engine never sees it.
    Refused(CrwError),
}

/// Decides on the request that was read off a rewritten body, or on why none could be.
pub fn on_request<Q>(request: Result<Q, String>) -> (r: SearchStep<Q>)
    ensures
        match request {
            Ok(q) => r == SearchStep::Run(q),
            Err(detail) => r matches SearchStep::Refused(e) && e@ == ErrorView::InvalidRequest(
                "Invalid search request: "@ + detail@,
            ),
        },
{
    match request {
        Ok(q) => SearchStep::Run(q),
        Err(detail) => SearchStep::Refused(invalid_search_request(detail.as_str())),
    }
}

/// Decides on what the engine gave: the envelope around it, under a fresh id, or its failure as it
/// is.
pub fn on_found<R, I, U>(found: CrwResult<Option<SearchResponseData<R, I, U>>>) -> (r: CrwResult<
    V2SearchResponse<R, I, U>,
>)
    ensures
        match found {
            Ok(found) => r matches Ok(response) && answers(found, response) && is_uuid_v4(
                response.id@,
            ),
            Err(e) => r == Err::<V2SearchResponse<R, I, U>, CrwError>(e),
        },
{
    match found {
        Ok(found) => Ok(search(found)),
        Err(e) => Err(e),
    }
}

/// A group of results on the wire.
pub enum Group<R, I> {
    Results(Vec<R>),
    Images(Vec<I>),
}

/// A member of the envelope on the wire.
pub enum Field<R, I, U> {
    Bool(bool),
    Number(u32),
    Text(String),
    Groups(Vec<(&'static str, Group<R, I>)>),
    Usage(U),
}

/// What a member of the envelope is.
pub enum FieldView<R, I, U> {
    Bool(bool),
    Number(u32),
    Text(Seq<char>),
    Groups(Seq<(Seq<char>, Group<R, I>)>),
    Usage(U),
}

impl<R, I, U> View for Field<R, I, U> {
    type V = FieldView<R, I, U>;

    open spec fn view(&self) -> FieldView<R, I, U> {
        match *self {
            Field::Bool(b) => FieldView::Bool(b),
            Field::Number(n) => FieldView::Number(n),
            Field::Text(s) => FieldView::Text(s@),
            Field::Groups(groups) => FieldView::Groups(group_views(groups@)),
            Field::Usage(usage) => FieldView::Usage(usage),
        }
    }
}

/// The groups, the keys as texts.
pub open spec fn group_views<R, I>(groups: Seq<(&'static str, Group<R, I>)>) -> Seq<
    (Seq<char>, Group<R, I>),
> {
    groups.map_values(|g: (&'static str, Group<R, I>)| (g.0@, g.1))
}

/// The members, the keys as texts.
pub open spec fn field_views<R, I, U>(fields: Seq<(&'static str, Field<R, I, U>)>) -> Seq<
    (Seq<char>, FieldView<R, I, U>),
> {
    fields.map_values(|f: (&'static str, Field<R, I, U>)| (f.0@, f.1@))
}

/// The group of results under `key`, if there is one.
pub open spec fn results_at<R, I>(key: Seq<char>, items: Option<Vec<R>>) -> Seq<
    (Seq<char>, Group<R, I>),
> {
    match items {
        Some(items) => seq![(key, Group::Results(items))],
        None => Seq::empty(),
    }
}

/// The group of images under `key`, if there is one.
pub open spec fn images_at<R, I>(key: Seq<char>, items: Option<Vec<I>>) -> Seq<
    (Seq<char>, Group<R, I>),
> {
    match items {
        Some(items) => seq![(key, Group::Images(items))],
        None => Seq::empty(),
    }
}

/// The grouped results on the wire, in this order: a group that was not asked for has no key.
pub open spec fn data_on_the_wire<R, I>(data: V2SearchData<R, I>) -> Seq<(Seq<char>, Group<R, I>)> {
    results_at("web"@, data.web) + results_at("news"@, data.news) + images_at(
        "images"@,
        data.images,
    )
}

/// The envelope on the wire, in this order: keys in camel case, `llmUsage` only if a model ran.
pub open spec fn on_the_wire<R, I, U>(response: V2SearchResponse<R, I, U>) -> Seq<
    (Seq<char>, FieldView<R, I, U>),
> {
    seq![
        ("success"@, FieldView::Bool(response.success)),
        ("data"@, FieldView::Groups(data_on_the_wire(response.data))),
        ("creditsUsed"@, FieldView::Number(response.credits_used)),
        ("id"@, FieldView::Text(response.id@)),
    ] + match response.llm_usage {
        Some(usage) => seq![("llmUsage"@, FieldView::Usage(usage))],
        None => Seq::empty(),
    }
}

impl<R, I> V2SearchData<R, I> {
    /// The grouped results on the wire.
    pub fn into_members(self) -> (r: Vec<(&'static str, Group<R, I>)>)
        ensures
            group_views(r@) == data_on_the_wire(self),
    {
        let mut r: Vec<(&'static str, Group<R, I>)> = Vec::new();
        if let Some(items) = self.web {
            r.push(("web", Group::Results(items)));
        }
        if let Some(items) = self.news {
            r.push(("news", Group::Results(items)));
        }
        if let Some(items) = self.images {
            r.push(("images", Group::Images(items)));
        }
        assert(group_views(r@) =~= data_on_the_wire(self));
        r
    }
}

impl<R, I, U> V2SearchResponse<R, I, U> {
    /// The envelope on the wire.
    pub fn into_members(self) -> (r: Vec<(&'static str, Field<R, I, U>)>)
        ensures
            field_views(r@) == on_the_wire(self),
    {
        let mut r: Vec<(&'static str, Field<R, I, U>)> = Vec::new();
        r.push(("success", Field::Bool(self.success)));
        r.push(("data", Field::Groups(self.data.into_members())));
        r.push(("creditsUsed", Field::Number(self.credits_used)));
        r.push(("id", Field::Text(self.id)));
        if let Some(usage) = self.llm_usage {
            r.push(("llmUsage", Field::Usage(usage)));
        }
        assert(field_views(r@) =~= on_the_wire(self));
        r
    }
}

} // verus!
