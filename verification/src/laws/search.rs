//! Laws of search requests and replies.

use vstd::prelude::*;

use crate::json::JsonView;
use crate::search;
use crate::search::{
    Field, FieldView, Group, SearchData, SearchResponseData, V2SearchData, V2SearchResponse,
};
use crate::search_request as request;

verus! {

/// The keys that a search body is rewritten at differ from each other.
proof fn lemma_keys()
    ensures
        "sources"@ != "categories"@,
        "sources"@ != "tbs"@,
        "sources"@ != "lang"@,
        "sources"@ != "scrapeOptions"@,
        "categories"@ != "tbs"@,
        "categories"@ != "lang"@,
        "categories"@ != "scrapeOptions"@,
        "tbs"@ != "lang"@,
        "tbs"@ != "scrapeOptions"@,
        "lang"@ != "scrapeOptions"@,
        "formats"@ != "jsonSchema"@,
{
    reveal_strlit("sources");
    reveal_strlit("categories");
    reveal_strlit("tbs");
    reveal_strlit("lang");
    reveal_strlit("scrapeOptions");
    reveal_strlit("formats");
    reveal_strlit("jsonSchema");
    assert("sources"@.len() == 7);
    assert("categories"@.len() == 10);
    assert("tbs"@.len() == 3);
    assert("lang"@.len() == 4);
    assert("scrapeOptions"@.len() == 13);
    assert("formats"@.len() == 7);
    assert("jsonSchema"@.len() == 10);
}

/// Flattening touches `key`, `tbs` and `lang`, and of the last two only what is not there.
proof fn lemma_flattened_members(v: JsonView, key: Seq<char>, k: Seq<char>)
    ensures
        k != key && k != "tbs"@ && k != "lang"@ ==> request::member(request::flattened(v, key), k)
            == request::member(v, k),
        request::member(v, k) is Some && k != key ==> request::member(request::flattened(v, key), k)
            == request::member(v, k),
        (v is Object) == (request::flattened(v, key) is Object),
{
}

/// What flattening leaves under `key`.
proof fn lemma_flattened_key(v: JsonView, key: Seq<char>)
    ensures
        request::member(request::flattened(v, key), key) == match request::member(v, key) {
            Some(JsonView::Array(entries)) => Some(
                JsonView::Array(entries.map_values(|e: JsonView| request::plain_entry(e))),
            ),
            other => other,
        },
{
}

proof fn lemma_nothing_lifted(entries: Seq<JsonView>, field: Seq<char>)
    requires
        forall|i: int|
            0 <= i < entries.len() ==> request::entry_type(#[trigger] entries[i]) is None,
    ensures
        request::lifted(entries, field) is None,
    decreases entries.len(),
{
    if entries.len() > 0 {
        lemma_nothing_lifted(entries.drop_last(), field);
    }
}

/// A list of entries in plain form stays as it is.
pub proof fn law_plain_entries_stay(v: JsonView, key: Seq<char>)
    requires
        request::member(v, key) matches Some(JsonView::Array(entries)) ==> forall|i: int|
            0 <= i < entries.len() ==> request::entry_type(#[trigger] entries[i]) is None,
    ensures
        request::flattened(v, key) == v,
{
    if let JsonView::Object(m) = v {
        if let Some(JsonView::Array(entries)) = request::member(v, key) {
            lemma_nothing_lifted(entries, "tbs"@);
            lemma_nothing_lifted(entries, "lang"@);
            assert(entries.map_values(|e: JsonView| request::plain_entry(e)) =~= entries);
            assert(m.insert(key, JsonView::Array(entries)) =~= m);
        }
    }
}

proof fn lemma_plain_formats(formats: Seq<JsonView>)
    requires
        forall|i: int| 0 <= i < formats.len() ==> (#[trigger] formats[i]) is String,
    ensures
        request::format_names(formats) == formats,
        request::format_schema(formats) is None,
    decreases formats.len(),
{
    if formats.len() > 0 {
        lemma_plain_formats(formats.drop_last());
        assert(formats[formats.len() - 1] is String);
        assert(formats.drop_last().push(formats.last()) =~= formats);
    } else {
        assert(request::format_names(formats) =~= formats);
    }
}

/// Scrape options whose formats are strings stay as they are.
pub proof fn law_plain_formats_stay(opts: JsonView)
    requires
        has_plain_formats(opts),
    ensures
        request::plain_options(opts) == opts,
{
    if let JsonView::Object(m) = opts {
        if let Some(JsonView::Array(formats)) = request::member(opts, "formats"@) {
            lemma_plain_formats(formats);
            assert(m.insert("formats"@, JsonView::Array(formats)) =~= m);
        }
    }
}

/// Whether there is nothing but strings among the formats of scrape options.
pub open spec fn has_plain_formats(opts: JsonView) -> bool {
    request::member(opts, "formats"@) matches Some(JsonView::Array(formats)) ==> forall|i: int|
        0 <= i < formats.len() ==> (#[trigger] formats[i]) is String
}

/// Whether a body is in the form that the engine reads: no object entry with a string type among
/// `sources` and `categories`, nothing but strings among `scrapeOptions.formats`.
pub open spec fn is_plain(v: JsonView) -> bool {
    &&& request::member(v, "sources"@) matches Some(JsonView::Array(entries)) ==> forall|i: int|
        0 <= i < entries.len() ==> request::entry_type(#[trigger] entries[i]) is None
    &&& request::member(v, "categories"@) matches Some(JsonView::Array(entries)) ==> forall|i: int|
        0 <= i < entries.len() ==> request::entry_type(#[trigger] entries[i]) is None
    &&& request::member(v, "scrapeOptions"@) matches Some(opts) ==> has_plain_formats(opts)
}

/// A body in plain form passes through untouched.
pub proof fn law_plain_bodies_pass_through(v: JsonView)
    requires
        is_plain(v),
    ensures
        request::normalized(v) == v,
{
    law_plain_entries_stay(v, "sources"@);
    law_plain_entries_stay(v, "categories"@);
    if let JsonView::Object(m) = v {
        if let Some(opts) = request::member(v, "scrapeOptions"@) {
            law_plain_formats_stay(opts);
            assert(m.insert("scrapeOptions"@, opts) =~= m);
        }
    }
}

proof fn lemma_names_are_strings(formats: Seq<JsonView>)
    ensures
        forall|i: int|
            0 <= i < request::format_names(formats).len() ==> (#[trigger] request::format_names(
                formats,
            )[i]) is String,
    decreases formats.len(),
{
    if formats.len() > 0 {
        lemma_names_are_strings(formats.drop_last());
    }
}

/// Whatever a body looks like, rewriting it gives one in plain form.
pub proof fn law_normalized_bodies_are_plain(v: JsonView)
    ensures
        is_plain(request::normalized(v)),
{
    lemma_keys();
    let a = request::flattened(v, "sources"@);
    let b = request::flattened(a, "categories"@);
    let c = request::normalized(v);
    lemma_flattened_key(v, "sources"@);
    lemma_flattened_members(a, "categories"@, "sources"@);
    lemma_flattened_key(a, "categories"@);
    assert(request::member(c, "sources"@) == request::member(a, "sources"@));
    assert(request::member(c, "categories"@) == request::member(b, "categories"@));
    assert forall|e: JsonView| request::entry_type(#[trigger] request::plain_entry(e)) is None by {}
    if let Some(opts) = request::member(b, "scrapeOptions"@) {
        assert(request::member(c, "scrapeOptions"@) == Some(request::plain_options(opts)));
        if let Some(JsonView::Array(formats)) = request::member(opts, "formats"@) {
            lemma_names_are_strings(formats);
            assert(request::member(request::plain_options(opts), "formats"@) == Some(
                JsonView::Array(request::format_names(formats)),
            ));
        } else {
            assert(request::plain_options(opts) == opts);
        }
    }
}

/// Rewriting a body twice is rewriting it once.
pub proof fn law_normalizing_is_idempotent(v: JsonView)
    ensures
        request::normalized(request::normalized(v)) == request::normalized(v),
{
    law_normalized_bodies_are_plain(v);
    law_plain_bodies_pass_through(request::normalized(v));
}

/// What a body says at the top level wins over what an entry says: a `tbs` or `lang` that is
/// there stays.
pub proof fn law_top_level_wins(v: JsonView, field: Seq<char>)
    requires
        field == "tbs"@ || field == "lang"@,
        request::member(v, field) is Some,
    ensures
        request::member(request::normalized(v), field) == request::member(v, field),
{
    lemma_keys();
    let a = request::flattened(v, "sources"@);
    lemma_flattened_members(v, "sources"@, field);
    lemma_flattened_members(a, "categories"@, field);
}

/// A filter that a source gives is not dropped: without one at the top level, that of the first
/// typed source with one takes its place there.
pub proof fn law_source_filters_are_lifted(v: JsonView, field: Seq<char>)
    requires
        field == "tbs"@ || field == "lang"@,
        request::member(v, field) is None,
        request::member(v, "sources"@) matches Some(JsonView::Array(entries)) && request::lifted(
            entries,
            field,
        ) is Some,
    ensures
        request::member(request::normalized(v), field) == request::lifted(
            request::member(v, "sources"@)->0->Array_0,
            field,
        ),
{
    lemma_keys();
    let a = request::flattened(v, "sources"@);
    let entries = request::member(v, "sources"@)->0->Array_0;
    assert(request::member(a, field) == request::lifted(entries, field));
    lemma_flattened_members(a, "categories"@, field);
}

/// Nothing but `sources`, `categories`, `tbs`, `lang` and `scrapeOptions` is touched.
pub proof fn law_other_members_stay(v: JsonView, k: Seq<char>)
    requires
        k != "sources"@,
        k != "categories"@,
        k != "tbs"@,
        k != "lang"@,
        k != "scrapeOptions"@,
    ensures
        request::member(request::normalized(v), k) == request::member(v, k),
{
    lemma_flattened_members(v, "sources"@, k);
    lemma_flattened_members(request::flattened(v, "sources"@), "categories"@, k);
}

/// Object-form `sources` and `categories` come out as their types, entry by entry.
pub proof fn law_typed_entries_become_their_types(v: JsonView, key: Seq<char>, i: int)
    requires
        key == "sources"@ || key == "categories"@,
        request::member(v, key) matches Some(JsonView::Array(entries)) && 0 <= i < entries.len(),
    ensures
        ({
            let entries = request::member(v, key)->0->Array_0;
            &&& request::member(request::normalized(v), key) matches Some(JsonView::Array(plain))
            &&& plain.len() == entries.len()
            &&& plain[i] == request::plain_entry(entries[i])
        }),
{
    lemma_keys();
    let a = request::flattened(v, "sources"@);
    lemma_flattened_members(v, "sources"@, "categories"@);
    lemma_flattened_members(a, "categories"@, "sources"@);
    lemma_flattened_key(v, "sources"@);
    lemma_flattened_key(a, "categories"@);
}

/// A schema that stands in the scrape options wins over one that a format gives.
pub proof fn law_given_schema_wins(opts: JsonView)
    requires
        request::member(opts, "jsonSchema"@) is Some,
    ensures
        request::member(request::plain_options(opts), "jsonSchema"@) == request::member(
            opts,
            "jsonSchema"@,
        ),
{
    lemma_keys();
}

/// The key of every member but the usage report differs from that of the usage report.
proof fn lemma_wire_keys()
    ensures
        "llmUsage"@ != "success"@,
        "llmUsage"@ != "data"@,
        "llmUsage"@ != "creditsUsed"@,
        "llmUsage"@ != "id"@,
{
    reveal_strlit("llmUsage");
    reveal_strlit("success");
    reveal_strlit("data");
    reveal_strlit("creditsUsed");
    reveal_strlit("id");
    assert("llmUsage"@.len() == 8);
    assert("success"@.len() == 7);
    assert("data"@.len() == 4);
    assert("creditsUsed"@.len() == 11);
    assert("id"@.len() == 2);
}

/// The usage report reaches the wire as it is, under `llmUsage`, exactly if a model ran.
pub proof fn law_usage_reaches_the_wire<R, I, U>(
    response: V2SearchResponse<R, I, U>,
    value: FieldView<R, I, U>,
)
    ensures
        search::on_the_wire(response).contains(("llmUsage"@, value)) <==> (
        response.llm_usage matches Some(usage) && value == FieldView::<R, I, U>::Usage(usage)),
{
    lemma_wire_keys();
    let wire = search::on_the_wire(response);
    if let Some(usage) = response.llm_usage {
        assert(wire[4] == ("llmUsage"@, FieldView::<R, I, U>::Usage(usage)));
    }
}

/// What an engine found reaches the wire: the usage that it reports stands under `llmUsage` in the
/// answer, and nothing does if it reports none.
pub proof fn law_reported_usage_is_not_dropped<R, I, U>(
    found: SearchResponseData<R, I, U>,
    response: V2SearchResponse<R, I, U>,
    value: FieldView<R, I, U>,
)
    requires
        search::answers(Some(found), response),
    ensures
        search::on_the_wire(response).contains(("llmUsage"@, value)) <==> (
        found.llm_usage matches Some(usage) && value == FieldView::<R, I, U>::Usage(usage)),
{
    law_usage_reaches_the_wire(response, value);
}

/// The envelope without a usage report has these four keys and no other, in this order.
pub proof fn law_envelope_without_usage<R, I, U>(response: V2SearchResponse<R, I, U>)
    requires
        response.llm_usage is None,
    ensures
        search::on_the_wire(response).map_values(
            |member: (Seq<char>, FieldView<R, I, U>)| member.0,
        ) == seq!["success"@, "data"@, "creditsUsed"@, "id"@],
{
}

/// Results reach the groups they were found for, each whatever the others are; one list counts as
/// web results. The usage is handed on, and the answer is a success that uses no credits.
pub proof fn law_results_reach_their_groups<R, I, U>(
    found: SearchResponseData<R, I, U>,
    response: V2SearchResponse<R, I, U>,
)
    requires
        search::answers(Some(found), response),
    ensures
        match found.results {
            SearchData::Grouped(groups) => {
                &&& response.data.web == groups.web
                &&& response.data.news == groups.news
                &&& response.data.images == groups.images
            },
            SearchData::Flat(items) => {
                &&& response.data.web == Some(items)
                &&& response.data.news is None
                &&& response.data.images is None
            },
        },
        response.llm_usage == found.llm_usage,
        response.success,
        response.credits_used == 0,
{
}

/// A search that found nothing at all is answered with no group and no usage, as a success that
/// uses no credits.
pub proof fn law_nothing_found_is_an_empty_success<R, I, U>(response: V2SearchResponse<R, I, U>)
    requires
        search::answers(None, response),
    ensures
        response.data.web is None,
        response.data.news is None,
        response.data.images is None,
        response.llm_usage is None,
        response.success,
        response.credits_used == 0,
{
}

/// Grouping keeps every group, each whatever the others are; one list becomes the web results.
pub proof fn law_grouping_keeps_every_group<R, I>(results: SearchData<R, I>)
    ensures
        match results {
            SearchData::Grouped(groups) => {
                &&& search::shaped(results).web == groups.web
                &&& search::shaped(results).news == groups.news
                &&& search::shaped(results).images == groups.images
            },
            SearchData::Flat(items) => {
                &&& search::shaped(results).web == Some(items)
                &&& search::shaped(results).news is None
                &&& search::shaped(results).images is None
            },
        },
{
}

/// The envelope on the wire, member by member.
pub proof fn law_the_envelope_member_by_member<R, I, U>(response: V2SearchResponse<R, I, U>)
    ensures
        ({
            let wire = search::on_the_wire(response);
            &&& wire.len() == if response.llm_usage is Some {
                5nat
            } else {
                4nat
            }
            &&& wire[0] == ("success"@, FieldView::<R, I, U>::Bool(response.success))
            &&& wire[1] == (
                "data"@,
                FieldView::<R, I, U>::Groups(search::data_on_the_wire(response.data)),
            )
            &&& wire[2] == ("creditsUsed"@, FieldView::<R, I, U>::Number(response.credits_used))
            &&& wire[3] == ("id"@, FieldView::<R, I, U>::Text(response.id@))
            &&& response.llm_usage matches Some(usage) ==> wire[4] == (
                "llmUsage"@,
                FieldView::<R, I, U>::Usage(usage),
            )
        }),
{
}

/// A group reaches the wire under its own key, with all its items, exactly if it is there.
pub proof fn law_groups_reach_the_wire<R, I>(
    data: V2SearchData<R, I>,
    key: Seq<char>,
    group: Group<R, I>,
)
    ensures
        search::data_on_the_wire(data).contains((key, group)) <==> {
            ||| key == "web"@ && (data.web matches Some(items) && group == Group::<R, I>::Results(
                items,
            ))
            ||| key == "news"@ && (data.news matches Some(items) && group
                == Group::<R, I>::Results(items))
            ||| key == "images"@ && (data.images matches Some(items) && group
                == Group::<R, I>::Images(items))
        },
{
    let web = search::results_at::<R, I>("web"@, data.web);
    let news = search::results_at::<R, I>("news"@, data.news);
    let images = search::images_at::<R, I>("images"@, data.images);
    let wire = search::data_on_the_wire(data);
    if let Some(items) = data.web {
        assert(wire[0] == ("web"@, Group::<R, I>::Results(items)));
    }
    if let Some(items) = data.news {
        assert(wire[web.len() as int] == ("news"@, Group::<R, I>::Results(items)));
    }
    if let Some(items) = data.images {
        assert(wire[(web + news).len() as int] == ("images"@, Group::<R, I>::Images(items)));
    }
    if wire.contains((key, group)) {
        let i = choose|i: int| 0 <= i < wire.len() && wire[i] == (key, group);
        if i < web.len() {
            assert(wire[i] == web[i]);
        } else if i < web.len() + news.len() {
            assert(wire[i] == news[i - web.len()]);
        } else {
            assert(wire[i] == images[i - web.len() - news.len()]);
        }
    }
}

/// The groups stand on the wire once each, web results first, then news, then images.
pub proof fn law_groups_keep_their_order<R, I>(data: V2SearchData<R, I>)
    ensures
        ({
            let keys = search::data_on_the_wire(data).map_values(
                |member: (Seq<char>, Group<R, I>)| member.0,
            );
            &&& data.web is Some && data.news is Some && data.images is Some ==> keys
                == seq!["web"@, "news"@, "images"@]
            &&& data.web is Some && data.news is Some && data.images is None ==> keys
                == seq!["web"@, "news"@]
            &&& data.web is Some && data.news is None && data.images is Some ==> keys
                == seq!["web"@, "images"@]
            &&& data.web is None && data.news is Some && data.images is Some ==> keys
                == seq!["news"@, "images"@]
            &&& data.web is Some && data.news is None && data.images is None ==> keys
                == seq!["web"@]
            &&& data.web is None && data.news is Some && data.images is None ==> keys
                == seq!["news"@]
            &&& data.web is None && data.news is None && data.images is Some ==> keys
                == seq!["images"@]
            &&& data.web is None && data.news is None && data.images is None ==> keys.len() == 0
        }),
{
    let keys = search::data_on_the_wire(data).map_values(
        |member: (Seq<char>, Group<R, I>)| member.0,
    );
    if data.web is Some && data.news is Some && data.images is Some {
        assert(keys =~= seq!["web"@, "news"@, "images"@]);
    } else if data.web is Some && data.news is Some {
        assert(keys =~= seq!["web"@, "news"@]);
    } else if data.web is Some && data.images is Some {
        assert(keys =~= seq!["web"@, "images"@]);
    } else if data.news is Some && data.images is Some {
        assert(keys =~= seq!["news"@, "images"@]);
    } else if data.web is Some {
        assert(keys =~= seq!["web"@]);
    } else if data.news is Some {
        assert(keys =~= seq!["news"@]);
    } else if data.images is Some {
        assert(keys =~= seq!["images"@]);
    }
}

/// What the members that are handed out stand for: each its key and its value, in order.
pub proof fn law_members_stand_for_themselves<R, I, U>(
    fields: Seq<(&'static str, Field<R, I, U>)>,
    groups: Seq<(&'static str, Group<R, I>)>,
)
    ensures
        search::field_views(fields).len() == fields.len(),
        forall|i: int|
            0 <= i < fields.len() ==> (#[trigger] search::field_views(fields)[i]) == (
                fields[i].0@,
                fields[i].1@,
            ),
        search::group_views(groups).len() == groups.len(),
        forall|i: int|
            0 <= i < groups.len() ==> (#[trigger] search::group_views(groups)[i]) == (
                groups[i].0@,
                groups[i].1,
            ),
{
}

/// What a member of the envelope stands for.
pub proof fn law_a_field_stands_for_its_value<R, I, U>(field: Field<R, I, U>)
    ensures
        match field {
            Field::Bool(b) => field@ == FieldView::<R, I, U>::Bool(b),
            Field::Number(n) => field@ == FieldView::<R, I, U>::Number(n),
            Field::Text(s) => field@ == FieldView::<R, I, U>::Text(s@),
            Field::Groups(groups) => field@ == FieldView::<R, I, U>::Groups(
                search::group_views(groups@),
            ),
            Field::Usage(usage) => field@ == FieldView::<R, I, U>::Usage(usage),
        },
{
}

/// An id is thirty-six characters, hyphens at four places and lower-case hexadecimal digits at all
/// others, with the version and the variant at theirs.
pub proof fn law_the_form_of_an_id(id: Seq<char>, i: int)
    requires
        search::is_uuid_v4(id),
        0 <= i < 36,
    ensures
        id.len() == 36,
        id[14] == '4',
        id[19] == '8' || id[19] == '9' || id[19] == 'a' || id[19] == 'b',
        if i == 8 || i == 13 || i == 18 || i == 23 {
            id[i] == '-'
        } else {
            '0' <= id[i] <= '9' || 'a' <= id[i] <= 'f'
        },
{
    let c = id[i];
}

} // verus!
